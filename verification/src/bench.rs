//! The decisions of the differential test bench: how many random inputs a
//! test program is run on, how those inputs are drawn and rendered, when
//! the compiled program disagrees with CPython, and the final tally.
//! Spawning processes, timing and reporting are the caller's.

use vstd::prelude::*;
use rand::rngs::StdRng;
use rand::{Rng, SeedableRng};
use vstd::string::StringSliceAdditionalSpecFns;
use crate::text::{comma_joined, i64_to_string, push_signed_decimal, signed_decimal, str_eq};

verus! {

#[verifier::external_type_specification]
#[verifier::external_body]
pub struct ExStdRng(StdRng);

/// Per-tier iteration counts a test may set in its `tier.toml`.
pub struct TierOverrides {
    pub tier1: Option<u32>,
    pub tier2: Option<u32>,
    pub tier3: Option<u32>,
    pub tier4: Option<u32>,
}

impl TierOverrides {
    pub open spec fn spec_get(&self, tier: u8) -> Option<u32> {
        if tier == 1 {
            self.tier1
        } else if tier == 2 {
            self.tier2
        } else if tier == 3 {
            self.tier3
        } else if tier == 4 {
            self.tier4
        } else {
            None
        }
    }

    /// The override for `tier`, if the test sets one.
    pub fn get(&self, tier: u8) -> (r: Option<u32>)
        ensures
            r == self.spec_get(tier),
    {
        match tier {
            1 => self.tier1,
            2 => self.tier2,
            3 => self.tier3,
            4 => self.tier4,
            _ => None,
        }
    }
}

/// Iterations per tier when a test sets none: one for the smoke tier,
/// then ten, a thousand and a hundred thousand.
pub open spec fn spec_default_iterations(tier: u8) -> u32 {
    if tier == 1 {
        1
    } else if tier == 2 {
        10
    } else if tier == 3 {
        1000
    } else if tier == 4 {
        100000
    } else {
        0
    }
}

pub fn default_iterations(tier: u8) -> (r: u32)
    ensures
        r == spec_default_iterations(tier),
{
    match tier {
        1 => 1,
        2 => 10,
        3 => 1_000,
        4 => 100_000,
        _ => 0,
    }
}

/// How one argument of `main` is generated.
pub struct ArgStrategy {
    /// The argument's type name; only `i64` is supported.
    pub ty: String,
    /// Inclusive `(min, max)`; required for `i64`.
    pub range: Option<(i64, i64)>,
}

/// One generated argument value.
#[derive(Debug, Clone, Copy, PartialEq, Eq, Structural)]
pub enum ArgValue {
    I64(i64),
}

impl ArgValue {
    pub open spec fn int_value(self) -> int {
        match self {
            ArgValue::I64(v) => v as int,
        }
    }
}

/// Whether a test draws any inputs at all.
pub open spec fn has_inputs(strategy: Option<Seq<ArgStrategy>>) -> bool {
    match strategy {
        Some(args) => args.len() > 0,
        None => false,
    }
}

/// The number of runs of a test at `tier`: one when the program takes no
/// inputs, else the test's own count for the tier or the tier's default.
pub open spec fn spec_planned_iterations(strategy: Option<Seq<ArgStrategy>>, overrides: TierOverrides, tier: u8) -> u32 {
    if has_inputs(strategy) {
        match overrides.spec_get(tier) {
            Some(n) => n,
            None => spec_default_iterations(tier),
        }
    } else {
        1
    }
}

pub fn planned_iterations(strategy: &Option<Vec<ArgStrategy>>, overrides: &TierOverrides, tier: u8) -> (r: u32)
    ensures
        r == spec_planned_iterations(
            match strategy {
                Some(v) => Some(v@),
                None => None,
            },
            *overrides,
            tier,
        ),
{
    let inputs = match strategy {
        Some(v) => v.len() > 0,
        None => false,
    };
    if inputs {
        match overrides.get(tier) {
            Some(n) => n,
            None => default_iterations(tier),
        }
    } else {
        1
    }
}

/// A test is skipped when it belongs to a higher tier than the one run.
pub fn is_skipped(test_tier: u8, run_tier: u8) -> (r: bool)
    ensures
        r == (test_tier > run_tier),
{
    test_tier > run_tier
}

/// One FNV-1a step: xor in the byte, multiply by the 64-bit FNV prime,
/// wrapping.
pub open spec fn fnv_step(h: u64, b: u8) -> u64 {
    (((h ^ (b as u64)) as nat * 0x100000001b3nat) % 0x1_0000_0000_0000_0000nat) as u64
}

/// The 64-bit FNV-1a hash of `bytes`.
pub open spec fn fnv1a(bytes: Seq<u8>) -> u64
    decreases bytes.len(),
{
    if bytes.len() == 0 {
        0xcbf29ce484222325u64
    } else {
        fnv_step(fnv1a(bytes.drop_last()), bytes.last())
    }
}

/// The default seed of a test: the FNV-1a hash of its name, so that
/// reruns draw the same inputs.
pub fn stable_seed(name: &str) -> (r: u64)
    ensures
        r == fnv1a(name.spec_bytes()),
{
    let bytes = name.as_bytes();
    let ghost bs = name.spec_bytes();
    let mut h: u64 = 0xcbf29ce484222325;
    let mut i: usize = 0;
    while i < bytes.len()
        invariant
            bytes@ == bs,
            0 <= i <= bs.len(),
            h == fnv1a(bs.subrange(0, i as int)),
        decreases bytes.len() - i,
    {
        proof {
            assert(bs.subrange(0, i + 1).drop_last() =~= bs.subrange(0, i as int));
        }
        h = h ^ (bytes[i] as u64);
        h = h.wrapping_mul(0x100000001b3);
        i += 1;
    }
    assert(bs.subrange(0, bs.len() as int) =~= bs);
    h
}

/// The seed a test's inputs are drawn with: the one given on the command
/// line, else the test's stable seed.
pub fn input_seed(cli_seed: Option<u64>, name: &str) -> (r: u64)
    ensures
        r == match cli_seed {
            Some(s) => s,
            None => fnv1a(name.spec_bytes()),
        },
{
    match cli_seed {
        Some(s) => s,
        None => stable_seed(name),
    }
}

/// The generator `<StdRng as rand::SeedableRng>::seed_from_u64` makes from
/// `seed`; it depends on the seed alone.
pub uninterp spec fn rng_from_seed(seed: u64) -> StdRng;

/// A generator seeded with `seed`.
///
/// Trusted: `<StdRng as rand::SeedableRng>::seed_from_u64`, which computes
/// the generator from the seed alone: the same seed gives the same
/// generator. Nothing more is claimed of its state, which is opaque here.
#[verifier::external_body]
fn seeded_rng(seed: u64) -> (r: StdRng)
    ensures
        r == rng_from_seed(seed),
{
    StdRng::seed_from_u64(seed)
}

/// The input generator of a test: seeded from the command line's seed or
/// from the test's name.
pub fn input_rng(cli_seed: Option<u64>, name: &str) -> (r: StdRng)
    ensures
        r == rng_from_seed(match cli_seed {
            Some(s) => s,
            None => fnv1a(name.spec_bytes()),
        }),
{
    seeded_rng(input_seed(cli_seed, name))
}

/// A uniformly drawn integer in `lo..=hi`.
///
/// Trusted: `rand::Rng::gen_range` on an inclusive range, which the rand
/// documentation says samples a value within the range (and panics on an
/// empty one, which `requires` rules out). Which value comes out is left
/// open: it depends on the generator's state.
#[verifier::external_body]
fn draw_i64(rng: &mut StdRng, lo: i64, hi: i64) -> (r: i64)
    requires
        lo <= hi,
    ensures
        lo <= r <= hi,
{
    rng.gen_range(lo..=hi)
}

/// Why a strategy entry cannot be drawn from, if it cannot.
pub open spec fn strategy_error(a: ArgStrategy) -> Option<Seq<char>> {
    if a.ty@ == "i64"@ {
        match a.range {
            None => Some("i64 arg missing required `range = [lo, hi]`"@),
            Some((lo, hi)) => if lo <= hi {
                None
            } else {
                Some("i64 arg range has lo > hi: ["@ + signed_decimal(lo as int) + ", "@ + signed_decimal(hi as int) + "]"@)
            },
        }
    } else {
        Some("strategy arg type `"@ + a.ty@ + "` is not supported in v0.3"@)
    }
}

/// The first strategy entry that cannot be drawn from.
pub open spec fn first_strategy_error(s: Seq<ArgStrategy>) -> Option<Seq<char>>
    decreases s.len(),
{
    if s.len() == 0 {
        None
    } else {
        match strategy_error(s[0]) {
            Some(e) => Some(e),
            None => first_strategy_error(s.drop_first()),
        }
    }
}

/// `v` lies in the range of `a`.
pub open spec fn in_range(a: ArgStrategy, v: ArgValue) -> bool {
    match a.range {
        Some((lo, hi)) => lo <= v.int_value() <= hi,
        None => false,
    }
}

/// Each value lies in the range of its strategy entry.
pub open spec fn drawn_from(s: Seq<ArgStrategy>, v: Seq<ArgValue>) -> bool {
    &&& v.len() == s.len()
    &&& forall|i: int| 0 <= i < s.len() ==> in_range(#[trigger] s[i], v[i])
}

proof fn lemma_first_error_prefix(s: Seq<ArgStrategy>, i: int)
    requires
        0 <= i < s.len(),
        forall|j: int| 0 <= j < i ==> strategy_error(#[trigger] s[j]) is None,
    ensures
        first_strategy_error(s) == (match strategy_error(s[i]) {
            Some(e) => Some(e),
            None => first_strategy_error(s.subrange(i + 1, s.len() as int)),
        }),
    decreases i,
{
    if i == 0 {
        assert(s.drop_first() =~= s.subrange(1, s.len() as int));
    } else {
        let t = s.drop_first();
        assert forall|j: int| 0 <= j < i - 1 implies strategy_error(#[trigger] t[j]) is None by {
            assert(t[j] == s[j + 1]);
        }
        lemma_first_error_prefix(t, i - 1);
        assert(t.subrange(i, t.len() as int) =~= s.subrange(i + 1, s.len() as int));
    }
}

proof fn lemma_no_error_all(s: Seq<ArgStrategy>)
    requires
        forall|j: int| 0 <= j < s.len() ==> strategy_error(#[trigger] s[j]) is None,
    ensures
        first_strategy_error(s) is None,
    decreases s.len(),
{
    if s.len() > 0 {
        let t = s.drop_first();
        assert forall|j: int| 0 <= j < t.len() implies strategy_error(#[trigger] t[j]) is None by {
            assert(t[j] == s[j + 1]);
        }
        lemma_no_error_all(t);
    }
}

/// Draw one value per strategy entry, in order. Fails with the message of
/// the first entry that is not an `i64` with a well-formed range.
pub fn generate_inputs(strategy: &Vec<ArgStrategy>, rng: &mut StdRng) -> (r: Result<Vec<ArgValue>, String>)
    ensures
        match first_strategy_error(strategy@) {
            Some(e) => r matches Err(m) && m@ == e,
            None => r matches Ok(v) && drawn_from(strategy@, v@),
        },
{
    let mut out: Vec<ArgValue> = Vec::new();
    let mut i: usize = 0;
    while i < strategy.len()
        invariant
            0 <= i <= strategy@.len(),
            out@.len() == i,
            forall|j: int| 0 <= j < i ==> strategy_error(#[trigger] strategy@[j]) is None,
            forall|j: int| 0 <= j < i ==> in_range(#[trigger] strategy@[j], out@[j]),
        decreases strategy.len() - i,
    {
        let a = &strategy[i];
        proof {
            reveal_strlit("i64");
            lemma_first_error_prefix(strategy@, i as int);
        }
        if str_eq(a.ty.as_str(), "i64") {
            match a.range {
                None => {
                    return Err(String::from_str("i64 arg missing required `range = [lo, hi]`"));
                },
                Some((lo, hi)) => {
                    if lo > hi {
                        let mut m = String::from_str("i64 arg range has lo > hi: [");
                        push_signed_decimal(&mut m, lo);
                        m.append(", ");
                        push_signed_decimal(&mut m, hi);
                        m.append("]");
                        return Err(m);
                    }
                    let x = draw_i64(rng, lo, hi);
                    out.push(ArgValue::I64(x));
                },
            }
        } else {
            let mut m = String::from_str("strategy arg type `");
            m.append(a.ty.as_str());
            m.append("` is not supported in v0.3");
            return Err(m);
        }
        i += 1;
    }
    proof { lemma_no_error_all(strategy@); }
    Ok(out)
}

/// The decimal renderings of the values, in order.
pub open spec fn rendered(args: Seq<ArgValue>) -> Seq<Seq<char>> {
    args.map_values(|a: ArgValue| signed_decimal(a.int_value()))
}

/// The arguments as a Python argument list: `1, -2, 3`.
pub fn format_args_python(args: &Vec<ArgValue>) -> (r: String)
    ensures
        r@ == comma_joined(rendered(args@)),
{
    let mut s = String::new();
    let mut i: usize = 0;
    while i < args.len()
        invariant
            0 <= i <= args@.len(),
            s@ == comma_joined(rendered(args@.subrange(0, i as int))),
        decreases args.len() - i,
    {
        let ghost before = rendered(args@.subrange(0, i as int));
        let ghost after = rendered(args@.subrange(0, i + 1));
        proof {
            assert(after.drop_last() =~= before);
            assert(after.last() == signed_decimal(args@[i as int].int_value()));
        }
        if i > 0 {
            s.append(", ");
        }
        match args[i] {
            ArgValue::I64(v) => push_signed_decimal(&mut s, v),
        }
        proof {
            if i == 0 {
                assert(s@ =~= comma_joined(after));
            } else {
                assert(s@ =~= comma_joined(after));
            }
        }
        i += 1;
    }
    assert(args@.subrange(0, args@.len() as int) =~= args@);
    s
}

/// The arguments as the compiled program's command line, one per value.
pub fn format_args_argv(args: &Vec<ArgValue>) -> (r: Vec<String>)
    ensures
        r@.len() == args@.len(),
        forall|i: int| 0 <= i < args@.len() ==> (#[trigger] r@[i])@ == signed_decimal(args@[i].int_value()),
{
    let mut out: Vec<String> = Vec::new();
    let mut i: usize = 0;
    while i < args.len()
        invariant
            0 <= i <= args@.len(),
            out@.len() == i,
            forall|j: int| 0 <= j < i ==> (#[trigger] out@[j])@ == signed_decimal(args@[j].int_value()),
        decreases args.len() - i,
    {
        match args[i] {
            ArgValue::I64(v) => out.push(i64_to_string(v)),
        }
        i += 1;
    }
    out
}

/// The Python one-liner that imports `main` from the test's program and
/// prints the `repr` of its result on the given arguments.
pub open spec fn cpython_snippet_text(dir: Seq<char>, stem: Seq<char>, py_args: Seq<char>) -> Seq<char> {
    "import sys; sys.path.insert(0, r'"@ + dir + "'); from "@ + stem + " import main; print(repr(main("@ + py_args + ")))"@
}

pub fn cpython_snippet(dir: &str, stem: &str, py_args: &str) -> (r: String)
    ensures
        r@ == cpython_snippet_text(dir@, stem@, py_args@),
{
    let mut s = String::from_str("import sys; sys.path.insert(0, r'");
    s.append(dir);
    s.append("'); from ");
    s.append(stem);
    s.append(" import main; print(repr(main(");
    s.append(py_args);
    s.append(")))");
    s
}

/// Why a test failed.
#[derive(Debug)]
pub struct Failure {
    pub kind: String,
    pub message: String,
    pub input_repr: Option<String>,
    pub expected: Option<String>,
    pub actual: Option<String>,
}

/// The exit status and standard output of one run.
pub struct RunOutput {
    pub exit_code: i32,
    pub stdout: String,
}

/// Compare CPython's run with the compiled program's run on the same
/// arguments: a `diff` failure when the exit codes or the outputs differ.
pub fn diff_failure(py: &RunOutput, subject: &RunOutput, args: &Vec<ArgValue>) -> (r: Option<Failure>)
    ensures
        r is None <==> (py.exit_code == subject.exit_code && py.stdout@ == subject.stdout@),
        r matches Some(f) ==> {
            &&& f.kind@ == "diff"@
            &&& f.message@ == "py exit="@ + signed_decimal(py.exit_code as int) + ", subject exit="@
                + signed_decimal(subject.exit_code as int)
            &&& f.input_repr matches Some(i) && i@ == comma_joined(rendered(args@))
            &&& f.expected matches Some(e) && e@ == py.stdout@
            &&& f.actual matches Some(a) && a@ == subject.stdout@
        },
{
    if py.exit_code == subject.exit_code && str_eq(py.stdout.as_str(), subject.stdout.as_str()) {
        return None;
    }
    let mut message = String::from_str("py exit=");
    push_signed_decimal(&mut message, py.exit_code as i64);
    message.append(", subject exit=");
    push_signed_decimal(&mut message, subject.exit_code as i64);
    Some(Failure {
        kind: String::from_str("diff"),
        message,
        input_repr: Some(format_args_python(args)),
        expected: Some(py.stdout.clone()),
        actual: Some(subject.stdout.clone()),
    })
}

/// Pass / fail / skip of one test.
#[derive(Debug, Clone, Copy, PartialEq, Eq, Structural)]
pub struct Verdict {
    pub passed: bool,
    pub skipped: bool,
}

/// How many tests passed, failed and were skipped.
#[derive(Debug, Clone, Copy, PartialEq, Eq, Structural)]
pub struct Tally {
    pub passed: usize,
    pub failed: usize,
    pub skipped: usize,
}

pub open spec fn count_passed(v: Seq<Verdict>) -> nat
    decreases v.len(),
{
    if v.len() == 0 {
        0
    } else {
        count_passed(v.drop_last()) + if v.last().passed && !v.last().skipped { 1nat } else { 0nat }
    }
}

pub open spec fn count_failed(v: Seq<Verdict>) -> nat
    decreases v.len(),
{
    if v.len() == 0 {
        0
    } else {
        count_failed(v.drop_last()) + if !v.last().passed && !v.last().skipped { 1nat } else { 0nat }
    }
}

pub open spec fn count_skipped(v: Seq<Verdict>) -> nat
    decreases v.len(),
{
    if v.len() == 0 {
        0
    } else {
        count_skipped(v.drop_last()) + if v.last().skipped { 1nat } else { 0nat }
    }
}

proof fn lemma_counts_bounded(v: Seq<Verdict>)
    ensures
        count_passed(v) + count_failed(v) + count_skipped(v) == v.len(),
    decreases v.len(),
{
    if v.len() > 0 {
        lemma_counts_bounded(v.drop_last());
    }
}

/// Count the passed, failed and skipped tests.
pub fn tally(results: &Vec<Verdict>) -> (r: Tally)
    ensures
        r.passed == count_passed(results@),
        r.failed == count_failed(results@),
        r.skipped == count_skipped(results@),
{
    let mut t = Tally { passed: 0, failed: 0, skipped: 0 };
    let mut i: usize = 0;
    while i < results.len()
        invariant
            0 <= i <= results@.len(),
            t.passed == count_passed(results@.subrange(0, i as int)),
            t.failed == count_failed(results@.subrange(0, i as int)),
            t.skipped == count_skipped(results@.subrange(0, i as int)),
        decreases results.len() - i,
    {
        let ghost pre = results@.subrange(0, i as int);
        proof {
            assert(results@.subrange(0, i + 1).drop_last() =~= pre);
            lemma_counts_bounded(pre);
        }
        let v = results[i];
        if v.skipped {
            t.skipped = t.skipped + 1;
        } else if v.passed {
            t.passed = t.passed + 1;
        } else {
            t.failed = t.failed + 1;
        }
        i += 1;
    }
    assert(results@.subrange(0, results@.len() as int) =~= results@);
    t
}

/// Law: every test is counted exactly once, as passed, failed or skipped.
pub proof fn law_tally_partitions(v: Seq<Verdict>)
    ensures
        count_passed(v) + count_failed(v) + count_skipped(v) == v.len(),
{
    lemma_counts_bounded(v);
}

/// The run fails as a whole when some test that was not skipped failed.
pub fn any_failed(results: &Vec<Verdict>) -> (r: bool)
    ensures
        r == exists|i: int| 0 <= i < results@.len() && !(#[trigger] results@[i]).passed && !results@[i].skipped,
{
    let mut i: usize = 0;
    while i < results.len()
        invariant
            0 <= i <= results@.len(),
            forall|j: int| 0 <= j < i ==> !(!(#[trigger] results@[j]).passed && !results@[j].skipped),
        decreases results.len() - i,
    {
        if !results[i].passed && !results[i].skipped {
            return true;
        }
        i += 1;
    }
    false
}

/// White space as `char::is_whitespace` defines it: the characters with
/// the Unicode `White_Space` property.
pub open spec fn is_white_space(c: char) -> bool {
    ||| '\t' <= c <= '\r'
    ||| c == ' '
    ||| c == '\u{85}'
    ||| c == '\u{a0}'
    ||| c == '\u{1680}'
    ||| '\u{2000}' <= c <= '\u{200a}'
    ||| c == '\u{2028}'
    ||| c == '\u{2029}'
    ||| c == '\u{202f}'
    ||| c == '\u{205f}'
    ||| c == '\u{3000}'
}

fn is_white_space_char(c: char) -> (r: bool)
    ensures
        r == is_white_space(c),
{
    ('\t' <= c && c <= '\r') || c == ' ' || c == '\u{85}' || c == '\u{a0}' || c == '\u{1680}'
        || ('\u{2000}' <= c && c <= '\u{200a}') || c == '\u{2028}' || c == '\u{2029}' || c == '\u{202f}'
        || c == '\u{205f}' || c == '\u{3000}'
}

/// The white-space separated words of `s`, in order: a character that is
/// not white space continues the word of the character before it, or
/// starts a new word after white space (or at the start).
pub open spec fn words(s: Seq<char>) -> Seq<Seq<char>>
    decreases s.len(),
{
    if s.len() == 0 {
        Seq::empty()
    } else {
        let w = words(s.drop_last());
        let c = s.last();
        if is_white_space(c) {
            w
        } else if s.len() >= 2 && !is_white_space(s[s.len() - 2]) {
            w.update(w.len() - 1, w.last().push(c))
        } else {
            w.push(seq![c])
        }
    }
}

/// Split a command line into its program and the program's leading
/// arguments; `None` when it holds no word at all.
pub fn split_command(cmd: &str) -> (r: Option<(String, Vec<String>)>)
    ensures
        match r {
            None => words(cmd@).len() == 0,
            Some((program, args)) => {
                &&& words(cmd@).len() > 0
                &&& program@ == words(cmd@)[0]
                &&& args@.len() + 1 == words(cmd@).len()
                &&& forall|i: int| 0 <= i < args@.len() ==> (#[trigger] args@[i])@ == words(cmd@)[i + 1]
            },
        },
{
    let n = cmd.unicode_len();
    let mut out: Vec<String> = Vec::new();
    let mut in_word = false;
    let mut start: usize = 0;
    let mut i: usize = 0;
    while i < n
        invariant
            n == cmd@.len(),
            0 <= start <= i <= n,
            in_word ==> start < i && !is_white_space(cmd@[i - 1])
                && out@.map_values(|s: String| s@).push(cmd@.subrange(start as int, i as int))
                    == words(cmd@.subrange(0, i as int)),
            !in_word ==> (i == 0 || is_white_space(cmd@[i - 1]))
                && out@.map_values(|s: String| s@) == words(cmd@.subrange(0, i as int)),
        decreases n - i,
    {
        let c = cmd.get_char(i);
        let ghost pre = cmd@.subrange(0, i as int);
        let ghost post = cmd@.subrange(0, i + 1);
        proof {
            assert(post.drop_last() =~= pre);
            assert(post.last() == c);
            if i >= 1 {
                assert(post[post.len() - 2] == cmd@[i - 1]);
            }
        }
        if is_white_space_char(c) {
            if in_word {
                let w = cmd.substring_char(start, i);
                out.push(String::from_str(w));
                proof {
                    assert(out@.map_values(|s: String| s@) =~= words(pre));
                }
                in_word = false;
            }
            proof {
                assert(words(post) == words(pre));
            }
        } else {
            if !in_word {
                start = i;
                in_word = true;
                proof {
                    assert(cmd@.subrange(start as int, i + 1) =~= seq![c]);
                }
            } else {
                proof {
                    let w = words(pre);
                    assert(cmd@.subrange(start as int, i + 1) =~= cmd@.subrange(start as int, i as int).push(c));
                    assert(w.last() == cmd@.subrange(start as int, i as int));
                    assert(out@.map_values(|s: String| s@).push(cmd@.subrange(start as int, i + 1))
                        =~= w.update(w.len() - 1, w.last().push(c)));
                }
            }
        }
        i += 1;
    }
    if in_word {
        let w = cmd.substring_char(start, n);
        out.push(String::from_str(w));
    }
    assert(cmd@.subrange(0, n as int) =~= cmd@);
    let ghost ws = out@.map_values(|s: String| s@);
    assert(ws == words(cmd@));
    if out.len() == 0 {
        return None;
    }
    let program = out.remove(0);
    proof {
        assert(ws[0] == program@);
        assert forall|i: int| 0 <= i < out@.len() implies (#[trigger] out@[i])@ == words(cmd@)[i + 1] by {
            assert(ws[i + 1] == out@[i]@);
        }
    }
    Some((program, out))
}

} // verus!
