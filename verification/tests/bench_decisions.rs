use pyx86::bench::{
    any_failed, cpython_snippet, default_iterations, diff_failure, format_args_argv, format_args_python,
    generate_inputs, input_rng, input_seed, is_skipped, planned_iterations, split_command, stable_seed, tally,
    ArgStrategy, ArgValue, RunOutput, TierOverrides, Verdict,
};

fn no_overrides() -> TierOverrides {
    TierOverrides { tier1: None, tier2: None, tier3: None, tier4: None }
}

fn i64_arg(lo: i64, hi: i64) -> ArgStrategy {
    ArgStrategy { ty: "i64".to_string(), range: Some((lo, hi)) }
}

#[test]
fn tier_defaults() {
    assert_eq!(default_iterations(1), 1);
    assert_eq!(default_iterations(2), 10);
    assert_eq!(default_iterations(3), 1000);
    assert_eq!(default_iterations(4), 100000);
    assert_eq!(default_iterations(0), 0);
    assert_eq!(default_iterations(5), 0);
}

#[test]
fn tier_overrides_by_tier() {
    let o = TierOverrides { tier1: Some(3), tier2: None, tier3: Some(7), tier4: Some(9) };
    assert_eq!(o.get(1), Some(3));
    assert_eq!(o.get(2), None);
    assert_eq!(o.get(3), Some(7));
    assert_eq!(o.get(4), Some(9));
    assert_eq!(o.get(5), None);
}

#[test]
fn iterations_without_inputs_is_one() {
    let o = TierOverrides { tier1: Some(50), tier2: None, tier3: None, tier4: None };
    assert_eq!(planned_iterations(&None, &o, 1), 1);
    assert_eq!(planned_iterations(&Some(vec![]), &o, 1), 1);
}

#[test]
fn iterations_with_inputs_use_override_or_default() {
    let o = TierOverrides { tier1: Some(50), tier2: None, tier3: None, tier4: None };
    let s = Some(vec![i64_arg(0, 10)]);
    assert_eq!(planned_iterations(&s, &o, 1), 50);
    assert_eq!(planned_iterations(&s, &o, 2), 10);
    assert_eq!(planned_iterations(&s, &no_overrides(), 4), 100000);
}

#[test]
fn higher_tier_tests_are_skipped() {
    assert!(is_skipped(3, 2));
    assert!(!is_skipped(2, 2));
    assert!(!is_skipped(1, 4));
}

#[test]
fn fnv1a_seed_values() {
    assert_eq!(stable_seed(""), 0xcbf29ce484222325);
    assert_eq!(stable_seed("a"), 0xaf63dc4c8601ec8c);
    assert_eq!(stable_seed("foobar"), 0x85944171f73967e8);
}

#[test]
fn seed_from_command_line_wins() {
    assert_eq!(input_seed(Some(7), "anything"), 7);
    assert_eq!(input_seed(None, "a"), 0xaf63dc4c8601ec8c);
}

#[test]
fn inputs_are_drawn_within_their_ranges() {
    let mut rng = input_rng(Some(1), "t");
    let strategy = vec![i64_arg(-5, 5), i64_arg(0, 1_000_000), i64_arg(42, 42)];
    let mut seen_nonzero = false;
    for _ in 0..20 {
        let v = generate_inputs(&strategy, &mut rng).unwrap();
        assert_eq!(v.len(), 3);
        let ArgValue::I64(a) = v[0];
        let ArgValue::I64(b) = v[1];
        let ArgValue::I64(c) = v[2];
        assert!((-5..=5).contains(&a));
        assert!((0..=1_000_000).contains(&b));
        assert_eq!(c, 42);
        if b != 0 {
            seen_nonzero = true;
        }
    }
    assert!(seen_nonzero);
}

#[test]
fn same_seed_same_inputs() {
    let strategy = vec![i64_arg(0, 1_000_000), i64_arg(-100, 100)];
    let mut r1 = input_rng(None, "prog");
    let mut r2 = input_rng(None, "prog");
    for _ in 0..5 {
        assert_eq!(generate_inputs(&strategy, &mut r1).unwrap(), generate_inputs(&strategy, &mut r2).unwrap());
    }
}

#[test]
fn strategy_without_range_is_rejected() {
    let mut rng = input_rng(Some(0), "t");
    let strategy = vec![ArgStrategy { ty: "i64".to_string(), range: None }];
    assert_eq!(generate_inputs(&strategy, &mut rng).unwrap_err(), "i64 arg missing required `range = [lo, hi]`");
}

#[test]
fn strategy_with_inverted_range_is_rejected() {
    let mut rng = input_rng(Some(0), "t");
    let strategy = vec![i64_arg(0, 1), i64_arg(5, -3)];
    assert_eq!(generate_inputs(&strategy, &mut rng).unwrap_err(), "i64 arg range has lo > hi: [5, -3]");
}

#[test]
fn strategy_with_unknown_type_is_rejected() {
    let mut rng = input_rng(Some(0), "t");
    let strategy = vec![ArgStrategy { ty: "str".to_string(), range: None }, i64_arg(5, -3)];
    assert_eq!(generate_inputs(&strategy, &mut rng).unwrap_err(), "strategy arg type `str` is not supported in v0.3");
}

#[test]
fn python_argument_list() {
    let args = vec![ArgValue::I64(1), ArgValue::I64(-2), ArgValue::I64(30)];
    assert_eq!(format_args_python(&args), "1, -2, 30");
    assert_eq!(format_args_python(&vec![]), "");
    assert_eq!(format_args_python(&vec![ArgValue::I64(i64::MIN)]), "-9223372036854775808");
}

#[test]
fn program_argv() {
    let args = vec![ArgValue::I64(1), ArgValue::I64(-2)];
    assert_eq!(format_args_argv(&args), vec!["1".to_string(), "-2".to_string()]);
}

#[test]
fn cpython_one_liner() {
    assert_eq!(
        cpython_snippet("/tmp/t", "program", "1, 2"),
        "import sys; sys.path.insert(0, r'/tmp/t'); from program import main; print(repr(main(1, 2)))"
    );
}

#[test]
fn agreeing_runs_are_no_failure() {
    let py = RunOutput { exit_code: 0, stdout: "3\n".to_string() };
    let su = RunOutput { exit_code: 0, stdout: "3\n".to_string() };
    assert!(diff_failure(&py, &su, &vec![ArgValue::I64(1)]).is_none());
}

#[test]
fn differing_runs_are_a_diff_failure() {
    let py = RunOutput { exit_code: 0, stdout: "3\n".to_string() };
    let su = RunOutput { exit_code: 1, stdout: "4\n".to_string() };
    let f = diff_failure(&py, &su, &vec![ArgValue::I64(1), ArgValue::I64(2)]).unwrap();
    assert_eq!(f.kind, "diff");
    assert_eq!(f.message, "py exit=0, subject exit=1");
    assert_eq!(f.input_repr.as_deref(), Some("1, 2"));
    assert_eq!(f.expected.as_deref(), Some("3\n"));
    assert_eq!(f.actual.as_deref(), Some("4\n"));
}

#[test]
fn differing_output_alone_is_a_failure() {
    let py = RunOutput { exit_code: 0, stdout: "3\n".to_string() };
    let su = RunOutput { exit_code: 0, stdout: "3.0\n".to_string() };
    assert!(diff_failure(&py, &su, &vec![]).is_some());
}

#[test]
fn tally_counts_each_test_once() {
    let v = vec![
        Verdict { passed: true, skipped: false },
        Verdict { passed: false, skipped: false },
        Verdict { passed: true, skipped: true },
        Verdict { passed: true, skipped: false },
    ];
    let t = tally(&v);
    assert_eq!((t.passed, t.failed, t.skipped), (2, 1, 1));
    assert_eq!(t.passed + t.failed + t.skipped, v.len());
    assert!(any_failed(&v));
    assert!(!any_failed(&vec![Verdict { passed: true, skipped: false }, Verdict { passed: false, skipped: true }]));
}

#[test]
fn compiler_command_words() {
    let (p, a) = split_command("cargo run -q -p pyx86 --release --").unwrap();
    assert_eq!(p, "cargo");
    assert_eq!(a, vec!["run", "-q", "-p", "pyx86", "--release", "--"]);
    let (p, a) = split_command("  pyx86\t-O2 \n").unwrap();
    assert_eq!(p, "pyx86");
    assert_eq!(a, vec!["-O2"]);
    assert!(split_command("   ").is_none());
    assert!(split_command("").is_none());
}
