//! Lowering of a parsed Python module to the typed HIR.
//!
//! Every construct outside the supported subset is rejected with an
//! `unsupported_feature` error; everything accepted is lowered to HIR
//! whose types all live in the caller's [`Arena`].

use vstd::prelude::*;
use crate::ast;
use crate::hir::{lemma_components_valid, lemma_field_valid, lemma_parent_valid, 
    display_name, first_field, Arena, BinOp, BoolOp, ClassDef, ClassId, CmpOp, DictId, Expr,
    FloatLit, Function, ListId, Param, Program, SetId, Stmt, TupleId, Type, TypedExpr, UnaryOp,
};
use crate::text::{str_eq, i64_to_string, u64_to_string, concat2, concat3};
use crate::typing::{expr_valid, stmts_valid, lemma_expr_valid_mono, lemma_stmts_valid_mono};

verus! {

/// A rejected program: the one-line diagnostic.
#[derive(Debug)]
pub struct CompileError {
    pub message: String,
}

impl CompileError {
    /// The diagnostic text.
    pub fn message(&self) -> (r: &str)
        ensures
            r@ == self.message@,
    {
        self.message.as_str()
    }
}

/// The diagnostic text of an `unsupported_feature` rejection.
pub open spec fn unsup(m: Seq<char>) -> Seq<char> {
    "unsupported_feature: "@ + m
}

fn msg1(a: &str) -> (r: String)
    ensures
        r@ == unsup(a@),
{
    let mut s = String::from_str("unsupported_feature: ");
    s.append(a);
    s
}

fn msg2(a: &str, b: &str) -> (r: String)
    ensures
        r@ == unsup(a@ + b@),
{
    let mut s = msg1(a);
    s.append(b);
    s
}

fn msg3(a: &str, b: &str, c: &str) -> (r: String)
    ensures
        r@ == unsup(a@ + b@ + c@),
{
    let mut s = msg2(a, b);
    s.append(c);
    s
}

fn msg4(a: &str, b: &str, c: &str, d: &str) -> (r: String)
    ensures
        r@ == unsup(a@ + b@ + c@ + d@),
{
    let mut s = msg3(a, b, c);
    s.append(d);
    s
}

fn msg5(a: &str, b: &str, c: &str, d: &str, e: &str) -> (r: String)
    ensures
        r@ == unsup(a@ + b@ + c@ + d@ + e@),
{
    let mut s = msg4(a, b, c, d);
    s.append(e);
    s
}

fn msg7(a: &str, b: &str, c: &str, d: &str, e: &str, f: &str, g: &str) -> (r: String)
    ensures
        r@ == unsup(a@ + b@ + c@ + d@ + e@ + f@ + g@),
{
    let mut s = msg5(a, b, c, d, e);
    s.append(f);
    s.append(g);
    s
}

/// A rejection carrying `m` as its diagnostic.
fn fail<T>(m: String) -> (r: Result<T, CompileError>)
    ensures
        r matches Err(e) && e.message@ == m@,
{
    Err(CompileError { message: m })
}

// ---------------------------------------------------------------------
// Name tables
// ---------------------------------------------------------------------

/// The value bound to the first entry named `name`.
pub open spec fn assoc<V>(es: Seq<(String, V)>, name: Seq<char>) -> Option<V>
    decreases es.len(),
{
    if es.len() == 0 {
        None
    } else if es[0].0@ == name {
        Some(es[0].1)
    } else {
        assoc(es.drop_first(), name)
    }
}

/// `i` is the first entry named `name`.
pub proof fn lemma_assoc_at<V>(es: Seq<(String, V)>, i: int, name: Seq<char>)
    requires
        0 <= i < es.len(),
        es[i].0@ == name,
        forall|j: int| 0 <= j < i ==> (#[trigger] es[j]).0@ != name,
    ensures
        assoc(es, name) == Some(es[i].1),
    decreases es.len(),
{
    if i > 0 {
        assert forall|j: int| 0 <= j < i - 1 implies (#[trigger] es.drop_first()[j]).0@ != name by {
            assert(es.drop_first()[j] == es[j + 1]);
        }
        lemma_assoc_at(es.drop_first(), i - 1, name);
    }
}

/// No entry is named `name`.
pub proof fn lemma_assoc_none<V>(es: Seq<(String, V)>, name: Seq<char>)
    requires
        forall|j: int| 0 <= j < es.len() ==> (#[trigger] es[j]).0@ != name,
    ensures
        assoc(es, name) is None,
    decreases es.len(),
{
    if es.len() > 0 {
        assert forall|j: int| 0 <= j < es.len() - 1 implies (#[trigger] es.drop_first()[j]).0@ != name by {
            assert(es.drop_first()[j] == es[j + 1]);
        }
        lemma_assoc_none(es.drop_first(), name);
    }
}

/// A found binding is one of the entries.
pub proof fn lemma_assoc_some<V>(es: Seq<(String, V)>, name: Seq<char>)
    ensures
        assoc(es, name) matches Some(v) ==> exists|i: int| 0 <= i < es.len() && es[i].0@ == name && #[trigger] es[i].1 == v,
    decreases es.len(),
{
    if es.len() > 0 && es[0].0@ != name {
        lemma_assoc_some(es.drop_first(), name);
        if let Some(v) = assoc(es, name) {
            let i = choose|i: int| 0 <= i < es.drop_first().len() && es.drop_first()[i].0@ == name && #[trigger] es.drop_first()[i].1 == v;
            assert(es[i + 1] == es.drop_first()[i]);
        }
    }
}

/// Index of the first entry named `name`.
fn find_name<V>(es: &Vec<(String, V)>, name: &str) -> (r: Option<usize>)
    ensures
        match r {
            Some(i) => i < es@.len() && es@[i as int].0@ == name@
                && forall|j: int| 0 <= j < i ==> (#[trigger] es@[j]).0@ != name@,
            None => forall|j: int| 0 <= j < es@.len() ==> (#[trigger] es@[j]).0@ != name@,
        },
        r matches Some(i) ==> assoc(es@, name@) == Some(es@[i as int].1),
        r is None ==> assoc(es@, name@) is None,
{
    let mut i: usize = 0;
    while i < es.len()
        invariant
            0 <= i <= es@.len(),
            forall|j: int| 0 <= j < i ==> (#[trigger] es@[j]).0@ != name@,
        decreases es.len() - i,
    {
        if str_eq(es[i].0.as_str(), name) {
            proof { lemma_assoc_at(es@, i as int, name@); }
            return Some(i);
        }
        i += 1;
    }
    proof { lemma_assoc_none(es@, name@); }
    None
}

/// Bind `name` to `v`: the first entry of that name is replaced, or a new
/// entry is appended.
fn bind<V>(es: &mut Vec<(String, V)>, name: String, v: V)
    ensures
        assoc(final(es)@, name@) == Some(v),
        forall|n: Seq<char>| n != name@ ==> #[trigger] assoc(final(es)@, n) == assoc(old(es)@, n),
        forall|i: int| 0 <= i < final(es)@.len() ==> (#[trigger] final(es)@[i]).1 == v
            || exists|j: int| 0 <= j < old(es)@.len() && old(es)@[j].1 == final(es)@[i].1,
        old(es)@.len() <= final(es)@.len() <= old(es)@.len() + 1,
{
    let ghost name_v = name@;
    match find_name(es, name.as_str()) {
        Some(i) => {
            es.set(i, (name, v));
            proof {
                lemma_assoc_at(es@, i as int, name_v);
                assert forall|n: Seq<char>| n != name_v implies #[trigger] assoc(es@, n) == assoc(old(es)@, n) by {
                    lemma_find_first(old(es)@, n);
                    match find_first(old(es)@, n) {
                        Some(k) => {
                            lemma_assoc_at(old(es)@, k, n);
                            assert forall|j: int| 0 <= j < k implies (#[trigger] es@[j]).0@ != n by {
                                assert(old(es)@[j].0@ != n);
                            }
                            lemma_assoc_at(es@, k, n);
                        },
                        None => {
                            lemma_assoc_none(old(es)@, n);
                            assert forall|j: int| 0 <= j < es@.len() implies (#[trigger] es@[j]).0@ != n by {
                                if j != i {
                                    assert(old(es)@[j].0@ != n);
                                }
                            }
                            lemma_assoc_none(es@, n);
                        },
                    }
                }
                assert forall|k: int| 0 <= k < es@.len() implies (#[trigger] es@[k]).1 == v
                    || exists|j: int| 0 <= j < old(es)@.len() && old(es)@[j].1 == es@[k].1 by {
                    if k != i {
                        assert(old(es)@[k].1 == es@[k].1);
                    }
                }
            }
        },
        None => {
            es.push((name, v));
            proof {
                let n0 = old(es)@.len() as int;
                assert forall|j: int| 0 <= j < n0 implies (#[trigger] es@[j]).0@ != name_v by {
                    assert(es@[j] == old(es)@[j]);
                }
                lemma_assoc_at(es@, n0, name_v);
                assert forall|n: Seq<char>| n != name_v implies #[trigger] assoc(es@, n) == assoc(old(es)@, n) by {
                    lemma_find_first(old(es)@, n);
                    match find_first(old(es)@, n) {
                        Some(k) => {
                            lemma_assoc_at(old(es)@, k, n);
                            assert forall|j: int| 0 <= j < k implies (#[trigger] es@[j]).0@ != n by {
                                assert(old(es)@[j].0@ != n);
                            }
                            lemma_assoc_at(es@, k, n);
                        },
                        None => {
                            lemma_assoc_none(old(es)@, n);
                            assert forall|j: int| 0 <= j < es@.len() implies (#[trigger] es@[j]).0@ != n by {
                                if j < n0 {
                                    assert(old(es)@[j].0@ != n);
                                }
                            }
                            lemma_assoc_none(es@, n);
                        },
                    }
                }
                assert forall|k: int| 0 <= k < es@.len() implies (#[trigger] es@[k]).1 == v
                    || exists|j: int| 0 <= j < old(es)@.len() && old(es)@[j].1 == es@[k].1 by {
                    if k < n0 {
                        assert(old(es)@[k].1 == es@[k].1);
                    }
                }
            }
        },
    }
}

/// The index of the first entry named `n`, if any.
pub open spec fn find_first<V>(es: Seq<(String, V)>, n: Seq<char>) -> Option<int>
    decreases es.len(),
{
    if es.len() == 0 {
        None
    } else if es[0].0@ == n {
        Some(0)
    } else {
        match find_first(es.drop_first(), n) {
            Some(k) => Some(k + 1),
            None => None,
        }
    }
}

pub proof fn lemma_find_first<V>(es: Seq<(String, V)>, n: Seq<char>)
    ensures
        match find_first(es, n) {
            Some(k) => 0 <= k < es.len() && es[k].0@ == n && forall|j: int| 0 <= j < k ==> (#[trigger] es[j]).0@ != n,
            None => forall|j: int| 0 <= j < es.len() ==> (#[trigger] es[j]).0@ != n,
        },
    decreases es.len(),
{
    if es.len() > 0 && es[0].0@ != n {
        lemma_find_first(es.drop_first(), n);
        assert forall|j: int| 1 <= j < es.len() implies es[j] == #[trigger] es.drop_first()[j - 1] by {}
        match find_first(es.drop_first(), n) {
            Some(k) => {
                assert forall|j: int| 0 <= j < k + 1 implies (#[trigger] es[j]).0@ != n by {
                    if j > 0 { assert(es[j] == es.drop_first()[j - 1]); }
                }
            },
            None => {
                assert forall|j: int| 0 <= j < es.len() implies (#[trigger] es[j]).0@ != n by {
                    if j > 0 { assert(es[j] == es.drop_first()[j - 1]); }
                }
            },
        }
    }
}

/// Per-function type scope: name → type.
pub struct Scope {
    pub entries: Vec<(String, Type)>,
}

impl Scope {
    /// The type bound to `name`.
    pub open spec fn lookup(&self, name: Seq<char>) -> Option<Type> {
        assoc(self.entries@, name)
    }

    /// All types in the scope are valid in `a`.
    pub open spec fn ok(&self, a: &Arena) -> bool {
        forall|i: int| 0 <= i < self.entries@.len() ==> a.valid(#[trigger] self.entries@[i].1)
    }

    pub fn new() -> (r: Scope)
        ensures
            r.entries@.len() == 0,
            forall|n: Seq<char>| #[trigger] r.lookup(n) is None,
    {
        Scope { entries: Vec::new() }
    }

    /// Type bound to `name`, if any.
    pub fn get(&self, a: &Arena, name: &str) -> (r: Option<Type>)
        requires
            self.ok(a),
        ensures
            r == self.lookup(name@),
            r matches Some(t) ==> a.valid(t),
    {
        match find_name(&self.entries, name) {
            Some(i) => Some(self.entries[i].1),
            None => None,
        }
    }

    /// Bind (or rebind) `name` to `ty`.
    pub fn insert(&mut self, a: &Arena, name: String, ty: Type)
        requires
            old(self).ok(a),
            a.valid(ty),
        ensures
            final(self).ok(a),
            final(self).lookup(name@) == Some(ty),
            forall|n: Seq<char>| n != name@ ==> #[trigger] final(self).lookup(n) == old(self).lookup(n),
    {
        bind(&mut self.entries, name, ty);
        proof {
            assert forall|i: int| 0 <= i < self.entries@.len() implies a.valid(#[trigger] self.entries@[i].1) by {
                if self.entries@[i].1 != ty {
                    let j = choose|j: int| 0 <= j < old(self).entries@.len() && old(self).entries@[j].1 == self.entries@[i].1;
                    assert(a.valid(old(self).entries@[j].1));
                }
            }
        }
    }

    /// Number of bindings.
    pub fn len(&self) -> (r: usize)
        ensures
            r == self.entries@.len(),
    {
        self.entries.len()
    }

    pub fn copy(&self) -> (r: Scope)
        ensures
            r.entries@ == self.entries@,
    {
        let mut out: Vec<(String, Type)> = Vec::new();
        let mut i: usize = 0;
        while i < self.entries.len()
            invariant
                0 <= i <= self.entries@.len(),
                out@.len() == i,
                forall|j: int| 0 <= j < i ==> #[trigger] out@[j] == self.entries@[j],
            decreases self.entries.len() - i,
        {
            out.push((self.entries[i].0.clone(), self.entries[i].1));
            i += 1;
        }
        assert(out@ =~= self.entries@);
        Scope { entries: out }
    }
}

/// Law: reading a name back after binding it gives the bound type, and
/// binding one name leaves every other name's binding as it was.
pub proof fn law_scope_read_after_write(s0: &Scope, s1: &Scope, a: &Arena, name: Seq<char>, ty: Type, other: Seq<char>)
    requires
        s1.lookup(name) == Some(ty),
        forall|n: Seq<char>| n != name ==> #[trigger] s1.lookup(n) == s0.lookup(n),
        other != name,
    ensures
        s1.lookup(name) == Some(ty),
        s1.lookup(other) == s0.lookup(other),
{
}

/// Scope validity is preserved when the arena grows.
pub proof fn lemma_scope_mono(s: &Scope, a: &Arena, b: &Arena)
    requires
        s.ok(a),
        b.extends(a),
    ensures
        s.ok(b),
{
    assert forall|i: int| 0 <= i < s.entries@.len() implies b.valid(#[trigger] s.entries@[i].1) by {
        b.lemma_valid_mono(a, s.entries@[i].1);
    }
}

/// Class name → id for the classes defined so far.
pub struct Registry {
    pub entries: Vec<(String, ClassId)>,
}

impl Registry {
    pub open spec fn lookup(&self, name: Seq<char>) -> Option<ClassId> {
        assoc(self.entries@, name)
    }

    pub open spec fn ok(&self, a: &Arena) -> bool {
        forall|i: int| 0 <= i < self.entries@.len() ==> (#[trigger] self.entries@[i]).1.0 < a.classes@.len()
    }

    pub fn new() -> (r: Registry)
        ensures
            r.entries@.len() == 0,
    {
        Registry { entries: Vec::new() }
    }

    pub fn get(&self, a: &Arena, name: &str) -> (r: Option<ClassId>)
        requires
            self.ok(a),
        ensures
            r == self.lookup(name@),
            r matches Some(c) ==> c.0 < a.classes@.len(),
    {
        match find_name(&self.entries, name) {
            Some(i) => Some(self.entries[i].1),
            None => None,
        }
    }

    pub fn contains(&self, name: &str) -> (r: bool)
        ensures
            r == (self.lookup(name@) is Some),
    {
        find_name(&self.entries, name).is_some()
    }

    pub fn insert(&mut self, a: &Arena, name: String, id: ClassId)
        requires
            old(self).ok(a),
            id.0 < a.classes@.len(),
        ensures
            final(self).ok(a),
            final(self).lookup(name@) == Some(id),
            forall|n: Seq<char>| n != name@ ==> #[trigger] final(self).lookup(n) == old(self).lookup(n),
    {
        bind(&mut self.entries, name, id);
        proof {
            assert forall|i: int| 0 <= i < self.entries@.len() implies (#[trigger] self.entries@[i]).1.0 < a.classes@.len() by {
                if self.entries@[i].1 != id {
                    let j = choose|j: int| 0 <= j < old(self).entries@.len() && old(self).entries@[j].1 == self.entries@[i].1;
                    assert(old(self).entries@[j].1.0 < a.classes@.len());
                }
            }
        }
    }
}

pub proof fn lemma_registry_mono(r: &Registry, a: &Arena, b: &Arena)
    requires
        r.ok(a),
        b.extends(a),
    ensures
        r.ok(b),
{
}

/// A function's checked signature.
pub struct FunctionSig {
    pub params: Vec<Param>,
    pub defaults: Vec<Option<TypedExpr>>,
    pub return_ty: Type,
}

impl FunctionSig {
    pub open spec fn ok(&self, a: &Arena) -> bool {
        &&& a.valid(self.return_ty)
        &&& forall|i: int| 0 <= i < self.params@.len() ==> a.valid(#[trigger] self.params@[i].ty)
        &&& self.defaults@.len() == self.params@.len()
        &&& forall|i: int| 0 <= i < self.defaults@.len() ==> (#[trigger] self.defaults@[i] matches Some(d) ==> expr_valid(a, d) && d.ty == self.params@[i].ty)
    }
}

/// Function / method name → signature.
pub struct SignatureTable {
    pub entries: Vec<(String, FunctionSig)>,
}

impl SignatureTable {
    pub open spec fn ok(&self, a: &Arena) -> bool {
        forall|i: int| 0 <= i < self.entries@.len() ==> (#[trigger] self.entries@[i]).1.ok(a)
    }

    pub open spec fn has(&self, name: Seq<char>) -> bool {
        assoc(self.entries@, name) is Some
    }

    pub fn new() -> (r: SignatureTable)
        ensures
            r.entries@.len() == 0,
    {
        SignatureTable { entries: Vec::new() }
    }

    pub fn contains_key(&self, name: &str) -> (r: bool)
        ensures
            r == self.has(name@),
    {
        find_name(&self.entries, name).is_some()
    }

    pub fn get(&self, name: &str) -> (r: Option<&FunctionSig>)
        ensures
            r is Some <==> self.has(name@),
            r matches Some(s) ==> assoc(self.entries@, name@) == Some(*s),
            r matches Some(s) ==> exists|i: int| 0 <= i < self.entries@.len() && #[trigger] self.entries@[i].1 == *s,
    {
        match find_name(&self.entries, name) {
            Some(i) => Some(&self.entries[i].1),
            None => None,
        }
    }

    pub fn insert(&mut self, a: &Arena, name: String, sig: FunctionSig)
        requires
            old(self).ok(a),
            sig.ok(a),
        ensures
            final(self).ok(a),
            final(self).has(name@),
            assoc(final(self).entries@, name@) == Some(sig),
            forall|n: Seq<char>| n != name@ ==> #[trigger] final(self).has(n) == old(self).has(n),
            forall|n: Seq<char>| n != name@ ==> #[trigger] assoc(final(self).entries@, n) == assoc(old(self).entries@, n),
    {
        let ghost sv = sig;
        bind(&mut self.entries, name, sig);
        proof {
            assert forall|i: int| 0 <= i < self.entries@.len() implies (#[trigger] self.entries@[i]).1.ok(a) by {
                if self.entries@[i].1 != sv {
                    let j = choose|j: int| 0 <= j < old(self).entries@.len() && old(self).entries@[j].1 == self.entries@[i].1;
                    assert(old(self).entries@[j].1.ok(a));
                }
            }
        }
    }
}

/// A signature stays `ok` when the arena grows.
pub proof fn lemma_sig_mono(s: &FunctionSig, a: &Arena, b: &Arena)
    requires
        s.ok(a),
        b.extends(a),
    ensures
        s.ok(b),
{
    b.lemma_valid_mono(a, s.return_ty);
    assert forall|j: int| 0 <= j < s.params@.len() implies b.valid(#[trigger] s.params@[j].ty) by {
        b.lemma_valid_mono(a, s.params@[j].ty);
    }
    assert forall|j: int| 0 <= j < s.defaults@.len() implies (#[trigger] s.defaults@[j] matches Some(d) ==> expr_valid(b, d) && d.ty == s.params@[j].ty) by {
        if let Some(d) = s.defaults@[j] {
            lemma_expr_valid_mono(a, b, d);
        }
    }
}

/// A signature found in an `ok` table is itself `ok`.
pub proof fn lemma_sig_ok(t: &SignatureTable, a: &Arena, s: FunctionSig)
    requires
        t.ok(a),
        exists|i: int| 0 <= i < t.entries@.len() && #[trigger] t.entries@[i].1 == s,
    ensures
        s.ok(a),
{
    let i = choose|i: int| 0 <= i < t.entries@.len() && #[trigger] t.entries@[i].1 == s;
    assert(t.entries@[i].1.ok(a));
}

pub proof fn lemma_sigs_mono(t: &SignatureTable, a: &Arena, b: &Arena)
    requires
        t.ok(a),
        b.extends(a),
    ensures
        t.ok(b),
{
    assert forall|i: int| 0 <= i < t.entries@.len() implies (#[trigger] t.entries@[i]).1.ok(b) by {
        let s = t.entries@[i].1;
        assert(s.ok(a));
        b.lemma_valid_mono(a, s.return_ty);
        assert forall|j: int| 0 <= j < s.params@.len() implies b.valid(#[trigger] s.params@[j].ty) by {
            b.lemma_valid_mono(a, s.params@[j].ty);
        }
        assert forall|j: int| 0 <= j < s.defaults@.len() implies (#[trigger] s.defaults@[j] matches Some(d) ==> expr_valid(b, d) && d.ty == s.params@[j].ty) by {
            if let Some(d) = s.defaults@[j] {
                lemma_expr_valid_mono(a, b, d);
            }
        }
    }
}


// ---------------------------------------------------------------------
// Class hierarchy
// ---------------------------------------------------------------------

/// `anc` is `cur` or is reached from `cur` by at most `fuel` parent links.
pub open spec fn reaches(a: &Arena, cur: ClassId, anc: ClassId, fuel: nat) -> bool
    decreases fuel,
{
    if cur == anc {
        true
    } else if fuel == 0 {
        false
    } else {
        match a.classes@[cur.0 as int].parent {
            Some(p) => reaches(a, p, anc, (fuel - 1) as nat),
            None => false,
        }
    }
}

/// `d` inherits transitively from `anc` (or is `anc`).
pub open spec fn is_subclass(a: &Arena, d: ClassId, anc: ClassId) -> bool {
    reaches(a, d, anc, a.classes@.len())
}

/// Test whether `descendant` inherits transitively from `ancestor`
/// (including equality).
pub fn is_subclass_of(arena: &Arena, descendant: ClassId, ancestor: ClassId) -> (r: bool)
    requires
        arena.wf(),
        descendant.0 < arena.classes@.len(),
    ensures
        r == is_subclass(arena, descendant, ancestor),
{
    let n = arena.classes.len();
    let mut cur = descendant;
    let mut fuel = n;
    loop
        invariant
            arena.wf(),
            n == arena.classes@.len(),
            cur.0 < n,
            fuel <= n,
            reaches(arena, cur, ancestor, fuel as nat) == is_subclass(arena, descendant, ancestor),
        decreases fuel,
    {
        if cur == ancestor {
            return true;
        }
        if fuel == 0 {
            return false;
        }
        proof { lemma_parent_valid(arena, cur); }
        match arena.classes[cur.0].parent {
            Some(p) => {
                cur = p;
                fuel = fuel - 1;
            },
            None => {
                return false;
            },
        }
    }
}

/// The mangled name `<Class>.<method>` of a method of `c`.
pub open spec fn mangled(a: &Arena, c: ClassId, m: Seq<char>) -> Seq<char> {
    c.def(a).name@ + "."@ + m
}

/// The first class on the chain from `cur` (at most `fuel` links up)
/// whose mangled method name is registered.
pub open spec fn resolve_from(a: &Arena, t: &SignatureTable, cur: ClassId, m: Seq<char>, fuel: nat) -> Option<ClassId>
    decreases fuel,
{
    if t.has(mangled(a, cur, m)) {
        Some(cur)
    } else if fuel == 0 {
        None
    } else {
        match a.classes@[cur.0 as int].parent {
            Some(p) => resolve_from(a, t, p, m, (fuel - 1) as nat),
            None => None,
        }
    }
}

/// Method resolution along the inheritance chain.
pub open spec fn resolves_to(a: &Arena, t: &SignatureTable, c: ClassId, m: Seq<char>) -> Option<ClassId> {
    resolve_from(a, t, c, m, a.classes@.len())
}

/// A class on the chain from a valid class is valid.
pub proof fn lemma_resolve_valid(a: &Arena, t: &SignatureTable, cur: ClassId, m: Seq<char>, fuel: nat)
    requires
        a.wf(),
        cur.0 < a.classes@.len(),
    ensures
        resolve_from(a, t, cur, m, fuel) matches Some(c) ==> c.0 < a.classes@.len() && t.has(mangled(a, c, m)),
    decreases fuel,
{
    lemma_parent_valid(a, cur);
    if !t.has(mangled(a, cur, m)) && fuel > 0 {
        if let Some(p) = a.classes@[cur.0 as int].parent {
            lemma_resolve_valid(a, t, p, m, (fuel - 1) as nat);
        }
    }
}

/// Resolve a method on a class by walking the inheritance chain.
/// Returns the owning class and the mangled name (`<ClassName>.<method>`)
/// of the first matching definition, walking from `class_id` upwards.
pub fn resolve_method(arena: &Arena, class_id: ClassId, method: &str, signatures: &SignatureTable) -> (r: Option<(ClassId, String)>)
    requires
        arena.wf(),
        class_id.0 < arena.classes@.len(),
    ensures
        match resolves_to(arena, signatures, class_id, method@) {
            Some(c) => r matches Some((c2, s)) && c2 == c && s@ == mangled(arena, c, method@)
                && c.0 < arena.classes@.len() && signatures.has(s@),
            None => r is None,
        },
{
    let n = arena.classes.len();
    let mut cur = class_id;
    let mut fuel = n;
    proof { lemma_resolve_valid(arena, signatures, class_id, method@, n as nat); }
    loop
        invariant
            arena.wf(),
            n == arena.classes@.len(),
            cur.0 < n,
            fuel <= n,
            resolve_from(arena, signatures, cur, method@, fuel as nat) == resolves_to(arena, signatures, class_id, method@),
        decreases fuel,
    {
        let cname = cur.name(arena);
        let m = concat3(cname.as_str(), ".", method);
        if signatures.contains_key(m.as_str()) {
            return Some((cur, m));
        }
        if fuel == 0 {
            return None;
        }
        proof { lemma_parent_valid(arena, cur); }
        match arena.classes[cur.0].parent {
            Some(p) => {
                cur = p;
                fuel = fuel - 1;
            },
            None => {
                return None;
            },
        }
    }
}

/// Reject `Type::Class(c)` for an abstract `c` used as a value type.
/// `what` describes the context for the error message.
pub fn reject_abstract_type(arena: &Arena, ty: Type, what: &str) -> (r: Result<(), CompileError>)
    requires
        arena.valid(ty),
    ensures
        r is Err <==> (ty matches Type::Class(c) && c.def(arena).abstract_methods@.len() > 0),
        r matches Err(e) ==> ty matches Type::Class(c) && e.message@ == unsup("using abstract class `"@
            + c.def(arena).name@ + "` as a "@ + what@
            + " is deferred to the vtable slice — polymorphism on ABCs needs dynamic dispatch"@),
{
    if let Type::Class(c) = ty {
        if c.is_abstract(arena) {
            let n = c.name(arena);
            return fail(msg5("using abstract class `", n.as_str(), "` as a ", what,
                " is deferred to the vtable slice — polymorphism on ABCs needs dynamic dispatch"));
        }
    }
    Ok(())
}

// ---------------------------------------------------------------------
// Coercions and operand typing
// ---------------------------------------------------------------------

pub open spec fn is_int_or_bool(t: Type) -> bool {
    t.spec_is_int() || t == Type::Bool
}

/// How `coerce` treats an expression of one type flowing into a slot of
/// another.
pub enum CoerceKind {
    /// Same type: nothing to do.
    Same,
    /// An empty list / dict / set literal re-tagged to the target type.
    Retag,
    /// A conversion node is inserted.
    Convert,
    /// Float to int: lossy, rejected.
    FloatToInt,
    /// No conversion exists.
    Incompatible,
}

pub open spec fn is_empty_literal(e: Expr) -> bool {
    match e {
        Expr::ListLit { elements } => elements@.len() == 0,
        Expr::DictLit { entries } => entries@.len() == 0,
        Expr::SetLit { elements } => elements@.len() == 0,
        _ => false,
    }
}

/// The treatment `coerce` gives `e` flowing into `target`.
pub open spec fn coerce_kind(a: &Arena, e: TypedExpr, target: Type) -> CoerceKind {
    if e.ty == target {
        CoerceKind::Same
    } else if e.ty is List && target is List && e.expr is ListLit && is_empty_literal(e.expr) {
        CoerceKind::Retag
    } else if e.ty is Dict && target is Dict && e.expr is DictLit && is_empty_literal(e.expr) {
        CoerceKind::Retag
    } else if e.ty is SetOf && target is SetOf && e.expr is SetLit && is_empty_literal(e.expr) {
        CoerceKind::Retag
    } else if e.ty is Class && target is Class && is_subclass(a, e.ty->Class_0, target->Class_0) {
        CoerceKind::Convert
    } else if e.ty == Type::F64 && target.spec_is_int() {
        CoerceKind::FloatToInt
    } else if is_int_or_bool(e.ty) && is_int_or_bool(target) {
        CoerceKind::Convert
    } else if is_int_or_bool(e.ty) && target == Type::F64 {
        CoerceKind::Convert
    } else if e.ty == Type::F64 && target == Type::Bool {
        CoerceKind::Convert
    } else {
        CoerceKind::Incompatible
    }
}

/// `r` is what `coerce(e, target)` returns.
pub open spec fn coerce_post(a: &Arena, e: TypedExpr, target: Type, r: Result<TypedExpr, CompileError>) -> bool {
    match coerce_kind(a, e, target) {
        CoerceKind::Same => r == Ok::<TypedExpr, CompileError>(e),
        CoerceKind::Retag => r matches Ok(x) && x.ty == target && is_empty_literal(x.expr)
            && (x.expr is ListLit <==> e.expr is ListLit) && (x.expr is DictLit <==> e.expr is DictLit)
            && (x.expr is SetLit <==> e.expr is SetLit),
        CoerceKind::Convert => r == Ok::<TypedExpr, CompileError>(TypedExpr { ty: target, expr: Expr::Coerce { inner: Box::new(e) } }),
        CoerceKind::FloatToInt => r matches Err(m) && m.message@ == unsup("implicit float→"@
            + display_name(a, target) + " conversion is not allowed (use an explicit cast — coming later)"@),
        CoerceKind::Incompatible => r matches Err(m) && m.message@ == unsup("cannot coerce "@
            + display_name(a, e.ty) + " to "@ + display_name(a, target)),
    }
}

/// Insert a coercion if the expression's type doesn't match the target.
/// Allowed: int widths and bool among themselves, int/bool → float,
/// float → bool, a class to one of its ancestors, and re-tagging of empty
/// list / dict / set literals. Float → int is rejected.
pub fn coerce(arena: &Arena, e: TypedExpr, target: Type) -> (r: Result<TypedExpr, CompileError>)
    requires
        arena.wf(),
        arena.valid(e.ty),
        arena.valid(target),
    ensures
        coerce_post(arena, e, target, r),
        r matches Ok(x) ==> x.ty == target,
        expr_valid(arena, e) ==> (r matches Ok(x) ==> expr_valid(arena, x)),
{
    if e.ty == target {
        return Ok(e);
    }
    match (e.ty, target) {
        (Type::List(_), Type::List(_)) => {
            if let Expr::ListLit { elements } = &e.expr {
                if elements.len() == 0 {
                    return Ok(TypedExpr::new(target, Expr::ListLit { elements: Vec::new() }));
                }
            }
        },
        (Type::Dict(_), Type::Dict(_)) => {
            if let Expr::DictLit { entries } = &e.expr {
                if entries.len() == 0 {
                    return Ok(TypedExpr::new(target, Expr::DictLit { entries: Vec::new() }));
                }
            }
        },
        (Type::SetOf(_), Type::SetOf(_)) => {
            if let Expr::SetLit { elements } = &e.expr {
                if elements.len() == 0 {
                    return Ok(TypedExpr::new(target, Expr::SetLit { elements: Vec::new() }));
                }
            }
        },
        (Type::Class(b), Type::Class(a)) => {
            if is_subclass_of(arena, b, a) {
                return Ok(TypedExpr::new(target, Expr::Coerce { inner: Box::new(e) }));
            }
        },
        _ => {},
    }
    let from = e.ty;
    if from == Type::F64 && target.is_int() {
        let tn = target.name(arena);
        return fail(msg3("implicit float→", tn.as_str(), " conversion is not allowed (use an explicit cast — coming later)"));
    }
    let from_ib = from.is_int() || from == Type::Bool;
    let to_ib = target.is_int() || target == Type::Bool;
    let allowed = (from_ib && to_ib) || (from_ib && target == Type::F64) || (from == Type::F64 && target == Type::Bool);
    if !allowed {
        let fname = from.name(arena);
        let tname = target.name(arena);
        return fail(msg4("cannot coerce ", fname.as_str(), " to ", tname.as_str()));
    }
    Ok(TypedExpr::new(target, Expr::Coerce { inner: Box::new(e) }))
}

/// The wider of two int types, with bool counting as `int`.
pub open spec fn wider_int(l: Type, r: Type) -> Type {
    let lw = if l == Type::Bool { 64u8 } else { l.spec_int_width()->0 };
    let rw = if r == Type::Bool { 64u8 } else { r.spec_int_width()->0 };
    let w = if lw >= rw { lw } else { rw };
    if w == 8 {
        Type::I8
    } else if w == 16 {
        Type::I16
    } else if w == 32 {
        Type::I32
    } else {
        Type::I64
    }
}

fn wider_int_exec(l: Type, r: Type) -> (t: Option<Type>)
    ensures
        t == (if is_int_or_bool(l) && is_int_or_bool(r) { Some(wider_int(l, r)) } else { None::<Type> }),
{
    let lty = if l == Type::Bool { Type::I64 } else { l };
    let rty = if r == Type::Bool { Type::I64 } else { r };
    match (lty.int_width(), rty.int_width()) {
        (Some(lw), Some(rw)) => {
            let w = if lw >= rw { lw } else { rw };
            if w == 8 {
                Some(Type::I8)
            } else if w == 16 {
                Some(Type::I16)
            } else if w == 32 {
                Some(Type::I32)
            } else {
                Some(Type::I64)
            }
        },
        _ => None,
    }
}

/// Types that convert to float: float itself, ints and bool.
pub open spec fn float_ok(t: Type) -> bool {
    t == Type::F64 || is_int_or_bool(t)
}

/// The common type two operands are promoted to for arithmetic and
/// comparison: float if either is float, else the wider int (bool as int).
pub open spec fn numeric_target(l: Type, r: Type) -> Option<Type> {
    if l == Type::F64 || r == Type::F64 {
        if float_ok(l) && float_ok(r) { Some(Type::F64) } else { None }
    } else if is_int_or_bool(l) && is_int_or_bool(r) {
        Some(wider_int(l, r))
    } else {
        None
    }
}

/// The diagnostic of a failed numeric promotion.
pub open spec fn numeric_error(a: &Arena, l: Type, r: Type) -> Seq<char> {
    if l == Type::F64 || r == Type::F64 {
        if !float_ok(l) {
            unsup("cannot coerce "@ + display_name(a, l) + " to "@ + "float"@)
        } else {
            unsup("cannot coerce "@ + display_name(a, r) + " to "@ + "float"@)
        }
    } else {
        unsup("cannot unify "@ + display_name(a, l) + " and "@ + display_name(a, r) + " for arithmetic"@)
    }
}

/// Unify two int-shaped operands to the wider int width. Bool counts as
/// `int`. Callers have already ruled out floats.
pub fn unify_int_widths(arena: &Arena, lhs: TypedExpr, rhs: TypedExpr) -> (r: Result<(TypedExpr, TypedExpr), CompileError>)
    requires
        arena.wf(),
        arena.valid(lhs.ty),
        arena.valid(rhs.ty),
    ensures
        r is Ok <==> is_int_or_bool(lhs.ty) && is_int_or_bool(rhs.ty),
        r matches Ok((l, x)) ==> coerce_post(arena, lhs, wider_int(lhs.ty, rhs.ty), Ok(l))
            && coerce_post(arena, rhs, wider_int(lhs.ty, rhs.ty), Ok(x))
            && l.ty == wider_int(lhs.ty, rhs.ty) && x.ty == l.ty,
        r matches Err(m) ==> m.message@ == unsup("cannot unify "@ + display_name(arena, lhs.ty) + " and "@
            + display_name(arena, rhs.ty) + " as ints"@),
        expr_valid(arena, lhs) && expr_valid(arena, rhs) ==> (r matches Ok((l, x)) ==> expr_valid(arena, l) && expr_valid(arena, x)),
{
    match wider_int_exec(lhs.ty, rhs.ty) {
        Some(target) => {
            let l = coerce(arena, lhs, target);
            let x = coerce(arena, rhs, target);
            match (l, x) {
                (Ok(l), Ok(x)) => Ok((l, x)),
                _ => {
                    proof { assert(false); }
                    fail(String::new())
                },
            }
        },
        None => {
            let ln = lhs.ty.name(arena);
            let rn = rhs.ty.name(arena);
            fail(msg5("cannot unify ", ln.as_str(), " and ", rn.as_str(), " as ints"))
        },
    }
}

/// Numeric promotion for arithmetic operands: if either is float both
/// become float; otherwise both become the wider int (bool as `int`).
pub fn unify_numeric(arena: &Arena, lhs: TypedExpr, rhs: TypedExpr) -> (r: Result<(TypedExpr, TypedExpr), CompileError>)
    requires
        arena.wf(),
        arena.valid(lhs.ty),
        arena.valid(rhs.ty),
    ensures
        r is Ok <==> numeric_target(lhs.ty, rhs.ty) is Some,
        r matches Ok((l, x)) ==> coerce_post(arena, lhs, numeric_target(lhs.ty, rhs.ty)->0, Ok(l))
            && coerce_post(arena, rhs, numeric_target(lhs.ty, rhs.ty)->0, Ok(x))
            && l.ty == numeric_target(lhs.ty, rhs.ty)->0 && x.ty == l.ty,
        r matches Err(m) ==> m.message@ == numeric_error(arena, lhs.ty, rhs.ty),
        expr_valid(arena, lhs) && expr_valid(arena, rhs) ==> (r matches Ok((l, x)) ==> expr_valid(arena, l) && expr_valid(arena, x)),
{
    if lhs.ty == Type::F64 || rhs.ty == Type::F64 {
        let l = coerce(arena, lhs, Type::F64)?;
        let x = coerce(arena, rhs, Type::F64)?;
        return Ok((l, x));
    }
    match wider_int_exec(lhs.ty, rhs.ty) {
        Some(target) => {
            let l = coerce(arena, lhs, target);
            let x = coerce(arena, rhs, target);
            match (l, x) {
                (Ok(l), Ok(x)) => Ok((l, x)),
                _ => {
                    proof { assert(false); }
                    fail(String::new())
                },
            }
        },
        None => {
            let ln = lhs.ty.name(arena);
            let rn = rhs.ty.name(arena);
            fail(msg5("cannot unify ", ln.as_str(), " and ", rn.as_str(), " for arithmetic"))
        },
    }
}

/// The type numeric promotion gives two operand types.
pub fn numeric_type(arena: &Arena, l: Type, r: Type) -> (t: Result<Type, CompileError>)
    requires
        arena.wf(),
        arena.valid(l),
        arena.valid(r),
    ensures
        t is Ok <==> numeric_target(l, r) is Some,
        t matches Ok(x) ==> numeric_target(l, r) == Some(x),
        t matches Err(m) ==> m.message@ == numeric_error(arena, l, r),
{
    if l == Type::F64 || r == Type::F64 {
        let lok = l == Type::F64 || l.is_int() || l == Type::Bool;
        let rok = r == Type::F64 || r.is_int() || r == Type::Bool;
        if !lok {
            let n = l.name(arena);
            return fail(msg4("cannot coerce ", n.as_str(), " to ", "float"));
        }
        if !rok {
            let n = r.name(arena);
            return fail(msg4("cannot coerce ", n.as_str(), " to ", "float"));
        }
        return Ok(Type::F64);
    }
    match wider_int_exec(l, r) {
        Some(t) => Ok(t),
        None => {
            let ln = l.name(arena);
            let rn = r.name(arena);
            fail(msg5("cannot unify ", ln.as_str(), " and ", rn.as_str(), " for arithmetic"))
        },
    }
}

/// Law: numeric promotion is symmetric in the type it promotes to.
pub proof fn law_numeric_target_symmetric(l: Type, r: Type)
    ensures
        numeric_target(l, r) == numeric_target(r, l),
{
}

/// Law: coercing to an expression's own type returns it unchanged.
pub proof fn law_coerce_same_type(a: &Arena, e: TypedExpr, r: Result<TypedExpr, CompileError>)
    requires
        coerce_post(a, e, e.ty, r),
    ensures
        r == Ok::<TypedExpr, CompileError>(e),
{
}

/// A bool operand becomes `int`; an int operand is kept as is.
fn coerce_int_keep_width(arena: &Arena, e: TypedExpr) -> (r: Result<TypedExpr, CompileError>)
    requires
        arena.wf(),
        arena.valid(e.ty),
    ensures
        r is Ok <==> is_int_or_bool(e.ty),
        e.ty == Type::Bool ==> coerce_post(arena, e, Type::I64, r),
        e.ty.spec_is_int() ==> r == Ok::<TypedExpr, CompileError>(e),
        r matches Ok(x) ==> x.ty == (if e.ty == Type::Bool { Type::I64 } else { e.ty }),
        r matches Err(m) ==> m.message@ == unsup("expected int-shaped operand, got "@ + display_name(arena, e.ty)),
        expr_valid(arena, e) ==> (r matches Ok(x) ==> expr_valid(arena, x)),
{
    if e.ty == Type::Bool {
        coerce(arena, e, Type::I64)
    } else if e.ty.is_int() {
        Ok(e)
    } else {
        let n = e.ty.name(arena);
        fail(msg2("expected int-shaped operand, got ", n.as_str()))
    }
}

/// Type a unary `-`, `+` or `~` applied to a lowered operand.
pub fn apply_unop(arena: &Arena, op: UnaryOp, operand: TypedExpr) -> (r: Result<TypedExpr, CompileError>)
    requires
        arena.wf(),
        arena.valid(operand.ty),
    ensures
        (op != UnaryOp::BitNot || is_int_or_bool(operand.ty)) ==> r is Ok,
        op == UnaryOp::BitNot && !is_int_or_bool(operand.ty) ==> (r matches Err(m)
            && m.message@ == unsup("expected int-shaped operand, got "@ + display_name(arena, operand.ty))),
        r matches Ok(x) ==> x.ty == (if operand.ty == Type::Bool { Type::I64 } else { operand.ty })
            && (x.expr matches Expr::UnaryOp { op: o, operand: inner } && o == op
            && (operand.ty == Type::Bool ==> coerce_post(arena, operand, Type::I64, Ok(*inner)))
            && (operand.ty != Type::Bool ==> *inner == operand)),
        expr_valid(arena, operand) ==> (r matches Ok(x) ==> expr_valid(arena, x)),
{
    match op {
        UnaryOp::Neg | UnaryOp::Pos => {
            let operand = if operand.ty == Type::Bool {
                match coerce(arena, operand, Type::I64) {
                    Ok(x) => x,
                    Err(e) => {
                        proof { assert(false); }
                        return Err(e);
                    },
                }
            } else {
                operand
            };
            let ty = operand.ty;
            Ok(TypedExpr::new(ty, Expr::UnaryOp { op, operand: Box::new(operand) }))
        },
        UnaryOp::BitNot => {
            let operand = coerce_int_keep_width(arena, operand)?;
            let ty = operand.ty;
            Ok(TypedExpr::new(ty, Expr::UnaryOp { op, operand: Box::new(operand) }))
        },
    }
}


/// The result type of a binary operator on operands of the given types,
/// or None when the operator is rejected.
pub open spec fn binop_type(op: BinOp, l: Type, r: Type) -> Option<Type> {
    match op {
        BinOp::TrueDiv => if float_ok(l) && float_ok(r) { Some(Type::F64) } else { None },
        BinOp::FloorDiv | BinOp::Mod | BinOp::BitAnd | BinOp::BitOr | BinOp::BitXor => {
            if l == Type::F64 || r == Type::F64 {
                None
            } else if is_int_or_bool(l) && is_int_or_bool(r) {
                Some(wider_int(l, r))
            } else {
                None
            }
        },
        BinOp::Shl | BinOp::Shr => {
            if l == Type::F64 || r == Type::F64 {
                None
            } else if is_int_or_bool(l) && is_int_or_bool(r) {
                Some(if l == Type::Bool { Type::I64 } else { l })
            } else {
                None
            }
        },
        BinOp::Pow => {
            if l == Type::F64 || r == Type::F64 {
                if float_ok(l) && float_ok(r) { Some(Type::F64) } else { None }
            } else if is_int_or_bool(l) && is_int_or_bool(r) {
                Some(Type::I64)
            } else {
                None
            }
        },
        BinOp::Add | BinOp::Sub | BinOp::Mul => {
            if l is List && r is List {
                if op == BinOp::Add && l == r { Some(l) } else { None }
            } else if l == Type::Str && r == Type::Str {
                if op == BinOp::Add { Some(Type::Str) } else { None }
            } else if l == Type::Str || r == Type::Str {
                None
            } else {
                numeric_target(l, r)
            }
        },
    }
}

/// Apply a binary op to lowered operands: promotes the operands and
/// inserts coercions as needed.
pub fn apply_binop(arena: &Arena, op: BinOp, lhs: TypedExpr, rhs: TypedExpr) -> (r: Result<TypedExpr, CompileError>)
    requires
        arena.wf(),
        arena.valid(lhs.ty),
        arena.valid(rhs.ty),
    ensures
        r is Ok <==> binop_type(op, lhs.ty, rhs.ty) is Some,
        r matches Ok(x) ==> x.ty == binop_type(op, lhs.ty, rhs.ty)->0,
        r matches Ok(x) ==> (x.expr is ListConcat <==> (lhs.ty is List && rhs.ty is List)),
        r matches Ok(x) ==> (x.expr is StrConcat <==> (lhs.ty == Type::Str && rhs.ty == Type::Str)),
        r matches Ok(x) ==> (x.expr is ListConcat || x.expr is StrConcat
            || (x.expr matches Expr::BinOp { op: o, .. } && o == op)),
        r matches Ok(x) ==> (x.expr matches Expr::BinOp { lhs: l, rhs: rr, .. } ==>
            coerce_post(arena, lhs, x.ty, Ok(*l)) && coerce_post(arena, rhs, x.ty, Ok(*rr))),
        r matches Ok(x) ==> (x.expr matches Expr::ListConcat { lhs: l, rhs: rr } ==> *l == lhs && *rr == rhs),
        r matches Ok(x) ==> (x.expr matches Expr::StrConcat { lhs: l, rhs: rr } ==> *l == lhs && *rr == rhs),
        expr_valid(arena, lhs) && expr_valid(arena, rhs) ==> (r matches Ok(x) ==> expr_valid(arena, x)),
{
    match op {
        BinOp::TrueDiv => {
            let l = coerce(arena, lhs, Type::F64)?;
            let x = coerce(arena, rhs, Type::F64)?;
            Ok(TypedExpr::new(Type::F64, Expr::BinOp { op, lhs: Box::new(l), rhs: Box::new(x) }))
        },
        BinOp::FloorDiv | BinOp::Mod => {
            if lhs.ty == Type::F64 || rhs.ty == Type::F64 {
                return fail(msg1("`//` / `%` on float operands not yet supported"));
            }
            let (l, x) = unify_int_widths(arena, lhs, rhs)?;
            let ty = l.ty;
            Ok(TypedExpr::new(ty, Expr::BinOp { op, lhs: Box::new(l), rhs: Box::new(x) }))
        },
        BinOp::BitAnd | BinOp::BitOr | BinOp::BitXor => {
            if lhs.ty == Type::F64 || rhs.ty == Type::F64 {
                return fail(msg1("bitwise ops on float operands are not allowed"));
            }
            let (l, x) = unify_int_widths(arena, lhs, rhs)?;
            let ty = l.ty;
            Ok(TypedExpr::new(ty, Expr::BinOp { op, lhs: Box::new(l), rhs: Box::new(x) }))
        },
        BinOp::Shl | BinOp::Shr => {
            if lhs.ty == Type::F64 || rhs.ty == Type::F64 {
                return fail(msg1("shift ops on float operands are not allowed"));
            }
            let l = coerce_int_keep_width(arena, lhs)?;
            let target = l.ty;
            let x = coerce(arena, rhs, target)?;
            Ok(TypedExpr::new(target, Expr::BinOp { op, lhs: Box::new(l), rhs: Box::new(x) }))
        },
        BinOp::Pow => {
            let result_ty = if lhs.ty == Type::F64 || rhs.ty == Type::F64 { Type::F64 } else { Type::I64 };
            let l = coerce(arena, lhs, result_ty)?;
            let x = coerce(arena, rhs, result_ty)?;
            Ok(TypedExpr::new(result_ty, Expr::BinOp { op, lhs: Box::new(l), rhs: Box::new(x) }))
        },
        BinOp::Add | BinOp::Sub | BinOp::Mul => {
            if let (Type::List(a), Type::List(b)) = (lhs.ty, rhs.ty) {
                if op != BinOp::Add {
                    return fail(msg1("only `+` is defined on lists (no `-`/`*` yet)"));
                }
                if a != b {
                    let ln = lhs.ty.name(arena);
                    let rn = rhs.ty.name(arena);
                    return fail(msg5("cannot concatenate ", ln.as_str(), " and ", rn.as_str(), " (element types must match)"));
                }
                let ty = lhs.ty;
                return Ok(TypedExpr::new(ty, Expr::ListConcat { lhs: Box::new(lhs), rhs: Box::new(rhs) }));
            }
            if lhs.ty == Type::Str && rhs.ty == Type::Str {
                if op != BinOp::Add {
                    return fail(msg1("only `+` is defined on strings"));
                }
                return Ok(TypedExpr::new(Type::Str, Expr::StrConcat { lhs: Box::new(lhs), rhs: Box::new(rhs) }));
            }
            if lhs.ty == Type::Str || rhs.ty == Type::Str {
                let ln = lhs.ty.name(arena);
                let rn = rhs.ty.name(arena);
                return fail(msg5("arithmetic between ", ln.as_str(), " and ", rn.as_str(), " is not supported"));
            }
            let (l, x) = unify_numeric(arena, lhs, rhs)?;
            let ty = l.ty;
            Ok(TypedExpr::new(ty, Expr::BinOp { op, lhs: Box::new(l), rhs: Box::new(x) }))
        },
    }
}

/// The body ends in a `return` on every path: its last statement is a
/// `return`, or an `if` with a non-empty `else` whose branches both
/// always return.
pub open spec fn always_returns(body: Seq<Stmt>) -> bool
    decreases body,
{
    if body.len() == 0 {
        false
    } else {
        match body.last() {
            Stmt::Return { .. } => true,
            Stmt::If { then_body, else_body, .. } => {
                &&& else_body@.len() > 0
                &&& always_returns(then_body@)
                &&& always_returns(else_body@)
            },
            _ => false,
        }
    }
}

/// Whether every path through `body` ends in a `return`.
pub fn block_always_returns(body: &Vec<Stmt>) -> (r: bool)
    ensures
        r == always_returns(body@),
    decreases body@,
{
    if body.len() == 0 {
        return false;
    }
    match &body[body.len() - 1] {
        Stmt::Return { .. } => true,
        Stmt::If { then_body, else_body, .. } => {
            else_body.len() > 0 && block_always_returns(then_body) && block_always_returns(else_body)
        },
        _ => false,
    }
}

/// The HIR comparison for a Python comparison operator other than
/// `in` / `not in` (which the caller dispatches on the container type).
pub fn convert_cmp_op(op: ast::CmpOp) -> (r: Result<CmpOp, CompileError>)
    requires
        op != ast::CmpOp::In,
        op != ast::CmpOp::NotIn,
    ensures
        r == (match op {
            ast::CmpOp::Lt => Ok::<CmpOp, CompileError>(CmpOp::Lt),
            ast::CmpOp::LtE => Ok(CmpOp::Le),
            ast::CmpOp::Gt => Ok(CmpOp::Gt),
            ast::CmpOp::GtE => Ok(CmpOp::Ge),
            ast::CmpOp::Eq => Ok(CmpOp::Eq),
            ast::CmpOp::NotEq => Ok(CmpOp::Ne),
            _ => r,
        }),
        (op == ast::CmpOp::Is || op == ast::CmpOp::IsNot) ==> (r matches Err(m) && m.message@ == unsup(
            "`is` / `is not` are not supported (only allowed against `None` in later slices)"@)),
{
    match op {
        ast::CmpOp::Lt => Ok(CmpOp::Lt),
        ast::CmpOp::LtE => Ok(CmpOp::Le),
        ast::CmpOp::Gt => Ok(CmpOp::Gt),
        ast::CmpOp::GtE => Ok(CmpOp::Ge),
        ast::CmpOp::Eq => Ok(CmpOp::Eq),
        ast::CmpOp::NotEq => Ok(CmpOp::Ne),
        _ => fail(msg1("`is` / `is not` are not supported (only allowed against `None` in later slices)")),
    }
}

/// The name of a statement kind, as used in diagnostics.
pub open spec fn stmt_kind(s: ast::Stmt) -> Seq<char> {
    match s {
        ast::Stmt::FunctionDef(_) => "FunctionDef"@,
        ast::Stmt::AsyncFunctionDef => "AsyncFunctionDef"@,
        ast::Stmt::ClassDef(_) => "ClassDef"@,
        ast::Stmt::Return(_) => "Return"@,
        ast::Stmt::Delete => "Delete"@,
        ast::Stmt::Assign { .. } => "Assign"@,
        ast::Stmt::AugAssign { .. } => "AugAssign"@,
        ast::Stmt::AnnAssign { .. } => "AnnAssign"@,
        ast::Stmt::For { .. } => "For"@,
        ast::Stmt::AsyncFor => "AsyncFor"@,
        ast::Stmt::While { .. } => "While"@,
        ast::Stmt::If { .. } => "If"@,
        ast::Stmt::With => "With"@,
        ast::Stmt::AsyncWith => "AsyncWith"@,
        ast::Stmt::Match => "Match"@,
        ast::Stmt::Raise => "Raise"@,
        ast::Stmt::Try => "Try"@,
        ast::Stmt::TryStar => "TryStar"@,
        ast::Stmt::Assert => "Assert"@,
        ast::Stmt::Import => "Import"@,
        ast::Stmt::ImportFrom { .. } => "ImportFrom"@,
        ast::Stmt::Global => "Global"@,
        ast::Stmt::Nonlocal => "Nonlocal"@,
        ast::Stmt::Expr(_) => "Expr"@,
        ast::Stmt::Pass => "Pass"@,
        ast::Stmt::Break => "Break"@,
        ast::Stmt::Continue => "Continue"@,
        ast::Stmt::TypeAlias => "TypeAlias"@,
    }
}

pub fn stmt_kind_name(s: &ast::Stmt) -> (r: &'static str)
    ensures
        r@ == stmt_kind(*s),
{
    match s {
        ast::Stmt::FunctionDef(_) => "FunctionDef",
        ast::Stmt::AsyncFunctionDef => "AsyncFunctionDef",
        ast::Stmt::ClassDef(_) => "ClassDef",
        ast::Stmt::Return(_) => "Return",
        ast::Stmt::Delete => "Delete",
        ast::Stmt::Assign { .. } => "Assign",
        ast::Stmt::AugAssign { .. } => "AugAssign",
        ast::Stmt::AnnAssign { .. } => "AnnAssign",
        ast::Stmt::For { .. } => "For",
        ast::Stmt::AsyncFor => "AsyncFor",
        ast::Stmt::While { .. } => "While",
        ast::Stmt::If { .. } => "If",
        ast::Stmt::With => "With",
        ast::Stmt::AsyncWith => "AsyncWith",
        ast::Stmt::Match => "Match",
        ast::Stmt::Raise => "Raise",
        ast::Stmt::Try => "Try",
        ast::Stmt::TryStar => "TryStar",
        ast::Stmt::Assert => "Assert",
        ast::Stmt::Import => "Import",
        ast::Stmt::ImportFrom { .. } => "ImportFrom",
        ast::Stmt::Global => "Global",
        ast::Stmt::Nonlocal => "Nonlocal",
        ast::Stmt::Expr(_) => "Expr",
        ast::Stmt::Pass => "Pass",
        ast::Stmt::Break => "Break",
        ast::Stmt::Continue => "Continue",
        ast::Stmt::TypeAlias => "TypeAlias",
    }
}

/// The name of an expression kind, as used in diagnostics.
pub open spec fn expr_kind(e: ast::Expr) -> Seq<char> {
    match e {
        ast::Expr::BoolOp { .. } => "BoolOp"@,
        ast::Expr::NamedExpr => "NamedExpr"@,
        ast::Expr::BinOp { .. } => "BinOp"@,
        ast::Expr::UnaryOp { .. } => "UnaryOp"@,
        ast::Expr::Lambda => "Lambda"@,
        ast::Expr::IfExp => "IfExp"@,
        ast::Expr::Dict { .. } => "Dict"@,
        ast::Expr::SetDisplay { .. } => "Set"@,
        ast::Expr::ListComp { .. } => "ListComp"@,
        ast::Expr::SetComp => "SetComp"@,
        ast::Expr::DictComp => "DictComp"@,
        ast::Expr::GeneratorExp => "GeneratorExp"@,
        ast::Expr::Await => "Await"@,
        ast::Expr::Yield => "Yield"@,
        ast::Expr::YieldFrom => "YieldFrom"@,
        ast::Expr::Compare { .. } => "Compare"@,
        ast::Expr::Call { .. } => "Call"@,
        ast::Expr::FormattedValue { .. } => "FormattedValue"@,
        ast::Expr::JoinedStr { .. } => "JoinedStr"@,
        ast::Expr::Constant(_) => "Constant"@,
        ast::Expr::Attribute { .. } => "Attribute"@,
        ast::Expr::Subscript { .. } => "Subscript"@,
        ast::Expr::Starred => "Starred"@,
        ast::Expr::Name(_) => "Name"@,
        ast::Expr::List(_) => "List"@,
        ast::Expr::Tuple(_) => "Tuple"@,
        ast::Expr::Slice { .. } => "Slice"@,
    }
}

pub fn expr_kind_name(e: &ast::Expr) -> (r: &'static str)
    ensures
        r@ == expr_kind(*e),
{
    match e {
        ast::Expr::BoolOp { .. } => "BoolOp",
        ast::Expr::NamedExpr => "NamedExpr",
        ast::Expr::BinOp { .. } => "BinOp",
        ast::Expr::UnaryOp { .. } => "UnaryOp",
        ast::Expr::Lambda => "Lambda",
        ast::Expr::IfExp => "IfExp",
        ast::Expr::Dict { .. } => "Dict",
        ast::Expr::SetDisplay { .. } => "Set",
        ast::Expr::ListComp { .. } => "ListComp",
        ast::Expr::SetComp => "SetComp",
        ast::Expr::DictComp => "DictComp",
        ast::Expr::GeneratorExp => "GeneratorExp",
        ast::Expr::Await => "Await",
        ast::Expr::Yield => "Yield",
        ast::Expr::YieldFrom => "YieldFrom",
        ast::Expr::Compare { .. } => "Compare",
        ast::Expr::Call { .. } => "Call",
        ast::Expr::FormattedValue { .. } => "FormattedValue",
        ast::Expr::JoinedStr { .. } => "JoinedStr",
        ast::Expr::Constant(_) => "Constant",
        ast::Expr::Attribute { .. } => "Attribute",
        ast::Expr::Subscript { .. } => "Subscript",
        ast::Expr::Starred => "Starred",
        ast::Expr::Name(_) => "Name",
        ast::Expr::List(_) => "List",
        ast::Expr::Tuple(_) => "Tuple",
        ast::Expr::Slice { .. } => "Slice",
    }
}


// ---------------------------------------------------------------------
// Lowering context
// ---------------------------------------------------------------------

/// The module-level tables the lowering of a body reads.
pub struct Env {
    pub sigs: SignatureTable,
    pub reg: Registry,
}

impl Env {
    pub open spec fn ok(&self, a: &Arena) -> bool {
        self.sigs.ok(a) && self.reg.ok(a)
    }
}

/// What lowering a body requires of its context.
pub open spec fn lower_pre(a: &Arena, scope: &Scope, env: &Env, cur: Option<ClassId>) -> bool {
    &&& a.wf()
    &&& scope.ok(a)
    &&& env.ok(a)
    &&& cur matches Some(c) ==> c.0 < a.classes@.len()
}

/// The context stays usable when the arena grows.
pub proof fn lemma_pre_mono(a0: &Arena, a1: &Arena, scope: &Scope, env: &Env, cur: Option<ClassId>)
    requires
        lower_pre(a0, scope, env, cur),
        a1.wf(),
        a1.extends(a0),
    ensures
        lower_pre(a1, scope, env, cur),
{
    lemma_scope_mono(scope, a0, a1);
    lemma_sigs_mono(&env.sigs, a0, a1);
    lemma_registry_mono(&env.reg, a0, a1);
}

// ---------------------------------------------------------------------
// Type annotations
// ---------------------------------------------------------------------

/// The built-in type an annotation name denotes.
pub open spec fn prim_annotation(n: Seq<char>) -> Option<Type> {
    if n == "int"@ {
        Some(Type::I64)
    } else if n == "float"@ {
        Some(Type::F64)
    } else if n == "bool"@ {
        Some(Type::Bool)
    } else if n == "str"@ {
        Some(Type::Str)
    } else if n == "i8"@ {
        Some(Type::I8)
    } else if n == "i16"@ {
        Some(Type::I16)
    } else if n == "i32"@ {
        Some(Type::I32)
    } else if n == "i64"@ {
        Some(Type::I64)
    } else {
        None
    }
}

fn prim_annotation_exec(n: &str) -> (r: Option<Type>)
    ensures
        r == prim_annotation(n@),
{
    proof {
        reveal_strlit("int");
        reveal_strlit("float");
        reveal_strlit("bool");
        reveal_strlit("str");
        reveal_strlit("i8");
        reveal_strlit("i16");
        reveal_strlit("i32");
        reveal_strlit("i64");
    }
    if str_eq(n, "int") {
        Some(Type::I64)
    } else if str_eq(n, "float") {
        Some(Type::F64)
    } else if str_eq(n, "bool") {
        Some(Type::Bool)
    } else if str_eq(n, "str") {
        Some(Type::Str)
    } else if str_eq(n, "i8") {
        Some(Type::I8)
    } else if str_eq(n, "i16") {
        Some(Type::I16)
    } else if str_eq(n, "i32") {
        Some(Type::I32)
    } else if str_eq(n, "i64") {
        Some(Type::I64)
    } else {
        None
    }
}

/// The type a simple-name annotation denotes: a built-in, else a class.
pub open spec fn name_annotation(reg: &Registry, n: Seq<char>) -> Option<Type> {
    match prim_annotation(n) {
        Some(t) => Some(t),
        None => match reg.lookup(n) {
            Some(c) => Some(Type::Class(c)),
            None => None,
        },
    }
}

/// The element annotations of `tuple[...]`: the entries of a tuple
/// subscript, or the subscript itself.
pub open spec fn tuple_parts(slice: ast::Expr) -> Seq<ast::Expr> {
    match slice {
        ast::Expr::Tuple(elts) => elts@,
        _ => seq![slice],
    }
}

/// Annotation `e` names `int` (or `i64`).
pub open spec fn int_annotation(reg: &Registry, e: ast::Expr) -> bool {
    e matches ast::Expr::Name(n) && name_annotation(reg, n@) == Some(Type::I64)
}

/// Annotation `e` is one that the checker accepts: a builtin or class
/// name, `tuple[T, ...]` / `tuple[T]`, `list[T]`, `dict[int, int]` or
/// `set[int]`, with accepted annotations inside.
pub open spec fn accepted_annotation(reg: &Registry, e: ast::Expr) -> bool
    decreases e,
{
    match e {
        ast::Expr::Name(n) => name_annotation(reg, n@) is Some,
        ast::Expr::Subscript { value, slice } => match *value {
            ast::Expr::Name(h) => if h@ == "tuple"@ {
                match *slice {
                    ast::Expr::Tuple(elts) => forall|i: int| 0 <= i < elts@.len() ==> accepted_annotation(reg, #[trigger] elts@[i]),
                    other => accepted_annotation(reg, other),
                }
            } else if h@ == "list"@ {
                accepted_annotation(reg, *slice)
            } else if h@ == "dict"@ {
                match *slice {
                    ast::Expr::Tuple(elts) => elts@.len() == 2 && int_annotation(reg, elts@[0]) && int_annotation(reg, elts@[1]),
                    _ => false,
                }
            } else if h@ == "set"@ {
                int_annotation(reg, *slice)
            } else {
                false
            },
            _ => false,
        },
        _ => false,
    }
}

/// Type `t` of arena `a` is the one that annotation `e` writes.
pub open spec fn denotes(reg: &Registry, a: &Arena, e: ast::Expr, t: Type) -> bool
    decreases e,
{
    match e {
        ast::Expr::Name(n) => name_annotation(reg, n@) == Some(t),
        ast::Expr::Subscript { value, slice } => match *value {
            ast::Expr::Name(h) => if h@ == "tuple"@ {
                match t {
                    Type::Tuple(id) => match *slice {
                        ast::Expr::Tuple(elts) => id.spec_elems(a).len() == elts@.len()
                            && forall|i: int| 0 <= i < elts@.len() ==> denotes(reg, a, #[trigger] elts@[i], id.spec_elems(a)[i]),
                        other => id.spec_elems(a).len() == 1 && denotes(reg, a, other, id.spec_elems(a)[0]),
                    },
                    _ => false,
                }
            } else if h@ == "list"@ {
                t matches Type::List(id) && denotes(reg, a, *slice, id.spec_elem(a))
            } else if h@ == "dict"@ {
                t matches Type::Dict(id) && id.spec_key(a) == Type::I64 && id.spec_val(a) == Type::I64
            } else if h@ == "set"@ {
                t matches Type::SetOf(id) && id.spec_elem(a) == Type::I64
            } else {
                false
            },
            _ => false,
        },
        _ => false,
    }
}

/// What an annotation denotes stays so when the arena grows.
pub proof fn lemma_denotes_mono(reg: &Registry, a1: &Arena, a2: &Arena, e: ast::Expr, t: Type)
    requires
        a2.extends(a1),
        a1.valid(t),
        a1.wf(),
        denotes(reg, a1, e, t),
    ensures
        denotes(reg, a2, e, t),
    decreases e,
{
    match e {
        ast::Expr::Subscript { value, slice } => match *value {
            ast::Expr::Name(h) => {
                match t {
                    Type::Tuple(id) => {
                        assert(a2.compounds@[id.0 as int] == a1.compounds@[id.0 as int]);
                        if h@ == "tuple"@ {
                            lemma_components_valid(a1, t);
                            match *slice {
                                ast::Expr::Tuple(elts) => {
                                    assert forall|i: int| 0 <= i < elts@.len() implies denotes(reg, a2, #[trigger] elts@[i], id.spec_elems(a2)[i]) by {
                                        lemma_denotes_mono(reg, a1, a2, elts@[i], id.spec_elems(a1)[i]);
                                    }
                                },
                                other => {
                                    lemma_denotes_mono(reg, a1, a2, other, id.spec_elems(a1)[0]);
                                },
                            }
                        }
                    },
                    Type::List(id) => {
                        assert(a2.compounds@[id.0 as int] == a1.compounds@[id.0 as int]);
                        if h@ == "list"@ {
                            lemma_components_valid(a1, t);
                            lemma_denotes_mono(reg, a1, a2, *slice, id.spec_elem(a1));
                        }
                    },
                    Type::Dict(id) => {
                        assert(a2.compounds@[id.0 as int] == a1.compounds@[id.0 as int]);
                    },
                    Type::SetOf(id) => {
                        assert(a2.compounds@[id.0 as int] == a1.compounds@[id.0 as int]);
                    },
                    _ => {},
                }
            },
            _ => {},
        },
        _ => {},
    }
}

/// The type written by an annotation expression; compound types are
/// interned into the arena.
#[verifier::loop_isolation(false)]
fn annotation_type(e: &ast::Expr, reg: &Registry, arena: &mut Arena) -> (r: Option<Type>)
    requires
        old(arena).wf(),
        reg.ok(old(arena)),
    ensures
        final(arena).wf(),
        final(arena).extends(old(arena)),
        r matches Some(t) ==> final(arena).valid(t),
        e matches ast::Expr::Name(n) ==> r == name_annotation(reg, n@),
        final(arena).classes@ == old(arena).classes@,
        !(e is Name || e is Subscript) ==> r is None,
        r matches Some(t) ==> (e is Subscript ==> (t is Tuple || t is List || t is Dict || t is SetOf)),
        r matches Some(Type::Dict(id)) ==> id.spec_key(final(arena)) == Type::I64 && id.spec_val(final(arena)) == Type::I64,
        r matches Some(Type::SetOf(id)) ==> id.spec_elem(final(arena)) == Type::I64,
        r is Some <==> accepted_annotation(reg, *e),
        r matches Some(t) ==> denotes(reg, final(arena), *e, t),
    decreases e,
{
    match e {
        ast::Expr::Name(n) => {
            match prim_annotation_exec(n.as_str()) {
                Some(t) => Some(t),
                None => match reg.get(arena, n.as_str()) {
                    Some(c) => Some(Type::Class(c)),
                    None => None,
                },
            }
        },
        ast::Expr::Subscript { value, slice } => {
            let head = match &**value {
                ast::Expr::Name(n) => n,
                _ => return None,
            };
            proof {
                reveal_strlit("tuple");
                reveal_strlit("list");
                reveal_strlit("dict");
                reveal_strlit("set");
            }
            if str_eq(head.as_str(), "tuple") {
                let mut elems: Vec<Type> = Vec::new();
                match &**slice {
                    ast::Expr::Tuple(elts) => {
                        let mut i: usize = 0;
                        while i < elts.len()
                            invariant
                                0 <= i <= elts@.len(),
                                arena.wf(),
                                arena.extends(old(arena)),
                                arena.classes@ == old(arena).classes@,
                                reg.ok(arena),
                                arena.all_valid(elems@),
                                elems@.len() == i,
                                forall|j: int| 0 <= j < i ==> accepted_annotation(reg, #[trigger] elts@[j]),
                                forall|j: int| 0 <= j < i ==> denotes(reg, arena, #[trigger] elts@[j], elems@[j]),
                            decreases elts.len() - i,
                        {
                            let ghost before = *arena;
                            let t = annotation_type(&elts[i], reg, arena)?;
                            proof {
                                Arena::lemma_extends_trans(old(arena), &before, arena);
                                assert forall|j: int| 0 <= j < elems@.len() implies arena.valid(#[trigger] elems@[j]) by {
                                    arena.lemma_valid_mono(&before, elems@[j]);
                                }
                                assert forall|j: int| 0 <= j < i implies denotes(reg, arena, #[trigger] elts@[j], elems@[j]) by {
                                    lemma_denotes_mono(reg, &before, arena, elts@[j], elems@[j]);
                                }
                            }
                            elems.push(t);
                            i += 1;
                        }
                    },
                    single => {
                        let t = annotation_type(single, reg, arena)?;
                        elems.push(t);
                    },
                }
                let ghost before = *arena;
                let ghost es = elems@;
                let id = TupleId::intern(arena, elems);
                proof {
                    Arena::lemma_extends_trans(old(arena), &before, arena);
                    match &**slice {
                        ast::Expr::Tuple(elts) => {
                            assert forall|j: int| 0 <= j < elts@.len() implies denotes(reg, arena, #[trigger] elts@[j], id.spec_elems(arena)[j]) by {
                                lemma_denotes_mono(reg, &before, arena, elts@[j], es[j]);
                            }
                        },
                        other => {
                            lemma_denotes_mono(reg, &before, arena, *other, es[0]);
                        },
                    }
                }
                Some(Type::Tuple(id))
            } else if str_eq(head.as_str(), "list") {
                let elem = annotation_type(slice, reg, arena)?;
                let ghost before = *arena;
                let id = ListId::intern(arena, elem);
                proof {
                    Arena::lemma_extends_trans(old(arena), &before, arena);
                    lemma_denotes_mono(reg, &before, arena, **slice, elem);
                }
                Some(Type::List(id))
            } else if str_eq(head.as_str(), "dict") {
                match &**slice {
                    ast::Expr::Tuple(elts) => {
                        if elts.len() != 2 {
                            return None;
                        }
                        let ghost a1 = *arena;
                        let k = annotation_type(&elts[0], reg, arena)?;
                        let ghost a2 = *arena;
                        proof { lemma_registry_mono(reg, &a1, &a2); }
                        let v = annotation_type(&elts[1], reg, arena)?;
                        proof { Arena::lemma_extends_trans(old(arena), &a2, arena); }
                        if k != Type::I64 || v != Type::I64 {
                            return None;
                        }
                        let ghost before = *arena;
                        let id = DictId::intern(arena, k, v);
                        proof { Arena::lemma_extends_trans(old(arena), &before, arena); }
                        Some(Type::Dict(id))
                    },
                    _ => None,
                }
            } else if str_eq(head.as_str(), "set") {
                let elem = annotation_type(slice, reg, arena)?;
                if elem != Type::I64 {
                    return None;
                }
                let ghost before = *arena;
                let id = SetId::intern(arena, elem);
                proof { Arena::lemma_extends_trans(old(arena), &before, arena); }
                Some(Type::SetOf(id))
            } else {
                None
            }
        },
        _ => None,
    }
}

/// The type written by an optional annotation: `None` when it is absent
/// or not one the checker accepts ([`accepted_annotation`]); otherwise the
/// type it [`denotes`], with its compound parts interned into the arena.
pub fn parse_type_annotation(ann: Option<&ast::Expr>, reg: &Registry, arena: &mut Arena) -> (r: Option<Type>)
    requires
        old(arena).wf(),
        reg.ok(old(arena)),
    ensures
        final(arena).wf(),
        final(arena).extends(old(arena)),
        r matches Some(t) ==> final(arena).valid(t),
        ann is None ==> r is None,
        ann matches Some(ast::Expr::Name(n)) ==> r == name_annotation(reg, n@),
        final(arena).classes@ == old(arena).classes@,
        ann matches Some(x) ==> (r is Some <==> accepted_annotation(reg, *x)),
        ann matches Some(x) ==> (r matches Some(t) ==> denotes(reg, final(arena), *x, t)),
        r matches Some(Type::Dict(id)) ==> id.spec_key(final(arena)) == Type::I64 && id.spec_val(final(arena)) == Type::I64,
        r matches Some(Type::SetOf(id)) ==> id.spec_elem(final(arena)) == Type::I64,
{
    match ann {
        Some(e) => annotation_type(e, reg, arena),
        None => None,
    }
}

/// Reject a syntactic negative literal in an index/bound position.
pub fn reject_negative_index_expr(e: Option<&ast::Expr>, what: &str) -> (r: Result<(), CompileError>)
    ensures
        r is Err <==> (e matches Some(ast::Expr::UnaryOp { op: ast::UnaryOp::USub, .. })),
        r matches Err(m) ==> m.message@ == unsup("negative "@ + what@ + " (`"@ + "-..."@
            + "`) is not supported (Python negative-indexing is deferred)"@),
{
    if let Some(ast::Expr::UnaryOp { op: ast::UnaryOp::USub, .. }) = e {
        return fail(msg5("negative ", what, " (`", "-...", "`) is not supported (Python negative-indexing is deferred)"));
    }
    Ok(())
}

/// Two's-complement negation (wraps at the minimum).
pub open spec fn wrapping_neg(v: i64) -> i64 {
    if v == i64::MIN { v } else { (-v) as i64 }
}

/// The value of a default-argument expression: an int or bool literal,
/// possibly under unary `+` / `-`.
pub open spec fn default_value(e: ast::Expr) -> Result<TypedExpr, Seq<char>>
    decreases e,
{
    match e {
        ast::Expr::Constant(ast::Constant::Int(Some(v))) => Ok(TypedExpr { ty: Type::I64, expr: Expr::ConstI64(v) }),
        ast::Expr::Constant(ast::Constant::Int(None)) => Err("integer literal does not fit in i64"@),
        ast::Expr::Constant(ast::Constant::Bool(b)) => Ok(TypedExpr { ty: Type::Bool, expr: Expr::ConstBool(b) }),
        ast::Expr::Constant(_) => Err("only integer or bool literals are allowed as defaults"@),
        ast::Expr::UnaryOp { op: ast::UnaryOp::USub, operand } => match default_value(*operand) {
            Ok(inner) => match inner.expr {
                Expr::ConstI64(v) => Ok(TypedExpr { ty: Type::I64, expr: Expr::ConstI64(wrapping_neg(v)) }),
                _ => Err("only integer literals are allowed as defaults"@),
            },
            Err(m) => Err(m),
        },
        ast::Expr::UnaryOp { op: ast::UnaryOp::UAdd, operand } => default_value(*operand),
        _ => Err("only integer literals are allowed as defaults"@),
    }
}

/// A default value is an `int` or `bool` constant.
pub proof fn lemma_default_const(e: ast::Expr)
    ensures
        default_value(e) matches Ok(y) ==> (y.ty == Type::I64 && y.expr is ConstI64) || (y.ty == Type::Bool && y.expr is ConstBool),
    decreases e,
{
    match e {
        ast::Expr::UnaryOp { operand, .. } => { lemma_default_const(*operand); },
        _ => {},
    }
}

/// Lower a default-argument expression.
pub fn lower_default(e: &ast::Expr) -> (r: Result<TypedExpr, String>)
    ensures
        match (r, default_value(*e)) {
            (Ok(x), Ok(y)) => x == y,
            (Err(m), Err(s)) => m@ == s,
            _ => false,
        },
    decreases e,
{
    match e {
        ast::Expr::Constant(c) => match c {
            ast::Constant::Int(Some(v)) => Ok(TypedExpr::new(Type::I64, Expr::ConstI64(*v))),
            ast::Constant::Int(None) => Err(String::from_str("integer literal does not fit in i64")),
            ast::Constant::Bool(b) => Ok(TypedExpr::new(Type::Bool, Expr::ConstBool(*b))),
            _ => Err(String::from_str("only integer or bool literals are allowed as defaults")),
        },
        ast::Expr::UnaryOp { op: ast::UnaryOp::USub, operand } => {
            let inner = lower_default(operand)?;
            match inner.expr {
                Expr::ConstI64(v) => {
                    let n = if v == i64::MIN { v } else { -v };
                    Ok(TypedExpr::new(Type::I64, Expr::ConstI64(n)))
                },
                _ => Err(String::from_str("only integer literals are allowed as defaults")),
            }
        },
        ast::Expr::UnaryOp { op: ast::UnaryOp::UAdd, operand } => lower_default(operand),
        _ => Err(String::from_str("only integer literals are allowed as defaults")),
    }
}

} // verus!

pub mod expr;
pub mod stmt;
pub mod module;
pub use self::module::{lower, SourceModule};
