//! Module-level lowering: class and function signatures, function and
//! method bodies, sibling-module imports, and the whole-program entry
//! point [`lower`].

use vstd::prelude::*;
use vstd::string::StringSliceAdditionalSpecFns;
use crate::ast;
use crate::hir::{
    display_name, first_named, lemma_parent_valid, Arena, ClassDef, ClassId, Expr, Function, Param, Program, Stmt, Type,
    TypedExpr,
};
use crate::text::{str_eq, u64_to_string, concat2, concat3, decimal};
use crate::typing::{expr_valid, stmts_valid, lemma_stmts_valid_mono};
use crate::check::{
    always_returns, assoc, block_always_returns, coerce, fail, lemma_pre_mono, lemma_registry_mono,
    lemma_sigs_mono, lower_default, lower_pre, msg1, msg2, msg3, msg4, msg5, msg7,
    parse_type_annotation, prim_annotation, reject_abstract_type, stmt_kind_name, stmt_kind, CompileError, Env, FunctionSig,
    unsup, Registry, Scope, SignatureTable,
};
use crate::check::stmt::{int_return, int_return_block, lower_block, jumps_ok, returns_typed, all_pass, head_rejection};
use crate::check::coerce_post;
use crate::check::stmt::{simple_body, simple_lowered};
use crate::check::expr::scope_bind;

verus! {

/// The most parameters a top-level function may declare.
pub const MAX_PARAMS: usize = 16;

/// A sibling module that an import may name: its path as the importing
/// module computes it (see [`module_candidate_path`]) and its syntax tree.
pub struct SourceModule {
    pub path: String,
    pub module: ast::Module,
}

/// A lowered function: its types are valid, its body is valid and
/// returns on every path, and `break` / `continue` occur only in loops.
pub open spec fn function_ok(a: &Arena, f: Function) -> bool {
    &&& a.valid(f.return_ty)
    &&& forall|i: int| 0 <= i < f.params@.len() ==> a.valid(#[trigger] f.params@[i].ty)
    &&& stmts_valid(a, f.body@)
    &&& always_returns(f.body@)
    &&& jumps_ok(f.body@)
}

/// A type `main` may return.
pub open spec fn main_return_ok(t: Type) -> bool {
    t == Type::I64 || t == Type::F64 || t == Type::Str
}

/// A type a `main` parameter may have (read from the command line).
pub open spec fn main_param_ok(t: Type) -> bool {
    t == Type::I64 || t == Type::F64
}

/// What the lowering guarantees of a whole program, and what the IR
/// emitter relies on.
pub open spec fn program_ok(p: &Program) -> bool {
    &&& p.arena.wf()
    &&& forall|i: int| 0 <= i < p.functions@.len() ==> function_ok(&p.arena, #[trigger] p.functions@[i])
    &&& p.has_main()
    &&& main_return_ok(p.spec_main().return_ty)
    &&& forall|i: int| 0 <= i < p.spec_main().params@.len() ==> main_param_ok(#[trigger] p.spec_main().params@[i].ty)
}

proof fn lemma_function_ok_mono(a: &Arena, b: &Arena, f: Function)
    requires
        function_ok(a, f),
        b.extends(a),
    ensures
        function_ok(b, f),
{
    b.lemma_valid_mono(a, f.return_ty);
    assert forall|i: int| 0 <= i < f.params@.len() implies b.valid(#[trigger] f.params@[i].ty) by {
        b.lemma_valid_mono(a, f.params@[i].ty);
    }
    lemma_stmts_valid_mono(a, b, f.body@);
}

proof fn lemma_functions_mono(a: &Arena, b: &Arena, fs: Seq<Function>)
    requires
        forall|i: int| 0 <= i < fs.len() ==> function_ok(a, #[trigger] fs[i]),
        b.extends(a),
    ensures
        forall|i: int| 0 <= i < fs.len() ==> function_ok(b, #[trigger] fs[i]),
{
    assert forall|i: int| 0 <= i < fs.len() implies function_ok(b, #[trigger] fs[i]) by {
        lemma_function_ok_mono(a, b, fs[i]);
    }
}

/// A copy of a parameter list.
fn copy_params(v: &Vec<Param>) -> (r: Vec<Param>)
    ensures
        r@.len() == v@.len(),
        forall|i: int| 0 <= i < v@.len() ==> (#[trigger] r@[i]).ty == v@[i].ty && r@[i].name@ == v@[i].name@,
{
    let mut out: Vec<Param> = Vec::new();
    let mut i: usize = 0;
    while i < v.len()
        invariant
            0 <= i <= v@.len(),
            out@.len() == i,
            forall|j: int| 0 <= j < i ==> (#[trigger] out@[j]).ty == v@[j].ty && out@[j].name@ == v@[j].name@,
        decreases v.len() - i,
    {
        out.push(Param { name: v[i].name.clone(), ty: v[i].ty });
        i += 1;
    }
    out
}

/// The type the last parameter named `n` has, if any.
pub open spec fn param_binding(ps: Seq<Param>, n: Seq<char>) -> Option<Type>
    decreases ps.len(),
{
    if ps.len() == 0 {
        None
    } else if ps.last().name@ == n {
        Some(ps.last().ty)
    } else {
        param_binding(ps.drop_last(), n)
    }
}

/// The scope binding each parameter to its type.
fn params_scope(params: &Vec<Param>, arena: &Arena) -> (r: Scope)
    requires
        forall|i: int| 0 <= i < params@.len() ==> arena.valid(#[trigger] params@[i].ty),
    ensures
        r.ok(arena),
        forall|n: Seq<char>| #[trigger] r.lookup(n) == param_binding(params@, n),
{
    let mut s = Scope::new();
    let mut i: usize = 0;
    proof {
        assert forall|n: Seq<char>| #[trigger] s.lookup(n) == param_binding(params@.subrange(0, 0), n) by {}
    }
    while i < params.len()
        invariant
            0 <= i <= params@.len(),
            s.ok(arena),
            forall|j: int| 0 <= j < params@.len() ==> arena.valid(#[trigger] params@[j].ty),
            forall|n: Seq<char>| #[trigger] s.lookup(n) == param_binding(params@.subrange(0, i as int), n),
        decreases params.len() - i,
    {
        let ghost before = s;
        s.insert(arena, params[i].name.clone(), params[i].ty);
        proof {
            let sub = params@.subrange(0, i + 1);
            assert(sub.drop_last() =~= params@.subrange(0, i as int));
            assert forall|n: Seq<char>| #[trigger] s.lookup(n) == param_binding(sub, n) by {
                if n != params@[i as int].name@ {
                    assert(s.lookup(n) == before.lookup(n));
                }
            }
        }
        i += 1;
    }
    assert(params@.subrange(0, params@.len() as int) =~= params@);
    s
}

fn contains_name(v: &Vec<String>, name: &str) -> (r: bool)
    ensures
        r == exists|j: int| 0 <= j < v@.len() && (#[trigger] v@[j])@ == name@,
{
    let mut i: usize = 0;
    while i < v.len()
        invariant
            0 <= i <= v@.len(),
            forall|j: int| 0 <= j < i ==> (#[trigger] v@[j])@ != name@,
        decreases v.len() - i,
    {
        if str_eq(v[i].as_str(), name) {
            return true;
        }
        i += 1;
    }
    false
}

fn usize_str(n: usize) -> (r: String)
    ensures
        r@ == decimal(n as nat),
{
    u64_to_string(n as u64)
}

/// The type an annotation names when it is a builtin type name (`int`,
/// `float`, `bool`, `str`, `i8` ... `i64`).
pub open spec fn builtin_annotation(ann: Option<ast::Expr>) -> Option<Type> {
    match ann {
        Some(ast::Expr::Name(n)) => prim_annotation(n@),
        _ => None,
    }
}

/// A signature of plain positional parameters with distinct names, no
/// defaults and builtin types only, and a builtin return type.
pub open spec fn plain_signature(f: ast::FunctionDef) -> bool {
    &&& f.args.posonlyargs@.len() == 0
    &&& f.args.kwonlyargs@.len() == 0
    &&& !f.args.vararg
    &&& !f.args.kwarg
    &&& f.decorator_list@.len() == 0
    &&& f.args.args@.len() <= MAX_PARAMS
    &&& forall|i: int| 0 <= i < f.args.args@.len() ==> (builtin_annotation((#[trigger] f.args.args@[i]).annotation) is Some
            && f.args.args@[i].default is None)
    &&& forall|i: int, j: int| 0 <= i < j < f.args.args@.len() ==> (#[trigger] f.args.args@[i]).name@ != (#[trigger] f.args.args@[j]).name@
    &&& builtin_annotation(f.returns) is Some
}

/// The diagnostic with which [`collect_signature`] refuses a function by
/// the shape of its parameter list and decorators alone; `None` where the
/// shape is accepted.
pub open spec fn signature_form_error(f: ast::FunctionDef) -> Option<Seq<char>> {
    if f.args.posonlyargs@.len() != 0 || f.args.kwonlyargs@.len() != 0 {
        Some(unsup("positional-only and keyword-only parameters are not supported (in `"@ + f.name@ + "`)"@))
    } else if f.args.vararg || f.args.kwarg {
        Some(unsup("*args / **kwargs are not supported (in `"@ + f.name@ + "`)"@))
    } else if f.decorator_list@.len() != 0 {
        Some(unsup("decorators are not supported (in `"@ + f.name@ + "`)"@))
    } else if f.args.args@.len() > MAX_PARAMS {
        Some(unsup("at most "@ + decimal(MAX_PARAMS as nat) + " parameters supported, found "@
            + decimal(f.args.args@.len()) + " (in `"@ + f.name@ + "`)"@))
    } else {
        None
    }
}

/// The diagnostic with which [`collect_method_signature`] refuses a
/// method by the shape of its parameter list and decorators alone; `None`
/// where the shape is accepted.
pub open spec fn method_form_error(f: ast::FunctionDef) -> Option<Seq<char>> {
    if f.args.posonlyargs@.len() != 0 || f.args.kwonlyargs@.len() != 0 {
        Some(unsup("method `"@ + f.name@ + "` may not use positional-only / keyword-only params"@))
    } else if f.args.vararg || f.args.kwarg {
        Some(unsup("method `"@ + f.name@ + "` may not use *args / **kwargs"@))
    } else if f.decorator_list@.len() != 0 {
        Some(unsup("method decorators not yet supported (on `"@ + f.name@ + "`)"@))
    } else if f.args.args@.len() == 0 {
        Some(unsup("method `"@ + f.name@ + "` must take `self` as its first parameter"@))
    } else if f.args.args@[0].name@ != "self"@ {
        Some(unsup("method `"@ + f.name@ + "` first parameter must be named `self`"@))
    } else if f.args.args@[0].annotation is Some {
        Some(unsup("don't annotate `self` (it's implicit) (on `"@ + f.name@ + "`)"@))
    } else {
        None
    }
}

/// The checked signature of a top-level function: annotated, distinct
/// parameters (at most [`MAX_PARAMS`]), a return annotation, and
/// literal defaults converted to their parameter's type.
#[verifier::loop_isolation(false)]
pub fn collect_signature(func: &ast::FunctionDef, reg: &Registry, arena: &mut Arena) -> (r: Result<FunctionSig, CompileError>)
    requires
        old(arena).wf(),
        reg.ok(old(arena)),
    ensures
        final(arena).wf(),
        final(arena).extends(old(arena)),
        r matches Ok(s) ==> s.ok(final(arena)) && s.params@.len() == func.args.args@.len()
            && forall|i: int| 0 <= i < s.params@.len() ==> (#[trigger] s.params@[i]).name@ == func.args.args@[i].name@,
        plain_signature(*func) ==> (r matches Ok(s)
            && s.return_ty == builtin_annotation(func.returns)->0
            && (forall|i: int| 0 <= i < s.params@.len() ==> (#[trigger] s.params@[i]).ty
                == builtin_annotation(func.args.args@[i].annotation)->0)
            && (forall|i: int| 0 <= i < s.defaults@.len() ==> (#[trigger] s.defaults@[i]) is None)),
        signature_form_error(*func) matches Some(m) ==> (r matches Err(e) && e.message@ == m),
        r matches Ok(s) ==> forall|i: int, j: int| 0 <= i < j < s.params@.len()
            ==> (#[trigger] s.params@[i]).name@ != (#[trigger] s.params@[j]).name@,
        r matches Ok(s) ==> defaults_at_end(s.defaults@, func.args.args@),
{
    proof { Arena::lemma_extends_refl(arena); }
    let ghost a0 = *arena;
    let fname = func.name.as_str();
    if func.args.posonlyargs.len() != 0 || func.args.kwonlyargs.len() != 0 {
        return fail(msg3("positional-only and keyword-only parameters are not supported (in `", fname, "`)"));
    }
    if func.args.vararg || func.args.kwarg {
        return fail(msg3("*args / **kwargs are not supported (in `", fname, "`)"));
    }
    if func.decorator_list.len() != 0 {
        return fail(msg3("decorators are not supported (in `", fname, "`)"));
    }
    let args = &func.args.args;
    if args.len() > MAX_PARAMS {
        let m = usize_str(MAX_PARAMS);
        let n = usize_str(args.len());
        return fail(msg7("at most ", m.as_str(), " parameters supported, found ", n.as_str(), " (in `", fname, "`)"));
    }
    let mut params: Vec<Param> = Vec::new();
    let mut seen: Vec<String> = Vec::new();
    let mut i: usize = 0;
    while i < args.len()
        invariant
            0 <= i <= args@.len(),
            arena.wf(),
            arena.extends(&a0),
            reg.ok(arena),
            params@.len() == i,
            forall|j: int| 0 <= j < i ==> arena.valid(#[trigger] params@[j].ty),
            forall|j: int| 0 <= j < i ==> (#[trigger] params@[j]).name@ == args@[j].name@,
            seen@.len() == i,
            forall|j: int| 0 <= j < i ==> (#[trigger] seen@[j])@ == args@[j].name@,
            forall|a: int, b: int| 0 <= a < b < i ==> (#[trigger] seen@[a])@ != (#[trigger] seen@[b])@,
            plain_signature(*func) ==> forall|j: int| 0 <= j < i ==> (#[trigger] params@[j]).ty
                == builtin_annotation(args@[j].annotation)->0,
        decreases args.len() - i,
    {
        let name = &args[i].name;
        proof {
            if plain_signature(*func) {
                assert forall|j: int| 0 <= j < seen@.len() implies (#[trigger] seen@[j])@ != name@ by {
                    assert(args@[j].name@ != args@[i as int].name@);
                }
            }
        }
        if contains_name(&seen, name.as_str()) {
            return fail(msg5("duplicate parameter name `", name.as_str(), "` (in `", fname, "`)"));
        }
        let ghost s_before = seen@;
        seen.push(name.clone());
        proof {
            assert forall|a: int, b: int| 0 <= a < b < seen@.len() implies (#[trigger] seen@[a])@ != (#[trigger] seen@[b])@ by {
                if b < s_before.len() {
                    assert(seen@[a] == s_before[a] && seen@[b] == s_before[b]);
                } else {
                    assert(seen@[a] == s_before[a]);
                    assert(seen@[b]@ == name@);
                }
            }
        }
        let ghost a1 = *arena;
        let ann: Option<&ast::Expr> = match &args[i].annotation {
            Some(x) => Some(x),
            None => None,
        };
        let ty = parse_type_annotation(ann, reg, arena);
        proof {
            Arena::lemma_extends_trans(&a0, &a1, arena);
            assert forall|j: int| 0 <= j < i implies arena.valid(#[trigger] params@[j].ty) by {
                arena.lemma_valid_mono(&a1, params@[j].ty);
            }
        }
        let ty = match ty {
            Some(t) => t,
            None => {
                return fail(msg5("parameter `", name.as_str(), "` must be annotated `: int` (in `", fname, "`)"));
            },
        };
        reject_abstract_type(arena, ty, "function parameter type")?;
        params.push(Param { name: name.clone(), ty });
        i += 1;
    }
    let ghost a1 = *arena;
    let ret = match &func.returns {
        Some(x) => Some(x),
        None => None,
    };
    let return_ty = parse_type_annotation(ret, reg, arena);
    proof {
        Arena::lemma_extends_trans(&a0, &a1, arena);
        assert forall|j: int| 0 <= j < params@.len() implies arena.valid(#[trigger] params@[j].ty) by {
            arena.lemma_valid_mono(&a1, params@[j].ty);
        }
    }
    let return_ty = match return_ty {
        Some(t) => t,
        None => {
            return fail(msg3("function `", fname, "` requires a return annotation `-> int`"));
        },
    };
    reject_abstract_type(arena, return_ty, "function return type")?;
    let n = params.len();
    let mut n_defaulted: usize = 0;
    let mut i: usize = 0;
    while i < args.len()
        invariant
            0 <= i <= args@.len(),
            n_defaulted <= i,
            n_defaulted == count_defaults(args@.take(i as int)),
            plain_signature(*func) ==> n_defaulted == 0,
        decreases args.len() - i,
    {
        proof { assert(args@.take(i + 1).drop_last() == args@.take(i as int)); }
        if args[i].default.is_some() {
            n_defaulted += 1;
        }
        i += 1;
    }
    proof { assert(args@.take(args@.len() as int) == args@); }
    let n_required = n - n_defaulted;
    let mut defaults: Vec<Option<TypedExpr>> = Vec::new();
    let mut i: usize = 0;
    while i < n
        invariant
            0 <= i <= n,
            defaults@.len() == i,
            forall|j: int| 0 <= j < i ==> (#[trigger] defaults@[j]) is None,
        decreases n - i,
    {
        defaults.push(None);
        i += 1;
    }
    let mut k: usize = 0;
    let mut i: usize = 0;
    while i < args.len()
        invariant
            0 <= i <= args@.len(),
            n == params@.len(),
            n == args@.len(),
            n_required + n_defaulted == n,
            k <= i,
            k <= n_defaulted,
            n_defaulted == count_defaults(args@),
            k == count_defaults(args@.take(i as int)),
            forall|j: int| 0 <= j < n ==> ((#[trigger] defaults@[j]) is Some <==> n_required <= j < n_required + k),
            defaults@.len() == n,
            arena.wf(),
            forall|j: int| 0 <= j < n ==> (#[trigger] defaults@[j] matches Some(d) ==> expr_valid(arena, d) && d.ty == params@[j].ty),
            forall|j: int| 0 <= j < n ==> arena.valid(#[trigger] params@[j].ty),
            forall|j: int| 0 <= j < n ==> (#[trigger] params@[j]).name@ == args@[j].name@,
            plain_signature(*func) ==> forall|j: int| 0 <= j < n ==> (#[trigger] defaults@[j]) is None,
        decreases args.len() - i,
    {
        proof { assert(args@.take(i + 1).drop_last() == args@.take(i as int)); }
        if let Some(raw) = &args[i].default {
            if k >= n_defaulted {
                return fail(msg1("inconsistent default count"));
            }
            let idx = n_required + k;
            let lowered = match lower_default(raw) {
                Ok(x) => x,
                Err(m) => {
                    let tail = concat2("`): ", m.as_str());
                    return fail(msg5("default for parameter `", params[idx].name.as_str(), "` (in `", fname, tail.as_str()));
                },
            };
            proof {
                crate::check::lemma_default_const(*raw);
                assert(crate::check::default_value(*raw) matches Ok(y) && y == lowered);
                assert(expr_valid(arena, lowered));
            }
            let c = coerce(arena, lowered, params[idx].ty)?;
            defaults.set(idx, Some(c));
            k += 1;
        }
        i += 1;
    }
    proof {
        assert(args@.take(args@.len() as int) == args@);
        assert forall|a: int, b: int| 0 <= a < b < params@.len()
            implies (#[trigger] params@[a]).name@ != (#[trigger] params@[b]).name@ by {
            assert(seen@[a]@ == args@[a].name@ && seen@[b]@ == args@[b].name@);
        }
    }
    Ok(FunctionSig { params, defaults, return_ty })
}

/// How many of `args` carry a default value.
pub open spec fn count_defaults(args: Seq<ast::Arg>) -> nat
    decreases args.len(),
{
    if args.len() == 0 {
        0
    } else {
        count_defaults(args.drop_last()) + (if args.last().default is Some { 1nat } else { 0nat })
    }
}

/// The defaults of a signature for parameters `args`: one slot per
/// parameter, filled exactly for the last `count_defaults(args)` of them.
pub open spec fn defaults_at_end(defaults: Seq<Option<TypedExpr>>, args: Seq<ast::Arg>) -> bool {
    &&& defaults.len() == args.len()
    &&& forall|j: int| 0 <= j < defaults.len()
        ==> ((#[trigger] defaults[j]) is Some <==> j >= defaults.len() - count_defaults(args))
}

/// A method `def m(self) -> <builtin type>` with nothing else in its
/// signature.
pub open spec fn plain_method(f: ast::FunctionDef) -> bool {
    &&& f.args.posonlyargs@.len() == 0
    &&& f.args.kwonlyargs@.len() == 0
    &&& !f.args.vararg
    &&& !f.args.kwarg
    &&& f.decorator_list@.len() == 0
    &&& f.args.args@.len() >= 1
    &&& f.args.args@[0].name@ == "self"@
    &&& f.args.args@[0].annotation is None
    &&& f.args.args@[0].default is None
    &&& forall|i: int| 1 <= i < f.args.args@.len() ==> (builtin_annotation((#[trigger] f.args.args@[i]).annotation) is Some
            && f.args.args@[i].default is None)
    &&& forall|i: int, j: int| 0 <= i < j < f.args.args@.len() ==> (#[trigger] f.args.args@[i]).name@ != (#[trigger] f.args.args@[j]).name@
    &&& builtin_annotation(f.returns) is Some
}

/// A method with only `self` and a builtin return annotation.
pub open spec fn self_only_method(f: ast::FunctionDef) -> bool {
    &&& f.args.posonlyargs@.len() == 0
    &&& f.args.kwonlyargs@.len() == 0
    &&& !f.args.vararg
    &&& !f.args.kwarg
    &&& f.decorator_list@.len() == 0
    &&& f.args.args@.len() == 1
    &&& f.args.args@[0].name@ == "self"@
    &&& f.args.args@[0].annotation is None
    &&& f.args.args@[0].default is None
    &&& builtin_annotation(f.returns) is Some
}

/// The checked signature of a method: `self` (implicitly of the class
/// type) first, then annotated parameters; `__init__` may omit its return
/// annotation.
#[verifier::loop_isolation(false)]
pub fn collect_method_signature(class_id: ClassId, func: &ast::FunctionDef, reg: &Registry, arena: &mut Arena)
    -> (r: Result<FunctionSig, CompileError>)
    requires
        old(arena).wf(),
        reg.ok(old(arena)),
        class_id.0 < old(arena).classes@.len(),
    ensures
        final(arena).wf(),
        final(arena).extends(old(arena)),
        final(arena).classes@ == old(arena).classes@,
        r matches Ok(s) ==> s.ok(final(arena)) && s.params@.len() == func.args.args@.len()
            && s.params@.len() > 0 && s.params@[0].ty == Type::Class(class_id),
        self_only_method(*func) ==> (r matches Ok(s) && s.params@.len() == 1
            && s.return_ty == builtin_annotation(func.returns)->0),
        plain_method(*func) ==> (r matches Ok(s) && s.params@.len() == func.args.args@.len()
            && s.return_ty == builtin_annotation(func.returns)->0
            && (forall|i: int| 1 <= i < s.params@.len() ==> (#[trigger] s.params@[i]).ty
                == builtin_annotation(func.args.args@[i].annotation)->0 && s.params@[i].name@ == func.args.args@[i].name@)),
        method_form_error(*func) matches Some(m) ==> (r matches Err(e) && e.message@ == m),
        r matches Ok(s) ==> forall|i: int| 0 <= i < s.params@.len() ==> (#[trigger] s.params@[i]).name@ == func.args.args@[i].name@,
        r matches Ok(s) ==> forall|i: int, j: int| 0 <= i < j < s.params@.len()
            ==> (#[trigger] s.params@[i]).name@ != (#[trigger] s.params@[j]).name@,
        r matches Ok(s) ==> s.defaults@.len() == s.params@.len()
            && (forall|i: int| 0 <= i < s.defaults@.len() ==> (#[trigger] s.defaults@[i]) is None)
            && (forall|i: int| 0 <= i < func.args.args@.len() ==> (#[trigger] func.args.args@[i]).default is None),
{
    proof { Arena::lemma_extends_refl(arena); }
    let ghost a0 = *arena;
    let fname = func.name.as_str();
    if func.args.posonlyargs.len() != 0 || func.args.kwonlyargs.len() != 0 {
        return fail(msg3("method `", fname, "` may not use positional-only / keyword-only params"));
    }
    if func.args.vararg || func.args.kwarg {
        return fail(msg3("method `", fname, "` may not use *args / **kwargs"));
    }
    if func.decorator_list.len() != 0 {
        return fail(msg3("method decorators not yet supported (on `", fname, "`)"));
    }
    let args = &func.args.args;
    if args.len() == 0 {
        return fail(msg3("method `", fname, "` must take `self` as its first parameter"));
    }
    if !str_eq(args[0].name.as_str(), "self") {
        return fail(msg3("method `", fname, "` first parameter must be named `self`"));
    }
    if args[0].annotation.is_some() {
        return fail(msg3("don't annotate `self` (it's implicit) (on `", fname, "`)"));
    }
    let mut params: Vec<Param> = Vec::new();
    params.push(Param { name: String::from_str("self"), ty: Type::Class(class_id) });
    let mut seen: Vec<String> = Vec::new();
    seen.push(String::from_str("self"));
    let mut i: usize = 1;
    while i < args.len()
        invariant
            1 <= i <= args@.len(),
            arena.wf(),
            arena.extends(&a0),
            arena.classes@ == a0.classes@,
            reg.ok(arena),
            params@.len() == i,
            params@[0].ty == Type::Class(class_id),
            class_id.0 < arena.classes@.len(),
            forall|j: int| 0 <= j < i ==> arena.valid(#[trigger] params@[j].ty),
            seen@.len() == i,
            forall|j: int| 0 <= j < i ==> (#[trigger] seen@[j])@ == args@[j].name@,
            forall|j: int| 0 <= j < i ==> (#[trigger] params@[j]).name@ == args@[j].name@,
            forall|a: int, b: int| 0 <= a < b < i ==> (#[trigger] seen@[a])@ != (#[trigger] seen@[b])@,
            plain_method(*func) ==> forall|j: int| 1 <= j < i ==> (#[trigger] params@[j]).ty
                == builtin_annotation(args@[j].annotation)->0 && params@[j].name@ == args@[j].name@,
        decreases args.len() - i,
    {
        let name = &args[i].name;
        proof {
            if plain_method(*func) {
                assert forall|j: int| 0 <= j < seen@.len() implies (#[trigger] seen@[j])@ != name@ by {
                    assert(args@[j].name@ != args@[i as int].name@);
                }
            }
        }
        if contains_name(&seen, name.as_str()) {
            return fail(msg5("duplicate parameter `", name.as_str(), "` in method `", fname, "`"));
        }
        let ghost s_before = seen@;
        seen.push(name.clone());
        proof {
            assert forall|a: int, b: int| 0 <= a < b < seen@.len() implies (#[trigger] seen@[a])@ != (#[trigger] seen@[b])@ by {
                if b < s_before.len() {
                    assert(seen@[a] == s_before[a] && seen@[b] == s_before[b]);
                } else {
                    assert(seen@[a] == s_before[a]);
                    assert(seen@[b]@ == name@);
                }
            }
        }
        let ghost a1 = *arena;
        let ann: Option<&ast::Expr> = match &args[i].annotation {
            Some(x) => Some(x),
            None => None,
        };
        let ty = parse_type_annotation(ann, reg, arena);
        proof {
            Arena::lemma_extends_trans(&a0, &a1, arena);
            assert forall|j: int| 0 <= j < i implies arena.valid(#[trigger] params@[j].ty) by {
                arena.lemma_valid_mono(&a1, params@[j].ty);
            }
        }
        let ty = match ty {
            Some(t) => t,
            None => {
                return fail(msg5("parameter `", name.as_str(), "` of method `", fname, "` must be annotated"));
            },
        };
        reject_abstract_type(arena, ty, "method parameter type")?;
        params.push(Param { name: name.clone(), ty });
        i += 1;
    }
    let ghost a1 = *arena;
    let ret = match &func.returns {
        Some(x) => Some(x),
        None => None,
    };
    let parsed = parse_type_annotation(ret, reg, arena);
    proof {
        Arena::lemma_extends_trans(&a0, &a1, arena);
        assert forall|j: int| 0 <= j < params@.len() implies arena.valid(#[trigger] params@[j].ty) by {
            arena.lemma_valid_mono(&a1, params@[j].ty);
        }
    }
    let return_ty = match parsed {
        Some(t) => t,
        None => {
            if str_eq(fname, "__init__") {
                Type::Class(class_id)
            } else {
                return fail(msg3("method `", fname, "` requires a return annotation"));
            }
        },
    };
    reject_abstract_type(arena, return_ty, "method return type")?;
    let mut j: usize = 0;
    while j < args.len()
        invariant
            0 <= j <= args@.len(),
            forall|k: int| 0 <= k < j ==> (#[trigger] args@[k]).default is None,
        decreases args.len() - j,
    {
        if args[j].default.is_some() {
            return fail(msg3("default args on methods not yet supported (on `", fname, "`)"));
        }
        j += 1;
    }
    let n = params.len();
    let mut defaults: Vec<Option<TypedExpr>> = Vec::new();
    let mut i: usize = 0;
    while i < n
        invariant
            0 <= i <= n,
            defaults@.len() == i,
            forall|j: int| 0 <= j < i ==> (#[trigger] defaults@[j]) is None,
        decreases n - i,
    {
        defaults.push(None);
        i += 1;
    }
    proof {
        assert forall|a: int, b: int| 0 <= a < b < params@.len()
            implies (#[trigger] params@[a]).name@ != (#[trigger] params@[b]).name@ by {
            assert(seen@[a]@ == args@[a].name@ && seen@[b]@ == args@[b].name@);
        }
    }
    Ok(FunctionSig { params, defaults, return_ty })
}

/// Two parameter lists with the same names and types, in order.
pub open spec fn same_params(a: Seq<Param>, b: Seq<Param>) -> bool {
    &&& a.len() == b.len()
    &&& forall|i: int| 0 <= i < a.len() ==> (#[trigger] a[i]).ty == b[i].ty && a[i].name@ == b[i].name@
}

/// The binding of names that the parameters `ps` make.
pub open spec fn param_bind(ps: Seq<Param>) -> spec_fn(Seq<char>) -> Option<Type> {
    |n: Seq<char>| param_binding(ps, n)
}

/// The lowering of a leaf expression (an integer, float or bool literal,
/// or a parameter's name) in a function whose parameters are `ps`.
pub open spec fn param_leaf(ps: Seq<Param>, e: ast::Expr) -> Option<TypedExpr> {
    match e {
        ast::Expr::Constant(ast::Constant::Int(Some(v))) => Some(TypedExpr { ty: Type::I64, expr: Expr::ConstI64(v) }),
        ast::Expr::Constant(ast::Constant::Bool(b)) => Some(TypedExpr { ty: Type::Bool, expr: Expr::ConstBool(b) }),
        ast::Expr::Constant(ast::Constant::Float(f)) => Some(TypedExpr { ty: Type::F64, expr: Expr::ConstF64(f) }),
        ast::Expr::Name(n) => match param_binding(ps, n@) {
            Some(t) => Some(TypedExpr { ty: t, expr: Expr::Var(n) }),
            None => None,
        },
        _ => None,
    }
}

/// The leaf that the body `return <leaf>` returns, in a function whose
/// parameters are `ps`.
pub open spec fn leaf_body(ps: Seq<Param>, body: Seq<ast::Stmt>) -> Option<TypedExpr> {
    if body.len() == 1 {
        match body[0] {
            ast::Stmt::Return(Some(v)) => param_leaf(ps, v),
            _ => None,
        }
    } else {
        None
    }
}

/// What lowering a function whose body is `return <leaf>` gives, `x`
/// being the leaf's lowering: a function returning `x` coerced to the
/// return type `t`, or the diagnostic of that coercion.
pub open spec fn leaf_function_post(a: &Arena, x: TypedExpr, t: Type, r: Result<Function, CompileError>) -> bool {
    match r {
        Ok(f) => f.body@.len() == 1 && (f.body@[0] matches Stmt::Return { value }
            && coerce_post(a, x, t, Ok::<TypedExpr, CompileError>(value))),
        Err(e) => coerce_post(a, x, t, Err::<TypedExpr, CompileError>(e)),
    }
}

/// Lower a top-level function body against its collected signature.
pub fn lower_function(func: &ast::FunctionDef, env: &Env, arena: &mut Arena) -> (r: Result<Function, CompileError>)
    requires
        old(arena).wf(),
        env.ok(old(arena)),
    ensures
        final(arena).wf(),
        final(arena).extends(old(arena)),
        env.ok(final(arena)),
        r matches Ok(f) ==> function_ok(final(arena), f) && f.name@ == func.name@
            && returns_typed(f.body@, f.return_ty),
        (assoc(env.sigs.entries@, func.name@) is Some
            && assoc(env.sigs.entries@, func.name@)->0.return_ty == Type::I64
            && func.body@.len() == 1 && int_return(func.body@[0]) is Some) ==> (r matches Ok(f)
            && f.return_ty == Type::I64
            && f.body@ == int_return_block(int_return(func.body@[0])->0)
            && same_params(f.params@, assoc(env.sigs.entries@, func.name@)->0.params@)),
        assoc(env.sigs.entries@, func.name@) matches Some(sig) ==> {
            &&& r matches Ok(f) ==> f.return_ty == sig.return_ty && same_params(f.params@, sig.params@)
            &&& forall|k: int| 0 <= k < func.body@.len() && all_pass(func.body@.subrange(0, k))
                && #[trigger] head_rejection(func.body@[k], 0) is Some
                ==> (r matches Err(e) && e.message@ == head_rejection(func.body@[k], 0)->0)
            &&& leaf_body(sig.params@, func.body@) matches Some(x) ==> leaf_function_post(final(arena), x, sig.return_ty, r)
            &&& simple_body(param_bind(sig.params@), func.body@, sig.return_ty)
                ==> (r matches Ok(f) && simple_lowered(f.body@, func.body@))
        },
{
    proof { Arena::lemma_extends_refl(arena); }
    let ghost a0 = *arena;
    let name = &func.name;
    let sig = match env.sigs.get(name.as_str()) {
        Some(s) => s,
        None => {
            return fail(msg3("internal: no signature collected for `", name.as_str(), "`"));
        },
    };
    proof { crate::check::lemma_sig_ok(&env.sigs, arena, *sig); }
    let mut scope = params_scope(&sig.params, arena);
    if func.body.len() == 0 {
        return fail(msg3("function `", name.as_str(), "` body is empty"));
    }
    proof {
        if func.body@.len() == 1 {
            if let ast::Stmt::Return(Some(v)) = func.body@[0] {
                if let ast::Expr::Name(n) = v {
                    assert(scope.lookup(n@) == param_binding(sig.params@, n@));
                }
            }
        }
    }
    proof { assert(scope_bind(&scope) =~= param_bind(sig.params@)); }
    let body = lower_block(&func.body, &mut scope, 0, env, None, sig.return_ty, arena)?;
    proof { crate::check::lemma_sig_mono(sig, &a0, arena); }
    if !block_always_returns(&body) {
        return fail(msg3("not all paths return a value in `", name.as_str(),
            "` (the function body, or both branches of every trailing `if`, must end with `return`)"));
    }
    Ok(Function { name: name.clone(), params: copy_params(&sig.params), return_ty: sig.return_ty, body })
}

/// Lower a method body; its function name is the mangled
/// `<Class>.<method>`. An `__init__` that does not end in `return`
/// gets `return self` appended.
pub fn lower_method(class_id: ClassId, mangled_name: &str, func: &ast::FunctionDef, env: &Env, arena: &mut Arena)
    -> (r: Result<Function, CompileError>)
    requires
        old(arena).wf(),
        env.ok(old(arena)),
        class_id.0 < old(arena).classes@.len(),
    ensures
        final(arena).wf(),
        final(arena).extends(old(arena)),
        env.ok(final(arena)),
        r matches Ok(f) ==> function_ok(final(arena), f) && f.name@ == mangled_name@,
        (assoc(env.sigs.entries@, mangled_name@) is Some
            && assoc(env.sigs.entries@, mangled_name@)->0.return_ty == Type::I64
            && func.body@.len() == 1 && int_return(func.body@[0]) is Some) ==> (r matches Ok(f)
            && f.return_ty == Type::I64
            && f.body@ == int_return_block(int_return(func.body@[0])->0)
            && same_params(f.params@, assoc(env.sigs.entries@, mangled_name@)->0.params@)),
{
    proof { Arena::lemma_extends_refl(arena); }
    let ghost a0 = *arena;
    let sig = match env.sigs.get(mangled_name) {
        Some(s) => s,
        None => {
            return fail(msg3("internal: no signature collected for `", mangled_name, "`"));
        },
    };
    proof { crate::check::lemma_sig_ok(&env.sigs, arena, *sig); }
    let mut scope = params_scope(&sig.params, arena);
    if func.body.len() == 0 {
        return fail(msg3("method `", func.name.as_str(), "` body is empty"));
    }
    let mut body = lower_block(&func.body, &mut scope, 0, env, Some(class_id), sig.return_ty, arena)?;
    proof { crate::check::lemma_sig_mono(sig, &a0, arena); }
    let ends_in_return = body.len() > 0 && match &body[body.len() - 1] {
        Stmt::Return { .. } => true,
        _ => false,
    };
    if str_eq(func.name.as_str(), "__init__") && !ends_in_return {
        let s = Stmt::Return { value: TypedExpr::new(Type::Class(class_id), Expr::Var(String::from_str("self"))) };
        proof {
            assert(arena.valid(Type::Class(class_id)));
            assert(crate::typing::stmt_valid(arena, s));
            assert(crate::check::stmt::stmt_jumps_ok(s));
            assert forall|i: int| 0 <= i < body@.push(s).len() implies crate::typing::stmt_valid(arena, #[trigger] body@.push(s)[i]) by {
                if i < body@.len() { assert(body@.push(s)[i] == body@[i]); }
            }
            assert forall|i: int| 0 <= i < body@.push(s).len() implies crate::check::stmt::stmt_jumps_ok(#[trigger] body@.push(s)[i]) by {
                if i < body@.len() { assert(body@.push(s)[i] == body@[i]); }
            }
        }
        body.push(s);
    }
    if !block_always_returns(&body) {
        return fail(msg3("not all paths return a value in method `", func.name.as_str(), "`"));
    }
    Ok(Function { name: String::from_str(mangled_name), params: copy_params(&sig.params), return_ty: sig.return_ty, body })
}


// ---------------------------------------------------------------------
// Sorting of method names
// ---------------------------------------------------------------------

/// Lexicographic order on byte strings (`a` sorts strictly before `b`),
/// the order of `str`.
pub open spec fn lex_less(a: Seq<u8>, b: Seq<u8>) -> bool
    decreases a.len(),
{
    if a.len() == 0 {
        b.len() > 0
    } else if b.len() == 0 {
        false
    } else if a[0] < b[0] {
        true
    } else if a[0] > b[0] {
        false
    } else {
        lex_less(a.drop_first(), b.drop_first())
    }
}

fn bytes_less(a: &str, b: &str) -> (r: bool)
    ensures
        r == lex_less(a.spec_bytes(), b.spec_bytes()),
{
    let x = a.as_bytes();
    let y = b.as_bytes();
    proof {
        assert(x@.subrange(0, x@.len() as int) =~= x@);
        assert(y@.subrange(0, y@.len() as int) =~= y@);
    }
    let mut i: usize = 0;
    while i < x.len() && i < y.len()
        invariant
            0 <= i <= x@.len(),
            i <= y@.len(),
            x@ == a.spec_bytes(),
            y@ == b.spec_bytes(),
            lex_less(x@, y@) == lex_less(x@.subrange(i as int, x@.len() as int), y@.subrange(i as int, y@.len() as int)),
        decreases x.len() - i,
    {
        let ghost xs = x@.subrange(i as int, x@.len() as int);
        let ghost ys = y@.subrange(i as int, y@.len() as int);
        if x[i] < y[i] {
            return true;
        }
        if x[i] > y[i] {
            return false;
        }
        proof {
            assert(xs.drop_first() =~= x@.subrange(i + 1, x@.len() as int));
            assert(ys.drop_first() =~= y@.subrange(i + 1, y@.len() as int));
        }
        i += 1;
    }
    i < y.len() && i >= x.len()
}

/// The UTF-8 bytes of a string.
pub open spec fn utf8(s: String) -> Seq<u8> {
    vstd::utf8::encode_utf8(s@)
}

/// `s` equals (as text) one of the strings of `v`.
pub open spec fn among(s: String, v: Seq<String>) -> bool {
    exists|j: int| #![trigger v[j]] 0 <= j < v.len() && s@ == v[j]@
}

/// `v` holds a string with the text `n`.
pub open spec fn mentions(v: Seq<String>, n: Seq<char>) -> bool {
    exists|j: int| 0 <= j < v.len() && (#[trigger] v[j])@ == n
}

/// No text occurs twice in `v`.
pub open spec fn no_dup_text(v: Seq<String>) -> bool {
    forall|i: int, j: int| 0 <= i < j < v.len() ==> (#[trigger] v[i])@ != (#[trigger] v[j])@
}

/// Sort names into `str` order (selection sort).
fn sort_names(v: Vec<String>) -> (r: Vec<String>)
    ensures
        r@.len() == v@.len(),
        forall|i: int, j: int| 0 <= i < j < r@.len() ==> !lex_less(#[trigger] utf8(r@[j]), #[trigger] utf8(r@[i])),
        forall|i: int| 0 <= i < r@.len() ==> among(#[trigger] r@[i], v@),
        forall|n: Seq<char>| #[trigger] mentions(r@, n) <==> mentions(v@, n),
        no_dup_text(v@) ==> no_dup_text(r@),
{
    let mut rest = v;
    let mut out: Vec<String> = Vec::new();
    let ghost orig = rest@;
    proof {
        assert forall|i: int| 0 <= i < rest@.len() implies among(#[trigger] rest@[i], orig) by {
            assert(rest@[i]@ == orig[i]@);
        }
    }
    while rest.len() > 0
        invariant
            out@.len() + rest@.len() == orig.len(),
            forall|i: int, j: int| 0 <= i < j < out@.len() ==> !lex_less(#[trigger] utf8(out@[j]), #[trigger] utf8(out@[i])),
            forall|i: int, j: int| 0 <= i < out@.len() && 0 <= j < rest@.len() ==> !lex_less(#[trigger] utf8(rest@[j]), #[trigger] utf8(out@[i])),
            orig == v@,
            forall|i: int| 0 <= i < out@.len() ==> among(#[trigger] out@[i], orig),
            forall|i: int| 0 <= i < rest@.len() ==> among(#[trigger] rest@[i], orig),
            forall|n: Seq<char>| #[trigger] mentions(orig, n) <==> mentions(out@ + rest@, n),
            no_dup_text(orig) ==> no_dup_text(out@ + rest@),
        decreases rest.len(),
    {
        let mut m: usize = 0;
        let mut k: usize = 1;
        while k < rest.len()
            invariant
                0 <= m < rest@.len(),
                1 <= k <= rest@.len(),
                forall|j: int| 0 <= j < k ==> !lex_less(#[trigger] utf8(rest@[j]), utf8(rest@[m as int])) || j == m,
            decreases rest.len() - k,
        {
            if bytes_less(rest[k].as_str(), rest[m].as_str()) {
                proof { lemma_lex_total_order(); }
                m = k;
            }
            k += 1;
        }
        proof { lemma_lex_total_order(); }
        let ghost before = rest@;
        let ghost out_before = out@;
        let x = rest.remove(m);
        proof {
            assert forall|j: int| 0 <= j < rest@.len() implies #[trigger] rest@[j] == (if j < m { before[j] } else { before[j + 1] }) by {}
            assert(among(before[m as int], orig));
        }
        out.push(x);
        proof {
            let old_all = out_before + before;
            let new_all = out@ + rest@;
            assert forall|j: int| 0 <= j < new_all.len() implies #[trigger] new_all[j] == old_all[
                if j < out_before.len() { j } else if j == out_before.len() { out_before.len() + m }
                else if j < out_before.len() + 1 + m { j - 1 } else { j }] by {}
            assert forall|j: int| 0 <= j < old_all.len() implies #[trigger] old_all[j] == new_all[
                if j < out_before.len() { j } else if j == out_before.len() + m { out_before.len() as int }
                else if j < out_before.len() + m { j + 1 } else { j }] by {}
            assert forall|n: Seq<char>| #[trigger] mentions(new_all, n) <==> mentions(old_all, n) by {
                if mentions(new_all, n) {
                    let j = choose|j: int| 0 <= j < new_all.len() && (#[trigger] new_all[j])@ == n;
                    let jj = if j < out_before.len() { j } else if j == out_before.len() { out_before.len() + m }
                        else if j < out_before.len() + 1 + m { j - 1 } else { j };
                    assert(old_all[jj]@ == n);
                }
                if mentions(old_all, n) {
                    let j = choose|j: int| 0 <= j < old_all.len() && (#[trigger] old_all[j])@ == n;
                    let jj = if j < out_before.len() { j } else if j == out_before.len() + m { out_before.len() as int }
                        else if j < out_before.len() + m { j + 1 } else { j };
                    assert(new_all[jj]@ == n);
                }
            }
            if no_dup_text(orig) {
                assert forall|i: int, j: int| 0 <= i < j < new_all.len() implies (#[trigger] new_all[i])@ != (#[trigger] new_all[j])@ by {
                    let f = |k: int| if k < out_before.len() { k } else if k == out_before.len() { out_before.len() + m }
                        else if k < out_before.len() + 1 + m { k - 1 } else { k };
                    assert(new_all[i] == old_all[f(i)]);
                    assert(new_all[j] == old_all[f(j)]);
                    assert(f(i) != f(j));
                    if f(i) < f(j) {
                        assert(old_all[f(i)]@ != old_all[f(j)]@);
                    } else {
                        assert(old_all[f(j)]@ != old_all[f(i)]@);
                    }
                }
            }
        }
    }
    proof { assert(out@ + rest@ =~= out@); }
    out
}

/// Strict lexicographic order is irreflexive, transitive and total on
/// distinct byte strings.
pub proof fn lemma_lex_total_order()
    ensures
        forall|a: Seq<u8>| !#[trigger] lex_less(a, a),
        forall|a: Seq<u8>, b: Seq<u8>, c: Seq<u8>| #[trigger] lex_less(a, b) && #[trigger] lex_less(b, c) ==> lex_less(a, c),
        forall|a: Seq<u8>, b: Seq<u8>| #[trigger] lex_less(a, b) ==> !lex_less(b, a),
        forall|a: Seq<u8>, b: Seq<u8>| !#[trigger] lex_less(a, b) && !lex_less(b, a) ==> a == b,
{
    assert forall|a: Seq<u8>| !#[trigger] lex_less(a, a) by { lemma_lex_irrefl(a); }
    assert forall|a: Seq<u8>, b: Seq<u8>, c: Seq<u8>| #[trigger] lex_less(a, b) && #[trigger] lex_less(b, c) implies lex_less(a, c) by {
        lemma_lex_trans(a, b, c);
    }
    assert forall|a: Seq<u8>, b: Seq<u8>| #[trigger] lex_less(a, b) implies !lex_less(b, a) by {
        lemma_lex_asym(a, b);
    }
    assert forall|a: Seq<u8>, b: Seq<u8>| !#[trigger] lex_less(a, b) && !lex_less(b, a) implies a == b by {
        lemma_lex_total(a, b);
    }
}

proof fn lemma_lex_irrefl(a: Seq<u8>)
    ensures
        !lex_less(a, a),
    decreases a.len(),
{
    if a.len() > 0 {
        lemma_lex_irrefl(a.drop_first());
    }
}

proof fn lemma_lex_trans(a: Seq<u8>, b: Seq<u8>, c: Seq<u8>)
    requires
        lex_less(a, b),
        lex_less(b, c),
    ensures
        lex_less(a, c),
    decreases a.len(),
{
    if a.len() > 0 && b.len() > 0 && c.len() > 0 && a[0] == b[0] && b[0] == c[0] {
        lemma_lex_trans(a.drop_first(), b.drop_first(), c.drop_first());
    }
}

proof fn lemma_lex_asym(a: Seq<u8>, b: Seq<u8>)
    requires
        lex_less(a, b),
    ensures
        !lex_less(b, a),
    decreases a.len(),
{
    if a.len() > 0 && b.len() > 0 && a[0] == b[0] {
        lemma_lex_asym(a.drop_first(), b.drop_first());
    }
}

proof fn lemma_lex_total(a: Seq<u8>, b: Seq<u8>)
    requires
        !lex_less(a, b),
        !lex_less(b, a),
    ensures
        a == b,
    decreases a.len(),
{
    if a.len() > 0 && b.len() > 0 {
        lemma_lex_total(a.drop_first(), b.drop_first());
        assert(a =~= seq![a[0]] + a.drop_first());
        assert(b =~= seq![b[0]] + b.drop_first());
    } else {
        assert(a.len() == 0 && b.len() == 0);
        assert(a =~= b);
    }
}


// ---------------------------------------------------------------------
// Imports
// ---------------------------------------------------------------------

/// The position of the last `/` in `p`.
pub open spec fn last_slash(p: Seq<char>) -> Option<int>
    decreases p.len(),
{
    if p.len() == 0 {
        None
    } else if p.last() == '/' {
        Some(p.len() - 1)
    } else {
        last_slash(p.drop_last())
    }
}

/// The directory part of a path, with its trailing `/` (empty for a
/// bare file name).
pub open spec fn dir_prefix(p: Seq<char>) -> Seq<char> {
    match last_slash(p) {
        Some(k) => p.subrange(0, k + 1),
        None => Seq::empty(),
    }
}

/// A dotted module name as a relative path.
pub open spec fn dotted_path(m: Seq<char>) -> Seq<char> {
    Seq::new(m.len(), |i: int| if m[i] == '.' { '/' } else { m[i] })
}

/// Where `from <module> import ...` in the file at `source` looks for
/// the module: `<dir of source>/<module with dots as slashes>.py`.
pub open spec fn candidate_path(source: Seq<char>, module: Seq<char>) -> Seq<char> {
    dir_prefix(source) + dotted_path(module) + ".py"@
}

proof fn lemma_last_slash(p: Seq<char>)
    ensures
        match last_slash(p) {
            Some(k) => 0 <= k < p.len() && p[k] == '/' && forall|j: int| k < j < p.len() ==> p[j] != '/',
            None => forall|j: int| 0 <= j < p.len() ==> p[j] != '/',
        },
    decreases p.len(),
{
    if p.len() > 0 && p.last() != '/' {
        let q = p.drop_last();
        lemma_last_slash(q);
        assert forall|j: int| 0 <= j < p.len() - 1 implies p[j] == #[trigger] q[j] by {}
        match last_slash(q) {
            Some(k) => {
                assert forall|j: int| k < j < p.len() implies p[j] != '/' by {
                    if j < p.len() - 1 { assert(p[j] == q[j]); }
                }
            },
            None => {
                assert forall|j: int| 0 <= j < p.len() implies p[j] != '/' by {
                    if j < p.len() - 1 { assert(p[j] == q[j]); }
                }
            },
        }
    }
}

/// The path an import of `module` from the file at `source_path` is
/// looked up under.
pub fn module_candidate_path(source_path: &str, module: &str) -> (r: String)
    ensures
        r@ == candidate_path(source_path@, module@),
{
    let n = source_path.unicode_len();
    let mut last: Option<usize> = None;
    let mut i: usize = 0;
    proof { lemma_last_slash(source_path@); }
    while i < n
        invariant
            0 <= i <= n,
            n == source_path@.len(),
            match last {
                Some(k) => k < i && source_path@[k as int] == '/' && forall|j: int| k < j < i ==> source_path@[j] != '/',
                None => forall|j: int| 0 <= j < i ==> source_path@[j] != '/',
            },
        decreases n - i,
    {
        if source_path.get_char(i) == '/' {
            last = Some(i);
        }
        i += 1;
    }
    let mut out = match last {
        Some(k) => String::from_str(source_path.substring_char(0, k + 1)),
        None => String::new(),
    };
    proof {
        assert(out@ == dir_prefix(source_path@));
    }
    let ghost dir = out@;
    let mlen = module.unicode_len();
    let mut i: usize = 0;
    while i < mlen
        invariant
            0 <= i <= mlen,
            mlen == module@.len(),
            out@ == dir + dotted_path(module@).subrange(0, i as int),
        decreases mlen - i,
    {
        let c = module.get_char(i);
        proof { reveal_strlit("/"); }
        if c == '.' {
            out.append("/");
        } else {
            out.append(module.substring_char(i, i + 1));
        }
        proof {
            assert(dotted_path(module@).subrange(0, i + 1) =~= dotted_path(module@).subrange(0, i as int).push(dotted_path(module@)[i as int]));
            assert(out@ =~= dir + dotted_path(module@).subrange(0, i + 1));
        }
        i += 1;
    }
    out.append(".py");
    proof { assert(dotted_path(module@).subrange(0, mlen as int) =~= dotted_path(module@)); }
    out
}

/// Modules whose import is documentary: nothing is loaded for them.
pub open spec fn documentary_module(m: Seq<char>) -> bool {
    m == "pyx86.types"@ || m == "__future__"@ || m == "math"@ || m == "abc"@
}

pub fn is_documentary_module(m: &str) -> (r: bool)
    ensures
        r == documentary_module(m@),
{
    str_eq(m, "pyx86.types") || str_eq(m, "__future__") || str_eq(m, "math") || str_eq(m, "abc")
}

/// The number of modules not yet loaded.
pub open spec fn count_unloaded(s: Seq<bool>) -> nat
    decreases s.len(),
{
    if s.len() == 0 {
        0
    } else {
        count_unloaded(s.drop_last()) + if s.last() { 0nat } else { 1nat }
    }
}

proof fn lemma_count_unloaded_set(s: Seq<bool>, j: int)
    requires
        0 <= j < s.len(),
        !s[j],
    ensures
        count_unloaded(s.update(j, true)) + 1 == count_unloaded(s),
    decreases s.len(),
{
    let t = s.update(j, true);
    if j < s.len() - 1 {
        assert(t.drop_last() =~= s.drop_last().update(j, true));
        lemma_count_unloaded_set(s.drop_last(), j);
    } else {
        assert(t.drop_last() =~= s.drop_last());
    }
}

fn find_source(sources: &Vec<SourceModule>, path: &str) -> (r: Option<usize>)
    ensures
        r matches Some(j) ==> j < sources@.len() && sources@[j as int].path@ == path@,
        r is None ==> forall|j: int| 0 <= j < sources@.len() ==> (#[trigger] sources@[j]).path@ != path@,
{
    let mut i: usize = 0;
    while i < sources.len()
        invariant
            0 <= i <= sources@.len(),
            forall|j: int| 0 <= j < i ==> (#[trigger] sources@[j]).path@ != path@,
        decreases sources.len() - i,
    {
        if str_eq(sources[i].path.as_str(), path) {
            return Some(i);
        }
        i += 1;
    }
    None
}

/// Whether a decorator list names `abstractmethod`.
fn has_abstract_decorator(ds: &Vec<ast::Expr>) -> (r: bool)
    ensures
        r == exists|j: int| 0 <= j < ds@.len() && (#[trigger] ds@[j] matches ast::Expr::Name(n) && n@ == "abstractmethod"@),
{
    let mut i: usize = 0;
    while i < ds.len()
        invariant
            0 <= i <= ds@.len(),
            forall|j: int| 0 <= j < i ==> !(#[trigger] ds@[j] matches ast::Expr::Name(n) && n@ == "abstractmethod"@),
        decreases ds.len() - i,
    {
        if let ast::Expr::Name(n) = &ds[i] {
            if str_eq(n.as_str(), "abstractmethod") {
                return true;
            }
        }
        i += 1;
    }
    false
}

fn remove_name(v: &mut Vec<String>, name: &str)
    ensures
        (forall|j: int| 0 <= j < old(v)@.len() ==> (#[trigger] old(v)@[j])@ != name@) ==> final(v)@ == old(v)@,
        (exists|j: int| 0 <= j < old(v)@.len() && (#[trigger] old(v)@[j])@ == name@) ==> exists|k: int| {
            &&& 0 <= k < old(v)@.len()
            &&& old(v)@[k]@ == name@
            &&& (forall|j: int| 0 <= j < k ==> (#[trigger] old(v)@[j])@ != name@)
            &&& final(v)@ == old(v)@.remove(k)
        },
{
    let mut i: usize = 0;
    while i < v.len()
        invariant
            0 <= i <= v@.len(),
            v@ == old(v)@,
            forall|j: int| 0 <= j < i ==> (#[trigger] v@[j])@ != name@,
        decreases v.len() - i,
    {
        if str_eq(v[i].as_str(), name) {
            v.remove(i);
            return;
        }
        i += 1;
    }
}

/// What holds of the state threaded through module lowering.
pub open spec fn module_state_ok(a: &Arena, env: &Env, functions: Seq<Function>) -> bool {
    &&& a.wf()
    &&& env.ok(a)
    &&& forall|i: int| 0 <= i < functions.len() ==> function_ok(a, #[trigger] functions[i])
}

proof fn lemma_state_mono(a: &Arena, b: &Arena, env: &Env, functions: Seq<Function>)
    requires
        module_state_ok(a, env, functions),
        b.wf(),
        b.extends(a),
    ensures
        module_state_ok(b, env, functions),
{
    lemma_sigs_mono(&env.sigs, a, b);
    lemma_registry_mono(&env.reg, a, b);
    lemma_functions_mono(a, b, functions);
}

/// The function definition a one-statement module consists of, if it is one.
pub open spec fn sole_def(m: ast::Module) -> Option<ast::FunctionDef> {
    if m.body@.len() == 1 {
        match m.body@[0] {
            ast::Stmt::FunctionDef(f) => Some(f),
            _ => None,
        }
    } else {
        None
    }
}

/// A module that is one function with a plain signature returning `int`
/// whose body is `return <integer literal>`.
pub open spec fn single_const_function(m: ast::Module) -> bool {
    &&& sole_def(m) is Some
    &&& plain_signature(sole_def(m)->0)
    &&& builtin_annotation(sole_def(m)->0.returns) == Some(Type::I64)
    &&& sole_def(m)->0.body@.len() == 1
    &&& int_return(sole_def(m)->0.body@[0]) is Some
}

/// Parameters as a plain signature declares them.
pub open spec fn builtin_params(ps: Seq<Param>, args: Seq<ast::Arg>) -> bool {
    &&& ps.len() == args.len()
    &&& forall|i: int| 0 <= i < ps.len() ==> (#[trigger] ps[i]).name@ == args[i].name@
        && ps[i].ty == builtin_annotation(args[i].annotation)->0
}

/// `lowered` is the lowering of the constant function `f`.
pub open spec fn const_function(lowered: Function, f: ast::FunctionDef) -> bool {
    &&& lowered.name@ == f.name@
    &&& lowered.return_ty == Type::I64
    &&& lowered.body@ == int_return_block(int_return(f.body@[0])->0)
    &&& builtin_params(lowered.params@, f.args.args@)
}

/// The signature table holds the plain signature of `f`.
pub open spec fn has_const_sig(env: &Env, f: ast::FunctionDef) -> bool {
    &&& assoc(env.sigs.entries@, f.name@) is Some
    &&& assoc(env.sigs.entries@, f.name@)->0.return_ty == Type::I64
    &&& builtin_params(assoc(env.sigs.entries@, f.name@)->0.params@, f.args.args@)
}

/// A module that is one function with a plain signature.
pub open spec fn single_plain_function(m: ast::Module) -> bool {
    &&& sole_def(m) is Some
    &&& plain_signature(sole_def(m)->0)
}

/// The signature table holds the plain signature of `f`.
pub open spec fn has_plain_sig(env: &Env, f: ast::FunctionDef) -> bool {
    &&& assoc(env.sigs.entries@, f.name@) is Some
    &&& assoc(env.sigs.entries@, f.name@)->0.return_ty == builtin_annotation(f.returns)->0
    &&& builtin_params(assoc(env.sigs.entries@, f.name@)->0.params@, f.args.args@)
}

/// `lowered` has the name of `f` and the types its plain signature declares.
pub open spec fn plain_header(lowered: Function, f: ast::FunctionDef) -> bool {
    &&& lowered.name@ == f.name@
    &&& lowered.return_ty == builtin_annotation(f.returns)->0
    &&& builtin_params(lowered.params@, f.args.args@)
}

/// The type the last parameter named `n` among `args` is annotated with.
pub open spec fn arg_binding(args: Seq<ast::Arg>, n: Seq<char>) -> Option<Type>
    decreases args.len(),
{
    if args.len() == 0 {
        None
    } else if args.last().name@ == n {
        Some(builtin_annotation(args.last().annotation)->0)
    } else {
        arg_binding(args.drop_last(), n)
    }
}

proof fn lemma_arg_binding(ps: Seq<Param>, args: Seq<ast::Arg>, n: Seq<char>)
    requires
        builtin_params(ps, args),
    ensures
        param_binding(ps, n) == arg_binding(args, n),
    decreases ps.len(),
{
    if ps.len() > 0 {
        assert(ps.last() == ps[ps.len() - 1]);
        assert(builtin_params(ps.drop_last(), args.drop_last())) by {
            assert forall|i: int| 0 <= i < ps.drop_last().len() implies
                (#[trigger] ps.drop_last()[i]).name@ == args.drop_last()[i].name@
                && ps.drop_last()[i].ty == builtin_annotation(args.drop_last()[i].annotation)->0 by {
                assert(ps.drop_last()[i] == ps[i]);
            }
        }
        lemma_arg_binding(ps.drop_last(), args.drop_last(), n);
    }
}

/// The binding of names that the parameter list `args` declares.
pub open spec fn arg_bind(args: Seq<ast::Arg>) -> spec_fn(Seq<char>) -> Option<Type> {
    |n: Seq<char>| arg_binding(args, n)
}

/// The leaf that the body of `f`, `return <leaf>`, returns: a literal or
/// one of the parameters its plain signature declares.
pub open spec fn def_leaf(f: ast::FunctionDef) -> Option<TypedExpr> {
    if f.body@.len() == 1 {
        match f.body@[0] {
            ast::Stmt::Return(Some(v)) => match v {
                ast::Expr::Constant(ast::Constant::Int(Some(c))) => Some(TypedExpr { ty: Type::I64, expr: Expr::ConstI64(c) }),
                ast::Expr::Constant(ast::Constant::Bool(b)) => Some(TypedExpr { ty: Type::Bool, expr: Expr::ConstBool(b) }),
                ast::Expr::Constant(ast::Constant::Float(c)) => Some(TypedExpr { ty: Type::F64, expr: Expr::ConstF64(c) }),
                ast::Expr::Name(n) => match arg_binding(f.args.args@, n@) {
                    Some(t) => Some(TypedExpr { ty: t, expr: Expr::Var(n) }),
                    None => None,
                },
                _ => None,
            },
            _ => None,
        }
    } else {
        None
    }
}

/// `f` is a one-statement body `return <value>` with `value` the
/// coercion of `x` to `t`.
pub open spec fn returns_coerced(a: &Arena, x: TypedExpr, t: Type, f: Function) -> bool {
    &&& f.body@.len() == 1
    &&& f.body@[0] matches Stmt::Return { value } && coerce_post(a, x, t, Ok::<TypedExpr, CompileError>(value))
}

/// Some statement of `f`'s body, after only `pass` statements, is refused
/// by its form with the message `m`.
pub open spec fn body_rejected_at(f: ast::FunctionDef, k: int) -> bool {
    &&& 0 <= k < f.body@.len()
    &&& all_pass(f.body@.subrange(0, k))
    &&& head_rejection(f.body@[k], 0) is Some
}

/// The function the statement at position `j` of `m` defines.
pub open spec fn def_at(m: ast::Module, j: int) -> ast::FunctionDef {
    m.body@[j]->FunctionDef_0
}

/// Every top-level statement of `m` is a `def` with a plain signature,
/// their names are distinct, and none is already in `env`'s signature
/// table.
pub open spec fn plain_defs_module(m: ast::Module, env: &Env) -> bool {
    &&& plain_defs(m)
    &&& forall|j: int| 0 <= j < m.body@.len() ==> !env.sigs.has((#[trigger] def_at(m, j)).name@)
}

/// Every top-level statement of `m` is a `def` with a plain signature,
/// and their names are distinct.
pub open spec fn plain_defs(m: ast::Module) -> bool {
    &&& forall|j: int| 0 <= j < m.body@.len() ==> (#[trigger] m.body@[j]) is FunctionDef
    &&& forall|j: int| 0 <= j < m.body@.len() ==> plain_signature(#[trigger] def_at(m, j))
    &&& forall|j: int, k: int| 0 <= j < k < m.body@.len() ==> (#[trigger] def_at(m, j)).name@ != (#[trigger] def_at(m, k)).name@
}

/// `m` defines a `main`, and it returns and takes types a `main` may.
pub open spec fn main_entry_ok(m: ast::Module) -> bool {
    &&& exists|j: int| 0 <= j < m.body@.len() && (#[trigger] def_at(m, j)).name@ == "main"@
    &&& forall|j: int| 0 <= j < m.body@.len() && (#[trigger] def_at(m, j)).name@ == "main"@
        ==> main_return_ok(builtin_annotation(def_at(m, j).returns)->0) && main_params_ok(def_at(m, j))
}

/// Every function of `m` has a simple body of its declared return type.
pub open spec fn simple_defs(m: ast::Module) -> bool {
    forall|j: int| 0 <= j < m.body@.len() ==> simple_body(arg_bind((#[trigger] def_at(m, j)).args.args@),
        def_at(m, j).body@, builtin_annotation(def_at(m, j).returns)->0)
}

/// A class-body statement that declares a field: its name and annotation.
pub open spec fn field_decl(st: ast::Stmt) -> Option<(Seq<char>, ast::Expr)> {
    match st {
        ast::Stmt::AnnAssign { target: ast::Expr::Name(n), annotation, .. } => Some((n@, annotation)),
        _ => None,
    }
}

/// The fields a class body declares, in order.
pub open spec fn declared_fields(body: Seq<ast::Stmt>) -> Seq<(Seq<char>, ast::Expr)>
    decreases body.len(),
{
    if body.len() == 0 {
        Seq::empty()
    } else {
        declared_fields(body.drop_last()) + match field_decl(body.last()) {
            Some(f) => seq![f],
            None => Seq::empty(),
        }
    }
}

/// `f` carries the `@abstractmethod` decorator.
pub open spec fn abstract_decorated(f: ast::FunctionDef) -> bool {
    exists|j: int| 0 <= j < f.decorator_list@.len()
        && (#[trigger] f.decorator_list@[j] matches ast::Expr::Name(n) && n@ == "abstractmethod"@)
}

/// A class body of fields annotated with builtin types and without
/// defaults, `pass`, abstract methods, and methods with plain signatures.
pub open spec fn simple_class_body(body: Seq<ast::Stmt>) -> bool {
    forall|k: int| 0 <= k < body.len() ==> match #[trigger] body[k] {
        ast::Stmt::AnnAssign { target, annotation, value, .. } =>
            target is Name && builtin_annotation(Some(annotation)) is Some && value is None,
        ast::Stmt::Pass => true,
        ast::Stmt::FunctionDef(f) => abstract_decorated(f) || plain_method(f),
        _ => false,
    }
}

/// The name a method of class `class_name` is registered under.
pub open spec fn method_key(class_name: Seq<char>, m: Seq<char>) -> Seq<char> {
    class_name + "."@ + m
}

/// The concrete (not abstract) methods of a class body have distinct
/// names, none of them already registered in `env`.
pub open spec fn fresh_methods(class_name: Seq<char>, body: Seq<ast::Stmt>, env: &Env) -> bool {
    &&& forall|k: int| 0 <= k < body.len() ==> (#[trigger] body[k] matches ast::Stmt::FunctionDef(f)
        ==> (!abstract_decorated(f) ==> !env.sigs.has(method_key(class_name, f.name@))))
    &&& forall|j: int, k: int| 0 <= j < k < body.len() ==> (#[trigger] body[j] matches ast::Stmt::FunctionDef(f)
        ==> (#[trigger] body[k] matches ast::Stmt::FunctionDef(g) ==> f.name@ != g.name@))
}

/// The names of a class's fields, in order.
pub open spec fn field_names_of(fs: Seq<(String, Type)>) -> Seq<Seq<char>> {
    fs.map_values(|f: (String, Type)| f.0@)
}

/// No name occurs twice in `ns`.
pub open spec fn distinct_names(ns: Seq<Seq<char>>) -> bool {
    forall|i: int, j: int| 0 <= i < j < ns.len() ==> ns[i] != ns[j]
}

/// `fields` is the parent's field list `inherited` followed by the
/// declared fields `own`, each at its builtin annotation's type.
pub open spec fn fields_follow(fields: Seq<(String, Type)>, inherited: Seq<(String, Type)>,
    own: Seq<(Seq<char>, ast::Expr)>) -> bool {
    &&& fields.len() == inherited.len() + own.len()
    &&& forall|k: int| 0 <= k < inherited.len() ==> #[trigger] fields[k] == inherited[k]
    &&& forall|k: int| 0 <= k < own.len() ==> (#[trigger] fields[inherited.len() + k]).0@ == own[k].0
        && fields[inherited.len() + k].1 == builtin_annotation(Some(own[k].1))->0
}

/// The parent's fields, none without a parent.
pub open spec fn inherited_fields(a: &Arena, parent: Option<ClassId>) -> Seq<(String, Type)> {
    match parent {
        Some(p) => p.def(a).fields@,
        None => Seq::empty(),
    }
}

/// Some method of `body` named `n` is abstract.
pub open spec fn declares_abstract(body: Seq<ast::Stmt>, n: Seq<char>) -> bool {
    exists|k: int| 0 <= k < body.len()
        && (#[trigger] body[k] matches ast::Stmt::FunctionDef(f) && abstract_decorated(f) && f.name@ == n)
}

/// Some method of `body` named `n` is concrete (defined here).
pub open spec fn declares_concrete(body: Seq<ast::Stmt>, n: Seq<char>) -> bool {
    exists|k: int| 0 <= k < body.len()
        && (#[trigger] body[k] matches ast::Stmt::FunctionDef(f) && !abstract_decorated(f) && f.name@ == n)
}

/// The methods of a class body have distinct names.
pub open spec fn distinct_methods(body: Seq<ast::Stmt>) -> bool {
    forall|j: int, k: int| 0 <= j < k < body.len() ==> (#[trigger] body[j] matches ast::Stmt::FunctionDef(f)
        ==> (#[trigger] body[k] matches ast::Stmt::FunctionDef(g) ==> f.name@ != g.name@))
}

/// The parent's abstract methods, none without a parent.
pub open spec fn inherited_abstract(a: &Arena, parent: Option<ClassId>) -> Seq<String> {
    match parent {
        Some(p) => p.def(a).abstract_methods@,
        None => Seq::empty(),
    }
}

/// `am` is the abstract-method list of a class with parent abstract
/// methods `pa` and body `body`: the parent's unimplemented methods and
/// the body's own `@abstractmethod`s, minus the methods the body defines,
/// each once, in `str` order.
pub open spec fn abstract_set_ok(am: Seq<String>, pa: Seq<String>, body: Seq<ast::Stmt>) -> bool {
    &&& forall|n: Seq<char>| #[trigger] mentions(am, n)
        <==> ((mentions(pa, n) || declares_abstract(body, n)) && !declares_concrete(body, n))
    &&& no_dup_text(am)
    &&& forall|i: int, j: int| 0 <= i < j < am.len() ==> !lex_less(#[trigger] utf8(am[j]), #[trigger] utf8(am[i]))
}

proof fn lemma_declares_step(body: Seq<ast::Stmt>, b: int, n: Seq<char>)
    requires
        0 <= b < body.len(),
    ensures
        declares_abstract(body.subrange(0, b + 1), n) <==> (declares_abstract(body.subrange(0, b), n)
            || (body[b] matches ast::Stmt::FunctionDef(f) && abstract_decorated(f) && f.name@ == n)),
        declares_concrete(body.subrange(0, b + 1), n) <==> (declares_concrete(body.subrange(0, b), n)
            || (body[b] matches ast::Stmt::FunctionDef(f) && !abstract_decorated(f) && f.name@ == n)),
{
    let p1 = body.subrange(0, b + 1);
    let p0 = body.subrange(0, b);
    assert forall|k: int| 0 <= k < b implies #[trigger] p1[k] == p0[k] by {}
    assert(p1[b] == body[b]);
    if declares_abstract(p1, n) {
        let k = choose|k: int| 0 <= k < p1.len() && (#[trigger] p1[k] matches ast::Stmt::FunctionDef(f) && abstract_decorated(f) && f.name@ == n);
        if k < b { assert(p0[k] == p1[k]); }
    }
    if declares_abstract(p0, n) {
        let k = choose|k: int| 0 <= k < p0.len() && (#[trigger] p0[k] matches ast::Stmt::FunctionDef(f) && abstract_decorated(f) && f.name@ == n);
        assert(p1[k] == p0[k]);
    }
    if declares_concrete(p1, n) {
        let k = choose|k: int| 0 <= k < p1.len() && (#[trigger] p1[k] matches ast::Stmt::FunctionDef(f) && !abstract_decorated(f) && f.name@ == n);
        if k < b { assert(p0[k] == p1[k]); }
    }
    if declares_concrete(p0, n) {
        let k = choose|k: int| 0 <= k < p0.len() && (#[trigger] p0[k] matches ast::Stmt::FunctionDef(f) && !abstract_decorated(f) && f.name@ == n);
        assert(p1[k] == p0[k]);
    }
}

/// Set a class's parent, then read its body: fields (the parent's first,
/// then its own in order), method signatures (registered under
/// `<Class>.<method>` and queued in `methods` for lowering), and its
/// abstract methods (the parent's unimplemented ones plus its own
/// `@abstractmethod`s, minus those it defines), sorted.
#[verifier::loop_isolation(false)]
#[verifier::spinoff_prover]
#[verifier::rlimit(60)]
fn lower_class_body(c: &ast::ClassDef, class_id: ClassId, parent_id: Option<ClassId>, stmt_index: usize, env: &mut Env,
    methods: &mut Vec<(ClassId, String, usize, usize)>, arena: &mut Arena) -> (r: Result<(), CompileError>)
    requires
        old(arena).wf(),
        old(env).ok(old(arena)),
        class_id.0 < old(arena).classes@.len(),
        parent_id matches Some(p) ==> p.0 < old(arena).classes@.len(),
        forall|k: int| 0 <= k < old(methods)@.len() ==> (#[trigger] old(methods)@[k]).0.0 < old(arena).classes@.len(),
    ensures
        final(arena).wf(),
        final(arena).extends(old(arena)),
        final(env).ok(final(arena)),
        final(env).reg == old(env).reg,
        (forall|k: int| 0 <= k < c.body@.len() ==> (#[trigger] c.body@[k] matches ast::Stmt::FunctionDef(f) ==> abstract_decorated(f)))
            ==> final(env).sigs == old(env).sigs && final(methods)@ == old(methods)@,
        forall|k: int| 0 <= k < final(methods)@.len() ==> (#[trigger] final(methods)@[k]).0.0 < final(arena).classes@.len(),
        final(arena).classes@.len() == old(arena).classes@.len(),
        forall|j: int| 0 <= j < final(arena).classes@.len() && j != class_id.0
            ==> #[trigger] final(arena).classes@[j] == old(arena).classes@[j],
        r is Ok ==> class_id.def(final(arena)).parent == parent_id
            && class_id.def(final(arena)).name == class_id.def(old(arena)).name,
        (r is Ok && distinct_names(field_names_of(inherited_fields(old(arena), parent_id))))
            ==> distinct_names(field_names_of(class_id.def(final(arena)).fields@)),
        (r is Ok && distinct_methods(c.body@) && no_dup_text(inherited_abstract(old(arena), parent_id)))
            ==> abstract_set_ok(class_id.def(final(arena)).abstract_methods@, inherited_abstract(old(arena), parent_id), c.body@),
        (simple_class_body(c.body@) && r is Ok) ==> fields_follow(class_id.def(final(arena)).fields@,
            inherited_fields(old(arena), parent_id), declared_fields(c.body@)),
        (simple_class_body(c.body@) && c.decorator_list@.len() == 0 && c.keywords@.len() == 0
            && fresh_methods(c.name@, c.body@, old(env))
            && distinct_names(field_names_of(inherited_fields(old(arena), parent_id))
                + declared_fields(c.body@).map_values(|f: (Seq<char>, ast::Expr)| f.0))) ==> r is Ok,
{
    proof { Arena::lemma_extends_refl(arena); }
    let name = &c.name;
    let ghost a00 = *arena;
    let ghost env0 = *env;
    let ghost m0 = methods@;
    let ghost pf = inherited_fields(&a00, parent_id);
    let ghost simple = simple_class_body(c.body@);
    let ghost good = simple && c.decorator_list@.len() == 0 && c.keywords@.len() == 0
        && fresh_methods(c.name@, c.body@, &env0)
        && distinct_names(field_names_of(pf) + declared_fields(c.body@).map_values(|f: (Seq<char>, ast::Expr)| f.0));
    class_id.set_parent(arena, parent_id);
    proof {
        lemma_sigs_mono(&env.sigs, &a00, arena);
        lemma_registry_mono(&env.reg, &a00, arena);
    }
    let ghost ap = *arena;
    if c.decorator_list.len() != 0 {
        return fail(msg3("class decorators not supported (in `", name.as_str(), "`)"));
    }
    if c.keywords.len() != 0 {
        return fail(msg3("class keyword args (e.g. metaclass=) not supported (in `", name.as_str(), "`)"));
    }
    let mut fields: Vec<(String, Type)> = match parent_id {
        Some(p) => p.fields(arena),
        None => Vec::new(),
    };
    proof {
        if let Some(p) = parent_id {
            assert forall|f: int| 0 <= f < fields@.len() implies arena.valid(#[trigger] fields@[f].1) by {
                crate::hir::lemma_field_valid(arena, p, f);
            }
        }
        assert(fields@ == pf);
    }
    let mut field_names: Vec<String> = Vec::new();
    let mut k: usize = 0;
    while k < fields.len()
        invariant
            0 <= k <= fields@.len(),
            field_names@.len() == k,
            forall|j: int| 0 <= j < k ==> (#[trigger] field_names@[j])@ == fields@[j].0@,
        decreases fields.len() - k,
    {
        field_names.push(fields[k].0.clone());
        k += 1;
    }
    proof {
        if good {
            let all = field_names_of(pf) + declared_fields(c.body@).map_values(|f: (Seq<char>, ast::Expr)| f.0);
            assert forall|i: int, j: int| 0 <= i < j < pf.len() implies field_names_of(pf)[i] != field_names_of(pf)[j] by {
                assert(all[i] == field_names_of(pf)[i]);
                assert(all[j] == field_names_of(pf)[j]);
            }
        }
        assert(c.body@.subrange(0, 0) =~= Seq::<ast::Stmt>::empty());
    }
    let mut unimplemented: Vec<String> = match parent_id {
        Some(p) => p.abstract_methods(arena),
        None => Vec::new(),
    };
    let ghost pa = inherited_abstract(&a00, parent_id);
    let ghost amok = distinct_methods(c.body@) && no_dup_text(pa);
    proof {
        assert(unimplemented@ == pa);
        assert forall|n: Seq<char>| !declares_abstract(c.body@.subrange(0, 0), n) && !declares_concrete(c.body@.subrange(0, 0), n) by {}
    }
    let mut b: usize = 0;
    while b < c.body.len()
        invariant
            0 <= b <= c.body@.len(),
            arena.wf(),
            arena.extends(&a00),
            arena.classes@ == ap.classes@,
            env.ok(arena),
            env.reg == env0.reg,
            class_id.0 < arena.classes@.len(),
            arena.fields_valid(fields@),
            forall|k: int| 0 <= k < methods@.len() ==> (#[trigger] methods@[k]).0.0 < arena.classes@.len(),
            field_names@.len() == fields@.len(),
            forall|j: int| 0 <= j < fields@.len() ==> (#[trigger] field_names@[j])@ == fields@[j].0@,
            distinct_names(field_names_of(pf)) ==> distinct_names(field_names_of(fields@)),
            simple ==> fields_follow(fields@, pf, declared_fields(c.body@.subrange(0, b as int))),
            (forall|k: int| 0 <= k < c.body@.len() ==> (#[trigger] c.body@[k] matches ast::Stmt::FunctionDef(f) ==> abstract_decorated(f)))
                ==> env.sigs == env0.sigs && methods@ == m0,
            amok ==> no_dup_text(unimplemented@),
            amok ==> forall|n: Seq<char>| #[trigger] mentions(unimplemented@, n)
                <==> ((mentions(pa, n) || declares_abstract(c.body@.subrange(0, b as int), n))
                    && !declares_concrete(c.body@.subrange(0, b as int), n)),
            good ==> forall|k: int| b <= k < c.body@.len() ==> (#[trigger] c.body@[k] matches ast::Stmt::FunctionDef(f)
                ==> (!abstract_decorated(f) ==> !env.sigs.has(method_key(c.name@, f.name@)))),
        decreases c.body.len() - b,
    {
        proof {
            assert(c.body@.subrange(0, b + 1).drop_last() =~= c.body@.subrange(0, b as int));
            assert(c.body@.subrange(0, b + 1).last() == c.body@[b as int]);
        }
        let ghost ub = unimplemented@;
        match &c.body[b] {
            ast::Stmt::AnnAssign { target, annotation, value, .. } => {
                let fname = match target {
                    ast::Expr::Name(n) => n,
                    _ => {
                        return fail(msg3("class field target must be a simple name (in `", name.as_str(), "`)"));
                    },
                };
                let ghost dk = declared_fields(c.body@.subrange(0, b as int)).len();
                if contains_name(&field_names, fname.as_str()) {
                    proof {
                        if good {
                            let all = field_names_of(pf) + declared_fields(c.body@).map_values(|f: (Seq<char>, ast::Expr)| f.0);
                            let j = choose|j: int| 0 <= j < field_names@.len() && (#[trigger] field_names@[j])@ == fname@;
                            lemma_declared_prefix(c.body@, b as int);
                            let pre = declared_fields(c.body@.subrange(0, b as int));
                            assert(fields_follow(fields@, pf, pre));
                            assert(all[(pf.len() + dk) as int] == fname@);
                            if j < pf.len() {
                                assert(fields@[j] == pf[j]);
                                assert(all[j] == fields@[j].0@);
                            } else {
                                let jj = j - pf.len();
                                assert(fields@[pf.len() + jj].0@ == pre[jj].0);
                                assert(declared_fields(c.body@)[jj] == pre[jj]);
                                assert(all[j] == fields@[j].0@);
                            }
                            assert(all[j] == all[(pf.len() + dk) as int]);
                            assert(false);
                        }
                    }
                    return fail(msg5("duplicate field `", fname.as_str(), "` in class `", name.as_str(), "`"));
                }
                field_names.push(fname.clone());
                let ghost a1 = *arena;
                let ty = parse_type_annotation(Some(annotation), &env.reg, arena);
                proof {
                    lemma_sigs_mono(&env.sigs, &a1, arena);
                    lemma_registry_mono(&env.reg, &a1, arena);
                    Arena::lemma_extends_trans(&a00, &a1, arena);
                    assert forall|f: int| 0 <= f < fields@.len() implies arena.valid(#[trigger] fields@[f].1) by {
                        arena.lemma_valid_mono(&a1, fields@[f].1);
                    }
                }
                let ty = match ty {
                    Some(t) => t,
                    None => {
                        return fail(msg5("class field `", fname.as_str(), "` annotation could not be resolved (in `", name.as_str(), "`)"));
                    },
                };
                if value.is_some() {
                    return fail(msg5("class field defaults not supported (on `", fname.as_str(), "` in `", name.as_str(), "`)"));
                }
                let ghost fb = fields@;
                fields.push((fname.clone(), ty));
                proof {
                    if distinct_names(field_names_of(pf)) {
                        assert forall|i: int, j: int| 0 <= i < j < fields@.len() implies
                            field_names_of(fields@)[i] != field_names_of(fields@)[j] by {
                            if j == fb.len() {
                                assert(field_names@[i]@ == fields@[i].0@);
                            } else {
                                assert(field_names_of(fb)[i] != field_names_of(fb)[j]);
                            }
                        }
                    }
                    if simple {
                        lemma_declared_step(c.body@, b as int);
                    }
                }
            },
            ast::Stmt::FunctionDef(f) => {
                let mname = concat3(name.as_str(), ".", f.name.as_str());
                if has_abstract_decorator(&f.decorator_list) {
                    if !contains_name(&unimplemented, f.name.as_str()) {
                        unimplemented.push(f.name.clone());
                        proof {
                            assert forall|n: Seq<char>| #[trigger] mentions(unimplemented@, n) <==> (mentions(ub, n) || n == f.name@) by {
                                if mentions(unimplemented@, n) {
                                    let j = choose|j: int| 0 <= j < unimplemented@.len() && (#[trigger] unimplemented@[j])@ == n;
                                    if j < ub.len() { assert(ub[j] == unimplemented@[j]); }
                                }
                                if mentions(ub, n) {
                                    let j = choose|j: int| 0 <= j < ub.len() && (#[trigger] ub[j])@ == n;
                                    assert(unimplemented@[j] == ub[j]);
                                }
                                if n == f.name@ {
                                    assert(unimplemented@[ub.len() as int]@ == n);
                                }
                            }
                            if amok {
                                assert forall|i: int, j: int| 0 <= i < j < unimplemented@.len() implies
                                    (#[trigger] unimplemented@[i])@ != (#[trigger] unimplemented@[j])@ by {
                                    if j == ub.len() {
                                        assert(unimplemented@[i] == ub[i]);
                                    } else {
                                        assert(unimplemented@[i] == ub[i]);
                                        assert(unimplemented@[j] == ub[j]);
                                    }
                                }
                            }
                        }
                    }
                    proof {
                        assert(forall|n: Seq<char>| #[trigger] mentions(unimplemented@, n) <==> (mentions(ub, n) || n == f.name@));
                    }
                } else {
                    if env.sigs.contains_key(mname.as_str()) {
                        return fail(msg5("duplicate method `", f.name.as_str(), "` in class `", name.as_str(), "`"));
                    }
                    let ghost a1 = *arena;
                    let sig = collect_method_signature(class_id, f, &env.reg, arena);
                    proof {
                        lemma_sigs_mono(&env.sigs, &a1, arena);
                        lemma_registry_mono(&env.reg, &a1, arena);
                        Arena::lemma_extends_trans(&a00, &a1, arena);
                        assert forall|f: int| 0 <= f < fields@.len() implies arena.valid(#[trigger] fields@[f].1) by {
                            arena.lemma_valid_mono(&a1, fields@[f].1);
                        }
                    }
                    let sig = sig?;
                    let ghost sigs_before = env.sigs.entries@;
                    env.sigs.insert(arena, mname.clone(), sig);
                    methods.push((class_id, mname, stmt_index, b));
                    remove_name(&mut unimplemented, f.name.as_str());
                    proof {
                        if amok {
                            if mentions(ub, f.name@) {
                                let k = choose|k: int| {
                                    &&& 0 <= k < ub.len()
                                    &&& ub[k]@ == f.name@
                                    &&& (forall|j: int| 0 <= j < k ==> (#[trigger] ub[j])@ != f.name@)
                                    &&& unimplemented@ == ub.remove(k)
                                };
                                assert forall|j: int| 0 <= j < unimplemented@.len() implies #[trigger] unimplemented@[j]
                                    == (if j < k { ub[j] } else { ub[j + 1] }) by {}
                                assert forall|n: Seq<char>| #[trigger] mentions(unimplemented@, n) <==> (mentions(ub, n) && n != f.name@) by {
                                    if mentions(unimplemented@, n) {
                                        let j = choose|j: int| 0 <= j < unimplemented@.len() && (#[trigger] unimplemented@[j])@ == n;
                                        let jj = if j < k { j } else { j + 1 };
                                        assert(ub[jj]@ == n);
                                        assert(jj != k);
                                        if jj < k { assert(ub[jj]@ != ub[k]@); } else { assert(ub[k]@ != ub[jj]@); }
                                    }
                                    if mentions(ub, n) && n != f.name@ {
                                        let j = choose|j: int| 0 <= j < ub.len() && (#[trigger] ub[j])@ == n;
                                        assert(j != k);
                                        let jj = if j < k { j } else { j - 1 };
                                        assert(unimplemented@[jj]@ == n);
                                    }
                                }
                                assert forall|i: int, j: int| 0 <= i < j < unimplemented@.len() implies
                                    (#[trigger] unimplemented@[i])@ != (#[trigger] unimplemented@[j])@ by {
                                    let ii = if i < k { i } else { i + 1 };
                                    let jj = if j < k { j } else { j + 1 };
                                    assert(ub[ii]@ != ub[jj]@);
                                }
                            } else {
                                assert(unimplemented@ == ub);
                            }
                            assert(forall|n: Seq<char>| #[trigger] mentions(unimplemented@, n) <==> (mentions(ub, n) && n != f.name@));
                        }
                    }
                    proof {
                        if good {
                            assert forall|k: int| b + 1 <= k < c.body@.len() implies (#[trigger] c.body@[k] matches ast::Stmt::FunctionDef(g)
                                ==> (!abstract_decorated(g) ==> !env.sigs.has(method_key(c.name@, g.name@)))) by {
                                if let ast::Stmt::FunctionDef(g) = c.body@[k] {
                                    if !abstract_decorated(g) {
                                        assert(f.name@ != g.name@);
                                        lemma_method_key_injective(c.name@, f.name@, g.name@);
                                        assert(assoc(env.sigs.entries@, method_key(c.name@, g.name@))
                                            == assoc(sigs_before, method_key(c.name@, g.name@)));
                                    }
                                }
                            }
                        }
                    }
                }
                proof {
                    if simple {
                        lemma_declared_step(c.body@, b as int);
                    }
                }
            },
            ast::Stmt::Pass => {
                proof {
                    if simple {
                        lemma_declared_step(c.body@, b as int);
                    }
                }
            },
            other => {
                let k = stmt_kind_name(other);
                return fail(msg5("only field annotations, methods, and `pass` allowed in class body (got ", k, " in `", name.as_str(), "`)"));
            },
        }
        proof {
            if amok {
                let p0 = c.body@.subrange(0, b as int);
                assert forall|n: Seq<char>| #[trigger] mentions(unimplemented@, n)
                    <==> ((mentions(pa, n) || declares_abstract(c.body@.subrange(0, b + 1), n))
                        && !declares_concrete(c.body@.subrange(0, b + 1), n)) by {
                    lemma_declares_step(c.body@, b as int, n);
                    if let ast::Stmt::FunctionDef(f) = c.body@[b as int] {
                        if n == f.name@ {
                            if declares_abstract(p0, n) {
                                let k = choose|k: int| 0 <= k < p0.len() && (#[trigger] p0[k] matches ast::Stmt::FunctionDef(g) && abstract_decorated(g) && g.name@ == n);
                                assert(p0[k] == c.body@[k]);
                            }
                            if declares_concrete(p0, n) {
                                let k = choose|k: int| 0 <= k < p0.len() && (#[trigger] p0[k] matches ast::Stmt::FunctionDef(g) && !abstract_decorated(g) && g.name@ == n);
                                assert(p0[k] == c.body@[k]);
                            }
                        }
                    } else {
                        assert(unimplemented@ == ub);
                    }
                }
            }
        }
        b += 1;
    }
    proof { assert(c.body@.subrange(0, c.body@.len() as int) =~= c.body@); }
    let ghost a1 = *arena;
    class_id.set_fields(arena, fields);
    let sorted = sort_names(unimplemented);
    let ghost a2 = *arena;
    class_id.set_abstract_methods(arena, sorted);
    proof {
        lemma_sigs_mono(&env.sigs, &a1, &a2);
        lemma_registry_mono(&env.reg, &a1, &a2);
        lemma_sigs_mono(&env.sigs, &a2, arena);
        lemma_registry_mono(&env.reg, &a2, arena);
        Arena::lemma_extends_trans(&a1, &a2, arena);
        Arena::lemma_extends_trans(&a00, &a1, arena);
    }
    Ok(())
}

proof fn lemma_method_key_injective(c: Seq<char>, m1: Seq<char>, m2: Seq<char>)
    requires
        m1 != m2,
    ensures
        method_key(c, m1) != method_key(c, m2),
{
    let k1 = method_key(c, m1);
    let k2 = method_key(c, m2);
    reveal_strlit(".");
    let n = c.len() + 1;
    assert(k1.subrange(n as int, k1.len() as int) =~= m1);
    assert(k2.subrange(n as int, k2.len() as int) =~= m2);
}

proof fn lemma_declared_prefix(body: Seq<ast::Stmt>, b: int)
    requires
        0 <= b < body.len(),
        field_decl(body[b]) is Some,
    ensures
        declared_fields(body)[declared_fields(body.subrange(0, b)).len() as int] == field_decl(body[b])->0,
        declared_fields(body.subrange(0, b)).len() < declared_fields(body).len(),
        forall|i: int| 0 <= i < declared_fields(body.subrange(0, b)).len()
            ==> declared_fields(body)[i] == #[trigger] declared_fields(body.subrange(0, b))[i],
    decreases body.len(),
{
    if b == body.len() - 1 {
        assert(body.subrange(0, b) =~= body.drop_last());
    } else {
        assert(body.drop_last().subrange(0, b) =~= body.subrange(0, b));
        lemma_declared_prefix(body.drop_last(), b);
        assert(body.drop_last()[b] == body[b]);
    }
}

proof fn lemma_declared_step(body: Seq<ast::Stmt>, b: int)
    requires
        0 <= b < body.len(),
    ensures
        declared_fields(body.subrange(0, b + 1)) == declared_fields(body.subrange(0, b)) + match field_decl(body[b]) {
            Some(f) => seq![f],
            None => Seq::<(Seq<char>, ast::Expr)>::empty(),
        },
{
    assert(body.subrange(0, b + 1).drop_last() =~= body.subrange(0, b));
    assert(body.subrange(0, b + 1).last() == body[b]);
}

/// The class the statement at position `j` of `m` defines.
pub open spec fn class_at(m: ast::Module, j: int) -> ast::ClassDef {
    m.body@[j]->ClassDef_0
}

/// The name of a class's single base, when it names one.
pub open spec fn base_name(c: ast::ClassDef) -> Option<Seq<char>> {
    if c.bases@.len() == 1 {
        match c.bases@[0] {
            ast::Expr::Name(n) => Some(n@),
            _ => None,
        }
    } else {
        None
    }
}

/// A class without decorators or keywords, with no base or one named
/// base, whose body holds fields with builtin annotations, `pass` and
/// abstract methods with distinct names.
pub open spec fn field_class(c: ast::ClassDef) -> bool {
    &&& simple_class_body(c.body@)
    &&& c.decorator_list@.len() == 0
    &&& c.keywords@.len() == 0
    &&& forall|k: int| 0 <= k < c.body@.len() ==> (#[trigger] c.body@[k] matches ast::Stmt::FunctionDef(f) ==> abstract_decorated(f))
    &&& forall|j: int, k: int| 0 <= j < k < c.body@.len() ==> (#[trigger] c.body@[j] matches ast::Stmt::FunctionDef(f)
        ==> (#[trigger] c.body@[k] matches ast::Stmt::FunctionDef(g) ==> f.name@ != g.name@))
    &&& c.bases@.len() == 0 || base_name(c) is Some
}

/// Every top-level statement of `m` is such a class; their names are
/// distinct and new to `env`; each base is a class `env` already knows
/// (such as `ABC`) or one defined earlier in `m`.
pub open spec fn field_classes_module(m: ast::Module, env: &Env) -> bool {
    &&& forall|j: int| 0 <= j < m.body@.len() ==> (#[trigger] m.body@[j]) is ClassDef
    &&& forall|j: int| 0 <= j < m.body@.len() ==> field_class(#[trigger] class_at(m, j))
    &&& forall|j: int, k: int| 0 <= j < k < m.body@.len() ==> (#[trigger] class_at(m, j)).name@ != (#[trigger] class_at(m, k)).name@
    &&& forall|j: int| 0 <= j < m.body@.len() ==> env.reg.lookup((#[trigger] class_at(m, j)).name@) is None
        && !env.sigs.has(class_at(m, j).name@)
    &&& forall|j: int| 0 <= j < m.body@.len() ==> (base_name(#[trigger] class_at(m, j)) matches Some(b)
        ==> (env.reg.lookup(b) is Some || exists|k: int| 0 <= k < j && class_at(m, k).name@ == b))
}

/// The id `reg` gives the class named `n`.
pub open spec fn registered(reg: &Registry, n: Seq<char>) -> ClassId {
    reg.lookup(n)->0
}

/// The parent a class gets: the class its base names, none without one.
pub open spec fn expected_parent(reg: &Registry, c: ast::ClassDef) -> Option<ClassId> {
    match base_name(c) {
        Some(b) => reg.lookup(b),
        None => None,
    }
}

/// Class `c` is registered, has the parent its base names, its fields
/// are the parent's followed by its own declared fields, and (where the
/// parent lists no abstract method twice) its abstract methods are the
/// parent's and its own `@abstractmethod`s minus those it defines.
pub open spec fn class_lowered(a: &Arena, reg: &Registry, c: ast::ClassDef) -> bool {
    &&& reg.lookup(c.name@) is Some
    &&& registered(reg, c.name@).0 < a.classes@.len()
    &&& registered(reg, c.name@).def(a).parent == expected_parent(reg, c)
    &&& fields_follow(registered(reg, c.name@).def(a).fields@, inherited_fields(a, expected_parent(reg, c)),
        declared_fields(c.body@))
    &&& no_dup_text(inherited_abstract(a, expected_parent(reg, c)))
        ==> abstract_set_ok(registered(reg, c.name@).def(a).abstract_methods@,
            inherited_abstract(a, expected_parent(reg, c)), c.body@)
}

/// No field name of class `c` repeats: neither among its own fields nor
/// against those it inherits.
pub open spec fn class_fields_distinct(a: &Arena, reg: &Registry, c: ast::ClassDef) -> bool {
    distinct_names(field_names_of(inherited_fields(a, expected_parent(reg, c)))
        + declared_fields(c.body@).map_values(|f: (Seq<char>, ast::Expr)| f.0))
}

proof fn lemma_class_lowered_kept(a: &Arena, b: &Arena, reg: &Registry, c: ast::ClassDef, changed: int)
    requires
        class_lowered(a, reg, c),
        registered(reg, c.name@).0 != changed,
        expected_parent(reg, c) matches Some(p) ==> p.0 != changed && p.0 < a.classes@.len(),
        b.classes@.len() == a.classes@.len(),
        forall|j: int| 0 <= j < b.classes@.len() && j != changed ==> #[trigger] b.classes@[j] == a.classes@[j],
    ensures
        class_lowered(b, reg, c),
        inherited_fields(b, expected_parent(reg, c)) == inherited_fields(a, expected_parent(reg, c)),
{
    assert(b.classes@[registered(reg, c.name@).0 as int] == a.classes@[registered(reg, c.name@).0 as int]);
    if let Some(p) = expected_parent(reg, c) {
        assert(b.classes@[p.0 as int] == a.classes@[p.0 as int]);
    }
}

/// No statement of `body` defines a class.
pub open spec fn no_class_defs(body: Seq<ast::Stmt>) -> bool {
    forall|k: int| 0 <= k < body.len() ==> !(#[trigger] body[k] is ClassDef)
}

/// The diagnostic with which a module is refused for a top-level
/// statement that is neither a `def`, a `class` nor a `from … import …`.
pub open spec fn top_level_form_error(s: ast::Stmt) -> Option<Seq<char>> {
    match s {
        ast::Stmt::FunctionDef(_) | ast::Stmt::ClassDef(_) | ast::Stmt::ImportFrom { .. } => None,
        _ => Some(unsup("only `def` and `from … import …` are allowed at the top level, found "@ + stmt_kind(s))),
    }
}

/// Lower one module and, recursively, the sibling modules it imports,
/// into the shared tables and function list. `loaded[j]` records that
/// `sources[j]` has been (or is being) lowered.
#[verifier::loop_isolation(false)]
#[verifier::spinoff_prover]
#[verifier::rlimit(60)]
pub fn lower_module_into(module: &ast::Module, source_path: &str, sources: &Vec<SourceModule>, env: &mut Env,
    functions: &mut Vec<Function>, loaded: &mut Vec<bool>, arena: &mut Arena) -> (r: Result<(), CompileError>)
    requires
        module_state_ok(old(arena), old(env), old(functions)@),
        old(loaded)@.len() == sources@.len(),
    ensures
        final(arena).extends(old(arena)),
        module_state_ok(final(arena), final(env), final(functions)@),
        final(loaded)@.len() == old(loaded)@.len(),
        count_unloaded(final(loaded)@) <= count_unloaded(old(loaded)@),
        module.body@.len() == 0 ==> (r is Ok && final(functions)@ == old(functions)@),
        (no_class_defs(module.body@) && module.body@.len() > 0 && top_level_form_error(module.body@[0]) is Some)
            ==> (r matches Err(e) && e.message@ == top_level_form_error(module.body@[0])->0),
        single_plain_function(*module) && !old(env).sigs.has(sole_def(*module)->0.name@) ==> {
            let fd = sole_def(*module)->0;
            let t = builtin_annotation(fd.returns)->0;
            &&& r is Ok ==> final(functions)@.len() == old(functions)@.len() + 1
                && final(functions)@.subrange(0, old(functions)@.len() as int) == old(functions)@
                && plain_header(final(functions)@.last(), fd)
            &&& forall|k: int| #[trigger] body_rejected_at(fd, k)
                ==> (r matches Err(e) && e.message@ == head_rejection(fd.body@[k], 0)->0)
            &&& def_leaf(fd) matches Some(x) ==> match r {
                Ok(_) => returns_coerced(final(arena), x, t, final(functions)@.last()),
                Err(e) => coerce_post(final(arena), x, t, Err::<TypedExpr, CompileError>(e)),
            }
            &&& simple_body(arg_bind(fd.args.args@), fd.body@, t)
                ==> (r is Ok && simple_lowered(final(functions)@.last().body@, fd.body@))
        },
        field_classes_module(*module, old(env)) ==> {
            &&& final(functions)@ == old(functions)@
            &&& r is Ok ==> forall|j: int| 0 <= j < module.body@.len()
                ==> class_lowered(final(arena), &final(env).reg, #[trigger] class_at(*module, j))
            &&& (forall|j: int| 0 <= j < module.body@.len()
                ==> class_fields_distinct(final(arena), &final(env).reg, #[trigger] class_at(*module, j))) ==> r is Ok
        },
        plain_defs_module(*module, old(env)) ==> {
            &&& r is Ok ==> final(functions)@.len() == old(functions)@.len() + module.body@.len()
                && final(functions)@.subrange(0, old(functions)@.len() as int) == old(functions)@
                && forall|j: int| 0 <= j < module.body@.len()
                    ==> plain_header(final(functions)@[old(functions)@.len() + j], #[trigger] def_at(*module, j))
            &&& simple_defs(*module) ==> (r is Ok && forall|j: int| 0 <= j < module.body@.len()
                ==> simple_lowered(final(functions)@[old(functions)@.len() + j].body@, (#[trigger] def_at(*module, j)).body@))
        },
        single_const_function(*module) && !old(env).sigs.has(sole_def(*module)->0.name@) ==> (r is Ok
            && final(functions)@.len() == old(functions)@.len() + 1
            && final(functions)@.subrange(0, old(functions)@.len() as int) == old(functions)@
            && const_function(final(functions)@.last(), sole_def(*module)->0)),
    decreases count_unloaded(old(loaded)@),
{
    proof { Arena::lemma_extends_refl(arena); }
    let ghost a0 = *arena;
    let ghost c0 = count_unloaded(loaded@);
    let ghost f0 = functions@;
    let ghost s0 = env.sigs.entries@;
    let ghost single = single_const_function(*module) && !env.sigs.has(sole_def(*module)->0.name@);
    let ghost plain = single_plain_function(*module) && !env.sigs.has(sole_def(*module)->0.name@);
    let ghost fd = sole_def(*module)->0;
    let ghost multi = plain_defs_module(*module, env);
    let ghost fc = field_classes_module(*module, env);
    let ghost r0 = env.reg;
    let ghost nc0 = arena.classes@.len();
    let ghost nb = module.body@.len();
    let body = &module.body;
    // Phase 0a: register every class name so annotations can refer to it.
    let mut i: usize = 0;
    while i < body.len()
        invariant
            body@.len() == 0 ==> functions@ == f0,
            plain ==> env.sigs.entries@ == s0 && functions@ == f0,
            multi ==> env.sigs.entries@ == s0 && functions@ == f0,
            fc ==> env.sigs.entries@ == s0 && functions@ == f0 && arena.classes@.len() == nc0 + i
                && (forall|k: int| 0 <= k < nc0 ==> #[trigger] arena.classes@[k] == a0.classes@[k])
                && (forall|k: int| 0 <= k < i ==> env.reg.lookup((#[trigger] class_at(*module, k)).name@)
                    == Some(ClassId((nc0 + k) as usize)))
                && (forall|k: int| i <= k < nb ==> env.reg.lookup((#[trigger] class_at(*module, k)).name@) is None)
                && (forall|n: Seq<char>| (forall|k: int| 0 <= k < nb ==> (#[trigger] class_at(*module, k)).name@ != n)
                    ==> #[trigger] env.reg.lookup(n) == r0.lookup(n)),
            0 <= i <= body@.len(),
            arena.extends(&a0),
            module_state_ok(arena, env, functions@),
            loaded@.len() == sources@.len(),
            count_unloaded(loaded@) <= c0,
        decreases body.len() - i,
    {
        if let ast::Stmt::ClassDef(c) = &body[i] {
            let name = &c.name;
            proof {
                if fc {
                    assert(class_at(*module, i as int) == *c);
                    assert(env.reg.lookup(c.name@) is None);
                    assert(!env.sigs.has(c.name@));
                }
            }
            if env.reg.contains(name.as_str()) || env.sigs.contains_key(name.as_str()) {
                return fail(msg3("duplicate class or function `", name.as_str(), "`"));
            }
            let ghost a1 = *arena;
            let id = ClassId::intern(arena, ClassDef { name: name.clone(), fields: Vec::new(), parent: None, abstract_methods: Vec::new() });
            proof {
                lemma_state_mono(&a1, arena, env, functions@);
                Arena::lemma_extends_trans(&a0, &a1, arena);
            }
            let ghost reg_before = env.reg;
            env.reg.insert(arena, name.clone(), id);
            proof {
                if fc {
                    assert(class_at(*module, i as int) == *c);
                    assert forall|k: int| 0 <= k < i + 1 implies env.reg.lookup((#[trigger] class_at(*module, k)).name@)
                        == Some(ClassId((nc0 + k) as usize)) by {
                        if k < i {
                            assert(class_at(*module, k).name@ != class_at(*module, i as int).name@);
                        }
                    }
                    assert forall|k: int| i + 1 <= k < nb implies env.reg.lookup((#[trigger] class_at(*module, k)).name@) is None by {
                        assert(class_at(*module, k).name@ != class_at(*module, i as int).name@);
                    }
                    assert forall|n: Seq<char>| (forall|k: int| 0 <= k < nb ==> (#[trigger] class_at(*module, k)).name@ != n)
                        implies #[trigger] env.reg.lookup(n) == r0.lookup(n) by {
                        assert(class_at(*module, i as int).name@ != n);
                    }
                }
            }
        }
        i += 1;
    }
    // Phase 0b: fields, parents, abstract methods and method signatures.
    let ghost reg1 = env.reg;
    proof {
        if fc {
            assert forall|k: int| 0 <= k < nb implies (expected_parent(&reg1, #[trigger] class_at(*module, k)) matches Some(p)
                ==> p.0 < nc0 + k) && (base_name(class_at(*module, k)) is Some ==> expected_parent(&reg1, class_at(*module, k)) is Some) by {
                if let Some(b) = base_name(class_at(*module, k)) {
                    if r0.lookup(b) is Some {
                        assert forall|kk: int| 0 <= kk < nb implies (#[trigger] class_at(*module, kk)).name@ != b by {
                            assert(r0.lookup(class_at(*module, kk).name@) is None);
                        }
                        assert(reg1.lookup(b) == r0.lookup(b));
                        crate::check::lemma_assoc_some(r0.entries@, b);
                    } else {
                        let kk = choose|kk: int| 0 <= kk < k && class_at(*module, kk).name@ == b;
                        assert(reg1.lookup(class_at(*module, kk).name@) == Some(ClassId((nc0 + kk) as usize)));
                    }
                }
            }
        }
    }
    let mut methods: Vec<(ClassId, String, usize, usize)> = Vec::new();
    let mut i: usize = 0;
    while i < body.len()
        invariant
            body@.len() == 0 ==> functions@ == f0,
            plain ==> env.sigs.entries@ == s0 && functions@ == f0 && methods@.len() == 0,
            multi ==> env.sigs.entries@ == s0 && functions@ == f0 && methods@.len() == 0,
            fc ==> env.sigs.entries@ == s0 && functions@ == f0 && methods@.len() == 0 && env.reg == reg1
                && arena.classes@.len() == nc0 + nb
                && (forall|k: int| 0 <= k < nc0 ==> #[trigger] arena.classes@[k] == a0.classes@[k])
                && (forall|k: int| 0 <= k < i ==> class_lowered(arena, &env.reg, #[trigger] class_at(*module, k))),
            body@.len() == 0 ==> methods@.len() == 0,
            0 <= i <= body@.len(),
            arena.extends(&a0),
            module_state_ok(arena, env, functions@),
            loaded@.len() == sources@.len(),
            count_unloaded(loaded@) <= c0,
            forall|k: int| 0 <= k < methods@.len() ==> (#[trigger] methods@[k]).0.0 < arena.classes@.len(),
        decreases body.len() - i,
    {
        if let ast::Stmt::ClassDef(c) = &body[i] {
            let name = &c.name;
            proof {
                if fc {
                    assert(class_at(*module, i as int) == *c);
                    assert(reg1.lookup(c.name@) == Some(ClassId((nc0 + i) as usize)));
                }
            }
            let class_id = match env.reg.get(arena, name.as_str()) {
                Some(id) => id,
                None => {
                    return fail(msg3("internal: class `", name.as_str(), "` was not registered"));
                },
            };
            let parent_id: Option<ClassId> = if c.bases.len() == 0 {
                None
            } else if c.bases.len() == 1 {
                let base_name = match &c.bases[0] {
                    ast::Expr::Name(n) => n,
                    _ => {
                        return fail(msg3("base class must be a simple class name (in `", name.as_str(), "`)"));
                    },
                };
                match env.reg.get(arena, base_name.as_str()) {
                    Some(b) => Some(b),
                    None => {
                        return fail(msg5("base class `", base_name.as_str(), "` of `", name.as_str(), "` is not defined"));
                    },
                }
            } else {
                return fail(msg1("multiple inheritance is not supported in v0.34 (only single-base; interface-style ABCs are deferred)"));
            };
            let ghost a1 = *arena;
            proof {
                if fc {
                    assert(class_at(*module, i as int) == *c);
                    assert(arena.classes.len() == arena.classes@.len());
                    assert(nc0 + i < arena.classes@.len());
                    assert(class_id == ClassId((nc0 + i) as usize));
                    assert(class_id.0 == nc0 + i);
                    assert(parent_id == expected_parent(&env.reg, *c));
                }
            }
            let res = lower_class_body(c, class_id, parent_id, i, env, &mut methods, arena);
            proof {
                lemma_functions_mono(&a1, arena, functions@);
                Arena::lemma_extends_trans(&a0, &a1, arena);
                if fc {
                    let ci = class_at(*module, i as int);
                    assert(class_id.0 == nc0 + i);
                    assert(arena.classes@.len() == a1.classes@.len());
                    if let Some(p) = parent_id {
                        assert(p.0 < nc0 + i);
                        assert(p.0 != class_id.0);
                        assert(arena.classes@[p.0 as int] == a1.classes@[p.0 as int]);
                    }
                    assert(inherited_fields(arena, parent_id) == inherited_fields(&a1, parent_id));
                    assert(inherited_abstract(arena, parent_id) == inherited_abstract(&a1, parent_id));
                    assert(distinct_methods(c.body@)) by {
                        assert(field_class(ci));
                    }
                    assert forall|k: int| 0 <= k < nc0 implies #[trigger] arena.classes@[k] == a0.classes@[k] by {
                        assert(arena.classes@[k] == a1.classes@[k]);
                    }
                    assert forall|k: int| 0 <= k < i implies class_lowered(arena, &env.reg, #[trigger] class_at(*module, k)) by {
                        assert(class_lowered(&a1, &env.reg, class_at(*module, k)));
                        assert(env.reg.lookup(class_at(*module, k).name@) == Some(ClassId((nc0 + k) as usize)));
                        lemma_class_lowered_kept(&a1, arena, &env.reg, class_at(*module, k), nc0 + i);
                    }
                    if res is Ok {
                        assert(class_lowered(arena, &env.reg, ci));
                    } else {
                        assert(!class_fields_distinct(arena, &env.reg, ci));
                    }
                }
            }
            res?;
        }
        i += 1;
    }
    // Phase 1: top-level function signatures and imports.
    let ghost a_c = *arena;
    let ghost e_c = *env;
    let mut local_funcs: Vec<usize> = Vec::new();
    let mut i: usize = 0;
    while i < body.len()
        invariant
            body@.len() == 0 ==> functions@ == f0,
            plain ==> methods@.len() == 0 && functions@ == f0,
            plain && i == 0 ==> env.sigs.entries@ == s0 && local_funcs@.len() == 0,
            plain && i == 1 ==> local_funcs@ == seq![0usize] && has_plain_sig(env, fd),
            multi ==> methods@.len() == 0 && functions@ == f0 && local_funcs@.len() == i
                && (forall|j: int| 0 <= j < i ==> local_funcs@[j] == j)
                && (forall|j: int| 0 <= j < i ==> has_plain_sig(env, #[trigger] def_at(*module, j)))
                && (forall|j: int| i <= j < nb ==> !env.sigs.has((#[trigger] def_at(*module, j)).name@)),
            i > 0 ==> top_level_form_error(body@[0]) is None,
            fc ==> *arena == a_c && *env == e_c && functions@ == f0 && methods@.len() == 0 && local_funcs@.len() == 0,
            body@.len() == 0 ==> methods@.len() == 0,
            body@.len() == 0 ==> local_funcs@.len() == 0,
            0 <= i <= body@.len(),
            arena.extends(&a0),
            module_state_ok(arena, env, functions@),
            loaded@.len() == sources@.len(),
            count_unloaded(loaded@) <= c0,
            forall|k: int| 0 <= k < methods@.len() ==> (#[trigger] methods@[k]).0.0 < arena.classes@.len(),
        decreases body.len() - i,
    {
        match &body[i] {
            ast::Stmt::ClassDef(_) => {},
            ast::Stmt::FunctionDef(f) => {
                let ghost a1 = *arena;
                proof {
                    if multi {
                        assert(def_at(*module, i as int) == *f);
                        assert(plain_signature(*f));
                        assert(!env.sigs.has(f.name@));
                    }
                }
                let sig = collect_signature(f, &env.reg, arena);
                proof {
                    lemma_state_mono(&a1, arena, env, functions@);
                    Arena::lemma_extends_trans(&a0, &a1, arena);
                }
                let sig = sig?;
                if env.sigs.contains_key(f.name.as_str()) {
                    return fail(msg3("duplicate top-level function `", f.name.as_str(), "` (collisions across files are not supported)"));
                }
                let ghost sigs_before = env.sigs.entries@;
                env.sigs.insert(arena, f.name.clone(), sig);
                local_funcs.push(i);
                proof {
                    if multi {
                        assert forall|j: int| 0 <= j < i + 1 implies has_plain_sig(env, #[trigger] def_at(*module, j)) by {
                            if j < i {
                                assert(def_at(*module, j).name@ != def_at(*module, i as int).name@);
                                assert(assoc(env.sigs.entries@, def_at(*module, j).name@) == assoc(sigs_before, def_at(*module, j).name@));
                            }
                        }
                        assert forall|j: int| i + 1 <= j < nb implies !env.sigs.has((#[trigger] def_at(*module, j)).name@) by {
                            assert(def_at(*module, j).name@ != def_at(*module, i as int).name@);
                            assert(assoc(env.sigs.entries@, def_at(*module, j).name@) == assoc(sigs_before, def_at(*module, j).name@));
                        }
                    }
                }
            },
            ast::Stmt::ImportFrom { module: m, names } => {
                let module_name: &str = match m {
                    Some(s) => s.as_str(),
                    None => "",
                };
                if !is_documentary_module(module_name) {
                    let candidate = module_candidate_path(source_path, module_name);
                    let j = match find_source(sources, candidate.as_str()) {
                        Some(j) => j,
                        None => {
                            return fail(msg5("cannot find module `", module_name, "` (looked for ", candidate.as_str(), ")"));
                        },
                    };
                    if !loaded[j] {
                        proof { lemma_count_unloaded_set(loaded@, j as int); }
                        loaded.set(j, true);
                        let ghost a1 = *arena;
                        lower_module_into(&sources[j].module, sources[j].path.as_str(), sources, env, functions, loaded, arena)?;
                        proof { Arena::lemma_extends_trans(&a0, &a1, arena); }
                        let mut k: usize = 0;
                        while k < names.len()
                            invariant
                                0 <= k <= names@.len(),
                            decreases names.len() - k,
                        {
                            let alias = &names[k];
                            if !env.sigs.contains_key(alias.name.as_str()) {
                                return fail(msg5("module `", module_name, "` does not define `", alias.name.as_str(), "`"));
                            }
                            if alias.asname.is_some() {
                                return fail(msg1("import aliases (`as`) are not yet supported"));
                            }
                            k += 1;
                        }
                    }
                }
            },
            other => {
                let k = stmt_kind_name(other);
                return fail(msg2("only `def` and `from … import …` are allowed at the top level, found ", k));
            },
        }
        i += 1;
    }
    // Phase 2: lower this module's function and method bodies.
    let mut i: usize = 0;
    while i < local_funcs.len()
        invariant
            body@.len() > 0 ==> top_level_form_error(body@[0]) is None,
            body@.len() == 0 ==> functions@ == f0,
            fc ==> *arena == a_c && *env == e_c && functions@ == f0 && methods@.len() == 0 && local_funcs@.len() == 0,
            plain ==> methods@.len() == 0 && local_funcs@ == seq![0usize] && has_plain_sig(env, fd),
            multi ==> methods@.len() == 0 && local_funcs@.len() == nb
                && (forall|j: int| 0 <= j < nb ==> local_funcs@[j] == j)
                && (forall|j: int| 0 <= j < nb ==> has_plain_sig(env, #[trigger] def_at(*module, j)))
                && functions@.len() == f0.len() + i && functions@.subrange(0, f0.len() as int) == f0
                && (forall|j: int| 0 <= j < i ==> plain_header(functions@[f0.len() + j], #[trigger] def_at(*module, j)))
                && (simple_defs(*module) ==> forall|j: int| 0 <= j < i
                    ==> simple_lowered(functions@[f0.len() + j].body@, (#[trigger] def_at(*module, j)).body@)),
            plain && i == 0 ==> functions@ == f0,
            plain && i == 1 ==> functions@.len() == f0.len() + 1 && functions@.subrange(0, f0.len() as int) == f0
                && plain_header(functions@.last(), fd)
                && (forall|k: int| !#[trigger] body_rejected_at(fd, k))
                && (def_leaf(fd) matches Some(x) ==> returns_coerced(arena, x, builtin_annotation(fd.returns)->0, functions@.last()))
                && (simple_body(arg_bind(fd.args.args@), fd.body@, builtin_annotation(fd.returns)->0)
                    ==> simple_lowered(functions@.last().body@, fd.body@)),
            single && i == 1 ==> functions@.len() == f0.len() + 1 && functions@.subrange(0, f0.len() as int) == f0
                && const_function(functions@.last(), fd),
            body@.len() == 0 ==> methods@.len() == 0,
            body@.len() == 0 ==> local_funcs@.len() == 0,
            0 <= i <= local_funcs@.len(),
            arena.extends(&a0),
            module_state_ok(arena, env, functions@),
            loaded@.len() == sources@.len(),
            count_unloaded(loaded@) <= c0,
            forall|k: int| 0 <= k < methods@.len() ==> (#[trigger] methods@[k]).0.0 < arena.classes@.len(),
        decreases local_funcs.len() - i,
    {
        let idx = local_funcs[i];
        if idx < body.len() {
            if let ast::Stmt::FunctionDef(f) = &body[idx] {
                let ghost a1 = *arena;
                let lowered = lower_function(f, env, arena);
                proof {
                    lemma_functions_mono(&a1, arena, functions@);
                    Arena::lemma_extends_trans(&a0, &a1, arena);
                    if multi {
                        let fj = def_at(*module, idx as int);
                        let ps = assoc(env.sigs.entries@, fj.name@)->0.params@;
                        assert(has_plain_sig(env, fj));
                        assert forall|n: Seq<char>| #[trigger] param_binding(ps, n) == arg_binding(fj.args.args@, n) by {
                            lemma_arg_binding(ps, fj.args.args@, n);
                        }
                        assert(param_bind(ps) =~= arg_bind(fj.args.args@));
                    }
                    if plain {
                        let ps = assoc(env.sigs.entries@, fd.name@)->0.params@;
                        assert forall|n: Seq<char>| #[trigger] param_binding(ps, n) == arg_binding(fd.args.args@, n) by {
                            lemma_arg_binding(ps, fd.args.args@, n);
                        }
                        assert(param_bind(ps) =~= arg_bind(fd.args.args@));
                    }
                    if plain && fd.body@.len() == 1 {
                        if let ast::Stmt::Return(Some(v)) = fd.body@[0] {
                            if let ast::Expr::Name(n) = v {
                                lemma_arg_binding(assoc(env.sigs.entries@, fd.name@)->0.params@, fd.args.args@, n@);
                            }
                        }
                    }
                }
                let lowered = lowered?;
                functions.push(lowered);
            }
        }
        i += 1;
    }
    let mut i: usize = 0;
    while i < methods.len()
        invariant
            body@.len() > 0 ==> top_level_form_error(body@[0]) is None,
            body@.len() == 0 ==> functions@ == f0,
            plain ==> methods@.len() == 0 && functions@.len() == f0.len() + 1 && functions@.subrange(0, f0.len() as int) == f0
                && plain_header(functions@.last(), fd)
                && (forall|k: int| !#[trigger] body_rejected_at(fd, k))
                && (def_leaf(fd) matches Some(x) ==> returns_coerced(arena, x, builtin_annotation(fd.returns)->0, functions@.last()))
                && (simple_body(arg_bind(fd.args.args@), fd.body@, builtin_annotation(fd.returns)->0)
                    ==> simple_lowered(functions@.last().body@, fd.body@)),
            fc ==> *arena == a_c && *env == e_c && functions@ == f0 && methods@.len() == 0,
            multi ==> methods@.len() == 0 && functions@.len() == f0.len() + nb && functions@.subrange(0, f0.len() as int) == f0
                && (forall|j: int| 0 <= j < nb ==> plain_header(functions@[f0.len() + j], #[trigger] def_at(*module, j)))
                && (simple_defs(*module) ==> forall|j: int| 0 <= j < nb
                    ==> simple_lowered(functions@[f0.len() + j].body@, (#[trigger] def_at(*module, j)).body@)),
            single ==> methods@.len() == 0 && functions@.len() == f0.len() + 1 && functions@.subrange(0, f0.len() as int) == f0
                && const_function(functions@.last(), fd),
            0 <= i <= methods@.len(),
            arena.extends(&a0),
            module_state_ok(arena, env, functions@),
            loaded@.len() == sources@.len(),
            count_unloaded(loaded@) <= c0,
            forall|k: int| 0 <= k < methods@.len() ==> (#[trigger] methods@[k]).0.0 < arena.classes@.len(),
        decreases methods.len() - i,
    {
        let (cid, mname, si, bi) = (methods[i].0, &methods[i].1, methods[i].2, methods[i].3);
        if si < body.len() {
            if let ast::Stmt::ClassDef(c) = &body[si] {
                if bi < c.body.len() {
                    if let ast::Stmt::FunctionDef(f) = &c.body[bi] {
                        let ghost a1 = *arena;
                        let lowered = lower_method(cid, mname.as_str(), f, env, arena);
                        proof {
                            lemma_functions_mono(&a1, arena, functions@);
                            Arena::lemma_extends_trans(&a0, &a1, arena);
                        }
                        let lowered = lowered?;
                        functions.push(lowered);
                    }
                }
            }
        }
        i += 1;
    }
    Ok(())
}

/// The index of the first function named `main`.
#[verifier::loop_isolation(false)]
fn find_main(fs: &Vec<Function>) -> (r: Option<usize>)
    ensures
        r matches Some(i) ==> crate::hir::first_named(fs@, "main"@) == Some(i as int) && i < fs@.len(),
        r is None ==> crate::hir::first_named(fs@, "main"@) is None,
{
    proof { crate::hir::lemma_first_named(fs@, "main"@); }
    let mut i: usize = 0;
    while i < fs.len()
        invariant
            0 <= i <= fs@.len(),
            forall|j: int| 0 <= j < i ==> (#[trigger] fs@[j]).name@ != "main"@,
        decreases fs.len() - i,
    {
        if str_eq(fs[i].name.as_str(), "main") {
            proof {
                match crate::hir::first_named(fs@, "main"@) {
                    Some(k) => {
                        if k < i {
                            assert(fs@[k].name@ != "main"@);
                        }
                        if k > i {
                            assert(fs@[i as int].name@ != "main"@);
                        }
                    },
                    None => {
                        assert(fs@[i as int].name@ != "main"@);
                    },
                }
            }
            return Some(i);
        }
        i += 1;
    }
    None
}

/// The index of the first parameter of `ps` that a `main` cannot take.
pub open spec fn first_bad_param(ps: Seq<Param>) -> Option<int>
    decreases ps.len(),
{
    if ps.len() == 0 {
        None
    } else {
        match first_bad_param(ps.drop_last()) {
            Some(k) => Some(k),
            None => if main_param_ok(ps.last().ty) { None } else { Some(ps.len() - 1) },
        }
    }
}

proof fn lemma_first_bad_param(ps: Seq<Param>)
    ensures
        match first_bad_param(ps) {
            Some(k) => 0 <= k < ps.len() && !main_param_ok(ps[k].ty)
                && forall|j: int| 0 <= j < k ==> main_param_ok(#[trigger] ps[j].ty),
            None => forall|j: int| 0 <= j < ps.len() ==> main_param_ok(#[trigger] ps[j].ty),
        },
    decreases ps.len(),
{
    if ps.len() > 0 {
        lemma_first_bad_param(ps.drop_last());
        assert forall|j: int| 0 <= j < ps.len() - 1 implies #[trigger] ps[j] == ps.drop_last()[j] by {}
    }
}

/// What the entry-point check answers for the lowered `functions`: the
/// program, or why its `main` is missing or cannot be called from the
/// command line.
pub open spec fn entry_error(arena: &Arena, fs: Seq<Function>) -> Option<Seq<char>> {
    match first_named(fs, "main"@) {
        None => Some(unsup("no `main` function defined at the top level"@)),
        Some(k) => if !main_return_ok(fs[k].return_ty) {
            Some(unsup("`main` must return `int`, `float`, or `str`, found "@ + display_name(arena, fs[k].return_ty)))
        } else {
            match first_bad_param(fs[k].params@) {
                None => None,
                Some(j) => Some(unsup("`main` parameter `"@ + fs[k].params@[j].name@
                    + "` must be `int` or `float`, found "@ + display_name(arena, fs[k].params@[j].ty))),
            }
        },
    }
}

/// Check that the lowered functions have a callable `main` and assemble
/// the program.
pub fn check_entry(functions: Vec<Function>, arena: Arena) -> (r: Result<Program, CompileError>)
    requires
        arena.wf(),
        forall|i: int| 0 <= i < functions@.len() ==> function_ok(&arena, #[trigger] functions@[i]),
    ensures
        match entry_error(&arena, functions@) {
            Some(m) => r matches Err(e) && e.message@ == m,
            None => r matches Ok(p) && p.functions@ == functions@ && p.arena == arena && program_ok(&p),
        },
{
    let mi = match find_main(&functions) {
        Some(i) => i,
        None => {
            return fail(msg1("no `main` function defined at the top level"));
        },
    };
    let main_fn = &functions[mi];
    proof { assert(function_ok(&arena, functions@[mi as int])); }
    let rt = main_fn.return_ty;
    if !(rt == Type::I64 || rt == Type::F64 || rt == Type::Str) {
        let n = rt.name(&arena);
        return fail(msg2("`main` must return `int`, `float`, or `str`, found ", n.as_str()));
    }
    proof { lemma_first_bad_param(main_fn.params@); }
    let mut k: usize = 0;
    while k < main_fn.params.len()
        invariant
            0 <= k <= main_fn.params@.len(),
            arena.wf(),
            function_ok(&arena, *main_fn),
            mi < functions@.len(),
            first_named(functions@, "main"@) == Some(mi as int),
            *main_fn == functions@[mi as int],
            main_return_ok(main_fn.return_ty),
            forall|j: int| 0 <= j < k ==> main_param_ok(#[trigger] main_fn.params@[j].ty),
        decreases main_fn.params.len() - k,
    {
        let pt = main_fn.params[k].ty;
        if !(pt == Type::I64 || pt == Type::F64) {
            let n = pt.name(&arena);
            proof {
                reveal_strlit("");
                lemma_first_bad_param(main_fn.params@);
                match first_bad_param(main_fn.params@) {
                    Some(j) => {
                        if j < k { assert(main_param_ok(main_fn.params@[j].ty)); }
                        if j > k { assert(main_param_ok(main_fn.params@[k as int].ty)); }
                    },
                    None => { assert(main_param_ok(main_fn.params@[k as int].ty)); },
                }
            }
            return fail(msg5("`main` parameter `", main_fn.params[k].name.as_str(), "` must be `int` or `float`, found ", n.as_str(), ""));
        }
        k += 1;
    }
    proof {
        match first_bad_param(main_fn.params@) {
            Some(j) => { assert(main_param_ok(main_fn.params@[j].ty)); },
            None => {},
        }
    }
    let p = Program { functions, arena };
    Ok(p)
}

/// A module that is just `def main(<int or float params>) -> int:
/// return <integer literal>`.
pub open spec fn const_main_module(m: ast::Module) -> bool {
    &&& single_const_function(m)
    &&& sole_def(m)->0.name@ == "main"@
    &&& forall|i: int| 0 <= i < sole_def(m)->0.args.args@.len()
        ==> main_param_ok(builtin_annotation((#[trigger] sole_def(m)->0.args.args@[i]).annotation)->0)
}

/// A module that is one function named `main` with a plain signature.
pub open spec fn plain_main_module(m: ast::Module) -> bool {
    &&& single_plain_function(m)
    &&& sole_def(m)->0.name@ == "main"@
}

/// Every parameter of `f` is annotated with a type a `main` can take.
pub open spec fn main_params_ok(f: ast::FunctionDef) -> bool {
    forall|i: int| 0 <= i < f.args.args@.len()
        ==> main_param_ok(builtin_annotation((#[trigger] f.args.args@[i]).annotation)->0)
}

/// Lower a parsed module (and the sibling modules it imports, supplied
/// in `sources`) to a typed program. `source_path` is the root module's
/// path; imports are resolved relative to it.
#[verifier::loop_isolation(false)]
pub fn lower(module: &ast::Module, source_path: &str, sources: &Vec<SourceModule>) -> (r: Result<Program, CompileError>)
    ensures
        r matches Ok(p) ==> program_ok(&p),
        module.body@.len() == 0 ==> (r matches Err(e)
            && e.message@ == unsup("no `main` function defined at the top level"@)),
        const_main_module(*module) ==> (r matches Ok(p) && p.functions@.len() == 1
            && const_function(p.functions@[0], sole_def(*module)->0)),
        plain_main_module(*module) ==> {
            let fd = sole_def(*module)->0;
            let t = builtin_annotation(fd.returns)->0;
            &&& r matches Ok(p) ==> p.functions@.len() == 1 && plain_header(p.functions@[0], fd)
            &&& forall|k: int| #[trigger] body_rejected_at(fd, k)
                ==> (r matches Err(e) && e.message@ == head_rejection(fd.body@[k], 0)->0)
            &&& def_leaf(fd) matches Some(x) ==> match r {
                Ok(p) => returns_coerced(&p.arena, x, t, p.functions@[0]),
                Err(e) => (exists|a: Arena| #[trigger] coerce_post(&a, x, t, Err::<TypedExpr, CompileError>(e)))
                    || (!main_return_ok(t) && exists|a: Arena| e.message@
                        == unsup("`main` must return `int`, `float`, or `str`, found "@ + #[trigger] display_name(&a, t)))
                    || (main_return_ok(t) && !main_params_ok(fd)),
            }
            &&& (main_return_ok(t) && main_params_ok(fd) && simple_body(arg_bind(fd.args.args@), fd.body@, t))
                ==> (r matches Ok(p) && simple_lowered(p.functions@[0].body@, fd.body@))
        },
        plain_defs(*module) ==> {
            &&& r matches Ok(p) ==> p.functions@.len() == module.body@.len()
                && forall|j: int| 0 <= j < module.body@.len() ==> plain_header(p.functions@[j], #[trigger] def_at(*module, j))
            &&& (simple_defs(*module) && main_entry_ok(*module)) ==> (r matches Ok(p)
                && forall|j: int| 0 <= j < module.body@.len()
                    ==> simple_lowered(p.functions@[j].body@, (#[trigger] def_at(*module, j)).body@))
        },
{
    let mut arena = Arena::new();
    let mut env = Env { sigs: SignatureTable::new(), reg: Registry::new() };
    let abc = ClassId::intern(&mut arena, ClassDef {
        name: String::from_str("ABC"),
        fields: Vec::new(),
        parent: None,
        abstract_methods: Vec::new(),
    });
    env.reg.insert(&arena, String::from_str("ABC"), abc);
    let mut loaded: Vec<bool> = Vec::new();
    let mut i: usize = 0;
    while i < sources.len()
        invariant
            0 <= i <= sources@.len(),
            loaded@.len() == i,
        decreases sources.len() - i,
    {
        loaded.push(str_eq(sources[i].path.as_str(), source_path));
        i += 1;
    }
    let mut functions: Vec<Function> = Vec::new();
    proof {
        if const_main_module(*module) || plain_main_module(*module) {
            assert(!env.sigs.has(sole_def(*module)->0.name@));
        }
        if plain_defs(*module) {
            assert(plain_defs_module(*module, &env));
        }
    }
    let res = lower_module_into(module, source_path, sources, &mut env, &mut functions, &mut loaded, &mut arena);
    if let Err(e) = res {
        proof {
            if plain_main_module(*module) {
                let fd = sole_def(*module)->0;
                if let Some(x) = def_leaf(fd) {
                    assert(coerce_post(&arena, x, builtin_annotation(fd.returns)->0, Err::<TypedExpr, CompileError>(e)));
                }
            }
        }
        return Err(e);
    }
    proof {
        if plain_main_module(*module) {
            let fd = sole_def(*module)->0;
            let fs = functions@;
            let f = fs[0];
            assert(fs.last() == f);
            assert(f.name@ == "main"@);
            assert(fs.drop_last().len() == 0);
            assert(first_named(fs.drop_last(), "main"@) is None);
            assert(first_named(fs, "main"@) == Some(0int));
            lemma_first_bad_param(f.params@);
            if main_params_ok(fd) {
                assert forall|i: int| 0 <= i < f.params@.len() implies main_param_ok(#[trigger] f.params@[i].ty) by {
                    assert(fd.args.args@[i] == fd.args.args@[i]);
                }
                assert(first_bad_param(f.params@) is None);
            }
        }
    }
    proof {
        if const_main_module(*module) {
            let fs = functions@;
            assert(fs.len() == 1);
            let f = fs[0];
            assert(fs.last() == f);
            assert(f.name@ == "main"@);
            assert(fs.drop_last().len() == 0);
            assert(first_named(fs.drop_last(), "main"@) is None);
            assert(first_named(fs, "main"@) == Some(0int));
            lemma_first_bad_param(f.params@);
            assert forall|i: int| 0 <= i < f.params@.len() implies main_param_ok(#[trigger] f.params@[i].ty) by {
                assert(sole_def(*module)->0.args.args@[i] == sole_def(*module)->0.args.args@[i]);
            }
            assert(first_bad_param(f.params@) is None);
        }
    }
    let ghost fs = functions@;
    let ghost a_end = arena;
    proof {
        if plain_defs(*module) && simple_defs(*module) && main_entry_ok(*module) {
            crate::hir::lemma_first_named(fs, "main"@);
            let jm = choose|j: int| 0 <= j < module.body@.len() && (#[trigger] def_at(*module, j)).name@ == "main"@;
            assert(plain_header(fs[jm], def_at(*module, jm)));
            assert(fs[jm].name@ == "main"@);
            match first_named(fs, "main"@) {
                Some(k) => {
                    assert(plain_header(fs[k], def_at(*module, k)));
                    let dk = def_at(*module, k);
                    assert(main_return_ok(fs[k].return_ty));
                    lemma_first_bad_param(fs[k].params@);
                    assert forall|i: int| 0 <= i < fs[k].params@.len() implies main_param_ok(#[trigger] fs[k].params@[i].ty) by {
                        assert(dk.args.args@[i] == dk.args.args@[i]);
                    }
                    assert(first_bad_param(fs[k].params@) is None);
                },
                None => {
                    assert(fs[jm].name@ != "main"@);
                },
            }
        }
    }
    let r = check_entry(functions, arena);
    proof {
        if plain_main_module(*module) {
            let t = builtin_annotation(sole_def(*module)->0.returns)->0;
            if !main_return_ok(t) {
                if r is Err {
                    assert(r->Err_0.message@ == unsup("`main` must return `int`, `float`, or `str`, found "@ + display_name(&a_end, t)));
                }
            }
        }
    }
    r
}

} // verus!
