//! Lowering of Python statement blocks to HIR statements.

use vstd::prelude::*;
use crate::ast;
use crate::hir::{
    lemma_components_valid, lemma_field_valid, lemma_first_field, Arena, BinOp, ClassId, CmpOp, Expr,
    ListId, Stmt, Type, TypedExpr, display_name,
};
use crate::text::{str_eq, u64_to_string, concat2};
use crate::typing::{expr_valid, stmt_valid, stmts_valid, lemma_expr_valid_mono, lemma_stmts_valid_mono};
use crate::check::{
    apply_binop, coerce, fail, unsup, lemma_pre_mono, lower_pre, msg1, msg2, msg3, msg5,
    parse_type_annotation, reject_abstract_type, stmt_kind_name, expr_kind_name, CompileError, Env,
    Scope, stmt_kind, coerce_post, always_returns,
};
use crate::check::expr::{
    lower_coerced, lower_expr, lower_post, parse_and_lower_range, leaf_lowering, range_bound, simple_type,
    simple_comparison, scope_bind, ast_binop,
};

verus! {

/// `break` and `continue` occur only inside a `while` body (statements
/// nested in `if` branches count as being where the `if` is).
pub open spec fn stmt_jumps_ok(s: Stmt) -> bool
    decreases s,
{
    match s {
        Stmt::Break => false,
        Stmt::Continue => false,
        Stmt::If { then_body, else_body, .. } => jumps_ok(then_body@) && jumps_ok(else_body@),
        _ => true,
    }
}

pub open spec fn jumps_ok(ss: Seq<Stmt>) -> bool
    decreases ss,
{
    forall|i: int| 0 <= i < ss.len() ==> stmt_jumps_ok(#[trigger] ss[i])
}

/// Every `return` in `s`, at any depth, returns a value of type `t`.
pub open spec fn stmt_returns_typed(s: Stmt, t: Type) -> bool
    decreases s,
{
    match s {
        Stmt::Return { value } => value.ty == t,
        Stmt::If { then_body, else_body, .. } => returns_typed(then_body@, t) && returns_typed(else_body@, t),
        Stmt::While { body, update, .. } => returns_typed(body@, t) && returns_typed(update@, t),
        _ => true,
    }
}

pub open spec fn returns_typed(ss: Seq<Stmt>, t: Type) -> bool
    decreases ss,
{
    forall|i: int| 0 <= i < ss.len() ==> stmt_returns_typed(#[trigger] ss[i], t)
}

/// What a lowered block guarantees, given the loop depth it was lowered at.
pub open spec fn block_ok(a: &Arena, ss: Seq<Stmt>, loop_depth: usize, return_ty: Type) -> bool {
    &&& stmts_valid(a, ss)
    &&& returns_typed(ss, return_ty)
    &&& loop_depth == 0 ==> jumps_ok(ss)
}

/// A statement that may stand in a block lowered at `loop_depth`.
pub open spec fn stmt_ok(a: &Arena, s: Stmt, loop_depth: usize, return_ty: Type) -> bool {
    &&& stmt_valid(a, s)
    &&& stmt_returns_typed(s, return_ty)
    &&& loop_depth == 0 ==> stmt_jumps_ok(s)
}

proof fn lemma_block_push(a: &Arena, ss: Seq<Stmt>, s: Stmt, d: usize, t: Type)
    requires
        block_ok(a, ss, d, t),
        stmt_ok(a, s, d, t),
    ensures
        block_ok(a, ss.push(s), d, t),
{
    assert forall|i: int| 0 <= i < ss.push(s).len() implies stmt_valid(a, #[trigger] ss.push(s)[i]) by {
        if i < ss.len() { assert(ss.push(s)[i] == ss[i]); }
    }
    assert forall|i: int| 0 <= i < ss.push(s).len() implies stmt_returns_typed(#[trigger] ss.push(s)[i], t) by {
        if i < ss.len() { assert(ss.push(s)[i] == ss[i]); }
    }
    if d == 0 {
        assert forall|i: int| 0 <= i < ss.push(s).len() implies stmt_jumps_ok(#[trigger] ss.push(s)[i]) by {
            if i < ss.len() { assert(ss.push(s)[i] == ss[i]); }
        }
    }
}

proof fn lemma_block_mono(a: &Arena, b: &Arena, ss: Seq<Stmt>, d: usize, t: Type)
    requires
        block_ok(a, ss, d, t),
        b.extends(a),
    ensures
        block_ok(b, ss, d, t),
{
    lemma_stmts_valid_mono(a, b, ss);
}

/// A `while` statement over a body lowered one loop level deeper is fine
/// at any depth.
proof fn lemma_while_ok(a: &Arena, cond: TypedExpr, body: Seq<Stmt>, update: Seq<Stmt>, d: usize, t: Type, w: Stmt)
    requires
        expr_valid(a, cond),
        cond.ty == Type::Bool,
        stmts_valid(a, body),
        returns_typed(body, t),
        stmts_valid(a, update),
        returns_typed(update, t),
        w matches Stmt::While { cond: c, body: b, update: u } && c == cond && b@ == body && u@ == update,
    ensures
        stmt_ok(a, w, d, t),
{
}

/// A latch of one increment is valid and returns nothing.
proof fn lemma_single_update(a: &Arena, u: Seq<Stmt>, inc: Stmt, t: Type)
    requires
        u == seq![inc],
        stmt_valid(a, inc),
        inc is Let,
    ensures
        stmts_valid(a, u),
        returns_typed(u, t),
{
    assert(u[0] == inc);
}

/// `name = value`.
fn let_stmt(name: &String, value: TypedExpr) -> (r: Stmt)
    ensures
        r == (Stmt::Let { name: *name, value }),
{
    Stmt::Let { name: name.clone(), value }
}

fn var(ty: Type, name: &String) -> (r: TypedExpr)
    ensures
        r == (TypedExpr { ty, expr: Expr::Var(*name) }),
        forall|a: &Arena| a.valid(ty) ==> #[trigger] expr_valid(a, r),
{
    TypedExpr::new(ty, Expr::Var(name.clone()))
}

/// The test `name < bound` of a counting loop.
pub open spec fn counter_test(name: String, bound: TypedExpr) -> TypedExpr {
    TypedExpr { ty: Type::Bool, expr: Expr::Cmp {
        op: CmpOp::Lt,
        lhs: Box::new(TypedExpr { ty: Type::I64, expr: Expr::Var(name) }),
        rhs: Box::new(bound),
    } }
}

/// The advance `name = name + step` of a counting loop.
pub open spec fn counter_step(name: String, step: TypedExpr) -> Stmt {
    Stmt::Let { name, value: TypedExpr { ty: Type::I64, expr: Expr::BinOp {
        op: BinOp::Add,
        lhs: Box::new(TypedExpr { ty: Type::I64, expr: Expr::Var(name) }),
        rhs: Box::new(step),
    } } }
}

/// `for v in range(n): body`, with `n` an integer literal or a name bound
/// to an `int`, and no `else`: the loop variable, the lowered bound and
/// the body.
pub open spec fn range_for(scope: &Scope, s: ast::Stmt) -> Option<(String, TypedExpr, Seq<ast::Stmt>)> {
    match s {
        ast::Stmt::For { target: ast::Expr::Name(v), iter, body, orelse } =>
            if orelse@.len() == 0 && range_bound(scope, iter) is Some {
                Some((v, range_bound(scope, iter)->0, body@))
            } else {
                None
            },
        _ => None,
    }
}

/// `x op= e` for a name `x` bound in `scope` at type `t` and an operator
/// that has a binary form `b`: the name, `t` and `b`.
pub open spec fn aug_assign(scope: &Scope, s: ast::Stmt) -> Option<(String, Type, BinOp)> {
    match s {
        ast::Stmt::AugAssign { target: ast::Expr::Name(x), op, .. } => match (scope.lookup(x@), ast_binop(op)) {
            (Some(t), Some(b)) => Some((x, t, b)),
            _ => None,
        },
        _ => None,
    }
}

/// `s` assigns to `x` the value `x b e` (converted to `x`'s type `t`):
/// the binary operation `b` itself, or the concatenation that `+` means
/// on lists and strings.
pub open spec fn aug_lowered(a: &Arena, s: Stmt, x: String, t: Type, b: BinOp) -> bool {
    s matches Stmt::Let { name, value } && name@ == x@ && exists|c: TypedExpr| #[trigger] coerce_post(a, c, t, Ok(value)) && {
        ||| c.expr is ListConcat && b == BinOp::Add
        ||| c.expr is StrConcat && b == BinOp::Add
        ||| c.expr matches Expr::BinOp { op, lhs, .. } && op == b && coerce_post(a, TypedExpr { ty: t, expr: Expr::Var(x) }, c.ty, Ok(*lhs))
    }
}

/// Law: `x op= e` on an `int` variable, for any operator other than `+`,
/// stores into `x` the binary operation that `op` denotes in a plain
/// expression `x op e` (so `x -= e` subtracts), applied to `x` itself.
pub proof fn law_aug_assign_applies_its_operator(a: &Arena, s: Stmt, x: String, op: ast::Operator)
    requires
        ast_binop(op) is Some,
        ast_binop(op)->0 != BinOp::Add,
        aug_lowered(a, s, x, Type::I64, ast_binop(op)->0),
    ensures
        s matches Stmt::Let { name, value } && name@ == x@ && exists|c: TypedExpr| #[trigger] coerce_post(a, c, Type::I64, Ok(value))
            && (c.expr matches Expr::BinOp { op: o, lhs, .. } && o == ast_binop(op)->0
                && coerce_post(a, TypedExpr { ty: Type::I64, expr: Expr::Var(x) }, c.ty, Ok(*lhs))),
        op == ast::Operator::Sub ==> ast_binop(op) == Some(BinOp::Sub),
        op == ast::Operator::Mult ==> ast_binop(op) == Some(BinOp::Mul),
{
}

/// The lowering of `for v in range(n)`: the counter starts at 0, the loop
/// runs while `v < n`, and its update `v = v + 1` runs after each pass
/// through the body, `continue` included, before the test is made again.
pub open spec fn range_loop(b: Seq<Stmt>, v: String, n: TypedExpr) -> bool {
    &&& b.len() == 2
    &&& b[0] == Stmt::Let { name: v, value: TypedExpr { ty: Type::I64, expr: Expr::ConstI64(0) } }
    &&& b[1] matches Stmt::While { cond, update, .. }
    &&& cond == counter_test(v, n)
    &&& update@ == seq![counter_step(v, TypedExpr { ty: Type::I64, expr: Expr::ConstI64(1) })]
}

/// The body of a `while` statement.
pub open spec fn loop_body(s: Stmt) -> Seq<Stmt> {
    match s {
        Stmt::While { body, .. } => body@,
        _ => Seq::empty(),
    }
}

/// `name < bound`.
fn less_than(name: &String, bound: TypedExpr) -> (r: TypedExpr)
    requires
        bound.ty == Type::I64,
    ensures
        r == counter_test(*name, bound),
        forall|a: &Arena| #[trigger] expr_valid(a, bound) ==> expr_valid(a, r),
{
    let ghost b = bound;
    let v = var(Type::I64, name);
    let r = TypedExpr::new(Type::Bool, Expr::Cmp { op: CmpOp::Lt, lhs: Box::new(v), rhs: Box::new(bound) });
    proof {
        assert forall|a: &Arena| #[trigger] expr_valid(a, b) implies expr_valid(a, r) by {
            assert(expr_valid(a, v));
        }
    }
    r
}

/// `name = name + step`.
fn increment(name: &String, step: TypedExpr) -> (r: Stmt)
    requires
        step.ty == Type::I64,
    ensures
        r == counter_step(*name, step),
        forall|a: &Arena| #[trigger] expr_valid(a, step) ==> stmt_valid(a, r),
{
    let ghost st = step;
    let v = var(Type::I64, name);
    let sum = TypedExpr::new(Type::I64, Expr::BinOp { op: BinOp::Add, lhs: Box::new(v), rhs: Box::new(step) });
    proof {
        assert forall|a: &Arena| #[trigger] expr_valid(a, st) implies expr_valid(a, sum) by {
            assert(expr_valid(a, v));
        }
    }
    let_stmt(name, sum)
}

/// The value of `s` when it is `return <integer literal>`.
pub open spec fn int_return(s: ast::Stmt) -> Option<i64> {
    match s {
        ast::Stmt::Return(Some(ast::Expr::Constant(ast::Constant::Int(Some(v))))) => Some(v),
        _ => None,
    }
}

/// The lowering of `return <v>` in an `int` function.
pub open spec fn int_return_block(v: i64) -> Seq<Stmt> {
    seq![Stmt::Return { value: TypedExpr { ty: Type::I64, expr: Expr::ConstI64(v) } }]
}

/// What lowering the block `return <e>` gives, `x` being the lowering of
/// `e`: `return` of `x` coerced to the return type `t`, or the diagnostic
/// of that coercion.
pub open spec fn return_post(a: &Arena, x: TypedExpr, t: Type, r: Result<Vec<Stmt>, CompileError>) -> bool {
    match r {
        Ok(b) => b@.len() == 1 && (b@[0] matches Stmt::Return { value }
            && coerce_post(a, x, t, Ok::<TypedExpr, CompileError>(value))),
        Err(e) => coerce_post(a, x, t, Err::<TypedExpr, CompileError>(e)),
    }
}

/// The leaf that `return <leaf>` returns, if `s` is such a statement.
pub open spec fn leaf_return(scope: &Scope, s: ast::Stmt) -> Option<TypedExpr> {
    match s {
        ast::Stmt::Return(Some(v)) => leaf_lowering(scope, v),
        _ => None,
    }
}

/// `s` is `return <e>` with `e` a simple expression of type `t`.
pub open spec fn simple_return(bind: spec_fn(Seq<char>) -> Option<Type>, s: ast::Stmt, t: Type) -> bool {
    s matches ast::Stmt::Return(Some(v)) && simple_type(bind, v) == Some(t)
}

/// A body of one statement: a simple `return` of type `t`, or an `if` /
/// `else` on a simple comparison or a `bool` leaf whose branches are each
/// one simple `return` of type `t`.
pub open spec fn simple_body(bind: spec_fn(Seq<char>) -> Option<Type>, body: Seq<ast::Stmt>, t: Type) -> bool {
    &&& body.len() == 1
    &&& simple_return(bind, body[0], t) || match body[0] {
        ast::Stmt::If { test, body: tb, orelse: eb } =>
            (simple_comparison(bind, test) || simple_type(bind, test) == Some(Type::Bool))
            && tb@.len() == 1 && simple_return(bind, tb@[0], t)
            && eb@.len() == 1 && simple_return(bind, eb@[0], t),
        _ => false,
    }
}

/// `b` is the lowering of the simple body `body`: one statement that
/// returns on every path; a `return` stays a `return`, and an `if` stays
/// an `if` with a `bool` condition.
pub open spec fn simple_lowered(b: Seq<Stmt>, body: Seq<ast::Stmt>) -> bool {
    &&& b.len() == 1
    &&& always_returns(b)
    &&& body[0] is Return ==> b[0] is Return
    &&& body[0] is If ==> (b[0] matches Stmt::If { cond, .. } && cond.ty == Type::Bool)
}

/// Every statement of `s` is `pass`.
pub open spec fn all_pass(s: Seq<ast::Stmt>) -> bool {
    forall|i: int| 0 <= i < s.len() ==> (#[trigger] s[i]) is Pass
}

/// The diagnostic with which [`lower_block`] refuses a statement by its
/// form alone, before anything inside it is lowered; `None` where the
/// statement's form is accepted.
pub open spec fn head_rejection(s: ast::Stmt, loop_depth: usize) -> Option<Seq<char>> {
    match s {
        ast::Stmt::Assign { targets, .. } =>
            if targets@.len() != 1 { Some(unsup("chained assignment `a = b = ...` is not supported"@)) } else { None },
        ast::Stmt::Return(v) =>
            if v is None { Some(unsup("`return` must have a value"@)) } else { None },
        ast::Stmt::For { orelse, .. } =>
            if orelse@.len() != 0 { Some(unsup("`else` clause on `for` is not supported"@)) } else { None },
        ast::Stmt::While { orelse, .. } =>
            if orelse@.len() != 0 { Some(unsup("`else` clause on `while` is not supported"@)) } else { None },
        ast::Stmt::Break =>
            if loop_depth == 0 { Some(unsup("`break` outside of a loop"@)) } else { None },
        ast::Stmt::Continue =>
            if loop_depth == 0 { Some(unsup("`continue` outside of a loop"@)) } else { None },
        ast::Stmt::AnnAssign { .. } | ast::Stmt::AugAssign { .. } | ast::Stmt::If { .. }
        | ast::Stmt::Pass | ast::Stmt::Expr(_) => None,
        _ => Some(unsup("statement `"@ + stmt_kind(s) + "` is not supported"@)),
    }
}

/// Lower a block of statements. `loop_depth` counts the enclosing loops
/// (for `break` / `continue` and the names of loop helper variables);
/// `return_ty` is the enclosing function's return type.
#[verifier::loop_isolation(false)]
#[verifier::spinoff_prover]
#[verifier::rlimit(60)]
pub fn lower_block(stmts: &Vec<ast::Stmt>, scope: &mut Scope, loop_depth: usize, env: &Env, cur: Option<ClassId>,
    return_ty: Type, arena: &mut Arena) -> (r: Result<Vec<Stmt>, CompileError>)
    requires
        lower_pre(old(arena), old(scope), env, cur),
        old(arena).valid(return_ty),
        loop_depth < usize::MAX,
    ensures
        final(arena).extends(old(arena)),
        lower_pre(final(arena), final(scope), env, cur),
        r matches Ok(b) ==> block_ok(final(arena), b@, loop_depth, return_ty),
        all_pass(stmts@) ==> (r matches Ok(b) && b@.len() == 0),
        forall|k: int| 0 <= k < stmts@.len() && all_pass(stmts@.subrange(0, k))
            && #[trigger] head_rejection(stmts@[k], loop_depth) is Some
            ==> (r matches Err(e) && e.message@ == head_rejection(stmts@[k], loop_depth)->0),
        return_ty == Type::I64 && stmts@.len() == 1 && int_return(stmts@[0]) is Some
            ==> (r matches Ok(b) && b@ == int_return_block(int_return(stmts@[0])->0)),
        stmts@.len() == 1 ==> (leaf_return(old(scope), stmts@[0]) matches Some(x)
            ==> return_post(final(arena), x, return_ty, r)),
        stmts@.len() == 1 ==> (range_for(old(scope), stmts@[0]) matches Some((v, n, body)) ==> {
            &&& r matches Ok(b) ==> range_loop(b@, v, n)
                && (all_pass(body) ==> loop_body(b@[1]).len() == 0)
            &&& (all_pass(body) && loop_depth < usize::MAX - 1) ==> r is Ok
        }),
        simple_body(scope_bind(old(scope)), stmts@, return_ty) ==> (r matches Ok(b) && simple_lowered(b@, stmts@)
            && *final(scope) == *old(scope)),
        stmts@.len() == 1 ==> (aug_assign(old(scope), stmts@[0]) matches Some((x, t, b))
            ==> (r matches Ok(out) ==> out@.len() == 1 && aug_lowered(final(arena), out@[0], x, t, b))),
    decreases stmts,
{
    proof { Arena::lemma_extends_refl(arena); }
    let ghost a0 = *arena;
    let mut out: Vec<Stmt> = Vec::new();
    let mut i: usize = 0;
    while i < stmts.len()
        invariant
            0 <= i <= stmts@.len(),
            arena.extends(&a0),
            lower_pre(arena, scope, env, cur),
            arena.valid(return_ty),
            block_ok(arena, out@, loop_depth, return_ty),
            all_pass(stmts@.subrange(0, i as int)) ==> out@.len() == 0,
            forall|k: int| 0 <= k < i ==> #[trigger] head_rejection(stmts@[k], loop_depth) is None,
            return_ty == Type::I64 && stmts@.len() == 1 && int_return(stmts@[0]) is Some && i == 1
                ==> out@ == int_return_block(int_return(stmts@[0])->0),
            i == 0 ==> *scope == *old(scope),
            simple_body(scope_bind(old(scope)), stmts@, return_ty) && i == 1 ==> simple_lowered(out@, stmts@)
                && *scope == *old(scope),
            stmts@.len() == 1 && i == 1 ==> (leaf_return(old(scope), stmts@[0]) matches Some(x)
                ==> return_post(arena, x, return_ty, Ok::<Vec<Stmt>, CompileError>(out))),
            stmts@.len() == 1 && i == 1 ==> (range_for(old(scope), stmts@[0]) matches Some((v, n, body)) ==>
                range_loop(out@, v, n) && (all_pass(body) ==> loop_body(out@[1]).len() == 0)),
            stmts@.len() == 1 && i == 1 ==> (aug_assign(old(scope), stmts@[0]) matches Some((x, t, b))
                ==> out@.len() == 1 && aug_lowered(arena, out@[0], x, t, b)),
        decreases stmts.len() - i,
    {
        let ghost a1 = *arena;
        proof {
            assert(stmts@.subrange(0, i + 1).drop_last() =~= stmts@.subrange(0, i as int));
            if all_pass(stmts@.subrange(0, i + 1)) {
                assert(stmts@.subrange(0, i + 1)[i as int] is Pass);
            }
            if all_pass(stmts@) {
                assert(stmts@[i as int] is Pass);
            }
        }
        let ghost out_before = out@;
        let st = &stmts[i];
        match st {
            ast::Stmt::Assign { targets, value } => {
                if targets.len() != 1 {
                    return fail(msg1("chained assignment `a = b = ...` is not supported"));
                }
                match &targets[0] {
                    ast::Expr::Name(n) => {
                        let v = lower_expr(value, scope, env, cur, arena)?;
                        proof { Arena::lemma_extends_trans(&a0, &a1, arena); lemma_block_mono(&a1, arena, out_before, loop_depth, return_ty); }
                        scope.insert(arena, n.clone(), v.ty);
                        let s = let_stmt(n, v);
                        proof { lemma_block_push(arena, out@, s, loop_depth, return_ty); }
                        out.push(s);
                    },
                    ast::Expr::Attribute { value: objx, attr } => {
                        let obj = lower_expr(objx, scope, env, cur, arena)?;
                        let ghost a2 = *arena;
                        proof { Arena::lemma_extends_trans(&a0, &a1, arena); lemma_block_mono(&a1, arena, out_before, loop_depth, return_ty); }
                        let class_id = match obj.ty {
                            Type::Class(id) => id,
                            other => {
                                let n = other.name(arena);
                                return fail(msg3("attribute assignment on ", n.as_str(), " not supported"));
                            },
                        };
                        let fi = class_id.field_index(arena, attr.as_str());
                        let nf = arena.classes[class_id.0].fields.len();
                        proof { lemma_first_field(class_id.def(arena).fields@, attr@); }
                        let field_index = match fi {
                            Some(k) => k,
                            None => {
                                let cn = class_id.name(arena);
                                return fail(msg5("class `", cn.as_str(), "` has no field `", attr.as_str(), "`"));
                            },
                        };
                        let field_ty = arena.classes[class_id.0].fields[field_index].1;
                        proof { lemma_field_valid(arena, class_id, field_index as int); }
                        let v = lower_coerced(value, field_ty, scope, env, cur, arena)?;
                        proof {
                            Arena::lemma_extends_trans(&a0, &a2, arena);
                            lemma_expr_valid_mono(&a2, arena, obj);
                            lemma_block_mono(&a2, arena, out@, loop_depth, return_ty);
                        }
                        let s = Stmt::SetField { obj, field_index, value: v };
                        proof { lemma_block_push(arena, out@, s, loop_depth, return_ty); }
                        out.push(s);
                    },
                    ast::Expr::Subscript { value: contx, slice } => {
                        let container = lower_expr(contx, scope, env, cur, arena)?;
                        let ghost a2 = *arena;
                        proof {
                            Arena::lemma_extends_trans(&a0, &a1, arena);
                            lemma_block_mono(&a1, arena, out_before, loop_depth, return_ty);
                            lemma_components_valid(arena, container.ty);
                        }
                        let (key_ty, value_ty) = match container.ty {
                            Type::Dict(id) => (id.key(arena), id.val(arena)),
                            Type::List(id) => (Type::I64, id.elem(arena)),
                            other => {
                                let n = other.name(arena);
                                return fail(msg3("subscript-assignment on ", n.as_str(), " is not supported"));
                            },
                        };
                        let key = lower_coerced(slice, key_ty, scope, env, cur, arena)?;
                        let ghost a3 = *arena;
                        proof { arena.lemma_valid_mono(&a2, value_ty); }
                        let v = lower_coerced(value, value_ty, scope, env, cur, arena)?;
                        proof {
                            Arena::lemma_extends_trans(&a2, &a3, arena);
                            Arena::lemma_extends_trans(&a0, &a2, arena);
                            lemma_expr_valid_mono(&a2, arena, container);
                            lemma_expr_valid_mono(&a3, arena, key);
                            lemma_block_mono(&a2, arena, out@, loop_depth, return_ty);
                        }
                        let s = Stmt::SetSubscript { container, key, value: v };
                        proof { lemma_block_push(arena, out@, s, loop_depth, return_ty); }
                        out.push(s);
                    },
                    other => {
                        let k = expr_kind_name(other);
                        return fail(msg3("assignment target `", k, "` not supported"));
                    },
                }
            },
            ast::Stmt::AnnAssign { target, annotation, value, simple } => {
                let name = match target {
                    ast::Expr::Name(n) => n,
                    _ => {
                        return fail(msg1("only simple-name targets are supported in assignments"));
                    },
                };
                if !*simple {
                    return fail(msg1("parenthesised annotation targets are not supported"));
                }
                let declared = parse_type_annotation(Some(annotation), &env.reg, arena);
                proof {
                    Arena::lemma_extends_trans(&a0, &a1, arena);
                    lemma_pre_mono(&a1, arena, scope, env, cur);
                    lemma_block_mono(&a1, arena, out_before, loop_depth, return_ty);
                    arena.lemma_valid_mono(&a1, return_ty);
                }
                let declared = match declared {
                    Some(t) => t,
                    None => {
                        return fail(msg3("only `: int` / `: float` / `: bool` annotations are supported on locals, on `", name.as_str(), "`"));
                    },
                };
                reject_abstract_type(arena, declared, "local variable type")?;
                let vx = match value {
                    Some(x) => x,
                    None => {
                        return fail(msg3("bare annotation `", name.as_str(), ": <type>` (no value) is not supported"));
                    },
                };
                let ghost a2 = *arena;
                let v = lower_coerced(vx, declared, scope, env, cur, arena)?;
                proof {
                    Arena::lemma_extends_trans(&a0, &a2, arena);
                    lemma_block_mono(&a2, arena, out@, loop_depth, return_ty);
                    arena.lemma_valid_mono(&a2, declared);
                }
                scope.insert(arena, name.clone(), declared);
                let s = let_stmt(name, v);
                proof { lemma_block_push(arena, out@, s, loop_depth, return_ty); }
                out.push(s);
            },
            ast::Stmt::AugAssign { target, op, value } => {
                let name = match target {
                    ast::Expr::Name(n) => n,
                    _ => {
                        return fail(msg1("augmented-assignment target must be a simple name"));
                    },
                };
                let lhs_ty = match scope.get(arena, name.as_str()) {
                    Some(t) => t,
                    None => {
                        return fail(msg3("augmented assignment to unbound name `", name.as_str(), "` (must already be a parameter or assigned local)"));
                    },
                };
                let bop = match op {
                    ast::Operator::Add => BinOp::Add,
                    ast::Operator::Sub => BinOp::Sub,
                    ast::Operator::Mult => BinOp::Mul,
                    ast::Operator::FloorDiv => BinOp::FloorDiv,
                    ast::Operator::Mod => BinOp::Mod,
                    ast::Operator::Div => BinOp::TrueDiv,
                    ast::Operator::Pow => BinOp::Pow,
                    ast::Operator::LShift => BinOp::Shl,
                    ast::Operator::RShift => BinOp::Shr,
                    ast::Operator::BitAnd => BinOp::BitAnd,
                    ast::Operator::BitOr => BinOp::BitOr,
                    ast::Operator::BitXor => BinOp::BitXor,
                    ast::Operator::MatMult => {
                        return fail(msg1("`@=` (matmul) is not supported"));
                    },
                };
                let lhs = var(lhs_ty, name);
                let rhs = lower_expr(value, scope, env, cur, arena)?;
                proof {
                    Arena::lemma_extends_trans(&a0, &a1, arena);
                    lemma_block_mono(&a1, arena, out_before, loop_depth, return_ty);
                    arena.lemma_valid_mono(&a1, lhs_ty);
                }
                let ghost g_lhs = lhs;
                let combined = apply_binop(arena, bop, lhs, rhs)?;
                let ghost g_c = combined;
                let combined = coerce(arena, combined, lhs_ty)?;
                let s = let_stmt(name, combined);
                proof {
                    lemma_block_push(arena, out@, s, loop_depth, return_ty);
                    if stmts@.len() == 1 {
                        if let Some((x, t, b)) = aug_assign(old(scope), stmts@[0]) {
                            assert(stmts@[0] == stmts@[i as int]);
                            assert(*scope == *old(scope));
                            assert(b == bop);
                            assert(coerce_post(arena, g_c, t, Ok(combined)));
                            assert(aug_lowered(arena, s, x, t, b));
                        }
                    }
                }
                out.push(s);
            },
            ast::Stmt::Return(rv) => {
                let vx = match rv {
                    Some(x) => x,
                    None => {
                        return fail(msg1("`return` must have a value"));
                    },
                };
                let v = lower_coerced(vx, return_ty, scope, env, cur, arena)?;
                proof {
                    Arena::lemma_extends_trans(&a0, &a1, arena);
                    lemma_block_mono(&a1, arena, out_before, loop_depth, return_ty);
                }
                let s = Stmt::Return { value: v };
                proof { lemma_block_push(arena, out@, s, loop_depth, return_ty); }
                out.push(s);
            },
            ast::Stmt::If { test, body, orelse } => {
                let cond = lower_coerced(test, Type::Bool, scope, env, cur, arena)?;
                let ghost a2 = *arena;
                proof { arena.lemma_valid_mono(&a1, return_ty); }
                let then_body = lower_block(body, scope, loop_depth, env, cur, return_ty, arena)?;
                let ghost a3 = *arena;
                proof { arena.lemma_valid_mono(&a2, return_ty); }
                let else_body = lower_block(orelse, scope, loop_depth, env, cur, return_ty, arena)?;
                proof {
                    Arena::lemma_extends_trans(&a1, &a2, &a3);
                    Arena::lemma_extends_trans(&a1, &a3, arena);
                    Arena::lemma_extends_trans(&a0, &a1, arena);
                    Arena::lemma_extends_trans(&a2, &a3, arena);
                    lemma_block_mono(&a1, arena, out_before, loop_depth, return_ty);
                    lemma_expr_valid_mono(&a2, arena, cond);
                    lemma_block_mono(&a3, arena, then_body@, loop_depth, return_ty);
                }
                let s = Stmt::If { cond, then_body, else_body };
                proof { lemma_block_push(arena, out@, s, loop_depth, return_ty); }
                out.push(s);
            },
            ast::Stmt::For { target, iter, body, orelse } => {
                if orelse.len() != 0 {
                    return fail(msg1("`else` clause on `for` is not supported"));
                }
                let loop_var = match target {
                    ast::Expr::Name(n) => n,
                    _ => {
                        return fail(msg1("for-loop target must be a simple name (no tuple unpacking yet)"));
                    },
                };
                let is_range_call = match iter {
                    ast::Expr::Call { func, .. } => match &**func {
                        ast::Expr::Name(n) => str_eq(n.as_str(), "range"),
                        _ => false,
                    },
                    _ => false,
                };
                if loop_depth == usize::MAX - 1 {
                    return fail(msg1("loops nested too deeply"));
                }
                let inner_depth: usize = loop_depth + 1;
                if is_range_call {
                    let (start, stop, step) = parse_and_lower_range(iter, scope, env, cur, arena)?;
                    let ghost a2 = *arena;
                    let step_value = match &step.expr {
                        Expr::ConstI64(v) => *v,
                        _ => {
                            return fail(msg1("range() step must be a constant integer literal"));
                        },
                    };
                    if step_value == 0 {
                        return fail(msg1("range() step must be non-zero"));
                    }
                    if step_value < 0 {
                        return fail(msg1("negative range() step is not yet supported (use a `while` loop)"));
                    }
                    scope.insert(arena, loop_var.clone(), Type::I64);
                    proof { arena.lemma_valid_mono(&a1, return_ty); }
                    let body_inner = lower_block(body, scope, inner_depth, env, cur, return_ty, arena)?;
                    proof {
                        Arena::lemma_extends_trans(&a1, &a2, arena);
                        Arena::lemma_extends_trans(&a0, &a1, arena);
                        lemma_block_mono(&a1, arena, out_before, loop_depth, return_ty);
                        lemma_expr_valid_mono(&a2, arena, start);
                        lemma_expr_valid_mono(&a2, arena, stop);
                        lemma_expr_valid_mono(&a2, arena, step);
                    }
                    let s1 = let_stmt(loop_var, start);
                    proof { lemma_block_push(arena, out@, s1, loop_depth, return_ty); }
                    out.push(s1);
                    let cond = less_than(loop_var, stop);
                    let while_body = body_inner;
                    let inc = increment(loop_var, step);
                    let mut update: Vec<Stmt> = Vec::new();
                    update.push(inc);
                    proof { lemma_single_update(arena, update@, inc, return_ty); }
                    let w = Stmt::While { cond, body: while_body, update };
                    proof {
                        lemma_while_ok(arena, cond, while_body@, update@, loop_depth, return_ty, w);
                        lemma_block_push(arena, out@, w, loop_depth, return_ty);
                    }
                    out.push(w);
                } else {
                    let it = lower_expr(iter, scope, env, cur, arena)?;
                    proof { lemma_components_valid(arena, it.ty); }
                    let elem_ty = match it.ty {
                        Type::List(id) => id.elem(arena),
                        other => {
                            let n = other.name(arena);
                            return fail(msg3("for-loop iterables must be range(...) or list[T] (got ", n.as_str(), ")"));
                        },
                    };
                    let depth_s = u64_to_string(loop_depth as u64);
                    let lst_name = concat2("__forlst_", depth_s.as_str());
                    let idx_name = concat2("__foridx_", depth_s.as_str());
                    scope.insert(arena, lst_name.clone(), it.ty);
                    scope.insert(arena, idx_name.clone(), Type::I64);
                    scope.insert(arena, loop_var.clone(), elem_ty);
                    let ghost a2 = *arena;
                    proof { arena.lemma_valid_mono(&a1, return_ty); }
                    let body_inner = lower_block(body, scope, inner_depth, env, cur, return_ty, arena)?;
                    let ghost a3 = *arena;
                    let lid = ListId::intern(arena, elem_ty);
                    proof {
                        Arena::lemma_extends_trans(&a2, &a3, arena);
                        Arena::lemma_extends_trans(&a1, &a2, arena);
                        Arena::lemma_extends_trans(&a0, &a1, arena);
                        lemma_pre_mono(&a3, arena, scope, env, cur);
                        lemma_block_mono(&a1, arena, out_before, loop_depth, return_ty);
                        lemma_block_mono(&a3, arena, body_inner@, inner_depth, return_ty);
                        lemma_expr_valid_mono(&a2, arena, it);
                        arena.lemma_valid_mono(&a2, elem_ty);
                        arena.lemma_valid_mono(&a1, return_ty);
                    }
                    let s1 = let_stmt(&lst_name, it);
                    proof { lemma_block_push(arena, out@, s1, loop_depth, return_ty); }
                    out.push(s1);
                    let zero = TypedExpr::new(Type::I64, Expr::ConstI64(0));
                    let s2 = let_stmt(&idx_name, zero);
                    proof { lemma_block_push(arena, out@, s2, loop_depth, return_ty); }
                    out.push(s2);
                    let lst_ty = Type::List(lid);
                    assert(arena.valid(lst_ty));
                    let r1 = var(lst_ty, &lst_name);
                    assert(expr_valid(arena, r1));
                    let len_expr = TypedExpr::new(Type::I64, Expr::ListLen { list: Box::new(r1) });
                    assert(expr_valid(arena, len_expr));
                    let cond = less_than(&idx_name, len_expr);
                    let r2 = var(lst_ty, &lst_name);
                    assert(expr_valid(arena, r2));
                    let r3 = var(Type::I64, &idx_name);
                    assert(expr_valid(arena, r3));
                    let item = TypedExpr::new(elem_ty, Expr::ListIndex { list: Box::new(r2), index: Box::new(r3) });
                    assert(expr_valid(arena, item));
                    let mut while_body: Vec<Stmt> = Vec::new();
                    let first = let_stmt(loop_var, item);
                    proof {
                        assert(block_ok(arena, while_body@, inner_depth, return_ty));
                        lemma_block_push(arena, while_body@, first, inner_depth, return_ty);
                    }
                    while_body.push(first);
                    let mut k: usize = 0;
                    let mut rest = body_inner;
                    let ghost n_rest = rest@.len();
                    while rest.len() > 0
                        invariant
                            block_ok(arena, while_body@, inner_depth, return_ty),
                            block_ok(arena, rest@, inner_depth, return_ty),
                        decreases rest.len(),
                    {
                        let ghost before = rest@;
                        let s = rest.remove(0);
                        proof {
                            assert(before[0] == s);
                            assert(stmt_valid(arena, before[0]));
                            assert(stmt_returns_typed(before[0], return_ty));
                            lemma_block_push(arena, while_body@, s, inner_depth, return_ty);
                            assert forall|j: int| 0 <= j < rest@.len() implies stmt_valid(arena, #[trigger] rest@[j]) by {
                                assert(rest@[j] == before[j + 1]);
                            }
                            assert forall|j: int| 0 <= j < rest@.len() implies stmt_returns_typed(#[trigger] rest@[j], return_ty) by {
                                assert(rest@[j] == before[j + 1]);
                            }
                        }
                        while_body.push(s);
                    }
                    let one = TypedExpr::new(Type::I64, Expr::ConstI64(1));
                    assert(expr_valid(arena, one));
                    let inc = increment(&idx_name, one);
                    let mut update: Vec<Stmt> = Vec::new();
                    update.push(inc);
                    proof { lemma_single_update(arena, update@, inc, return_ty); }
                    let w = Stmt::While { cond, body: while_body, update };
                    proof {
                        lemma_while_ok(arena, cond, while_body@, update@, loop_depth, return_ty, w);
                        lemma_block_push(arena, out@, w, loop_depth, return_ty);
                    }
                    out.push(w);
                }
            },
            ast::Stmt::While { test, body, orelse } => {
                if orelse.len() != 0 {
                    return fail(msg1("`else` clause on `while` is not supported"));
                }
                if loop_depth == usize::MAX - 1 {
                    return fail(msg1("loops nested too deeply"));
                }
                let inner_depth: usize = loop_depth + 1;
                let cond = lower_coerced(test, Type::Bool, scope, env, cur, arena)?;
                let ghost a2 = *arena;
                proof { arena.lemma_valid_mono(&a1, return_ty); }
                let b = lower_block(body, scope, inner_depth, env, cur, return_ty, arena)?;
                proof {
                    Arena::lemma_extends_trans(&a1, &a2, arena);
                    Arena::lemma_extends_trans(&a0, &a1, arena);
                    lemma_block_mono(&a1, arena, out_before, loop_depth, return_ty);
                    lemma_expr_valid_mono(&a2, arena, cond);
                }
                let update: Vec<Stmt> = Vec::new();
                let w = Stmt::While { cond, body: b, update };
                proof {
                    lemma_while_ok(arena, cond, b@, update@, loop_depth, return_ty, w);
                    lemma_block_push(arena, out@, w, loop_depth, return_ty);
                }
                out.push(w);
            },
            ast::Stmt::Break => {
                if loop_depth == 0 {
                    return fail(msg1("`break` outside of a loop"));
                }
                proof { lemma_block_push(arena, out@, Stmt::Break, loop_depth, return_ty); }
                out.push(Stmt::Break);
            },
            ast::Stmt::Continue => {
                if loop_depth == 0 {
                    return fail(msg1("`continue` outside of a loop"));
                }
                proof { lemma_block_push(arena, out@, Stmt::Continue, loop_depth, return_ty); }
                out.push(Stmt::Continue);
            },
            ast::Stmt::Pass => {},
            ast::Stmt::Expr(ex) => {
                let s = lower_expr_stmt(ex, scope, env, cur, arena)?;
                proof {
                    Arena::lemma_extends_trans(&a0, &a1, arena);
                    lemma_block_mono(&a1, arena, out_before, loop_depth, return_ty);
                    arena.lemma_valid_mono(&a1, return_ty);
                    lemma_block_push(arena, out@, s, loop_depth, return_ty);
                }
                out.push(s);
            },
            other => {
                let k = stmt_kind_name(other);
                return fail(msg3("statement `", k, "` is not supported"));
            },
        }
        i += 1;
    }
    assert(stmts@.subrange(0, stmts@.len() as int) =~= stmts@);
    Ok(out)
}

/// For a call `<recv>.append(...)`: the receiver, the positional arguments
/// and the number of keyword arguments.
pub open spec fn append_call(e: ast::Expr) -> Option<(ast::Expr, Seq<ast::Expr>, nat)> {
    match e {
        ast::Expr::Call { func, args, keywords } => match *func {
            ast::Expr::Attribute { value, attr } => if attr@ == "append"@ {
                Some((*value, args@, keywords@.len()))
            } else {
                None
            },
            _ => None,
        },
        _ => None,
    }
}

/// An expression statement: `lst.append(v)`, `s.add(v)` on a set, or
/// any call whose value is discarded.
#[verifier::loop_isolation(false)]
fn lower_expr_stmt(e: &ast::Expr, scope: &Scope, env: &Env, cur: Option<ClassId>, arena: &mut Arena)
    -> (r: Result<Stmt, CompileError>)
    requires
        lower_pre(old(arena), scope, env, cur),
    ensures
        lower_post(old(arena), final(arena), scope, env, cur),
        r matches Ok(s) ==> stmt_valid(final(arena), s) && (s is ListAppend || s is SetAdd || s is ExprStmt),
        !(e is Call) ==> (r matches Err(m) && m.message@ == unsup(
            "expression statements are only supported for call expressions (and `list.append(...)`)"@)),
        append_call(*e) matches Some((recv, args, nk)) ==> match recv {
            ast::Expr::Name(n) => match scope.lookup(n@) {
                None => r matches Err(m) && m.message@ == unsup("name `"@ + n@ + "` is not in scope"@),
                Some(Type::List(id)) => {
                    &&& (args.len() != 1 || nk != 0) ==> (r matches Err(m)
                        && m.message@ == unsup("list.append() takes exactly 1 positional argument"@))
                    &&& (args.len() == 1 && nk == 0 && id.spec_elem(old(arena)) == Type::I64)
                        ==> (args[0] matches ast::Expr::Constant(ast::Constant::Int(Some(v)))
                        ==> r == Ok::<Stmt, CompileError>(Stmt::ListAppend {
                            list: TypedExpr { ty: Type::List(id), expr: Expr::Var(n) },
                            value: TypedExpr { ty: Type::I64, expr: Expr::ConstI64(v) },
                        }))
                },
                Some(t) => r matches Err(m) && m.message@ == unsup(".append() on "@ + display_name(old(arena), t)
                    + " (only list[T] supported)"@),
            },
            _ => r matches Err(m) && m.message@ == unsup(
                "list.append() target must be a simple name (no nested expressions yet)"@),
        },
{
    proof { Arena::lemma_extends_refl(arena); }
    if let ast::Expr::Call { func, args, keywords } = e {
        if let ast::Expr::Attribute { value: recv, attr } = &**func {
            if str_eq(attr.as_str(), "append") {
                let list_name = match &**recv {
                    ast::Expr::Name(n) => n,
                    _ => {
                        return fail(msg1("list.append() target must be a simple name (no nested expressions yet)"));
                    },
                };
                let list_ty = match scope.get(arena, list_name.as_str()) {
                    Some(t) => t,
                    None => {
                        return fail(msg3("name `", list_name.as_str(), "` is not in scope"));
                    },
                };
                proof { lemma_components_valid(arena, list_ty); }
                let elem_ty = match list_ty {
                    Type::List(id) => id.elem(arena),
                    other => {
                        let n = other.name(arena);
                        return fail(msg3(".append() on ", n.as_str(), " (only list[T] supported)"));
                    },
                };
                if args.len() != 1 || keywords.len() != 0 {
                    return fail(msg1("list.append() takes exactly 1 positional argument"));
                }
                let ghost a0 = *arena;
                let v = lower_coerced(&args[0], elem_ty, scope, env, cur, arena)?;
                proof { arena.lemma_valid_mono(&a0, list_ty); }
                let list_expr = var(list_ty, list_name);
                return Ok(Stmt::ListAppend { list: list_expr, value: v });
            }
            if str_eq(attr.as_str(), "add") {
                if let ast::Expr::Name(n) = &**recv {
                    if let Some(set_ty) = scope.get(arena, n.as_str()) {
                        if let Type::SetOf(id) = set_ty {
                            if args.len() != 1 || keywords.len() != 0 {
                                return fail(msg1("set.add() takes exactly 1 positional argument"));
                            }
                            proof { lemma_components_valid(arena, set_ty); }
                            let et = id.elem(arena);
                            let ghost a0 = *arena;
                            let v = lower_coerced(&args[0], et, scope, env, cur, arena)?;
                            proof { arena.lemma_valid_mono(&a0, set_ty); }
                            let set_expr = var(set_ty, n);
                            return Ok(Stmt::SetAdd { set: set_expr, value: v });
                        }
                    }
                }
            }
        }
        let lowered = lower_expr(e, scope, env, cur, arena)?;
        return Ok(Stmt::ExprStmt(lowered));
    }
    fail(msg1("expression statements are only supported for call expressions (and `list.append(...)`)"))
}

} // verus!
