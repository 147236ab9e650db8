//! Lowering of Python expressions to typed HIR expressions.
//!
//! Every function here takes the current name scope, the module tables
//! and the class whose method is being lowered (if any), and grows the
//! arena with the compound types it needs. Whatever is returned is valid
//! in the grown arena.

use vstd::prelude::*;
use vstd::string::StringSliceAdditionalSpecFns;
use crate::ast;
use crate::hir::{
    lemma_components_valid, lemma_field_valid, lemma_parent_valid, Arena, BinOp, BoolOp, ClassId,
    CmpOp, DictId, Expr, FloatLit, ListId, SetId, Stmt, TupleId, Type, TypedExpr, UnaryOp, display_name,
};
use crate::text::{decimal, str_eq, i64_to_string, u64_to_string, concat3};
use crate::typing::{expr_valid, stmt_valid, stmts_valid, lemma_expr_valid_mono};
use crate::check::{
    apply_binop, apply_unop, coerce, convert_cmp_op, expr_kind_name, fail, lemma_pre_mono,
    lemma_sig_ok, lower_pre, msg1, msg2, msg3, msg4, msg5, msg7, reject_negative_index_expr,
    resolve_method, unify_numeric, CompileError, Env, FunctionSig, Scope, numeric_target,
    coerce_post, coerce_kind, is_int_or_bool, unsup, assoc, CoerceKind, expr_kind, resolves_to, mangled, binop_type,
    numeric_error,
};
use crate::check::stmt::{counter_test, counter_step};

verus! {

/// What every lowering function guarantees: the arena only grew, the
/// context is still usable in it, and the result is valid in it.
pub open spec fn lower_post(a0: &Arena, a1: &Arena, scope: &Scope, env: &Env, cur: Option<ClassId>) -> bool {
    &&& a1.extends(a0)
    &&& lower_pre(a1, scope, env, cur)
}

/// Every expression of `v` is valid in `a`.
pub open spec fn all_exprs_valid(a: &Arena, v: Seq<TypedExpr>) -> bool {
    forall|j: int| 0 <= j < v.len() ==> expr_valid(a, #[trigger] v[j])
}

pub proof fn lemma_all_valid_mono(a: &Arena, b: &Arena, v: Seq<TypedExpr>)
    requires
        all_exprs_valid(a, v),
        b.extends(a),
    ensures
        all_exprs_valid(b, v),
{
    assert forall|j: int| 0 <= j < v.len() implies expr_valid(b, #[trigger] v[j]) by {
        lemma_expr_valid_mono(a, b, v[j]);
    }
}

/// The UTF-8 bytes of `s` include a backslash or a single quote.
pub open spec fn has_escape_byte(s: Seq<u8>) -> bool {
    exists|i: int| 0 <= i < s.len() && (s[i] == 92u8 || s[i] == 39u8)
}

fn contains_escape_byte(s: &str) -> (r: bool)
    ensures
        r == has_escape_byte(s.spec_bytes()),
{
    let b = s.as_bytes();
    let mut i: usize = 0;
    while i < b.len()
        invariant
            0 <= i <= b@.len(),
            b@ == s.spec_bytes(),
            forall|j: int| 0 <= j < i ==> b@[j] != 92u8 && b@[j] != 39u8,
        decreases b.len() - i,
    {
        if b[i] == 92u8 || b[i] == 39u8 {
            return true;
        }
        i += 1;
    }
    false
}

/// `["a", "b"]`: the names quoted and comma-separated in brackets.
pub open spec fn quoted_list(names: Seq<String>) -> Seq<char>
    decreases names.len(),
{
    if names.len() == 0 {
        Seq::empty()
    } else if names.len() == 1 {
        "\""@ + names[0]@ + "\""@
    } else {
        quoted_list(names.drop_last()) + ", "@ + "\""@ + names.last()@ + "\""@
    }
}

fn debug_names(names: &Vec<String>) -> (r: String)
    ensures
        r@ == "["@ + quoted_list(names@) + "]"@,
{
    let mut s = String::from_str("[");
    let mut i: usize = 0;
    while i < names.len()
        invariant
            0 <= i <= names@.len(),
            s@ == "["@ + quoted_list(names@.take(i as int)),
        decreases names.len() - i,
    {
        let ghost prev = s@;
        if i > 0 {
            s.append(", ");
        }
        s.append("\"");
        s.append(names[i].as_str());
        s.append("\"");
        proof {
            let t = names@.take(i + 1);
            assert(t.drop_last() =~= names@.take(i as int));
            assert(t.last() == names@[i as int]);
            assert(s@ =~= "["@ + quoted_list(t));
        }
        i += 1;
    }
    s.append("]");
    assert(names@.take(names@.len() as int) =~= names@);
    s
}

fn usize_str(n: usize) -> (r: String)
    ensures
        r@ == decimal(n as nat),
{
    u64_to_string(n as u64)
}

/// Lower an expression and convert it to `target`.
pub fn lower_coerced(e: &ast::Expr, target: Type, scope: &Scope, env: &Env, cur: Option<ClassId>, arena: &mut Arena)
    -> (r: Result<TypedExpr, CompileError>)
    requires
        lower_pre(old(arena), scope, env, cur),
        old(arena).valid(target),
    ensures
        lower_post(old(arena), final(arena), scope, env, cur),
        r matches Ok(x) ==> expr_valid(final(arena), x) && x.ty == target,
        target == Type::I64 ==> (*e matches ast::Expr::Constant(ast::Constant::Int(Some(v)))
            ==> r == Ok::<TypedExpr, CompileError>(TypedExpr { ty: Type::I64, expr: Expr::ConstI64(v) })),
        leaf_lowering(scope, *e) matches Some(x) ==> coerce_post(final(arena), x, target, r),
        simple_type(scope_bind(scope), *e) == Some(target) ==> r is Ok,
        target == Type::Bool && simple_comparison(scope_bind(scope), *e) ==> r is Ok,
    decreases e, 4nat,
{
    let ghost a0 = *arena;
    let x = lower_expr(e, scope, env, cur, arena)?;
    proof { arena.lemma_valid_mono(&a0, target); }
    let r = coerce(arena, x, target);
    proof {
        if x.ty == target {
            crate::check::law_coerce_same_type(arena, x, r);
        }
    }
    r
}

/// Lower an expression to typed HIR.
#[verifier::loop_isolation(false)]
pub fn lower_expr(e: &ast::Expr, scope: &Scope, env: &Env, cur: Option<ClassId>, arena: &mut Arena)
    -> (r: Result<TypedExpr, CompileError>)
    requires
        lower_pre(old(arena), scope, env, cur),
    ensures
        lower_post(old(arena), final(arena), scope, env, cur),
        r matches Ok(x) ==> expr_valid(final(arena), x),
        *e matches ast::Expr::Constant(ast::Constant::Int(Some(v))) ==> r == Ok::<TypedExpr, CompileError>(TypedExpr { ty: Type::I64, expr: Expr::ConstI64(v) }),
        *e matches ast::Expr::Constant(ast::Constant::Bool(b)) ==> r == Ok::<TypedExpr, CompileError>(TypedExpr { ty: Type::Bool, expr: Expr::ConstBool(b) }),
        leaf_lowering(scope, *e) matches Some(x) ==> r == Ok::<TypedExpr, CompileError>(x),
        *e matches ast::Expr::BinOp { left, op, right } ==> (ast_binop(op) matches Some(bop) ==>
            (leaf_lowering(scope, *left) matches Some(l) ==> (leaf_lowering(scope, *right) matches Some(x) ==> {
                &&& r is Ok <==> binop_type(bop, l.ty, x.ty) is Some
                &&& r matches Ok(y) ==> y.ty == binop_type(bop, l.ty, x.ty)->0
                &&& r matches Ok(y) ==> (y.expr matches Expr::BinOp { op: o, lhs: yl, rhs: yr } ==> o == bop
                    && coerce_post(final(arena), l, y.ty, Ok(*yl)) && coerce_post(final(arena), x, y.ty, Ok(*yr)))
                &&& r matches Ok(y) ==> (y.expr matches Expr::ListConcat { lhs: yl, rhs: yr } ==> *yl == l && *yr == x)
                &&& r matches Ok(y) ==> (y.expr matches Expr::StrConcat { lhs: yl, rhs: yr } ==> *yl == l && *yr == x)
                &&& r matches Ok(y) ==> ((y.expr is ListConcat <==> (l.ty is List && x.ty is List))
                    && (y.expr is StrConcat <==> (l.ty == Type::Str && x.ty == Type::Str))
                    && (y.expr is ListConcat || y.expr is StrConcat || y.expr is BinOp))
            }))),
        *e matches ast::Expr::BinOp { op, .. } ==> (ast_binop(op) is None ==> (r matches Err(m)
            && m.message@ == unsup("`@` (matmul) is not supported"@))),
        *e matches ast::Expr::UnaryOp { op, operand } ==> (leaf_lowering(scope, *operand) matches Some(x) ==> {
            &&& ast_unop(op) matches Some(u) ==> {
                &&& r is Ok <==> (u != UnaryOp::BitNot || is_int_or_bool(x.ty))
                &&& r matches Ok(y) ==> y.ty == (if x.ty == Type::Bool { Type::I64 } else { x.ty })
                    && (y.expr matches Expr::UnaryOp { op: o, operand: inner } && o == u
                    && (x.ty == Type::Bool ==> coerce_post(final(arena), x, Type::I64, Ok(*inner)))
                    && (x.ty != Type::Bool ==> *inner == x))
            }
            &&& op == ast::UnaryOp::Not ==> (r matches Ok(y) ==> y.ty == Type::Bool
                && (y.expr matches Expr::Not(c) && coerce_post(final(arena), x, Type::Bool, Ok(*c))))
            &&& op == ast::UnaryOp::Not ==> (r is Ok <==> (coerce_kind(final(arena), x, Type::Bool) is Same
                || coerce_kind(final(arena), x, Type::Bool) is Convert))
        }),
        *e matches ast::Expr::Tuple(elts) ==> ((forall|i: int| 0 <= i < elts@.len()
            ==> #[trigger] leaf_lowering(scope, elts@[i]) is Some) ==> (r matches Ok(y) && y.ty is Tuple
            && (y.expr matches Expr::TupleLit { elements } && elements@.len() == elts@.len()
            && forall|i: int| 0 <= i < elts@.len() ==> #[trigger] elements@[i] == leaf_lowering(scope, elts@[i])->0))),
        *e matches ast::Expr::Constant(ast::Constant::Int(None)) ==> r matches Err(m) && m.message@ == unsup("integer literal does not fit in i64"@),
        *e matches ast::Expr::Constant(ast::Constant::Other) ==> r matches Err(m) && m.message@ == unsup("only int / float / bool / str literals are supported"@),
        unsupported_expr_form(*e) ==> (r matches Err(m) && m.message@ == unsup("expression form `"@ + expr_kind(*e) + "` is not supported"@)),
        (*e matches ast::Expr::BoolOp { values, .. } && values@.len() == 0) ==> (r matches Err(m) && m.message@ == unsup("empty BoolOp"@)),
        *e matches ast::Expr::Constant(ast::Constant::Float(f)) ==> r matches Ok(x) && x.ty == Type::F64 && x.expr == Expr::ConstF64(f),
        *e matches ast::Expr::Constant(ast::Constant::Str(t)) ==> (r is Ok <==> (vstd::utf8::is_ascii_chars(t@) && !has_escape_byte(vstd::utf8::encode_utf8(t@)))),
        *e matches ast::Expr::Constant(ast::Constant::Str(t)) ==> (r matches Ok(x) ==> (x.ty == Type::Str && (x.expr matches Expr::StrLit(u) && u@ == t@))),
        *e matches ast::Expr::Name(n) ==> match scope.lookup(n@) {
            Some(t) => r matches Ok(x) && x.ty == t && x.expr == Expr::Var(n),
            None => r is Err,
        },
        plain_comparison(*e) matches Some(m) ==> (r matches Ok(y) ==> y.ty == Type::Bool
            && (m >= 2 ==> (y.expr matches Expr::CmpChain { rest, .. } && rest@.len() == m))
            && (m == 1 ==> !(y.expr is CmpChain))),
        leaf_comparison(scope, *e) matches Some((x, rest)) ==> if rest.len() == 1 {
            plain_scalar(x.ty) && plain_scalar(rest[0].1.ty) ==> numeric_compare_post(final(arena), rest[0].0, x, rest[0].1, r)
        } else {
            r matches Ok(c) && c.ty == Type::Bool && (c.expr matches Expr::CmpChain { first, rest: rs }
                && *first == x && rs@ == rest)
        },
        *e matches ast::Expr::Subscript { value, slice } ==> (leaf_lowering(scope, *value) matches Some(x)
            ==> (x.ty matches Type::Tuple(id) ==> tuple_index_post(final(arena), x, id, *slice, r))),
    decreases e, 3nat,
{
    proof { Arena::lemma_extends_refl(arena); }
    match e {
        ast::Expr::Constant(c) => match c {
            ast::Constant::Int(Some(v)) => Ok(TypedExpr::new(Type::I64, Expr::ConstI64(*v))),
            ast::Constant::Int(None) => fail(msg1("integer literal does not fit in i64")),
            ast::Constant::Float(f) => Ok(TypedExpr::new(Type::F64, Expr::ConstF64(f.copy()))),
            ast::Constant::Bool(b) => Ok(TypedExpr::new(Type::Bool, Expr::ConstBool(*b))),
            ast::Constant::Str(s) => {
                if !s.as_str().is_ascii() {
                    return fail(msg1("non-ASCII string literals are not yet supported"));
                }
                if contains_escape_byte(s.as_str()) {
                    return fail(msg1("string literals containing backslash or single-quote are not yet supported (printer can't escape them yet)"));
                }
                Ok(TypedExpr::new(Type::Str, Expr::StrLit(s.clone())))
            },
            ast::Constant::Other => fail(msg1("only int / float / bool / str literals are supported")),
        },
        ast::Expr::Name(n) => {
            match scope.get(arena, n.as_str()) {
                Some(ty) => Ok(TypedExpr::new(ty, Expr::Var(n.clone()))),
                None => fail(msg3("name `", n.as_str(), "` is not in scope (must be a parameter or previously assigned local)")),
            }
        },
        ast::Expr::BinOp { left, op, right } => {
            let bop = match op {
                ast::Operator::Add => BinOp::Add,
                ast::Operator::Sub => BinOp::Sub,
                ast::Operator::Mult => BinOp::Mul,
                ast::Operator::FloorDiv => BinOp::FloorDiv,
                ast::Operator::Mod => BinOp::Mod,
                ast::Operator::Div => BinOp::TrueDiv,
                ast::Operator::Pow => BinOp::Pow,
                ast::Operator::MatMult => {
                    return fail(msg1("`@` (matmul) is not supported"));
                },
                ast::Operator::LShift => BinOp::Shl,
                ast::Operator::RShift => BinOp::Shr,
                ast::Operator::BitAnd => BinOp::BitAnd,
                ast::Operator::BitOr => BinOp::BitOr,
                ast::Operator::BitXor => BinOp::BitXor,
            };
            let ghost a0 = *arena;
            let l = lower_expr(left, scope, env, cur, arena)?;
            let ghost a1 = *arena;
            let x = lower_expr(right, scope, env, cur, arena)?;
            proof {
                lemma_expr_valid_mono(&a1, arena, l);
                Arena::lemma_extends_trans(&a0, &a1, arena);
            }
            apply_binop(arena, bop, l, x)
        },
        ast::Expr::UnaryOp { op, operand } => {
            let ghost a0 = *arena;
            let x = lower_expr(operand, scope, env, cur, arena)?;
            match op {
                ast::UnaryOp::USub => apply_unop(arena, UnaryOp::Neg, x),
                ast::UnaryOp::UAdd => apply_unop(arena, UnaryOp::Pos, x),
                ast::UnaryOp::Not => {
                    let c = coerce(arena, x, Type::Bool)?;
                    Ok(TypedExpr::new(Type::Bool, Expr::Not(Box::new(c))))
                },
                ast::UnaryOp::Invert => apply_unop(arena, UnaryOp::BitNot, x),
            }
        },
        ast::Expr::Compare { .. } => lower_compare(e, scope, env, cur, arena),
        ast::Expr::BoolOp { op, values } => {
            let bop = match op {
                ast::BoolOp::And => BoolOp::And,
                ast::BoolOp::Or => BoolOp::Or,
            };
            if values.len() == 0 {
                return fail(msg1("empty BoolOp"));
            }
            let ghost a0 = *arena;
            let mut acc = lower_expr(&values[0], scope, env, cur, arena)?;
            let mut i: usize = 1;
            while i < values.len()
                invariant
                    1 <= i <= values@.len(),
                    arena.extends(&a0),
                    a0 == *old(arena),
                    lower_pre(arena, scope, env, cur),
                    expr_valid(arena, acc),
                decreases values.len() - i,
            {
                let ghost a1 = *arena;
                let next = lower_expr(&values[i], scope, env, cur, arena)?;
                proof {
                    lemma_expr_valid_mono(&a1, arena, acc);
                    Arena::lemma_extends_trans(&a0, &a1, arena);
                }
                let (l, x) = unify_numeric(arena, acc, next)?;
                let ty = l.ty;
                acc = TypedExpr::new(ty, Expr::BoolOp { op: bop, lhs: Box::new(l), rhs: Box::new(x) });
                i += 1;
            }
            Ok(acc)
        },
        ast::Expr::Call { .. } => lower_call(e, scope, env, cur, arena),
        ast::Expr::Attribute { value, attr } => {
            let obj = lower_expr(value, scope, env, cur, arena)?;
            let class_id = match obj.ty {
                Type::Class(id) => id,
                other => {
                    let n = other.name(arena);
                    return fail(msg3("attribute access on non-class type ", n.as_str(), " not supported"));
                },
            };
            let fi = class_id.field_index(arena, attr.as_str());
            let nf = arena.classes[class_id.0].fields.len();
            proof { crate::hir::lemma_first_field(class_id.def(arena).fields@, attr@); }
            match fi {
                Some(field_index) => {
                    let field_ty = arena.classes[class_id.0].fields[field_index].1;
                    proof { lemma_field_valid(arena, class_id, field_index as int); }
                    Ok(TypedExpr::new(field_ty, Expr::FieldGet { obj: Box::new(obj), field_index }))
                },
                None => {
                    let cn = class_id.name(arena);
                    fail(msg5("class `", cn.as_str(), "` has no field `", attr.as_str(), "`"))
                },
            }
        },
        ast::Expr::Tuple(elts) => {
            let ghost a0 = *arena;
            let mut elements: Vec<TypedExpr> = Vec::new();
            let mut types: Vec<Type> = Vec::new();
            let mut i: usize = 0;
            while i < elts.len()
                invariant
                    0 <= i <= elts@.len(),
                    arena.extends(&a0),
                    a0 == *old(arena),
                    lower_pre(arena, scope, env, cur),
                    all_exprs_valid(arena, elements@),
                    types@.len() == elements@.len(),
                    forall|j: int| 0 <= j < types@.len() ==> #[trigger] types@[j] == elements@[j].ty,
                    elements@.len() == i,
                    (forall|j: int| 0 <= j < elts@.len() ==> #[trigger] leaf_lowering(scope, elts@[j]) is Some)
                        ==> forall|j: int| 0 <= j < i ==> #[trigger] elements@[j] == leaf_lowering(scope, elts@[j])->0,
                decreases elts.len() - i,
            {
                let ghost a1 = *arena;
                let x = lower_expr(&elts[i], scope, env, cur, arena)?;
                proof {
                    lemma_all_valid_mono(&a1, arena, elements@);
                    Arena::lemma_extends_trans(&a0, &a1, arena);
                }
                types.push(x.ty);
                elements.push(x);
                i += 1;
            }
            proof {
                assert forall|j: int| 0 <= j < types@.len() implies arena.valid(#[trigger] types@[j]) by {
                    assert(expr_valid(arena, elements@[j]));
                }
            }
            let ghost a1 = *arena;
            let id = TupleId::intern(arena, types);
            proof {
                lemma_all_valid_mono(&a1, arena, elements@);
                Arena::lemma_extends_trans(&a0, &a1, arena);
                lemma_pre_mono(&a1, arena, scope, env, cur);
            }
            Ok(TypedExpr::new(Type::Tuple(id), Expr::TupleLit { elements }))
        },
        ast::Expr::Dict { keys, values } => {
            let ghost a0 = *arena;
            let mut entries: Vec<(TypedExpr, TypedExpr)> = Vec::new();
            let n = if keys.len() < values.len() { keys.len() } else { values.len() };
            let mut i: usize = 0;
            while i < n
                invariant
                    0 <= i <= n,
                    n <= keys@.len(),
                    n <= values@.len(),
                    arena.extends(&a0),
                    a0 == *old(arena),
                    lower_pre(arena, scope, env, cur),
                    forall|j: int| 0 <= j < entries@.len() ==> expr_valid(arena, #[trigger] entries@[j].0) && expr_valid(arena, entries@[j].1),
                    forall|j: int| 0 <= j < entries@.len() ==> (#[trigger] entries@[j]).0.ty == Type::I64 && entries@[j].1.ty == Type::I64,
                decreases n - i,
            {
                let k = match &keys[i] {
                    Some(k) => k,
                    None => {
                        return fail(msg1("dict `**` unpacking is not supported"));
                    },
                };
                let ghost a1 = *arena;
                let lk = lower_expr(k, scope, env, cur, arena)?;
                let ghost a2 = *arena;
                let lv = lower_expr(&values[i], scope, env, cur, arena)?;
                let lk = coerce(arena, lk, Type::I64);
                let lk = match lk {
                    Ok(x) => x,
                    Err(m) => {
                        proof { Arena::lemma_extends_trans(&a0, &a1, &a2); Arena::lemma_extends_trans(&a0, &a2, arena); }
                        return Err(m);
                    },
                };
                proof {
                    Arena::lemma_extends_trans(&a0, &a1, &a2);
                    Arena::lemma_extends_trans(&a0, &a2, arena);
                    Arena::lemma_extends_trans(&a1, &a2, arena);
                }
                let lv = coerce(arena, lv, Type::I64)?;
                proof {
                    lemma_expr_valid_mono(&a2, arena, lk);
                    assert forall|j: int| 0 <= j < entries@.len() implies expr_valid(arena, #[trigger] entries@[j].0) && expr_valid(arena, entries@[j].1) by {
                        lemma_expr_valid_mono(&a1, arena, entries@[j].0);
                        lemma_expr_valid_mono(&a1, arena, entries@[j].1);
                    }
                }
                entries.push((lk, lv));
                i += 1;
            }
            let ghost a1 = *arena;
            let id = DictId::intern(arena, Type::I64, Type::I64);
            proof {
                Arena::lemma_extends_trans(&a0, &a1, arena);
                lemma_pre_mono(&a1, arena, scope, env, cur);
                assert forall|j: int| 0 <= j < entries@.len() implies expr_valid(arena, #[trigger] entries@[j].0) && expr_valid(arena, entries@[j].1) by {
                    lemma_expr_valid_mono(&a1, arena, entries@[j].0);
                    lemma_expr_valid_mono(&a1, arena, entries@[j].1);
                }
            }
            Ok(TypedExpr::new(Type::Dict(id), Expr::DictLit { entries }))
        },
        ast::Expr::SetDisplay { elts } => {
            let ghost a0 = *arena;
            let mut elements: Vec<TypedExpr> = Vec::new();
            let mut i: usize = 0;
            while i < elts.len()
                invariant
                    0 <= i <= elts@.len(),
                    arena.extends(&a0),
                    a0 == *old(arena),
                    lower_pre(arena, scope, env, cur),
                    all_exprs_valid(arena, elements@),
                    forall|j: int| 0 <= j < elements@.len() ==> (#[trigger] elements@[j]).ty == Type::I64,
                decreases elts.len() - i,
            {
                let ghost a1 = *arena;
                let x = lower_coerced(&elts[i], Type::I64, scope, env, cur, arena)?;
                proof {
                    lemma_all_valid_mono(&a1, arena, elements@);
                    Arena::lemma_extends_trans(&a0, &a1, arena);
                }
                elements.push(x);
                i += 1;
            }
            let ghost a1 = *arena;
            let id = SetId::intern(arena, Type::I64);
            proof {
                lemma_all_valid_mono(&a1, arena, elements@);
                Arena::lemma_extends_trans(&a0, &a1, arena);
                lemma_pre_mono(&a1, arena, scope, env, cur);
            }
            Ok(TypedExpr::new(Type::SetOf(id), Expr::SetLit { elements }))
        },
        ast::Expr::ListComp { .. } => lower_listcomp(e, scope, env, cur, arena),
        ast::Expr::List(elts) => lower_list_literal(e, scope, env, cur, arena),
        ast::Expr::Subscript { .. } => lower_subscript(e, scope, env, cur, arena),
        ast::Expr::JoinedStr { .. } => lower_joined_str(e, scope, env, cur, arena),
        _ => {
            let k = expr_kind_name(e);
            fail(msg3("expression form `", k, "` is not supported"))
        },
    }
}


/// The lowering of a leaf expression: an integer, float or bool literal,
/// or a name bound in `scope`.
pub open spec fn leaf_lowering(scope: &Scope, e: ast::Expr) -> Option<TypedExpr> {
    match e {
        ast::Expr::Constant(ast::Constant::Int(Some(v))) => Some(TypedExpr { ty: Type::I64, expr: Expr::ConstI64(v) }),
        ast::Expr::Constant(ast::Constant::Bool(b)) => Some(TypedExpr { ty: Type::Bool, expr: Expr::ConstBool(b) }),
        ast::Expr::Constant(ast::Constant::Float(f)) => Some(TypedExpr { ty: Type::F64, expr: Expr::ConstF64(f) }),
        ast::Expr::Name(n) => match scope.lookup(n@) {
            Some(t) => Some(TypedExpr { ty: t, expr: Expr::Var(n) }),
            None => None,
        },
        _ => None,
    }
}

/// The lowering of a leaf expression when names are bound by `bind`.
pub open spec fn bleaf(bind: spec_fn(Seq<char>) -> Option<Type>, e: ast::Expr) -> Option<TypedExpr> {
    match e {
        ast::Expr::Constant(ast::Constant::Int(Some(v))) => Some(TypedExpr { ty: Type::I64, expr: Expr::ConstI64(v) }),
        ast::Expr::Constant(ast::Constant::Bool(b)) => Some(TypedExpr { ty: Type::Bool, expr: Expr::ConstBool(b) }),
        ast::Expr::Constant(ast::Constant::Float(f)) => Some(TypedExpr { ty: Type::F64, expr: Expr::ConstF64(f) }),
        ast::Expr::Name(n) => match bind(n@) {
            Some(t) => Some(TypedExpr { ty: t, expr: Expr::Var(n) }),
            None => None,
        },
        _ => None,
    }
}

/// The type of a simple expression when names are bound by `bind`: a
/// leaf, a unary `-`, `+` or `~` of a leaf, or a binary operation on two
/// leaves; `None` when it is not one of these or does not type-check.
pub open spec fn simple_type(bind: spec_fn(Seq<char>) -> Option<Type>, e: ast::Expr) -> Option<Type> {
    match bleaf(bind, e) {
        Some(x) => Some(x.ty),
        None => match e {
            ast::Expr::BinOp { left, op, right } => match (ast_binop(op), bleaf(bind, *left), bleaf(bind, *right)) {
                (Some(b), Some(l), Some(x)) => binop_type(b, l.ty, x.ty),
                _ => None,
            },
            ast::Expr::UnaryOp { op, operand } => match (ast_unop(op), bleaf(bind, *operand)) {
                (Some(u), Some(x)) => if u != UnaryOp::BitNot || is_int_or_bool(x.ty) {
                    Some(if x.ty == Type::Bool { Type::I64 } else { x.ty })
                } else {
                    None
                },
                _ => None,
            },
            _ => None,
        },
    }
}

/// A single numeric comparison of two leaves that have a common numeric
/// type, when names are bound by `bind`.
pub open spec fn simple_comparison(bind: spec_fn(Seq<char>) -> Option<Type>, e: ast::Expr) -> bool {
    match e {
        ast::Expr::Compare { left, ops, comparators } => {
            &&& ops@.len() == 1
            &&& comparators@.len() == 1
            &&& numeric_cmp(ops@[0]) is Some
            &&& match (bleaf(bind, *left), bleaf(bind, comparators@[0])) {
                (Some(x), Some(y)) => plain_scalar(x.ty) && plain_scalar(y.ty) && numeric_target(x.ty, y.ty) is Some,
                _ => false,
            }
        },
        _ => false,
    }
}

/// The binding of names that `scope` makes.
pub open spec fn scope_bind(scope: &Scope) -> spec_fn(Seq<char>) -> Option<Type> {
    |n: Seq<char>| scope.lookup(n)
}

/// The HIR operator of a Python binary operator (`None` for `@`).
pub open spec fn ast_binop(op: ast::Operator) -> Option<BinOp> {
    match op {
        ast::Operator::Add => Some(BinOp::Add),
        ast::Operator::Sub => Some(BinOp::Sub),
        ast::Operator::Mult => Some(BinOp::Mul),
        ast::Operator::FloorDiv => Some(BinOp::FloorDiv),
        ast::Operator::Mod => Some(BinOp::Mod),
        ast::Operator::Div => Some(BinOp::TrueDiv),
        ast::Operator::Pow => Some(BinOp::Pow),
        ast::Operator::MatMult => None,
        ast::Operator::LShift => Some(BinOp::Shl),
        ast::Operator::RShift => Some(BinOp::Shr),
        ast::Operator::BitAnd => Some(BinOp::BitAnd),
        ast::Operator::BitOr => Some(BinOp::BitOr),
        ast::Operator::BitXor => Some(BinOp::BitXor),
    }
}

/// The HIR operator of a Python unary operator other than `not`.
pub open spec fn ast_unop(op: ast::UnaryOp) -> Option<UnaryOp> {
    match op {
        ast::UnaryOp::USub => Some(UnaryOp::Neg),
        ast::UnaryOp::UAdd => Some(UnaryOp::Pos),
        ast::UnaryOp::Invert => Some(UnaryOp::BitNot),
        ast::UnaryOp::Not => None,
    }
}

/// Expression forms outside the compiled subset: each is rejected by
/// [`lower_expr`] with a diagnostic naming the form.
pub open spec fn unsupported_expr_form(e: ast::Expr) -> bool {
    match e {
        ast::Expr::NamedExpr | ast::Expr::Lambda | ast::Expr::IfExp | ast::Expr::SetComp
        | ast::Expr::DictComp | ast::Expr::GeneratorExp | ast::Expr::Await | ast::Expr::Yield
        | ast::Expr::YieldFrom | ast::Expr::FormattedValue { .. } | ast::Expr::Starred
        | ast::Expr::Slice { .. } => true,
        _ => false,
    }
}

/// The HIR operator of a comparison between numbers.
pub open spec fn numeric_cmp(op: ast::CmpOp) -> Option<CmpOp> {
    match op {
        ast::CmpOp::Lt => Some(CmpOp::Lt),
        ast::CmpOp::LtE => Some(CmpOp::Le),
        ast::CmpOp::Gt => Some(CmpOp::Gt),
        ast::CmpOp::GtE => Some(CmpOp::Ge),
        ast::CmpOp::Eq => Some(CmpOp::Eq),
        ast::CmpOp::NotEq => Some(CmpOp::Ne),
        _ => None,
    }
}

/// The value of an integer literal that fits in `i64`.
pub open spec fn int_literal(e: ast::Expr) -> Option<i64> {
    match e {
        ast::Expr::Constant(ast::Constant::Int(Some(v))) => Some(v),
        _ => None,
    }
}

/// A single comparison of two integer literals: its operator and operands.
pub open spec fn literal_comparison(e: ast::Expr) -> Option<(CmpOp, i64, i64)> {
    match e {
        ast::Expr::Compare { left, ops, comparators } => {
            if ops@.len() == 1 && comparators@.len() == 1 && numeric_cmp(ops@[0]) is Some
                && int_literal(*left) is Some && int_literal(comparators@[0]) is Some {
                Some((numeric_cmp(ops@[0])->0, int_literal(*left)->0, int_literal(comparators@[0])->0))
            } else {
                None
            }
        },
        _ => None,
    }
}

/// The literal of an f-string that only interpolates one integer literal:
/// `f"{<v>}"`.
pub open spec fn interpolated_int(e: ast::Expr) -> Option<i64> {
    match e {
        ast::Expr::JoinedStr { values } => if values@.len() == 1 {
            match values@[0] {
                ast::Expr::FormattedValue { value, has_conversion, has_format_spec } =>
                    if !has_conversion && !has_format_spec { int_literal(*value) } else { None },
                _ => None,
            }
        } else {
            None
        },
        _ => None,
    }
}

/// The bound of `range(<integer literal>)`.
pub open spec fn literal_range(e: ast::Expr) -> Option<i64> {
    match e {
        ast::Expr::Call { func, args, keywords } => match *func {
            ast::Expr::Name(n) => if n@ == "range"@ && keywords@.len() == 0 && args@.len() == 1 {
                int_literal(args@[0])
            } else {
                None
            },
            _ => None,
        },
        _ => None,
    }
}

/// The bound of `range(<b>)` when `b` is a leaf of type `int` (an integer
/// literal, or a name bound to an `int`).
pub open spec fn range_bound(scope: &Scope, e: ast::Expr) -> Option<TypedExpr> {
    match e {
        ast::Expr::Call { func, args, keywords } => match *func {
            ast::Expr::Name(n) => if n@ == "range"@ && keywords@.len() == 0 && args@.len() == 1 {
                match leaf_lowering(scope, args@[0]) {
                    Some(x) => if x.ty == Type::I64 { Some(x) } else { None },
                    None => None,
                }
            } else {
                None
            },
            _ => None,
        },
        _ => None,
    }
}

/// The HIR of a comparison of two `i64` constants.
pub open spec fn literal_cmp_hir(op: CmpOp, a: i64, b: i64) -> TypedExpr {
    TypedExpr {
        ty: Type::Bool,
        expr: Expr::Cmp {
            op,
            lhs: Box::new(TypedExpr { ty: Type::I64, expr: Expr::ConstI64(a) }),
            rhs: Box::new(TypedExpr { ty: Type::I64, expr: Expr::ConstI64(b) }),
        },
    }
}

/// The operands of a comparison of leaves with ordering or equality
/// operators only (no `in`, `not in`, `is`): the lowered left operand and
/// each operator with its lowered right operand.
pub open spec fn leaf_comparison(scope: &Scope, e: ast::Expr) -> Option<(TypedExpr, Seq<(CmpOp, TypedExpr)>)> {
    match e {
        ast::Expr::Compare { left, ops, comparators } =>
            if ops@.len() == comparators@.len() && ops@.len() >= 1
                && (forall|j: int| 0 <= j < ops@.len() ==> numeric_cmp(#[trigger] ops@[j]) is Some)
                && (forall|j: int| 0 <= j < comparators@.len() ==> leaf_lowering(scope, #[trigger] comparators@[j]) is Some)
                && leaf_lowering(scope, *left) is Some {
                Some((leaf_lowering(scope, *left)->0, Seq::new(ops@.len(), |j: int|
                    (numeric_cmp(ops@[j])->0, leaf_lowering(scope, comparators@[j])->0))))
            } else {
                None
            },
        _ => None,
    }
}

/// A comparison with as many operands as operators, at least one, and
/// ordering or equality operators only: the number of operators.
pub open spec fn plain_comparison(e: ast::Expr) -> Option<nat> {
    match e {
        ast::Expr::Compare { ops, comparators, .. } =>
            if ops@.len() == comparators@.len() && ops@.len() >= 1
                && forall|j: int| 0 <= j < ops@.len() ==> numeric_cmp(#[trigger] ops@[j]) is Some {
                Some(ops@.len())
            } else {
                None
            },
        _ => None,
    }
}

/// Neither a string nor a class instance.
pub open spec fn plain_scalar(t: Type) -> bool {
    t != Type::Str && !(t is Class)
}

/// What a single comparison `x op y` of two scalar operands lowers to:
/// both converted to their common numeric type, or the diagnostic for two
/// types with none.
pub open spec fn numeric_compare_post(a: &Arena, op: CmpOp, x: TypedExpr, y: TypedExpr, r: Result<TypedExpr, CompileError>) -> bool {
    match numeric_target(x.ty, y.ty) {
        Some(t) => r matches Ok(c) && c.ty == Type::Bool && (c.expr matches Expr::Cmp { op: o, lhs, rhs }
            && o == op && coerce_post(a, x, t, Ok::<TypedExpr, CompileError>(*lhs))
            && coerce_post(a, y, t, Ok::<TypedExpr, CompileError>(*rhs))),
        None => r matches Err(m) && m.message@ == numeric_error(a, x.ty, y.ty),
    }
}

/// Lower a comparison (`a < b`, chains, `in` / `not in`, `==` on class
/// instances via `__eq__`, and `==` / `!=` on strings).
#[verifier::loop_isolation(false)]
pub fn lower_compare(e: &ast::Expr, scope: &Scope, env: &Env, cur: Option<ClassId>, arena: &mut Arena)
    -> (r: Result<TypedExpr, CompileError>)
    requires
        lower_pre(old(arena), scope, env, cur),
        e is Compare,
    ensures
        lower_post(old(arena), final(arena), scope, env, cur),
        r matches Ok(x) ==> expr_valid(final(arena), x) && x.ty == Type::Bool,
        literal_comparison(*e) matches Some((op, a, b))
            ==> r == Ok::<TypedExpr, CompileError>(literal_cmp_hir(op, a, b)),
        leaf_comparison(scope, *e) matches Some((x, rest)) ==> if rest.len() == 1 {
            plain_scalar(x.ty) && plain_scalar(rest[0].1.ty) ==> numeric_compare_post(final(arena), rest[0].0, x, rest[0].1, r)
        } else {
            r matches Ok(c) && c.ty == Type::Bool && (c.expr matches Expr::CmpChain { first, rest: rs }
                && *first == x && rs@ == rest)
        },
        plain_comparison(*e) matches Some(m) ==> (r matches Ok(y) ==> y.ty == Type::Bool
            && (m >= 2 ==> (y.expr matches Expr::CmpChain { rest, .. } && rest@.len() == m))
            && (m == 1 ==> !(y.expr is CmpChain))),
    decreases e, 2nat,
{
    proof { Arena::lemma_extends_refl(arena); }
    let ghost a0 = *arena;
    let ghost lit = literal_comparison(*e);
    let ghost leaves = leaf_comparison(scope, *e);
    let (left, ops, comparators) = match e {
        ast::Expr::Compare { left, ops, comparators } => (left, ops, comparators),
        _ => {
            proof { assert(false); }
            return fail(msg1(""));
        },
    };
    if ops.len() == 1 && (ops[0] == ast::CmpOp::In || ops[0] == ast::CmpOp::NotIn) {
        if comparators.len() == 0 {
            return fail(msg1("comparison without a right-hand operand"));
        }
        let key = lower_expr(left, scope, env, cur, arena)?;
        let ghost a1 = *arena;
        let container = lower_expr(&comparators[0], scope, env, cur, arena)?;
        proof {
            lemma_expr_valid_mono(&a1, arena, key);
            Arena::lemma_extends_trans(&a0, &a1, arena);
            lemma_components_valid(arena, container.ty);
        }
        let negated = ops[0] == ast::CmpOp::NotIn;
        let result = match container.ty {
            Type::Dict(id) => {
                let kt = id.key(arena);
                let key = coerce(arena, key, kt)?;
                TypedExpr::new(Type::Bool, Expr::DictHas { dict: Box::new(container), key: Box::new(key) })
            },
            Type::SetOf(id) => {
                let kt = id.elem(arena);
                let key = coerce(arena, key, kt)?;
                TypedExpr::new(Type::Bool, Expr::SetHas { set: Box::new(container), key: Box::new(key) })
            },
            other => {
                let n = other.name(arena);
                return fail(msg3("`in` / `not in` on ", n.as_str(), " not supported (only dict / set so far)"));
            },
        };
        assert(expr_valid(arena, result));
        if negated {
            return Ok(TypedExpr::new(Type::Bool, Expr::Not(Box::new(result))));
        }
        return Ok(result);
    }
    let first = lower_expr(left, scope, env, cur, arena)?;
    let ghost a1 = *arena;
    let mut rest: Vec<(CmpOp, TypedExpr)> = Vec::new();
    let n = if ops.len() < comparators.len() { ops.len() } else { comparators.len() };
    let mut i: usize = 0;
    while i < n
        invariant
            0 <= i <= n,
            n <= ops@.len(),
            n <= comparators@.len(),
            arena.extends(&a0),
            arena.extends(&a1),
            lower_pre(arena, scope, env, cur),
            expr_valid(arena, first),
            rest@.len() == i,
            forall|j: int| 0 <= j < rest@.len() ==> expr_valid(arena, #[trigger] rest@[j].1),
            lit matches Some((op0, a0v, b0v)) ==> first == (TypedExpr { ty: Type::I64, expr: Expr::ConstI64(a0v) })
                && n == 1 && (i == 1 ==> rest@ == seq![(op0, TypedExpr { ty: Type::I64, expr: Expr::ConstI64(b0v) })]),
            leaves matches Some((x0, rest0)) ==> first == x0 && n == rest0.len()
                && forall|j: int| 0 <= j < i ==> #[trigger] rest@[j] == rest0[j],
        decreases n - i,
    {
        if ops[i] == ast::CmpOp::In || ops[i] == ast::CmpOp::NotIn {
            return fail(msg1("`in` / `not in` cannot be chained with other comparisons"));
        }
        let op = convert_cmp_op(ops[i])?;
        let ghost a2 = *arena;
        let x = lower_expr(&comparators[i], scope, env, cur, arena)?;
        proof {
            lemma_expr_valid_mono(&a2, arena, first);
            Arena::lemma_extends_trans(&a0, &a2, arena);
            Arena::lemma_extends_trans(&a1, &a2, arena);
            assert forall|j: int| 0 <= j < rest@.len() implies expr_valid(arena, #[trigger] rest@[j].1) by {
                lemma_expr_valid_mono(&a2, arena, rest@[j].1);
            }
        }
        rest.push((op, x));
        i += 1;
    }
    if rest.len() != 1 {
        return Ok(TypedExpr::new(Type::Bool, Expr::CmpChain { first: Box::new(first), rest }));
    }
    let (op, rhs) = match rest.pop() {
        Some(p) => p,
        None => {
            proof { assert(false); }
            return fail(msg1(""));
        },
    };
    proof { assert(expr_valid(arena, rhs)); }
    if let (Type::Class(lc), Type::Class(rc)) = (first.ty, rhs.ty) {
        if op == CmpOp::Eq || op == CmpOp::Ne {
            if lc != rc {
                let ln = lc.name(arena);
                let rn = rc.name(arena);
                return fail(msg5("== between class instances must use the same class type (", ln.as_str(), " vs ", rn.as_str(), ")"));
            }
            let ln = lc.name(arena);
            let mangled = match resolve_method(arena, lc, "__eq__", &env.sigs) {
                Some((_owner, m)) => m,
                None => {
                    return fail(msg3("class `", ln.as_str(), "` has no `__eq__` method (define one to use `==`)"));
                },
            };
            let sig = match env.sigs.get(mangled.as_str()) {
                Some(s) => s,
                None => {
                    proof { assert(false); }
                    return fail(msg1(""));
                },
            };
            proof { lemma_sig_ok(&env.sigs, arena, *sig); }
            if sig.params.len() != 2 || sig.return_ty != Type::Bool {
                return fail(msg3("`__eq__` on `", ln.as_str(), "` must take (self, other) and return `bool`"));
            }
            let lhs_arg = coerce(arena, first, sig.params[0].ty)?;
            let rhs_arg = coerce(arena, rhs, sig.params[1].ty)?;
            let mut args: Vec<TypedExpr> = Vec::new();
            args.push(lhs_arg);
            args.push(rhs_arg);
            let call = TypedExpr::new(Type::Bool, Expr::Call { callee: mangled, args });
            assert(expr_valid(arena, call));
            if op == CmpOp::Ne {
                return Ok(TypedExpr::new(Type::Bool, Expr::Not(Box::new(call))));
            }
            return Ok(call);
        } else {
            return fail(msg1("only == and != are supported between class instances (no <, >, etc.)"));
        }
    }
    if first.ty == Type::Str || rhs.ty == Type::Str {
        if first.ty != Type::Str || rhs.ty != Type::Str {
            let ln = first.ty.name(arena);
            let rn = rhs.ty.name(arena);
            return fail(msg4("cannot compare ", ln.as_str(), " and ", rn.as_str()));
        }
        let negated = match op {
            CmpOp::Eq => false,
            CmpOp::Ne => true,
            _ => {
                return fail(msg1("only == and != are supported for strings (no lexicographic ordering yet)"));
            },
        };
        return Ok(TypedExpr::new(Type::Bool, Expr::StrEq { lhs: Box::new(first), rhs: Box::new(rhs), negated }));
    }
    let ghost first0 = first;
    let ghost rhs0 = rhs;
    let (l, x) = unify_numeric(arena, first, rhs)?;
    proof {
        if lit is Some {
            assert(numeric_target(first0.ty, rhs0.ty) == Some(Type::I64));
            assert(coerce_kind(arena, first0, Type::I64) == CoerceKind::Same);
            assert(coerce_kind(arena, rhs0, Type::I64) == CoerceKind::Same);
        }
    }
    Ok(TypedExpr::new(Type::Bool, Expr::Cmp { op, lhs: Box::new(l), rhs: Box::new(x) }))
}

/// Every positional argument of call `e` is an integer literal passed to
/// an `int` parameter (the parameters from position `skip` on).
pub open spec fn literal_arguments(e: ast::Expr, params: Seq<crate::hir::Param>, skip: int) -> bool {
    e matches ast::Expr::Call { args, .. } && forall|i: int| 0 <= i < args@.len()
        ==> int_literal(#[trigger] args@[i]) is Some && params[i + skip].ty == Type::I64
}

/// Lower the positional arguments of the call `e`, each converted to the
/// type of the parameter `skip` places further on, appending them to `out`.
#[verifier::loop_isolation(false)]
fn lower_args_into(e: &ast::Expr, params: &Vec<crate::hir::Param>, skip: usize, out: &mut Vec<TypedExpr>,
    scope: &Scope, env: &Env, cur: Option<ClassId>, arena: &mut Arena) -> (r: Result<(), CompileError>)
    requires
        lower_pre(old(arena), scope, env, cur),
        e matches ast::Expr::Call { args, .. } && args@.len() + skip == params@.len(),
        forall|i: int| 0 <= i < params@.len() ==> old(arena).valid(#[trigger] params@[i].ty),
        all_exprs_valid(old(arena), old(out)@),
    ensures
        lower_post(old(arena), final(arena), scope, env, cur),
        all_exprs_valid(final(arena), final(out)@),
        r is Ok ==> final(out)@.len() == old(out)@.len() + params@.len() - skip,
        r is Ok ==> final(out)@.subrange(0, old(out)@.len() as int) == old(out)@,
        r is Ok ==> forall|i: int| old(out)@.len() <= i < final(out)@.len()
            ==> (#[trigger] final(out)@[i]).ty == params@[i - old(out)@.len() + skip].ty,
        literal_arguments(*e, params@, skip as int) ==> r is Ok && forall|i: int| old(out)@.len() <= i < final(out)@.len()
            ==> #[trigger] final(out)@[i] == (TypedExpr { ty: Type::I64, expr: Expr::ConstI64(
                int_literal(e->args@[i - old(out)@.len()])->0) }),
    decreases e, 1nat,
{
    proof { Arena::lemma_extends_refl(arena); }
    let ghost a0 = *arena;
    let args = match e {
        ast::Expr::Call { args, .. } => args,
        _ => {
            proof { assert(false); }
            return Ok(());
        },
    };
    let ghost n0 = out@.len();
    let ghost out0 = out@;
    let np = params.len();
    let mut i: usize = 0;
    while i < args.len()
        invariant
            0 <= i <= args@.len(),
            args@.len() + skip == params@.len(),
            arena.extends(&a0),
            lower_pre(arena, scope, env, cur),
            all_exprs_valid(arena, out@),
            out@.len() == n0 + i,
            out@.subrange(0, n0 as int) == out0,
            forall|j: int| n0 <= j < out@.len() ==> (#[trigger] out@[j]).ty == params@[j - n0 + skip].ty,
            literal_arguments(*e, params@, skip as int) ==> forall|j: int| n0 <= j < out@.len()
                ==> #[trigger] out@[j] == (TypedExpr { ty: Type::I64, expr: Expr::ConstI64(int_literal(args@[j - n0])->0) }),
        decreases args.len() - i,
    {
        let ghost a1 = *arena;
        let t = params[i + skip].ty;
        proof { arena.lemma_valid_mono(&a0, t); }
        let x = lower_coerced(&args[i], t, scope, env, cur, arena);
        proof {
            lemma_all_valid_mono(&a1, arena, out@);
            Arena::lemma_extends_trans(&a0, &a1, arena);
        }
        let x = x?;
        out.push(x);
        i += 1;
    }
    Ok(())
}

/// Lower a call: `super().m(..)`, `obj.m(..)`, a class constructor, a
/// built-in, or a call to a top-level function.
#[verifier::loop_isolation(false)]
pub fn lower_call(e: &ast::Expr, scope: &Scope, env: &Env, cur: Option<ClassId>, arena: &mut Arena)
    -> (r: Result<TypedExpr, CompileError>)
    requires
        lower_pre(old(arena), scope, env, cur),
        e is Call,
    ensures
        lower_post(old(arena), final(arena), scope, env, cur),
        r matches Ok(x) ==> expr_valid(final(arena), x),
        called_name(*e) matches Some(n) ==> ((env.reg.lookup(n@) is None && !builtin_name(n@)) ==> {
            &&& !env.sigs.has(n@) ==> (r matches Err(m) && m.message@ == unsup("call to undefined function `"@ + n@ + "`"@))
            &&& (env.sigs.has(n@) && assoc(env.sigs.entries@, n@)->0.params@.len() == 0 && no_arguments(*e)) ==> (r matches Ok(x)
                && x.ty == assoc(env.sigs.entries@, n@)->0.return_ty
                && (x.expr matches Expr::Call { callee, args } && callee@ == n@ && args@.len() == 0))
        }),
        super_call_arity(*e) matches Some((na, nk)) ==> {
            &&& (na != 0 || nk != 0) ==> (r matches Err(m) && m.message@ == unsup("only zero-arg `super()` is supported"@))
            &&& (na == 0 && nk == 0 && cur is None) ==> (r matches Err(m) && m.message@ == unsup("`super()` is only valid inside a method"@))
        },
    decreases e, 2nat,
{
    proof { Arena::lemma_extends_refl(arena); }
    let ghost a0 = *arena;
    let (func, args, keywords) = match e {
        ast::Expr::Call { func, args, keywords } => (func, args, keywords),
        _ => {
            proof { assert(false); }
            return fail(msg1(""));
        },
    };
    if let ast::Expr::Attribute { value, attr } = &**func {
        if let ast::Expr::Call { func: inner_func, args: inner_args, keywords: inner_kw } = &**value {
            if let ast::Expr::Name(sn) = &**inner_func {
                if str_eq(sn.as_str(), "super") {
                    if inner_args.len() != 0 || inner_kw.len() != 0 {
                        return fail(msg1("only zero-arg `super()` is supported"));
                    }
                    let cur_class = match cur {
                        Some(c) => c,
                        None => {
                            return fail(msg1("`super()` is only valid inside a method"));
                        },
                    };
                    proof { lemma_parent_valid(arena, cur_class); }
                    let parent = match cur_class.parent(arena) {
                        Some(p) => p,
                        None => {
                            let cn = cur_class.name(arena);
                            return fail(msg3("class `", cn.as_str(), "` has no parent — `super()` is invalid here"));
                        },
                    };
                    let mangled = match resolve_method(arena, parent, attr.as_str(), &env.sigs) {
                        Some((_c, m)) => m,
                        None => {
                            let pn = parent.name(arena);
                            return fail(msg5("no method `", attr.as_str(), "` found on `", pn.as_str(), "` or its ancestors"));
                        },
                    };
                    let sig = match env.sigs.get(mangled.as_str()) {
                        Some(s) => s,
                        None => {
                            proof { assert(false); }
                            return fail(msg1(""));
                        },
                    };
                    proof { lemma_sig_ok(&env.sigs, arena, *sig); }
                    let self_ty = match scope.get(arena, "self") {
                        Some(t) => t,
                        None => {
                            return fail(msg1("`super()` requires a `self` in scope"));
                        },
                    };
                    if sig.params.len() == 0 {
                        return fail(msg1("method signature without a `self` parameter"));
                    }
                    let self_expr = TypedExpr::new(self_ty, Expr::Var(String::from_str("self")));
                    let mut call_args: Vec<TypedExpr> = Vec::new();
                    let s = coerce(arena, self_expr, sig.params[0].ty)?;
                    call_args.push(s);
                    if args.len() != sig.params.len() - 1 {
                        let want = usize_str(sig.params.len() - 1);
                        let got = usize_str(args.len());
                        return fail(msg5("super().", attr.as_str(), " takes ", want.as_str(), concat3(" args, got ", got.as_str(), "").as_str()));
                    }
                    if keywords.len() != 0 {
                        return fail(msg1("keyword args on super() method calls not supported"));
                    }
                    lower_args_into(e, &sig.params, 1, &mut call_args, scope, env, cur, arena)?;
                    let ret = sig.return_ty;
                    proof { arena.lemma_valid_mono(&a0, ret); }
                    return Ok(TypedExpr::new(ret, Expr::Call { callee: mangled, args: call_args }));
                }
            }
        }
        let obj = lower_expr(value, scope, env, cur, arena)?;
        if let Type::Class(class_id) = obj.ty {
            let cn = class_id.name(arena);
            let mangled = match resolve_method(arena, class_id, attr.as_str(), &env.sigs) {
                Some((_c, m)) => m,
                None => {
                    return fail(msg5("class `", cn.as_str(), "` has no method `", attr.as_str(), "` (and no ancestor defines it)"));
                },
            };
            let sig = match env.sigs.get(mangled.as_str()) {
                Some(s) => s,
                None => {
                    return fail(msg5("class `", cn.as_str(), "` has no method `", attr.as_str(), "`"));
                },
            };
            proof { lemma_sig_ok(&env.sigs, arena, *sig); }
            if sig.params.len() == 0 {
                return fail(msg1("method signature without a `self` parameter"));
            }
            let mut call_args: Vec<TypedExpr> = Vec::new();
            let o = coerce(arena, obj, sig.params[0].ty)?;
            call_args.push(o);
            if args.len() != sig.params.len() - 1 {
                let want = usize_str(sig.params.len() - 1);
                let got = usize_str(args.len());
                return fail(msg7("method `", cn.as_str(), ".", attr.as_str(), "` takes ", want.as_str(), concat3(" args, got ", got.as_str(), "").as_str()));
            }
            if keywords.len() != 0 {
                return fail(msg1("keyword args on method calls not supported"));
            }
            lower_args_into(e, &sig.params, 1, &mut call_args, scope, env, cur, arena)?;
            let ret = sig.return_ty;
            proof { arena.lemma_valid_mono(&a0, ret); }
            return Ok(TypedExpr::new(ret, Expr::Call { callee: mangled, args: call_args }));
        }
        let on = obj.ty.name(arena);
        return fail(msg3("method calls only supported on class instances (got ", on.as_str(), ")"));
    }
    let callee = match &**func {
        ast::Expr::Name(n) => n,
        _ => {
            return fail(msg1("only direct calls to top-level functions are supported"));
        },
    };
    if let Some(class_id) = env.reg.get(arena, callee.as_str()) {
        if class_id.is_abstract(arena) {
            let names = class_id.abstract_methods(arena);
            let listed = debug_names(&names);
            return fail(msg4("cannot instantiate abstract class `", callee.as_str(), "`: missing implementations of ", listed.as_str()));
        }
        let (init_class, init_name) = match resolve_method(arena, class_id, "__init__", &env.sigs) {
            Some(p) => p,
            None => {
                if args.len() != 0 || keywords.len() != 0 {
                    return fail(msg5("class `", callee.as_str(), "` has no __init__ method (and no ancestor defines one), so `",
                        callee.as_str(), "()` must be called with no arguments"));
                }
                return Ok(TypedExpr::new(Type::Class(class_id), Expr::ClassNew { class: class_id, init_class: None, args: Vec::new() }));
            },
        };
        let init_sig = match env.sigs.get(init_name.as_str()) {
            Some(s) => s,
            None => {
                proof { assert(false); }
                return fail(msg1(""));
            },
        };
        proof { lemma_sig_ok(&env.sigs, arena, *init_sig); }
        if init_sig.params.len() == 0 {
            return fail(msg1("method signature without a `self` parameter"));
        }
        if args.len() != init_sig.params.len() - 1 {
            let want = usize_str(init_sig.params.len() - 1);
            let got = usize_str(args.len());
            return fail(msg5("`", callee.as_str(), "` __init__ takes ", want.as_str(), concat3(" args, got ", got.as_str(), "").as_str()));
        }
        if keywords.len() != 0 {
            return fail(msg1("keyword args on class constructor not supported"));
        }
        let mut call_args: Vec<TypedExpr> = Vec::new();
        lower_args_into(e, &init_sig.params, 1, &mut call_args, scope, env, cur, arena)?;
        return Ok(TypedExpr::new(Type::Class(class_id), Expr::ClassNew { class: class_id, init_class: Some(init_class), args: call_args }));
    }
    if let Some(b) = lower_builtin_call(e, callee.as_str(), scope, env, cur, arena)? {
        return Ok(b);
    }
    let ghost a1 = *arena;
    let sig = match env.sigs.get(callee.as_str()) {
        Some(s) => s,
        None => {
            return fail(msg3("call to undefined function `", callee.as_str(), "`"));
        },
    };
    proof { lemma_sig_ok(&env.sigs, arena, *sig); }
    let call_args = resolve_call_args(e, callee.as_str(), sig, scope, env, cur, arena)?;
    let ret = sig.return_ty;
    proof {
        arena.lemma_valid_mono(&a1, ret);
        Arena::lemma_extends_trans(&a0, &a1, arena);
    }
    Ok(TypedExpr::new(ret, Expr::Call { callee: callee.clone(), args: call_args }))
}


/// The names of the built-in functions: `int`, `float`, `bool`, `abs`,
/// the math functions, `len`, `set`, `repr`, `min` and `max`.
pub open spec fn builtin_name(n: Seq<char>) -> bool {
    ||| n == "int"@
    ||| n == "float"@
    ||| n == "bool"@
    ||| n == "abs"@
    ||| math_intrinsic(n) is Some
    ||| n == "len"@
    ||| n == "set"@
    ||| n == "repr"@
    ||| n == "min"@
    ||| n == "max"@
}

/// `<name>[<integer literal>]`: the name and the index.
pub open spec fn indexed_name(e: ast::Expr) -> Option<(String, i64)> {
    match e {
        ast::Expr::Subscript { value, slice } => match *value {
            ast::Expr::Name(n) => match int_literal(*slice) {
                Some(k) => Some((n, k)),
                None => None,
            },
            _ => None,
        },
        _ => None,
    }
}

/// `[<integer literal> for <name> in range(<integer literal>)]`.
pub open spec fn literal_listcomp(e: ast::Expr) -> bool {
    &&& e matches ast::Expr::ListComp { elt, generators }
    &&& generators@.len() == 1
    &&& !generators@[0].is_async
    &&& generators@[0].target is Name
    &&& literal_range(generators@[0].iter) is Some
    &&& generators@[0].ifs@.len() == 0
    &&& int_literal(*elt) is Some
}

/// The name a call calls directly, if it is a plain name.
pub open spec fn called_name(e: ast::Expr) -> Option<String> {
    match e {
        ast::Expr::Call { func, .. } => match *func {
            ast::Expr::Name(n) => Some(n),
            _ => None,
        },
        _ => None,
    }
}

/// For a call `super(...).m(...)`: the numbers of positional and of
/// keyword arguments handed to `super` itself.
pub open spec fn super_call_arity(e: ast::Expr) -> Option<(nat, nat)> {
    match e {
        ast::Expr::Call { func, .. } => match *func {
            ast::Expr::Attribute { value, .. } => match *value {
                ast::Expr::Call { func: inner, args, keywords } => match *inner {
                    ast::Expr::Name(n) => if n@ == "super"@ { Some((args@.len(), keywords@.len())) } else { None },
                    _ => None,
                },
                _ => None,
            },
            _ => None,
        },
        _ => None,
    }
}

/// A call with no arguments at all.
pub open spec fn no_arguments(e: ast::Expr) -> bool {
    e matches ast::Expr::Call { args, keywords, .. } && args@.len() == 0 && keywords@.len() == 0
}

/// The argument of a one-argument built-in, after checking the count.
fn single_arg<'a>(args: &'a Vec<ast::Expr>, what: &str) -> (r: Result<&'a ast::Expr, CompileError>)
    ensures
        r is Ok <==> args@.len() == 1,
        r matches Ok(x) ==> *x == args@[0],
        r matches Err(m) ==> m.message@ == crate::check::unsup(what@ + "() takes exactly 1 argument"@),
{
    if args.len() != 1 {
        return fail(msg2(what, "() takes exactly 1 argument"));
    }
    Ok(&args[0])
}

/// The diagnostic with which a call of built-in `name` with `n` positional
/// arguments is refused for its argument count alone; `None` where the
/// count is accepted (or `name` is no built-in).
pub open spec fn builtin_arity_error(name: Seq<char>, n: nat) -> Option<Seq<char>> {
    if name == "int"@ || name == "float"@ || name == "bool"@ || name == "abs"@ {
        if n != 1 { Some(unsup(name + "() takes exactly 1 argument"@)) } else { None }
    } else if math_intrinsic(name) is Some {
        if n != 1 { Some(unsup("math."@ + name + "() takes exactly 1 argument"@)) } else { None }
    } else if name == "len"@ {
        if n != 1 { Some(unsup(name + "() takes exactly 1 argument"@)) } else { None }
    } else if name == "set"@ {
        if n != 0 { Some(unsup("set() with arguments is not yet supported (use a literal `{a, b, c}` instead)"@)) } else { None }
    } else if name == "repr"@ {
        if n != 1 { Some(unsup("repr() takes exactly 1 positional argument"@)) } else { None }
    } else if name == "min"@ || name == "max"@ {
        if n != 2 { Some(unsup(name + "() with "@ + decimal(n) + " arguments — only 2-arg form supported"@)) } else { None }
    } else {
        None
    }
}

proof fn lemma_builtin_names_differ()
    ensures
        math_intrinsic("len"@) is None,
        "len"@ != "int"@ && "len"@ != "float"@ && "len"@ != "bool"@ && "len"@ != "abs"@,
        "float"@ != "int"@,
        math_intrinsic("int"@) is None && math_intrinsic("float"@) is None && math_intrinsic("bool"@) is None,
        "bool"@ != "int"@ && "bool"@ != "float"@,
        math_intrinsic("abs"@) is None && "abs"@ != "bool"@ && "abs"@ != "float"@ && "abs"@ != "int"@,
{
    reveal_strlit("len");
    reveal_strlit("int");
    reveal_strlit("float");
    reveal_strlit("bool");
    reveal_strlit("abs");
    reveal_strlit("sqrt");
    reveal_strlit("sin");
    reveal_strlit("cos");
    reveal_strlit("tan");
    reveal_strlit("exp");
    reveal_strlit("log");
    reveal_strlit("floor");
    reveal_strlit("ceil");
    reveal_strlit("fabs");
    assert("len"@[0] != "int"@[0] && "len"@[0] != "float"@[0] && "len"@[0] != "bool"@[0]);
    assert("len"@[0] != "abs"@[0] && "len"@[0] != "sqrt"@[0] && "len"@[0] != "cos"@[0]);
    assert("len"@[0] != "tan"@[0] && "len"@[0] != "exp"@[0] && "len"@[1] != "log"@[1]);
    assert("len"@[0] != "floor"@[0] && "len"@[0] != "ceil"@[0] && "len"@[0] != "fabs"@[0]);
    assert("len"@[0] != "sin"@[0]);
    assert("float"@[0] != "int"@[0]);
    assert("int"@[0] != "sqrt"@[0] && "int"@[0] != "sin"@[0] && "int"@[0] != "cos"@[0] && "int"@[0] != "tan"@[0]);
    assert("int"@[0] != "exp"@[0] && "int"@[0] != "log"@[0] && "int"@[0] != "floor"@[0] && "int"@[0] != "ceil"@[0]);
    assert("int"@[0] != "fabs"@[0]);
    assert("bool"@[0] != "sqrt"@[0] && "bool"@[0] != "sin"@[0] && "bool"@[0] != "cos"@[0] && "bool"@[0] != "tan"@[0]);
    assert("bool"@[0] != "exp"@[0] && "bool"@[0] != "log"@[0] && "bool"@[0] != "floor"@[0] && "bool"@[0] != "ceil"@[0]);
    assert("bool"@[0] != "fabs"@[0] && "bool"@[0] != "int"@[0] && "bool"@[0] != "float"@[0]);
    assert("float"@[0] != "sqrt"@[0] && "float"@[0] != "sin"@[0] && "float"@[0] != "cos"@[0] && "float"@[0] != "tan"@[0]);
    assert("float"@[0] != "exp"@[0] && "float"@[1] != "log"@[1] && "float"@[3] != "floor"@[3] && "float"@[0] != "ceil"@[0]);
    assert("float"@[1] != "fabs"@[1]);
    assert("abs"@[0] != "sqrt"@[0] && "abs"@[0] != "sin"@[0] && "abs"@[0] != "cos"@[0] && "abs"@[0] != "tan"@[0]);
    assert("abs"@[0] != "exp"@[0] && "abs"@[0] != "log"@[0] && "abs"@[0] != "floor"@[0] && "abs"@[0] != "ceil"@[0]);
    assert("abs"@[0] != "fabs"@[0] && "abs"@[0] != "bool"@[0] && "abs"@[0] != "float"@[0] && "abs"@[0] != "int"@[0]);
}

proof fn lemma_min_max_names()
    ensures
        math_intrinsic("min"@) is None && math_intrinsic("max"@) is None,
        "min"@ != "int"@ && "min"@ != "float"@ && "min"@ != "bool"@ && "min"@ != "abs"@,
        "min"@ != "len"@ && "min"@ != "set"@ && "min"@ != "repr"@ && "min"@ != "max"@,
        "max"@ != "int"@ && "max"@ != "float"@ && "max"@ != "bool"@ && "max"@ != "abs"@,
        "max"@ != "len"@ && "max"@ != "set"@ && "max"@ != "repr"@,
{
    reveal_strlit("min");
    reveal_strlit("max");
    reveal_strlit("int");
    reveal_strlit("float");
    reveal_strlit("bool");
    reveal_strlit("abs");
    reveal_strlit("len");
    reveal_strlit("set");
    reveal_strlit("repr");
    reveal_strlit("sqrt");
    reveal_strlit("sin");
    reveal_strlit("cos");
    reveal_strlit("tan");
    reveal_strlit("exp");
    reveal_strlit("log");
    reveal_strlit("floor");
    reveal_strlit("ceil");
    reveal_strlit("fabs");
    assert("min"@[0] != "int"@[0] && "min"@[0] != "float"@[0] && "min"@[0] != "bool"@[0] && "min"@[0] != "abs"@[0]);
    assert("min"@[0] != "len"@[0] && "min"@[0] != "set"@[0] && "min"@[0] != "repr"@[0] && "min"@[1] != "max"@[1]);
    assert("min"@[0] != "sqrt"@[0] && "min"@[0] != "sin"@[0] && "min"@[0] != "cos"@[0] && "min"@[0] != "tan"@[0]);
    assert("min"@[0] != "exp"@[0] && "min"@[0] != "log"@[0] && "min"@[0] != "floor"@[0] && "min"@[0] != "ceil"@[0]);
    assert("min"@[0] != "fabs"@[0]);
    assert("max"@[0] != "int"@[0] && "max"@[0] != "float"@[0] && "max"@[0] != "bool"@[0] && "max"@[0] != "abs"@[0]);
    assert("max"@[0] != "len"@[0] && "max"@[0] != "set"@[0] && "max"@[0] != "repr"@[0]);
    assert("max"@[0] != "sqrt"@[0] && "max"@[0] != "sin"@[0] && "max"@[0] != "cos"@[0] && "max"@[0] != "tan"@[0]);
    assert("max"@[0] != "exp"@[0] && "max"@[0] != "log"@[0] && "max"@[0] != "floor"@[0] && "max"@[0] != "ceil"@[0]);
    assert("max"@[0] != "fabs"@[0]);
}

proof fn lemma_set_is_no_other_builtin()
    ensures
        math_intrinsic("set"@) is None,
        "set"@ != "int"@ && "set"@ != "float"@ && "set"@ != "bool"@ && "set"@ != "abs"@ && "set"@ != "len"@,
{
    reveal_strlit("set");
    reveal_strlit("int");
    reveal_strlit("float");
    reveal_strlit("bool");
    reveal_strlit("abs");
    reveal_strlit("len");
    reveal_strlit("sqrt");
    reveal_strlit("sin");
    reveal_strlit("cos");
    reveal_strlit("tan");
    reveal_strlit("exp");
    reveal_strlit("log");
    reveal_strlit("floor");
    reveal_strlit("ceil");
    reveal_strlit("fabs");
    assert("set"@[0] != "int"@[0] && "set"@[0] != "float"@[0] && "set"@[0] != "bool"@[0]);
    assert("set"@[0] != "abs"@[0] && "set"@[0] != "len"@[0] && "set"@[0] != "cos"@[0]);
    assert("set"@[0] != "tan"@[0] && "set"@[0] != "exp"@[0] && "set"@[0] != "log"@[0]);
    assert("set"@[0] != "floor"@[0] && "set"@[0] != "ceil"@[0] && "set"@[0] != "fabs"@[0]);
    assert("set"@.len() != "sqrt"@.len());
    assert("set"@[1] != "sin"@[1]);
}

/// The math-module functions recognised as built-ins, and the LLVM
/// intrinsic (or libm function) each lowers to.
pub open spec fn math_intrinsic(name: Seq<char>) -> Option<Seq<char>> {
    if name == "sqrt"@ {
        Some("llvm.sqrt.f64"@)
    } else if name == "sin"@ {
        Some("llvm.sin.f64"@)
    } else if name == "cos"@ {
        Some("llvm.cos.f64"@)
    } else if name == "tan"@ {
        Some("tan"@)
    } else if name == "exp"@ {
        Some("llvm.exp.f64"@)
    } else if name == "log"@ {
        Some("llvm.log.f64"@)
    } else if name == "floor"@ {
        Some("llvm.floor.f64"@)
    } else if name == "ceil"@ {
        Some("llvm.ceil.f64"@)
    } else if name == "fabs"@ {
        Some("llvm.fabs.f64"@)
    } else {
        None
    }
}

fn math_intrinsic_exec(name: &str) -> (r: Option<&'static str>)
    ensures
        match (r, math_intrinsic(name@)) {
            (Some(x), Some(y)) => x@ == y,
            (None, None) => true,
            _ => false,
        },
{
    if str_eq(name, "sqrt") {
        proof { reveal_strlit("sqrt"); }
        Some("llvm.sqrt.f64")
    } else if str_eq(name, "sin") {
        proof { reveal_strlit("sin"); reveal_strlit("sqrt"); }
        Some("llvm.sin.f64")
    } else if str_eq(name, "cos") {
        proof { reveal_strlit("cos"); reveal_strlit("sin"); reveal_strlit("sqrt"); }
        Some("llvm.cos.f64")
    } else if str_eq(name, "tan") {
        proof { reveal_strlit("tan"); reveal_strlit("cos"); reveal_strlit("sin"); reveal_strlit("sqrt"); }
        Some("tan")
    } else if str_eq(name, "exp") {
        proof { reveal_strlit("exp"); reveal_strlit("tan"); reveal_strlit("cos"); reveal_strlit("sin"); reveal_strlit("sqrt"); }
        Some("llvm.exp.f64")
    } else if str_eq(name, "log") {
        proof { reveal_strlit("log"); reveal_strlit("exp"); reveal_strlit("tan"); reveal_strlit("cos"); reveal_strlit("sin"); reveal_strlit("sqrt"); }
        Some("llvm.log.f64")
    } else if str_eq(name, "floor") {
        proof { reveal_strlit("floor"); reveal_strlit("log"); reveal_strlit("exp"); reveal_strlit("tan"); reveal_strlit("cos"); reveal_strlit("sin"); reveal_strlit("sqrt"); }
        Some("llvm.floor.f64")
    } else if str_eq(name, "ceil") {
        proof { reveal_strlit("ceil"); reveal_strlit("floor"); reveal_strlit("log"); reveal_strlit("exp"); reveal_strlit("tan"); reveal_strlit("cos"); reveal_strlit("sin"); reveal_strlit("sqrt"); }
        Some("llvm.ceil.f64")
    } else if str_eq(name, "fabs") {
        proof { reveal_strlit("fabs"); reveal_strlit("ceil"); reveal_strlit("floor"); reveal_strlit("log"); reveal_strlit("exp"); reveal_strlit("tan"); reveal_strlit("cos"); reveal_strlit("sin"); reveal_strlit("sqrt"); }
        Some("llvm.fabs.f64")
    } else {
        proof { reveal_strlit("fabs"); reveal_strlit("ceil"); reveal_strlit("floor"); reveal_strlit("log"); reveal_strlit("exp"); reveal_strlit("tan"); reveal_strlit("cos"); reveal_strlit("sin"); reveal_strlit("sqrt"); }
        None
    }
}

/// `(c and x) or y` with short-circuit value semantics, at type `ty`.
fn select_expr(arena: &Arena, ty: Type, c: TypedExpr, x: TypedExpr, y: TypedExpr) -> (r: Result<TypedExpr, CompileError>)
    requires
        arena.wf(),
        arena.valid(ty),
        is_int_or_bool(ty) || ty == Type::F64,
        c.ty == Type::Bool,
        x.ty == ty,
        y.ty == ty,
        expr_valid(arena, c),
        expr_valid(arena, x),
        expr_valid(arena, y),
    ensures
        r matches Ok(z) ==> expr_valid(arena, z) && z.ty == ty,
        r is Ok,
        r matches Ok(z) ==> select_shape(arena, c, x, y, z),
{
    let cc = coerce(arena, c, ty)?;
    let and_branch = TypedExpr::new(ty, Expr::BoolOp { op: BoolOp::And, lhs: Box::new(cc), rhs: Box::new(x) });
    assert(expr_valid(arena, and_branch));
    Ok(TypedExpr::new(ty, Expr::BoolOp { op: BoolOp::Or, lhs: Box::new(and_branch), rhs: Box::new(y) }))
}

/// `z` is `(c and x) or y` at the type of `x`, with `c` converted to
/// that type.
pub open spec fn select_shape(a: &Arena, c: TypedExpr, x: TypedExpr, y: TypedExpr, z: TypedExpr) -> bool {
    &&& z.expr matches Expr::BoolOp { op: BoolOp::Or, lhs: l, rhs: yy }
    &&& *yy == y
    &&& l.ty == z.ty
    &&& l.expr matches Expr::BoolOp { op: BoolOp::And, lhs: cc, rhs: xx }
    &&& *xx == x
    &&& coerce_post(a, c, z.ty, Ok(*cc))
}

/// The comparison that `min` (`<=`) or `max` (`>=`) selects its first
/// argument on.
pub open spec fn min_max_test(name: Seq<char>) -> CmpOp {
    if name == "min"@ { CmpOp::Le } else { CmpOp::Ge }
}

/// `z` lowers `name(x, y)` for `min` / `max`: with `p` and `q` the two
/// arguments at the result type, `z` is `((p <= q) and p) or q`
/// (`p >= q` for `max`).
pub open spec fn min_max_lowered(a: &Arena, name: Seq<char>, x: TypedExpr, y: TypedExpr, z: TypedExpr) -> bool {
    exists|p: TypedExpr, q: TypedExpr, t: TypedExpr| {
        &&& #[trigger] select_shape(a, t, p, q, z)
        &&& coerce_post(a, x, z.ty, Ok(p))
        &&& coerce_post(a, y, z.ty, Ok(q))
        &&& t.ty == Type::Bool
        &&& t.expr matches Expr::Cmp { op, lhs, rhs } && op == min_max_test(name) && crate::hir::copy_of(*lhs, p)
            && crate::hir::copy_of(*rhs, q) && (crate::hir::small_expr(p) ==> *lhs == p) && (crate::hir::small_expr(q) ==> *rhs == q)
    }
}

/// Whether integers `a` and `b` stand in relation `op`.
pub open spec fn int_relation(op: CmpOp, a: int, b: int) -> bool {
    match op {
        CmpOp::Lt => a < b,
        CmpOp::Le => a <= b,
        CmpOp::Gt => a > b,
        CmpOp::Ge => a >= b,
        CmpOp::Eq => a == b,
        CmpOp::Ne => a != b,
    }
}

/// The test on which `min(x, y)` (resp. `max(x, y)`) picks its first
/// argument holds exactly where that argument is the smaller (resp.
/// larger) one: picking on it gives the minimum (resp. maximum).
pub proof fn law_min_max_selects(a: int, b: int)
    ensures
        (if int_relation(min_max_test("min"@), a, b) { a } else { b }) == (if a <= b { a } else { b }),
        (if int_relation(min_max_test("max"@), a, b) { a } else { b }) == (if a >= b { a } else { b }),
        (if int_relation(min_max_test("min"@), a, b) { a } else { b }) <= a,
        (if int_relation(min_max_test("min"@), a, b) { a } else { b }) <= b,
        (if int_relation(min_max_test("max"@), a, b) { a } else { b }) >= a,
        (if int_relation(min_max_test("max"@), a, b) { a } else { b }) >= b,
{
    lemma_min_max_names();
}

/// Recognise and lower a small set of Python built-ins: `int`, `float`,
/// `bool`, `abs`, the math functions, `len`, `set()`, `repr`, and
/// two-argument `min` / `max`. `Ok(None)` when `name` is not one of them
/// (or keyword arguments are present).
#[verifier::loop_isolation(false)]
pub fn lower_builtin_call(e: &ast::Expr, name: &str, scope: &Scope, env: &Env, cur: Option<ClassId>, arena: &mut Arena)
    -> (r: Result<Option<TypedExpr>, CompileError>)
    requires
        lower_pre(old(arena), scope, env, cur),
        e is Call,
    ensures
        lower_post(old(arena), final(arena), scope, env, cur),
        r matches Ok(Some(x)) ==> expr_valid(final(arena), x),
        e matches ast::Expr::Call { keywords, .. } && keywords@.len() > 0 ==> r == Ok::<Option<TypedExpr>, CompileError>(None),
        !builtin_name(name@) ==> r == Ok::<Option<TypedExpr>, CompileError>(None) && *final(arena) == *old(arena),
        (e matches ast::Expr::Call { args, keywords, .. } && keywords@.len() == 0 && builtin_arity_error(name@, args@.len()) is Some)
            ==> (r matches Err(m) && m.message@ == builtin_arity_error(name@, e->args@.len())->0),
        (e matches ast::Expr::Call { args, keywords, .. } && keywords@.len() == 0 && args@.len() == 1)
            ==> (leaf_lowering(scope, e->args@[0]) matches Some(x) ==> {
                &&& name@ == "len"@ ==> match x.ty {
                    Type::List(_) => r == Ok::<Option<TypedExpr>, CompileError>(Some(TypedExpr { ty: Type::I64, expr: Expr::ListLen { list: Box::new(x) } })),
                    Type::Str => r == Ok::<Option<TypedExpr>, CompileError>(Some(TypedExpr { ty: Type::I64, expr: Expr::StrLen { s: Box::new(x) } })),
                    Type::Dict(_) => r == Ok::<Option<TypedExpr>, CompileError>(Some(TypedExpr { ty: Type::I64, expr: Expr::DictLen { dict: Box::new(x) } })),
                    Type::SetOf(_) => r == Ok::<Option<TypedExpr>, CompileError>(Some(TypedExpr { ty: Type::I64, expr: Expr::SetLen { set: Box::new(x) } })),
                    Type::Tuple(id) => r matches Ok(Some(y)) && y.ty == Type::I64 && y.expr is ConstI64,
                    t => r matches Err(m) && m.message@ == unsup("len() not supported on "@ + display_name(final(arena), t)
                        + " (only list/tuple/str/dict/set)"@),
                }
                &&& name@ == "int"@ ==> (x.ty == Type::F64 ==> r == Ok::<Option<TypedExpr>, CompileError>(Some(
                    TypedExpr { ty: Type::I64, expr: Expr::Coerce { inner: Box::new(x) } })))
                &&& name@ == "int"@ ==> (x.ty != Type::F64 ==> match r {
                    Ok(Some(y)) => coerce_post(final(arena), x, Type::I64, Ok(y)),
                    Ok(None) => false,
                    Err(m) => coerce_post(final(arena), x, Type::I64, Err(m)),
                })
                &&& name@ == "float"@ ==> match r {
                    Ok(Some(y)) => coerce_post(final(arena), x, Type::F64, Ok(y)),
                    Ok(None) => false,
                    Err(m) => coerce_post(final(arena), x, Type::F64, Err(m)),
                }
                &&& name@ == "bool"@ ==> match r {
                    Ok(Some(y)) => coerce_post(final(arena), x, Type::Bool, Ok(y)),
                    Ok(None) => false,
                    Err(m) => coerce_post(final(arena), x, Type::Bool, Err(m)),
                }
                &&& math_intrinsic(name@) matches Some(intr) ==> match r {
                    Ok(Some(y)) => y.ty == Type::F64 && (y.expr matches Expr::MathCall { intrinsic, arg }
                        && intrinsic@ == intr && coerce_post(final(arena), x, Type::F64, Ok(*arg))),
                    Ok(None) => false,
                    Err(m) => coerce_post(final(arena), x, Type::F64, Err(m)),
                }
            }),
        (e matches ast::Expr::Call { args, keywords, .. } && keywords@.len() == 0 && name@ == "set"@ && args@.len() == 0)
            ==> (r matches Ok(Some(x)) && x.ty is SetOf && (x.expr matches Expr::SetLit { elements } && elements@.len() == 0)),
        (e matches ast::Expr::Call { args, keywords, .. } && keywords@.len() == 0 && (name@ == "min"@ || name@ == "max"@)
            && args@.len() == 2) ==> (leaf_lowering(scope, e->args@[0]) matches Some(x)
            ==> (leaf_lowering(scope, e->args@[1]) matches Some(y) ==> {
                &&& r is Ok <==> numeric_target(x.ty, y.ty) is Some
                &&& r matches Ok(o) ==> (o matches Some(z) && z.ty == numeric_target(x.ty, y.ty)->0
                    && min_max_lowered(final(arena), name@, x, y, z))
                &&& r matches Err(m) ==> m.message@ == numeric_error(final(arena), x.ty, y.ty)
            })),
    decreases e, 1nat,
{
    proof { Arena::lemma_extends_refl(arena); }
    let ghost a0 = *arena;
    let (args, keywords) = match e {
        ast::Expr::Call { args, keywords, .. } => (args, keywords),
        _ => {
            proof { assert(false); }
            return Ok(None);
        },
    };
    if keywords.len() != 0 {
        return Ok(None);
    }
    proof { lemma_set_is_no_other_builtin(); lemma_builtin_names_differ(); lemma_min_max_names(); }
    if str_eq(name, "int") {
        let a = single_arg(args, "int")?;
        let inner = lower_expr(a, scope, env, cur, arena)?;
        if inner.ty == Type::F64 {
            return Ok(Some(TypedExpr::new(Type::I64, Expr::Coerce { inner: Box::new(inner) })));
        }
        let x = coerce(arena, inner, Type::I64)?;
        return Ok(Some(x));
    }
    if str_eq(name, "float") {
        let a = single_arg(args, "float")?;
        let x = lower_coerced(a, Type::F64, scope, env, cur, arena)?;
        return Ok(Some(x));
    }
    if str_eq(name, "bool") {
        let a = single_arg(args, "bool")?;
        let x = lower_coerced(a, Type::Bool, scope, env, cur, arena)?;
        return Ok(Some(x));
    }
    if str_eq(name, "abs") {
        let a = single_arg(args, "abs")?;
        let inner = lower_expr(a, scope, env, cur, arena)?;
        let inner = if inner.ty == Type::Bool { coerce(arena, inner, Type::I64)? } else { inner };
        let ty = inner.ty;
        if ty != Type::F64 && !ty.is_int() {
            return fail(msg1("abs() argument must be int or float"));
        }
        assert(expr_valid(arena, inner));
        let neg = TypedExpr::new(ty, Expr::UnaryOp { op: UnaryOp::Neg, operand: Box::new(inner.copy()) });
        let zero = if ty == Type::F64 {
            TypedExpr::new(Type::F64, Expr::ConstF64(FloatLit { bits: 0, text: String::from_str("0.0") }))
        } else {
            TypedExpr::new(ty, Expr::ConstI64(0))
        };
        let probe = inner.copy();
        assert(expr_valid(arena, probe));
        assert(expr_valid(arena, zero));
        let is_neg = TypedExpr::new(Type::Bool, Expr::Cmp { op: CmpOp::Lt, lhs: Box::new(probe), rhs: Box::new(zero) });
        assert(expr_valid(arena, is_neg));
        assert(expr_valid(arena, neg));
        let x = select_expr(arena, ty, is_neg, neg, inner)?;
        return Ok(Some(x));
    }
    if let Some(intrinsic) = math_intrinsic_exec(name) {
        if args.len() != 1 {
            return fail(msg3("math.", name, "() takes exactly 1 argument"));
        }
        let x = lower_coerced(&args[0], Type::F64, scope, env, cur, arena)?;
        return Ok(Some(TypedExpr::new(Type::F64, Expr::MathCall { intrinsic, arg: Box::new(x) })));
    }
    if str_eq(name, "len") {
        let a = single_arg(args, "len")?;
        let inner = lower_expr(a, scope, env, cur, arena)?;
        return match inner.ty {
            Type::List(_) => Ok(Some(TypedExpr::new(Type::I64, Expr::ListLen { list: Box::new(inner) }))),
            Type::Tuple(id) => {
                let n = id.len(arena);
                Ok(Some(TypedExpr::new(Type::I64, Expr::ConstI64(#[verifier::truncate] (n as i64)))))
            },
            Type::Str => Ok(Some(TypedExpr::new(Type::I64, Expr::StrLen { s: Box::new(inner) }))),
            Type::Dict(_) => Ok(Some(TypedExpr::new(Type::I64, Expr::DictLen { dict: Box::new(inner) }))),
            Type::SetOf(_) => Ok(Some(TypedExpr::new(Type::I64, Expr::SetLen { set: Box::new(inner) }))),
            other => {
                let n = other.name(arena);
                fail(msg3("len() not supported on ", n.as_str(), " (only list/tuple/str/dict/set)"))
            },
        };
    }
    if str_eq(name, "set") {
        if args.len() != 0 {
            return fail(msg1("set() with arguments is not yet supported (use a literal `{a, b, c}` instead)"));
        }
        let id = SetId::intern(arena, Type::I64);
        proof { lemma_pre_mono(&a0, arena, scope, env, cur); }
        return Ok(Some(TypedExpr::new(Type::SetOf(id), Expr::SetLit { elements: Vec::new() })));
    }
    if str_eq(name, "repr") {
        if args.len() != 1 {
            return fail(msg1("repr() takes exactly 1 positional argument"));
        }
        let inner = lower_expr(&args[0], scope, env, cur, arena)?;
        let x = repr_call(arena, inner, env, false)?;
        return Ok(Some(x));
    }
    if str_eq(name, "min") || str_eq(name, "max") {
        if args.len() != 2 {
            let n = usize_str(args.len());
            return fail(msg4(name, "() with ", n.as_str(), " arguments — only 2-arg form supported"));
        }
        let x = lower_expr(&args[0], scope, env, cur, arena)?;
        let ghost a1 = *arena;
        let y = lower_expr(&args[1], scope, env, cur, arena)?;
        proof {
            lemma_expr_valid_mono(&a1, arena, x);
            Arena::lemma_extends_trans(&a0, &a1, arena);
        }
        let (a, b) = unify_numeric(arena, x, y)?;
        let ty = a.ty;
        let rel = if str_eq(name, "min") { CmpOp::Le } else { CmpOp::Ge };
        assert(expr_valid(arena, a));
        assert(expr_valid(arena, b));
        let test = TypedExpr::new(Type::Bool, Expr::Cmp { op: rel, lhs: Box::new(a.copy()), rhs: Box::new(b.copy()) });
        assert(expr_valid(arena, test));
        let ghost ga = a;
        let ghost gb = b;
        let ghost gt = test;
        let z = select_expr(arena, ty, test, a, b)?;
        proof {
            assert(rel == min_max_test(name@));
            assert(select_shape(arena, gt, ga, gb, z));
        }
        return Ok(Some(z));
    }
    Ok(None)
}

/// A call of the `__repr__` that class instance `inner` resolves to.
fn repr_call(arena: &Arena, inner: TypedExpr, env: &Env, in_fstring: bool) -> (r: Result<TypedExpr, CompileError>)
    requires
        arena.wf(),
        env.ok(arena),
        expr_valid(arena, inner),
    ensures
        r matches Ok(x) ==> expr_valid(arena, x) && x.ty == Type::Str,
        match inner.ty {
            Type::Class(c) => match resolves_to(arena, &env.sigs, c, "__repr__"@) {
                None => r matches Err(m) && m.message@ == unsup("class `"@ + c.def(arena).name@ + (if in_fstring {
                    "` has no `__repr__` method (define one to interpolate it in an f-string)"@
                } else {
                    "` has no `__repr__` method"@
                })),
                Some(owner) => {
                    let sig = assoc(env.sigs.entries@, mangled(arena, owner, "__repr__"@))->0;
                    if sig.params@.len() != 1 || sig.return_ty != Type::Str {
                        r matches Err(m) && m.message@ == unsup("`__repr__` on `"@ + c.def(arena).name@
                            + "` must take only `self` and return `str`"@)
                    } else {
                        &&& r is Ok <==> (coerce_kind(arena, inner, sig.params@[0].ty) is Same
                            || coerce_kind(arena, inner, sig.params@[0].ty) is Convert)
                        &&& r matches Ok(x) ==> (x.expr matches Expr::Call { callee, args }
                            && callee@ == mangled(arena, owner, "__repr__"@) && args@.len() == 1)
                    }
                },
            },
            t => r matches Err(m) && m.message@ == unsup("repr() is only supported on class instances in v0.35 (got "@
                + display_name(arena, t) + "); use f-strings for primitives"@),
        },
{
    let cid = match inner.ty {
        Type::Class(c) => c,
        other => {
            let n = other.name(arena);
            return fail(msg3("repr() is only supported on class instances in v0.35 (got ", n.as_str(), "); use f-strings for primitives"));
        },
    };
    let cn = cid.name(arena);
    let mangled = match resolve_method(arena, cid, "__repr__", &env.sigs) {
        Some((_c, m)) => m,
        None => {
            if in_fstring {
                return fail(msg3("class `", cn.as_str(), "` has no `__repr__` method (define one to interpolate it in an f-string)"));
            }
            return fail(msg3("class `", cn.as_str(), "` has no `__repr__` method"));
        },
    };
    let sig = match env.sigs.get(mangled.as_str()) {
        Some(s) => s,
        None => {
            proof { assert(false); }
            return fail(msg1(""));
        },
    };
    proof { lemma_sig_ok(&env.sigs, arena, *sig); }
    if sig.params.len() != 1 || sig.return_ty != Type::Str {
        return fail(msg3("`__repr__` on `", cn.as_str(), "` must take only `self` and return `str`"));
    }
    let arg = coerce(arena, inner, sig.params[0].ty)?;
    let mut args: Vec<TypedExpr> = Vec::new();
    args.push(arg);
    let call = TypedExpr::new(Type::Str, Expr::Call { callee: mangled, args });
    assert(expr_valid(arena, call));
    Ok(call)
}

/// Index of the parameter called `name`.
fn param_position(params: &Vec<crate::hir::Param>, name: &str) -> (r: Option<usize>)
    ensures
        r matches Some(i) ==> i < params@.len() && params@[i as int].name@ == name@,
        r is None ==> forall|j: int| 0 <= j < params@.len() ==> (#[trigger] params@[j]).name@ != name@,
{
    let mut i: usize = 0;
    while i < params.len()
        invariant
            0 <= i <= params@.len(),
            forall|j: int| 0 <= j < i ==> (#[trigger] params@[j]).name@ != name@,
        decreases params.len() - i,
    {
        if str_eq(params[i].name.as_str(), name) {
            return Some(i);
        }
        i += 1;
    }
    None
}

/// Match the positional and keyword arguments of the call `e` against
/// the signature of `callee`, filling omitted parameters from defaults.
#[verifier::loop_isolation(false)]
pub fn resolve_call_args(e: &ast::Expr, callee: &str, sig: &FunctionSig, scope: &Scope, env: &Env, cur: Option<ClassId>, arena: &mut Arena)
    -> (r: Result<Vec<TypedExpr>, CompileError>)
    requires
        lower_pre(old(arena), scope, env, cur),
        e is Call,
        sig.ok(old(arena)),
    ensures
        lower_post(old(arena), final(arena), scope, env, cur),
        r matches Ok(v) ==> all_exprs_valid(final(arena), v@) && v@.len() == sig.params@.len()
            && forall|i: int| 0 <= i < v@.len() ==> (#[trigger] v@[i]).ty == sig.params@[i].ty,
        e matches ast::Expr::Call { args, keywords, .. } ==> {
            &&& args@.len() > sig.params@.len() ==> (r matches Err(m) && m.message@ == unsup("function `"@ + callee@
                + "` takes "@ + decimal(sig.params@.len()) + " positional arguments but "@ + decimal(args@.len())
                + " were supplied"@))
            &&& (args@.len() == 0 && keywords@.len() == 0 && sig.params@.len() == 0) ==> (r matches Ok(v) && v@.len() == 0)
        },
    decreases e, 1nat,
{
    proof { Arena::lemma_extends_refl(arena); }
    let ghost a0 = *arena;
    let (args, keywords) = match e {
        ast::Expr::Call { args, keywords, .. } => (args, keywords),
        _ => {
            proof { assert(false); }
            return Ok(Vec::new());
        },
    };
    let n = sig.params.len();
    if args.len() > n {
        let ns = usize_str(n);
        let gs = usize_str(args.len());
        return fail(msg7("function `", callee, "` takes ", ns.as_str(), " positional arguments but ", gs.as_str(), " were supplied"));
    }
    let mut filled: Vec<Option<TypedExpr>> = Vec::new();
    let mut i: usize = 0;
    while i < n
        invariant
            0 <= i <= n,
            filled@.len() == i,
            forall|j: int| 0 <= j < i ==> (#[trigger] filled@[j]) is None,
        decreases n - i,
    {
        filled.push(None);
        i += 1;
    }
    let mut i: usize = 0;
    while i < args.len()
        invariant
            0 <= i <= args@.len(),
            args@.len() <= n,
            n == sig.params@.len(),
            filled@.len() == n,
            arena.extends(&a0),
            lower_pre(arena, scope, env, cur),
            forall|j: int| 0 <= j < n ==> (#[trigger] filled@[j] matches Some(x) ==> expr_valid(arena, x) && x.ty == sig.params@[j].ty),
        decreases args.len() - i,
    {
        let ghost a1 = *arena;
        let t = sig.params[i].ty;
        proof { arena.lemma_valid_mono(&a0, t); }
        let x = lower_coerced(&args[i], t, scope, env, cur, arena)?;
        proof {
            Arena::lemma_extends_trans(&a0, &a1, arena);
            assert forall|j: int| 0 <= j < n implies (#[trigger] filled@[j] matches Some(y) ==> expr_valid(arena, y) && y.ty == sig.params@[j].ty) by {
                if let Some(y) = filled@[j] {
                    lemma_expr_valid_mono(&a1, arena, y);
                }
            }
        }
        filled.set(i, Some(x));
        i += 1;
    }
    let mut k: usize = 0;
    while k < keywords.len()
        invariant
            0 <= k <= keywords@.len(),
            n == sig.params@.len(),
            filled@.len() == n,
            arena.extends(&a0),
            lower_pre(arena, scope, env, cur),
            forall|j: int| 0 <= j < n ==> (#[trigger] filled@[j] matches Some(x) ==> expr_valid(arena, x) && x.ty == sig.params@[j].ty),
        decreases keywords.len() - k,
    {
        let kw = &keywords[k];
        let kname = match &kw.arg {
            Some(s) => s,
            None => {
                return fail(msg3("`**kwargs` unpacking at call site is not supported (in call to `", callee, "`)"));
            },
        };
        let idx = match param_position(&sig.params, kname.as_str()) {
            Some(p) => p,
            None => {
                return fail(msg5("function `", callee, "` has no parameter named `", kname.as_str(), "`"));
            },
        };
        if filled[idx].is_some() {
            return fail(msg5("multiple values for argument `", kname.as_str(), "` in call to `", callee, "`"));
        }
        let ghost a1 = *arena;
        let t = sig.params[idx].ty;
        proof { arena.lemma_valid_mono(&a0, t); }
        let x = lower_coerced(&kw.value, t, scope, env, cur, arena)?;
        proof {
            Arena::lemma_extends_trans(&a0, &a1, arena);
            assert forall|j: int| 0 <= j < n implies (#[trigger] filled@[j] matches Some(y) ==> expr_valid(arena, y) && y.ty == sig.params@[j].ty) by {
                if let Some(y) = filled@[j] {
                    lemma_expr_valid_mono(&a1, arena, y);
                }
            }
        }
        filled.set(idx, Some(x));
        k += 1;
    }
    proof { crate::check::lemma_sig_mono(sig, &a0, arena); }
    let mut out: Vec<TypedExpr> = Vec::new();
    let mut i: usize = 0;
    while i < n
        invariant
            0 <= i <= n,
            n == sig.params@.len(),
            filled@.len() == n,
            arena.extends(&a0),
            lower_pre(arena, scope, env, cur),
            sig.ok(arena),
            forall|j: int| 0 <= j < n ==> (#[trigger] filled@[j] matches Some(x) ==> expr_valid(arena, x) && x.ty == sig.params@[j].ty),
            out@.len() == i,
            all_exprs_valid(arena, out@),
            forall|j: int| 0 <= j < i ==> (#[trigger] out@[j]).ty == sig.params@[j].ty,
        decreases n - i,
    {
        match &filled[i] {
            Some(x) => {
                assert(expr_valid(arena, *x));
                out.push(x.copy());
            },
            None => match &sig.defaults[i] {
                Some(d) => {
                    assert(expr_valid(arena, *d));
                    out.push(d.copy());
                },
                None => {
                    return fail(msg5("missing required argument `", sig.params[i].name.as_str(), "` in call to `", callee, "`"));
                },
            },
        }
        i += 1;
    }
    Ok(out)
}


/// Lower a list display `[a, b, c]`: the element type is the numeric
/// promotion of all element types (`list[int]` for `[]`).
#[verifier::loop_isolation(false)]
pub fn lower_list_literal(e: &ast::Expr, scope: &Scope, env: &Env, cur: Option<ClassId>, arena: &mut Arena)
    -> (r: Result<TypedExpr, CompileError>)
    requires
        lower_pre(old(arena), scope, env, cur),
        e is List,
    ensures
        lower_post(old(arena), final(arena), scope, env, cur),
        r matches Ok(x) ==> expr_valid(final(arena), x) && x.ty is List,
        e matches ast::Expr::List(elts) ==> (elts@.len() == 0 ==> (r matches Ok(x)
            && (x.ty matches Type::List(id) && id.spec_elem(final(arena)) == Type::I64)
            && (x.expr matches Expr::ListLit { elements } && elements@.len() == 0))),
    decreases e, 2nat,
{
    proof { Arena::lemma_extends_refl(arena); }
    let ghost a0 = *arena;
    let elts = match e {
        ast::Expr::List(elts) => elts,
        _ => {
            proof { assert(false); }
            return fail(msg1(""));
        },
    };
    if elts.len() == 0 {
        let id = ListId::intern(arena, Type::I64);
        proof { lemma_pre_mono(&a0, arena, scope, env, cur); }
        return Ok(TypedExpr::new(Type::List(id), Expr::ListLit { elements: Vec::new() }));
    }
    let mut lowered: Vec<TypedExpr> = Vec::new();
    let mut i: usize = 0;
    while i < elts.len()
        invariant
            0 <= i <= elts@.len(),
            arena.extends(&a0),
            lower_pre(arena, scope, env, cur),
            all_exprs_valid(arena, lowered@),
            lowered@.len() == i,
        decreases elts.len() - i,
    {
        let ghost a1 = *arena;
        let x = lower_expr(&elts[i], scope, env, cur, arena);
        proof {
            lemma_all_valid_mono(&a1, arena, lowered@);
            Arena::lemma_extends_trans(&a0, &a1, arena);
        }
        let x = x?;
        lowered.push(x);
        i += 1;
    }
    assert(expr_valid(arena, lowered@[0]));
    let mut elem_ty = lowered[0].ty;
    let mut i: usize = 1;
    while i < lowered.len()
        invariant
            1 <= i <= lowered@.len(),
            arena.valid(elem_ty),
            all_exprs_valid(arena, lowered@),
            lower_pre(arena, scope, env, cur),
        decreases lowered.len() - i,
    {
        assert(expr_valid(arena, lowered@[i as int]));
        elem_ty = crate::check::numeric_type(arena, elem_ty, lowered[i].ty)?;
        i += 1;
    }
    let mut elements: Vec<TypedExpr> = Vec::new();
    let ghost n = lowered@.len();
    while lowered.len() > 0
        invariant
            arena.valid(elem_ty),
            all_exprs_valid(arena, lowered@),
            all_exprs_valid(arena, elements@),
            forall|j: int| 0 <= j < elements@.len() ==> (#[trigger] elements@[j]).ty == elem_ty,
            lower_pre(arena, scope, env, cur),
            elements@.len() + lowered@.len() == n,
        decreases lowered.len(),
    {
        assert(expr_valid(arena, lowered@[0]));
        let ghost before = lowered@;
        let x = lowered.remove(0);
        proof {
            assert forall|j: int| 0 <= j < lowered@.len() implies expr_valid(arena, #[trigger] lowered@[j]) by {
                assert(lowered@[j] == before[j + 1]);
            }
        }
        let c = coerce(arena, x, elem_ty)?;
        elements.push(c);
    }
    let ghost a1 = *arena;
    let id = ListId::intern(arena, elem_ty);
    proof {
        lemma_all_valid_mono(&a1, arena, elements@);
        Arena::lemma_extends_trans(&a0, &a1, arena);
        lemma_pre_mono(&a1, arena, scope, env, cur);
    }
    Ok(TypedExpr::new(Type::List(id), Expr::ListLit { elements }))
}


/// The index a tuple subscript writes, or the diagnostic for a subscript
/// that is no integer literal.
pub open spec fn tuple_index_value(slice: ast::Expr) -> Result<i64, Seq<char>> {
    match slice {
        ast::Expr::Constant(ast::Constant::Int(Some(v))) => Ok(v),
        ast::Expr::Constant(ast::Constant::Int(None)) => Err("tuple index doesn't fit in i64"@),
        ast::Expr::Constant(_) => Err(unsup("tuple index must be an integer literal"@)),
        ast::Expr::UnaryOp { op: ast::UnaryOp::USub, operand } => match *operand {
            ast::Expr::Constant(ast::Constant::Int(Some(v))) => Ok(if v == i64::MIN { v } else { (-v) as i64 }),
            ast::Expr::Constant(ast::Constant::Int(None)) => Err("tuple index doesn't fit in i64"@),
            _ => Err(unsup("tuple index must be an integer literal"@)),
        },
        _ => Err(unsup("tuple index must be a constant integer literal"@)),
    }
}

/// The constant index of a tuple subscript: an integer literal, possibly
/// negated.
fn tuple_index_literal(slice: &ast::Expr) -> (r: Result<i64, CompileError>)
    ensures
        match (r, tuple_index_value(*slice)) {
            (Ok(x), Ok(y)) => x == y,
            (Err(m), Err(t)) => m.message@ == t,
            _ => false,
        },
{
    match slice {
        ast::Expr::Constant(ast::Constant::Int(Some(v))) => Ok(*v),
        ast::Expr::Constant(ast::Constant::Int(None)) => fail(String::from_str("tuple index doesn't fit in i64")),
        ast::Expr::Constant(_) => fail(msg1("tuple index must be an integer literal")),
        ast::Expr::UnaryOp { op: ast::UnaryOp::USub, operand } => match &**operand {
            ast::Expr::Constant(ast::Constant::Int(Some(v))) => Ok(if *v == i64::MIN { *v } else { -*v }),
            ast::Expr::Constant(ast::Constant::Int(None)) => fail(String::from_str("tuple index doesn't fit in i64")),
            _ => fail(msg1("tuple index must be an integer literal")),
        },
        _ => fail(msg1("tuple index must be a constant integer literal")),
    }
}

/// What indexing the tuple `x` (of tuple type `id`) with the literal
/// `slice` gives: the element at the index, counted from the end when
/// negative, or the diagnostic for a bad or out-of-range index.
pub open spec fn tuple_index_post(a: &Arena, x: TypedExpr, id: TupleId, slice: ast::Expr,
    r: Result<TypedExpr, CompileError>) -> bool {
    let n = id.spec_elems(a).len();
    match tuple_index_value(slice) {
        Err(m) => r matches Err(e) && e.message@ == m,
        Ok(k) => {
            let idx = if k < 0 { n + k } else { k as int };
            if 0 <= idx < n {
                r matches Ok(y) && y.ty == id.spec_elems(a)[idx]
                    && (y.expr matches Expr::TupleIndex { tuple, index } && *tuple == x && index == idx)
            } else {
                r is Err
            }
        },
    }
}

/// Indexing a tuple of `n` elements with a negative literal `-j` reads
/// the same element as indexing it with `n - j`.
pub proof fn law_tuple_negative_index(a: &Arena, x: TypedExpr, id: TupleId, neg: ast::Expr, pos: ast::Expr,
    r1: Result<TypedExpr, CompileError>, r2: Result<TypedExpr, CompileError>)
    requires
        tuple_index_post(a, x, id, neg, r1),
        tuple_index_post(a, x, id, pos, r2),
        tuple_index_value(neg) matches Ok(k1) && k1 < 0,
        tuple_index_value(pos) matches Ok(k2) && 0 <= k2 < id.spec_elems(a).len()
            && k2 == id.spec_elems(a).len() + tuple_index_value(neg)->Ok_0,
    ensures
        r1 is Ok,
        r1 == r2,
{
    let y1 = r1->Ok_0;
    let y2 = r2->Ok_0;
    assert(y1.expr == y2.expr);
}

/// Lower a subscript: list and dict indexing, string indexing and
/// slicing, and constant-index tuple access.
#[verifier::loop_isolation(false)]
pub fn lower_subscript(e: &ast::Expr, scope: &Scope, env: &Env, cur: Option<ClassId>, arena: &mut Arena)
    -> (r: Result<TypedExpr, CompileError>)
    requires
        lower_pre(old(arena), scope, env, cur),
        e is Subscript,
    ensures
        lower_post(old(arena), final(arena), scope, env, cur),
        r matches Ok(x) ==> expr_valid(final(arena), x),
        indexed_name(*e) matches Some((n, k)) ==> (scope.lookup(n@) matches Some(Type::List(id)) ==> (r matches Ok(x)
            && x.ty == id.spec_elem(final(arena))
            && x.expr == Expr::ListIndex {
                list: Box::new(TypedExpr { ty: Type::List(id), expr: Expr::Var(n) }),
                index: Box::new(TypedExpr { ty: Type::I64, expr: Expr::ConstI64(k) }),
            })),
        e matches ast::Expr::Subscript { value, slice } ==> (leaf_lowering(scope, **value) matches Some(x)
            ==> (x.ty matches Type::Tuple(id) ==> tuple_index_post(final(arena), x, id, **slice, r))),
    decreases e, 2nat,
{
    proof { Arena::lemma_extends_refl(arena); }
    let ghost a0 = *arena;
    let (value, slice) = match e {
        ast::Expr::Subscript { value, slice } => (value, slice),
        _ => {
            proof { assert(false); }
            return fail(msg1(""));
        },
    };
    let v = lower_expr(value, scope, env, cur, arena)?;
    let ghost a1 = *arena;
    proof { lemma_components_valid(arena, v.ty); }
    match v.ty {
        Type::List(id) => {
            let elem_ty = id.elem(arena);
            let index = lower_coerced(slice, Type::I64, scope, env, cur, arena)?;
            proof {
                lemma_expr_valid_mono(&a1, arena, v);
                arena.lemma_valid_mono(&a1, elem_ty);
                Arena::lemma_extends_trans(&a0, &a1, arena);
            }
            return Ok(TypedExpr::new(elem_ty, Expr::ListIndex { list: Box::new(v), index: Box::new(index) }));
        },
        Type::Dict(id) => {
            let kt = id.key(arena);
            let vt = id.val(arena);
            let key = lower_coerced(slice, kt, scope, env, cur, arena)?;
            proof {
                lemma_expr_valid_mono(&a1, arena, v);
                arena.lemma_valid_mono(&a1, vt);
                Arena::lemma_extends_trans(&a0, &a1, arena);
            }
            return Ok(TypedExpr::new(vt, Expr::DictGet { dict: Box::new(v), key: Box::new(key) }));
        },
        Type::Str => {
            if let ast::Expr::Slice { lower, upper, step } = &**slice {
                if step.is_some() {
                    return fail(msg1("string slice step (`s[::2]`) is not supported"));
                }
                let lo: Option<&ast::Expr> = match lower {
                    Some(b) => Some(&**b),
                    None => None,
                };
                let hi: Option<&ast::Expr> = match upper {
                    Some(b) => Some(&**b),
                    None => None,
                };
                reject_negative_index_expr(lo, "string slice lower bound")?;
                reject_negative_index_expr(hi, "string slice upper bound")?;
                let start = match lower {
                    Some(x) => lower_coerced(x, Type::I64, scope, env, cur, arena)?,
                    None => TypedExpr::new(Type::I64, Expr::ConstI64(0)),
                };
                let ghost a2 = *arena;
                proof {
                    Arena::lemma_extends_refl(arena);
                    Arena::lemma_extends_trans(&a0, &a1, &a2);
                    assert(a2.extends(&a1));
                    lemma_expr_valid_mono(&a1, &a2, v);
                    assert(expr_valid(&a2, start));
                }
                let stop = match upper {
                    Some(x) => lower_coerced(x, Type::I64, scope, env, cur, arena)?,
                    None => {
                        let vc = v.copy();
                        assert(expr_valid(arena, vc));
                        TypedExpr::new(Type::I64, Expr::StrLen { s: Box::new(vc) })
                    },
                };
                proof {
                    Arena::lemma_extends_refl(arena);
                    assert(arena.extends(&a2));
                    Arena::lemma_extends_trans(&a0, &a2, arena);
                    lemma_expr_valid_mono(&a2, arena, v);
                    lemma_expr_valid_mono(&a2, arena, start);
                    assert(expr_valid(arena, stop));
                }
                return Ok(TypedExpr::new(Type::Str, Expr::StrSlice { s: Box::new(v), start: Box::new(start), stop: Box::new(stop) }));
            }
            reject_negative_index_expr(Some(&**slice), "string index")?;
            let index = lower_coerced(slice, Type::I64, scope, env, cur, arena)?;
            proof {
                lemma_expr_valid_mono(&a1, arena, v);
                Arena::lemma_extends_trans(&a0, &a1, arena);
            }
            return Ok(TypedExpr::new(Type::Str, Expr::StrIndex { s: Box::new(v), index: Box::new(index) }));
        },
        Type::Tuple(id) => {
            let index_value = tuple_index_literal(slice)?;
            let n = id.len(arena);
            let idx: i128 = if index_value < 0 { n as i128 + index_value as i128 } else { index_value as i128 };
            if idx < 0 || idx >= n as i128 {
                let iv = i64_to_string(index_value);
                let tn = v.ty.name(arena);
                return fail(msg4("tuple index ", iv.as_str(), " out of range for ", tn.as_str()));
            }
            let k: usize = idx as usize;
            let elem_ty = id.elem_at(arena, k);
            proof { assert(arena.valid(id.spec_elems(arena)[k as int])); }
            Ok(TypedExpr::new(elem_ty, Expr::TupleIndex { tuple: Box::new(v), index: k }))
        },
        other => {
            let n = other.name(arena);
            fail(msg3("subscripting non-tuple/list type ", n.as_str(), " is not supported"))
        },
    }
}

/// What one segment of an f-string lowers to: literal text (ASCII, with
/// no backslash or quote), the interpolation of a leaf (a `str` as it
/// is, an integer or `bool` formatted), or the diagnostic that refuses
/// the segment. `None` for an interpolation of anything else.
pub open spec fn fstring_segment(scope: &Scope, e: ast::Expr) -> Option<Result<TypedExpr, Seq<char>>> {
    match e {
        ast::Expr::Constant(ast::Constant::Str(t)) => Some(
            if !vstd::utf8::is_ascii_chars(t@) {
                Err(unsup("non-ASCII text in f-string is not yet supported"@))
            } else if has_escape_byte(vstd::utf8::encode_utf8(t@)) {
                Err(unsup("backslash or single-quote inside f-string is not yet supported"@))
            } else {
                Ok(TypedExpr { ty: Type::Str, expr: Expr::StrLit(t) })
            }),
        ast::Expr::Constant(_) => Some(Err(unsup("only str literal segments are allowed in f-strings"@))),
        ast::Expr::FormattedValue { value, has_conversion, has_format_spec } =>
            if has_conversion {
                Some(Err(unsup("f-string conversions (`!r`, `!s`, `!a`) are not supported"@)))
            } else if has_format_spec {
                Some(Err(unsup("f-string format specs (`{x:.2f}`, etc.) are not supported"@)))
            } else {
                match leaf_lowering(scope, *value) {
                    Some(x) => match x.ty {
                        Type::Str => Some(Ok(x)),
                        Type::I8 | Type::I16 | Type::I32 | Type::I64 | Type::Bool =>
                            Some(Ok(TypedExpr { ty: Type::Str, expr: Expr::FormatToStr { inner: Box::new(x) } })),
                        Type::F64 => Some(Err(unsup("f64 interpolation in f-strings is deferred"@))),
                        _ => None,
                    },
                    None => None,
                }
            },
        _ => Some(Err(unsup("f-string segment kind `"@ + expr_kind(e) + "` is not supported"@))),
    }
}

/// The left-to-right chain of string concatenations of `parts`.
pub open spec fn concat_chain(parts: Seq<TypedExpr>) -> TypedExpr
    decreases parts.len(),
{
    if parts.len() <= 1 {
        parts[0]
    } else {
        TypedExpr { ty: Type::Str, expr: Expr::StrConcat {
            lhs: Box::new(concat_chain(parts.drop_last())),
            rhs: Box::new(parts.last()),
        } }
    }
}

/// Every segment of `values` has a described lowering.
pub open spec fn fstring_described(scope: &Scope, values: Seq<ast::Expr>) -> bool {
    forall|j: int| 0 <= j < values.len() ==> #[trigger] fstring_segment(scope, values[j]) is Some
}

/// The segments before position `i` all lower.
pub open spec fn segments_ok_before(scope: &Scope, values: Seq<ast::Expr>, i: int) -> bool {
    forall|j: int| 0 <= j < i ==> #[trigger] fstring_segment(scope, values[j]) matches Some(Ok(_))
}

/// The lowered segments before position `i`.
pub open spec fn segments_before(scope: &Scope, values: Seq<ast::Expr>, i: int) -> Seq<TypedExpr> {
    Seq::new(i as nat, |j: int| fstring_segment(scope, values[j])->0->Ok_0)
}

/// What an f-string whose segments are all described lowers to: the
/// diagnostic of its first refused segment, or the chain of its lowered
/// segments.
pub open spec fn fstring_post(scope: &Scope, values: Seq<ast::Expr>, r: Result<TypedExpr, CompileError>) -> bool {
    &&& forall|k: int| 0 <= k < values.len() && segments_ok_before(scope, values, k)
        ==> (#[trigger] fstring_segment(scope, values[k]) matches Some(Err(m))
        ==> (r matches Err(e) && e.message@ == m))
    &&& segments_ok_before(scope, values, values.len() as int)
        ==> r == Ok::<TypedExpr, CompileError>(concat_chain(segments_before(scope, values, values.len() as int)))
}

/// Lower an f-string to a left-to-right chain of string concatenations
/// of its literal segments and formatted interpolations.
#[verifier::loop_isolation(false)]
pub fn lower_joined_str(e: &ast::Expr, scope: &Scope, env: &Env, cur: Option<ClassId>, arena: &mut Arena)
    -> (r: Result<TypedExpr, CompileError>)
    requires
        lower_pre(old(arena), scope, env, cur),
        e is JoinedStr,
    ensures
        lower_post(old(arena), final(arena), scope, env, cur),
        r matches Ok(x) ==> expr_valid(final(arena), x) && x.ty == Type::Str,
        e matches ast::Expr::JoinedStr { values } ==> (values@.len() == 0 ==> (r matches Ok(x)
            && x.ty == Type::Str && (x.expr matches Expr::StrLit(t) && t@.len() == 0))),
        interpolated_int(*e) matches Some(v) ==> r == Ok::<TypedExpr, CompileError>(TypedExpr {
            ty: Type::Str,
            expr: Expr::FormatToStr { inner: Box::new(TypedExpr { ty: Type::I64, expr: Expr::ConstI64(v) }) },
        }),
        e matches ast::Expr::JoinedStr { values } ==> (values@.len() > 0 && fstring_described(scope, values@)
            ==> fstring_post(scope, values@, r)),
    decreases e, 2nat,
{
    proof { Arena::lemma_extends_refl(arena); }
    let ghost a0 = *arena;
    let ghost single = interpolated_int(*e);
    let values = match e {
        ast::Expr::JoinedStr { values } => values,
        _ => {
            proof { assert(false); }
            return fail(msg1(""));
        },
    };
    if values.len() == 0 {
        return Ok(TypedExpr::new(Type::Str, Expr::StrLit(String::new())));
    }
    let mut acc: Option<TypedExpr> = None;
    let mut i: usize = 0;
    while i < values.len()
        invariant
            0 <= i <= values@.len(),
            arena.extends(&a0),
            lower_pre(arena, scope, env, cur),
            acc matches Some(a) ==> expr_valid(arena, a) && a.ty == Type::Str,
            i > 0 ==> acc is Some,
            single matches Some(v) ==> values@.len() == 1 && (i == 1 ==> acc == Some(TypedExpr {
                ty: Type::Str,
                expr: Expr::FormatToStr { inner: Box::new(TypedExpr { ty: Type::I64, expr: Expr::ConstI64(v) }) },
            })) && (i == 0 ==> acc is None),
            i == 0 ==> acc is None,
            fstring_described(scope, values@) ==> segments_ok_before(scope, values@, i as int),
            fstring_described(scope, values@) && i > 0 ==> acc == Some(concat_chain(segments_before(scope, values@, i as int))),
        decreases values.len() - i,
    {
        let ghost a1 = *arena;
        let seg = match &values[i] {
            ast::Expr::Constant(c) => match c {
                ast::Constant::Str(s) => {
                    proof { assert(values@[i as int] == ast::Expr::Constant(ast::Constant::Str(*s))); }
                    if !s.as_str().is_ascii() {
                        proof {
                            assert(!vstd::utf8::is_ascii_chars(s@));
                            assert(fstring_segment(scope, values@[i as int]) == Some(Err::<TypedExpr, Seq<char>>(
                                unsup("non-ASCII text in f-string is not yet supported"@))));
                        }
                        return fail(msg1("non-ASCII text in f-string is not yet supported"));
                    }
                    if contains_escape_byte(s.as_str()) {
                        proof {
                            assert(has_escape_byte(vstd::utf8::encode_utf8(s@)));
                            assert(fstring_segment(scope, values@[i as int]) == Some(Err::<TypedExpr, Seq<char>>(
                                unsup("backslash or single-quote inside f-string is not yet supported"@))));
                        }
                        return fail(msg1("backslash or single-quote inside f-string is not yet supported"));
                    }
                    proof {
                        assert(vstd::utf8::is_ascii_chars(s@));
                        assert(!has_escape_byte(vstd::utf8::encode_utf8(s@)));
                    }
                    TypedExpr::new(Type::Str, Expr::StrLit(s.clone()))
                },
                _ => {
                    return fail(msg1("only str literal segments are allowed in f-strings"));
                },
            },
            ast::Expr::FormattedValue { value, has_conversion, has_format_spec } => {
                if *has_conversion {
                    return fail(msg1("f-string conversions (`!r`, `!s`, `!a`) are not supported"));
                }
                if *has_format_spec {
                    return fail(msg1("f-string format specs (`{x:.2f}`, etc.) are not supported"));
                }
                let inner = lower_expr(value, scope, env, cur, arena);
                proof {
                    Arena::lemma_extends_trans(&a0, &a1, arena);
                }
                let inner = inner?;
                match inner.ty {
                    Type::Str => inner,
                    Type::I8 | Type::I16 | Type::I32 | Type::I64 | Type::Bool => {
                        TypedExpr::new(Type::Str, Expr::FormatToStr { inner: Box::new(inner) })
                    },
                    Type::F64 => {
                        return fail(msg1("f64 interpolation in f-strings is deferred"));
                    },
                    Type::Class(_) => repr_call(arena, inner, env, true)?,
                    other => {
                        let n = other.name(arena);
                        return fail(msg3("cannot interpolate value of type ", n.as_str(), " in an f-string"));
                    },
                }
            },
            other => {
                let k = expr_kind_name(other);
                return fail(msg3("f-string segment kind `", k, "` is not supported"));
            },
        };
        proof {
            Arena::lemma_extends_trans(&a0, &a1, arena);
            if acc is Some {
                lemma_expr_valid_mono(&a1, arena, acc->0);
            }
        }
        assert(expr_valid(arena, seg) && seg.ty == Type::Str);
        let ghost acc0 = acc;
        proof {
            if fstring_described(scope, values@) {
                let sb = segments_before(scope, values@, i + 1);
                assert(fstring_segment(scope, values@[i as int]) == Some(Ok::<TypedExpr, Seq<char>>(seg)));
                assert(sb.drop_last() =~= segments_before(scope, values@, i as int));
                assert(sb.last() == seg);
                if i == 0 {
                    assert(concat_chain(sb) == seg);
                } else {
                    assert(concat_chain(sb) == TypedExpr { ty: Type::Str, expr: Expr::StrConcat {
                        lhs: Box::new(acc0->0), rhs: Box::new(seg) } });
                }
            }
        }
        acc = match acc {
            None => Some(seg),
            Some(a) => {
                let c = TypedExpr::new(Type::Str, Expr::StrConcat { lhs: Box::new(a), rhs: Box::new(seg) });
                assert(expr_valid(arena, c));
                Some(c)
            },
        };
        i += 1;
    }
    match acc {
        Some(a) => Ok(a),
        None => {
            proof { assert(false); }
            fail(msg1(""))
        },
    }
}

/// Parse and lower a `range(...)` call: (start, stop, step), all `int`,
/// with start 0 and step 1 by default.
#[verifier::loop_isolation(false)]
pub fn parse_and_lower_range(iter: &ast::Expr, scope: &Scope, env: &Env, cur: Option<ClassId>, arena: &mut Arena)
    -> (r: Result<(TypedExpr, TypedExpr, TypedExpr), CompileError>)
    requires
        lower_pre(old(arena), scope, env, cur),
    ensures
        lower_post(old(arena), final(arena), scope, env, cur),
        r matches Ok((a, b, c)) ==> expr_valid(final(arena), a) && expr_valid(final(arena), b) && expr_valid(final(arena), c)
            && a.ty == Type::I64 && b.ty == Type::I64 && c.ty == Type::I64,
        r matches Ok((a, b, c)) ==> iter matches ast::Expr::Call { args, .. } && (args@.len() == 1 ==> a == TypedExpr { ty: Type::I64, expr: Expr::ConstI64(0) })
            && (args@.len() <= 2 ==> c == TypedExpr { ty: Type::I64, expr: Expr::ConstI64(1) }),
        range_bound(scope, *iter) matches Some(b) ==> r == Ok::<(TypedExpr, TypedExpr, TypedExpr), CompileError>((
            TypedExpr { ty: Type::I64, expr: Expr::ConstI64(0) },
            b,
            TypedExpr { ty: Type::I64, expr: Expr::ConstI64(1) },
        )),
        literal_range(*iter) matches Some(n) ==> r == Ok::<(TypedExpr, TypedExpr, TypedExpr), CompileError>((
            TypedExpr { ty: Type::I64, expr: Expr::ConstI64(0) },
            TypedExpr { ty: Type::I64, expr: Expr::ConstI64(n) },
            TypedExpr { ty: Type::I64, expr: Expr::ConstI64(1) },
        )),
    decreases iter, 2nat,
{
    proof { Arena::lemma_extends_refl(arena); }
    let ghost a0 = *arena;
    let (func, args, keywords) = match iter {
        ast::Expr::Call { func, args, keywords } => (func, args, keywords),
        _ => {
            return fail(msg1("for-loop iterables other than range(...) are not supported in v0.14"));
        },
    };
    let is_range = match &**func {
        ast::Expr::Name(n) => str_eq(n.as_str(), "range"),
        _ => false,
    };
    if !is_range {
        return fail(msg1("for-loop iterables other than range(...) are not supported in v0.14"));
    }
    if keywords.len() != 0 {
        return fail(msg1("range() does not accept keyword arguments"));
    }
    let zero = TypedExpr::new(Type::I64, Expr::ConstI64(0));
    let one = TypedExpr::new(Type::I64, Expr::ConstI64(1));
    if args.len() == 1 {
        let stop = lower_coerced(&args[0], Type::I64, scope, env, cur, arena)?;
        return Ok((zero, stop, one));
    }
    if args.len() == 2 || args.len() == 3 {
        let start = lower_coerced(&args[0], Type::I64, scope, env, cur, arena)?;
        let ghost a1 = *arena;
        let stop = lower_coerced(&args[1], Type::I64, scope, env, cur, arena);
        proof { Arena::lemma_extends_trans(&a0, &a1, arena); }
        let stop = stop?;
        proof { lemma_expr_valid_mono(&a1, arena, start); }
        if args.len() == 2 {
            return Ok((start, stop, one));
        }
        let ghost a2 = *arena;
        let step = lower_coerced(&args[2], Type::I64, scope, env, cur, arena);
        proof { Arena::lemma_extends_trans(&a0, &a2, arena); }
        let step = step?;
        proof {
            lemma_expr_valid_mono(&a2, arena, start);
            lemma_expr_valid_mono(&a2, arena, stop);
        }
        return Ok((start, stop, step));
    }
    fail(msg1("range() takes 1, 2, or 3 arguments"))
}


/// `name: ty` read as an expression.
fn var(ty: Type, name: &String) -> (r: TypedExpr)
    ensures
        r == (TypedExpr { ty, expr: Expr::Var(*name) }),
{
    TypedExpr::new(ty, Expr::Var(name.clone()))
}

/// `name = name + step`, the increment at the end of a lowered loop.
fn increment(name: &String, step: TypedExpr) -> (r: Stmt)
    requires
        step.ty == Type::I64,
    ensures
        r == (Stmt::Let { name: *name, value: TypedExpr { ty: Type::I64, expr: Expr::BinOp {
            op: BinOp::Add, lhs: Box::new(TypedExpr { ty: Type::I64, expr: Expr::Var(*name) }), rhs: Box::new(step) } } }),
        forall|a: &Arena| #[trigger] expr_valid(a, step) ==> stmt_valid(a, r),
{
    let ghost st = step;
    let v = var(Type::I64, name);
    let r = Stmt::Let {
        name: name.clone(),
        value: TypedExpr::new(Type::I64, Expr::BinOp { op: BinOp::Add, lhs: Box::new(v), rhs: Box::new(step) }),
    };
    proof {
        assert forall|a: &Arena| #[trigger] expr_valid(a, st) implies stmt_valid(a, r) by {
            assert(expr_valid(a, v));
        }
    }
    r
}

/// A comprehension `[elt for v in range(...)]` with one generator: the
/// loop variable and the `range` call.
pub open spec fn range_comprehension(e: ast::Expr) -> Option<(String, ast::Expr)> {
    match e {
        ast::Expr::ListComp { generators, .. } =>
            if generators@.len() == 1 && !generators@[0].is_async && called_name(generators@[0].iter) is Some
                && called_name(generators@[0].iter)->0@ == "range"@ {
                match generators@[0].target {
                    ast::Expr::Name(v) => Some((v, generators@[0].iter)),
                    _ => None,
                }
            } else {
                None
            },
        _ => None,
    }
}

/// A comprehension with one generator whose target is a name and whose
/// iterable is not a `range` call (so a list).
pub open spec fn list_comprehension(e: ast::Expr) -> bool {
    &&& e matches ast::Expr::ListComp { generators, .. }
    &&& generators@.len() == 1
    &&& !generators@[0].is_async
    &&& generators@[0].target is Name
    &&& !(called_name(generators@[0].iter) is Some && called_name(generators@[0].iter)->0@ == "range"@)
}

/// `s` appends one element to the list variable `acc`:
/// `acc = acc + [elt]`.
pub open spec fn appends_to(s: Stmt, acc: String) -> bool {
    &&& s matches Stmt::Let { name, value }
    &&& name == acc
    &&& value.expr matches Expr::ListConcat { lhs, rhs }
    &&& lhs.expr == Expr::Var(acc)
    &&& rhs.expr matches Expr::ListLit { elements }
    &&& elements@.len() == 1
}

/// `s` appends to `acc`, possibly under an `if` filter without `else`.
pub open spec fn filtered_append(s: Stmt, acc: String) -> bool {
    ||| appends_to(s, acc)
    ||| (s matches Stmt::If { then_body, else_body, .. } && then_body@.len() == 1 && appends_to(then_body@[0], acc)
        && else_body@.len() == 0)
}

/// `x` builds its list in an accumulator: it starts the accumulator
/// empty, its loop's body ends by appending one element to it (under the
/// filter, if any), and the accumulator is the block's value.
pub open spec fn accumulates(x: TypedExpr) -> bool {
    &&& x.expr matches Expr::DoBlock { stmts, result }
    &&& stmts@.len() >= 2
    &&& stmts@[0] matches Stmt::Let { name: acc, value: v0 }
    &&& v0.expr matches Expr::ListLit { elements }
    &&& elements@.len() == 0
    &&& result.expr == Expr::Var(acc)
    &&& stmts@.last() matches Stmt::While { body, .. }
    &&& body@.len() >= 1
    &&& filtered_append(body@.last(), acc)
}

/// `x` is the block of a comprehension over a list: after the empty
/// accumulator it binds the list to `l` and an index `i` to 0, then loops
/// while `i < len(l)`, each pass ending with `i = i + 1`: the body runs
/// once for each position of the list.
pub open spec fn comprehension_walks(x: TypedExpr) -> bool {
    &&& x.expr matches Expr::DoBlock { stmts, .. }
    &&& stmts@.len() == 4
    &&& stmts@[1] matches Stmt::Let { name: l, .. }
    &&& stmts@[2] matches Stmt::Let { name: i, value: z }
    &&& z == TypedExpr { ty: Type::I64, expr: Expr::ConstI64(0) }
    &&& stmts@[3] matches Stmt::While { cond, update, .. }
    &&& cond.ty == Type::Bool
    &&& cond.expr matches Expr::Cmp { op, lhs, rhs }
    &&& op == CmpOp::Lt
    &&& *lhs == int_var(i)
    &&& rhs.expr matches Expr::ListLen { list }
    &&& list.expr == Expr::Var(l)
    &&& update@ == seq![counter_step(i, TypedExpr { ty: Type::I64, expr: Expr::ConstI64(1) })]
}

/// `x` is the block of a range comprehension over `v`: after the empty
/// accumulator, `v` starts at `a`, the loop runs while `v < n`, and each
/// pass ends with `v = v + st` for a positive constant step `st`: the
/// body runs exactly for the values `a, a + st, ...` below `n`.
pub open spec fn comprehension_counts(x: TypedExpr, v: String, a: TypedExpr, n: TypedExpr, st: TypedExpr) -> bool {
    &&& x.expr matches Expr::DoBlock { stmts, .. }
    &&& stmts@.len() == 3
    &&& stmts@[1] == (Stmt::Let { name: v, value: a })
    &&& stmts@[2] matches Stmt::While { cond, update, .. }
    &&& cond == counter_test(v, n)
    &&& update@ == seq![counter_step(v, st)]
    &&& st.expr matches Expr::ConstI64(k) && k > 0
}

/// Law: the loop of a range comprehension tests `v < n` (a strict `<`
/// of the loop variable, as an `int`, against the stop value) and
/// advances `v` by adding the positive step: with `v` starting at `a`, the
/// body runs for `a, a + st, ...` while below `n`, never for `n` itself.
pub proof fn law_comprehension_runs_below_stop(x: TypedExpr, v: String, a: TypedExpr, n: TypedExpr, st: TypedExpr)
    requires
        comprehension_counts(x, v, a, n, st),
    ensures
        (x.expr matches Expr::DoBlock { stmts, .. } && stmts@[2] matches Stmt::While { cond, update, .. }
            && cond.ty == Type::Bool
            && cond.expr == (Expr::Cmp { op: CmpOp::Lt, lhs: Box::new(int_var(v)), rhs: Box::new(n) })
            && update@.len() == 1
            && update@[0] == (Stmt::Let { name: v, value: (TypedExpr { ty: Type::I64,
                expr: (Expr::BinOp { op: BinOp::Add, lhs: Box::new(int_var(v)), rhs: Box::new(st) }) }) })),
        (st.expr matches Expr::ConstI64(k) && k > 0),
{
}

/// The `int` variable `v`.
pub open spec fn int_var(v: String) -> TypedExpr {
    TypedExpr { ty: Type::I64, expr: Expr::Var(v) }
}

/// Lower a list comprehension with one generator over `range(...)` or a
/// list, with optional `if` filters, to a block that builds the list.
#[verifier::loop_isolation(false)]
#[verifier::rlimit(40)]
pub fn lower_listcomp(e: &ast::Expr, scope: &Scope, env: &Env, cur: Option<ClassId>, arena: &mut Arena)
    -> (r: Result<TypedExpr, CompileError>)
    requires
        lower_pre(old(arena), scope, env, cur),
        e is ListComp,
    ensures
        lower_post(old(arena), final(arena), scope, env, cur),
        r matches Ok(x) ==> expr_valid(final(arena), x) && x.ty is List,
        literal_listcomp(*e) ==> (r matches Ok(x) && (x.ty matches Type::List(id) && id.spec_elem(final(arena)) == Type::I64)),
        range_comprehension(*e) matches Some((v, it)) ==> (r matches Ok(x) ==>
            exists|a: TypedExpr, n: TypedExpr, st: TypedExpr| #[trigger] comprehension_counts(x, v, a, n, st)),
        list_comprehension(*e) ==> (r matches Ok(x) ==> comprehension_walks(x)),
        (list_comprehension(*e) || range_comprehension(*e) is Some) ==> (r matches Ok(x) ==> accumulates(x)),
        range_comprehension(*e) matches Some((v, it)) ==> (range_bound(scope, it) matches Some(b) ==> (r matches Ok(x) ==>
            comprehension_counts(x, v, TypedExpr { ty: Type::I64, expr: Expr::ConstI64(0) }, b,
                TypedExpr { ty: Type::I64, expr: Expr::ConstI64(1) }))),
    decreases e, 2nat,
{
    proof { Arena::lemma_extends_refl(arena); }
    let ghost a0 = *arena;
    let (elt, generators) = match e {
        ast::Expr::ListComp { elt, generators } => (elt, generators),
        _ => {
            proof { assert(false); }
            return fail(msg1(""));
        },
    };
    if generators.len() != 1 {
        return fail(msg1("nested generators in list comprehensions are not supported"));
    }
    let gen = &generators[0];
    if gen.is_async {
        return fail(msg1("async comprehensions are not supported"));
    }
    let target_name = match &gen.target {
        ast::Expr::Name(n) => n.clone(),
        _ => {
            return fail(msg1("comprehension target must be a simple name"));
        },
    };
    let is_range_call = match &gen.iter {
        ast::Expr::Call { func, .. } => match &**func {
            ast::Expr::Name(n) => str_eq(n.as_str(), "range"),
            _ => false,
        },
        _ => false,
    };
    let mut inner_scope = scope.copy();
    let uniq = usize_str(scope.len());
    let acc_name = crate::text::concat2("__compr_acc_", uniq.as_str());
    let lst_name = crate::text::concat2("__compr_lst_", uniq.as_str());
    let idx_name = crate::text::concat2("__compr_idx_", uniq.as_str());
    let elem_ty: Type;
    let mut iter_lowered: Option<TypedExpr> = None;
    let mut range_parts: Option<(TypedExpr, TypedExpr, TypedExpr)> = None;
    if is_range_call {
        let (start, stop, step) = parse_and_lower_range(&gen.iter, &inner_scope, env, cur, arena)?;
        let step_value = match &step.expr {
            Expr::ConstI64(v) => *v,
            _ => {
                return fail(msg1("range step must be a constant int literal"));
            },
        };
        if step_value <= 0 {
            return fail(msg1("range step must be a positive int literal"));
        }
        elem_ty = Type::I64;
        range_parts = Some((start, stop, step));
        inner_scope.insert(arena, target_name.clone(), Type::I64);
    } else {
        let iter = lower_expr(&gen.iter, &inner_scope, env, cur, arena)?;
        proof { lemma_components_valid(arena, iter.ty); }
        let elem = match iter.ty {
            Type::List(id) => id.elem(arena),
            other => {
                let n = other.name(arena);
                return fail(msg3("comprehension iter must be range(...) or list[T] (got ", n.as_str(), ")"));
            },
        };
        elem_ty = elem;
        iter_lowered = Some(iter);
        inner_scope.insert(arena, target_name.clone(), elem);
    }
    let ghost a1 = *arena;
    proof {
        lemma_pre_mono(&a0, arena, scope, env, cur);
    }
    let elt_lowered = lower_expr(elt, &inner_scope, env, cur, arena);
    proof { Arena::lemma_extends_trans(&a0, &a1, arena); }
    let elt_lowered = elt_lowered?;
    let ghost a2 = *arena;
    let acc_id = ListId::intern(arena, elt_lowered.ty);
    let acc_ty = Type::List(acc_id);
    let ghost a2b = *arena;
    proof {
        Arena::lemma_extends_trans(&a0, &a2, arena);
        lemma_pre_mono(&a2, arena, &inner_scope, env, cur);
    }
    let mut filter: Option<TypedExpr> = None;
    let mut i: usize = 0;
    while i < gen.ifs.len()
        invariant
            0 <= i <= gen.ifs@.len(),
            arena.extends(&a0),
            arena.extends(&a2),
            arena.extends(&a2b),
            lower_pre(arena, &inner_scope, env, cur),
            filter matches Some(f) ==> expr_valid(arena, f) && f.ty == Type::Bool,
        decreases gen.ifs.len() - i,
    {
        let ghost a3 = *arena;
        let c = lower_coerced(&gen.ifs[i], Type::Bool, &inner_scope, env, cur, arena);
        proof {
            Arena::lemma_extends_trans(&a0, &a3, arena);
            Arena::lemma_extends_trans(&a2, &a3, arena);
            Arena::lemma_extends_trans(&a2b, &a3, arena);
        }
        let c = c?;
        proof {
            if filter is Some {
                lemma_expr_valid_mono(&a3, arena, filter->0);
            }
        }
        filter = match filter {
            None => Some(c),
            Some(prev) => {
                let l = coerce(arena, prev, Type::I64)?;
                let x = coerce(arena, c, Type::I64)?;
                Some(TypedExpr::new(Type::Bool, Expr::BoolOp { op: BoolOp::And, lhs: Box::new(l), rhs: Box::new(x) }))
            },
        };
        i += 1;
    }
    proof {
        Arena::lemma_extends_trans(&a1, &a2, &a2b);
        Arena::lemma_extends_trans(&a1, &a2b, arena);
        lemma_expr_valid_mono(&a2, arena, elt_lowered);
        arena.lemma_valid_mono(&a2b, acc_ty);
        arena.lemma_valid_mono(&a1, elem_ty);
        lemma_pre_mono(&a0, arena, scope, env, cur);
    }
    let mut one: Vec<TypedExpr> = Vec::new();
    one.push(elt_lowered);
    let one_elem_list = TypedExpr::new(acc_ty, Expr::ListLit { elements: one });
    assert(expr_valid(arena, one_elem_list));
    let acc_ref = var(acc_ty, &acc_name);
    assert(expr_valid(arena, acc_ref));
    let grown = TypedExpr::new(acc_ty, Expr::ListConcat { lhs: Box::new(acc_ref), rhs: Box::new(one_elem_list) });
    assert(expr_valid(arena, grown));
    let append = Stmt::Let { name: acc_name.clone(), value: grown };
    assert(stmt_valid(arena, append));
    let body_stmt = match filter {
        Some(cond) => {
            let mut then_body: Vec<Stmt> = Vec::new();
            then_body.push(append);
            let s = Stmt::If { cond, then_body, else_body: Vec::new() };
            assert(stmt_valid(arena, s));
            s
        },
        None => append,
    };
    let ghost g_parts = range_parts;
    let ghost g_body = body_stmt;
    proof { assert(filtered_append(g_body, acc_name)); }
    let mut stmts: Vec<Stmt> = Vec::new();
    let empty = TypedExpr::new(acc_ty, Expr::ListLit { elements: Vec::new() });
    assert(expr_valid(arena, empty));
    let init = Stmt::Let { name: acc_name.clone(), value: empty };
    assert(stmt_valid(arena, init));
    stmts.push(init);
    match range_parts {
        Some((start, stop, step)) => {
            proof {
                assert(expr_valid(&a1, start) && expr_valid(&a1, stop) && expr_valid(&a1, step));
                lemma_expr_valid_mono(&a1, arena, start);
                lemma_expr_valid_mono(&a1, arena, stop);
                lemma_expr_valid_mono(&a1, arena, step);
            }
            let first = Stmt::Let { name: target_name.clone(), value: start };
            assert(stmt_valid(arena, first));
            stmts.push(first);
            let tv = var(Type::I64, &target_name);
            assert(expr_valid(arena, tv));
            let cond = TypedExpr::new(Type::Bool, Expr::Cmp { op: CmpOp::Lt, lhs: Box::new(tv), rhs: Box::new(stop) });
            assert(expr_valid(arena, cond));
            let mut wbody: Vec<Stmt> = Vec::new();
            wbody.push(body_stmt);
            let inc = increment(&target_name, step);
            assert(stmt_valid(arena, inc));
            let mut update: Vec<Stmt> = Vec::new();
            update.push(inc);
            let w = Stmt::While { cond, body: wbody, update };
            assert(stmt_valid(arena, w));
            stmts.push(w);
        },
        None => {
            let iter = match iter_lowered {
                Some(x) => x,
                None => {
                    proof { assert(false); }
                    return fail(msg1(""));
                },
            };
            proof { lemma_expr_valid_mono(&a1, arena, iter); }
            let iter_ty = iter.ty;
            let s1 = Stmt::Let { name: lst_name.clone(), value: iter };
            assert(stmt_valid(arena, s1));
            stmts.push(s1);
            let zero = TypedExpr::new(Type::I64, Expr::ConstI64(0));
            assert(expr_valid(arena, zero));
            let s2 = Stmt::Let { name: idx_name.clone(), value: zero };
            assert(stmt_valid(arena, s2));
            stmts.push(s2);
            assert(arena.valid(iter_ty));
            let lr1 = var(iter_ty, &lst_name);
            assert(expr_valid(arena, lr1));
            let len_expr = TypedExpr::new(Type::I64, Expr::ListLen { list: Box::new(lr1) });
            assert(expr_valid(arena, len_expr));
            let iv1 = var(Type::I64, &idx_name);
            assert(expr_valid(arena, iv1));
            let cond = TypedExpr::new(Type::Bool, Expr::Cmp { op: CmpOp::Lt, lhs: Box::new(iv1), rhs: Box::new(len_expr) });
            assert(expr_valid(arena, cond));
            let lr2 = var(iter_ty, &lst_name);
            assert(expr_valid(arena, lr2));
            let iv2 = var(Type::I64, &idx_name);
            assert(expr_valid(arena, iv2));
            assert(arena.valid(elem_ty));
            let item = TypedExpr::new(elem_ty, Expr::ListIndex { list: Box::new(lr2), index: Box::new(iv2) });
            assert(expr_valid(arena, item));
            let mut wbody: Vec<Stmt> = Vec::new();
            let bind_item = Stmt::Let { name: target_name.clone(), value: item };
            assert(stmt_valid(arena, bind_item));
            wbody.push(bind_item);
            wbody.push(body_stmt);
            let one = TypedExpr::new(Type::I64, Expr::ConstI64(1));
            assert(expr_valid(arena, one));
            let inc = increment(&idx_name, one);
            assert(stmt_valid(arena, inc));
            let mut update: Vec<Stmt> = Vec::new();
            update.push(inc);
            let w = Stmt::While { cond, body: wbody, update };
            assert(stmt_valid(arena, w));
            stmts.push(w);
            proof {
                assert(stmts@.len() == 4);
                assert(stmts@[1] == s1 && stmts@[2] == s2 && stmts@[3] == w);
            }
        },
    }
    assert(stmts_valid(arena, stmts@));
    let result = var(acc_ty, &acc_name);
    let res = TypedExpr::new(acc_ty, Expr::DoBlock { stmts, result: Box::new(result) });
    proof {
        if let Some((v, it)) = range_comprehension(*e) {
            assert(is_range_call);
            assert(g_parts is Some);
            let (a, n, st) = g_parts->0;
            assert(comprehension_counts(res, v, a, n, st));
        }
        assert(stmts@.last() matches Stmt::While { body, .. } && body@.last() == g_body);
        assert(accumulates(res));
        if list_comprehension(*e) {
            assert(!is_range_call);
            assert(g_parts is None);
            assert(comprehension_walks(res));
        }
    }
    Ok(res)
}

} // verus!
