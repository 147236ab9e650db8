//! Well-formedness of HIR trees relative to an [`Arena`]: every type a
//! tree mentions refers to an existing arena entry, and every node has
//! the type that its form gives it (a comparison is `bool`, a list index
//! has the list's element type, an append stores the element type, ...).
//! The checker guarantees this of everything it produces; the emitter
//! relies on it.

use vstd::prelude::*;
use crate::hir::{Arena, Expr, Stmt, Type, TypedExpr};

verus! {

/// An integer of any width, `bool` or `float`: the types between which
/// a value converts.
pub open spec fn is_number(t: Type) -> bool {
    t.spec_is_int() || t == Type::Bool || t == Type::F64
}

/// The typing rule of the root of `te`: the type that its form gives
/// it, in terms of the types of its operands.
pub open spec fn node_typed(a: &Arena, te: TypedExpr) -> bool {
    match te.expr {
        Expr::ConstI64(_) => te.ty.spec_is_int(),
        Expr::ConstBool(_) => te.ty == Type::Bool,
        Expr::BinOp { lhs, rhs, .. } => lhs.ty == te.ty && rhs.ty == te.ty,
        Expr::UnaryOp { operand, .. } => operand.ty == te.ty,
        Expr::Cmp { lhs, rhs, .. } => te.ty == Type::Bool && lhs.ty == rhs.ty,
        Expr::BoolOp { lhs, rhs, .. } => lhs.ty == rhs.ty,
        Expr::ConstF64(_) => te.ty == Type::F64,
        Expr::Not(inner) => te.ty == Type::Bool && inner.ty == Type::Bool,
        Expr::CmpChain { .. } => te.ty == Type::Bool,
        Expr::StrEq { lhs, rhs, .. } => te.ty == Type::Bool && lhs.ty == Type::Str && rhs.ty == Type::Str,
        Expr::DictHas { dict, key } => te.ty == Type::Bool && (dict.ty matches Type::Dict(id) && key.ty == id.spec_key(a)),
        Expr::SetHas { set, key } => te.ty == Type::Bool && (set.ty matches Type::SetOf(id) && key.ty == id.spec_elem(a)),
        Expr::ListLen { list } => te.ty == Type::I64 && list.ty is List,
        Expr::StrLen { s } => te.ty == Type::I64 && s.ty == Type::Str,
        Expr::DictLen { dict } => te.ty == Type::I64 && dict.ty is Dict,
        Expr::SetLen { set } => te.ty == Type::I64 && set.ty is SetOf,
        Expr::StrLit(_) => te.ty == Type::Str,
        Expr::StrConcat { lhs, rhs } => te.ty == Type::Str && lhs.ty == Type::Str && rhs.ty == Type::Str,
        Expr::FormatToStr { inner } => te.ty == Type::Str && (is_number(inner.ty) || inner.ty == Type::Str),
        Expr::StrIndex { s, index } => te.ty == Type::Str && s.ty == Type::Str && index.ty == Type::I64,
        Expr::StrSlice { s, start, stop } => te.ty == Type::Str && s.ty == Type::Str && start.ty == Type::I64 && stop.ty == Type::I64,
        Expr::MathCall { arg, .. } => te.ty == Type::F64 && arg.ty == Type::F64,
        Expr::ClassNew { class, .. } => te.ty == Type::Class(class),
        Expr::DoBlock { result, .. } => te.ty == result.ty,
        Expr::Coerce { inner } => (is_number(inner.ty) && is_number(te.ty)) || (inner.ty is Class && te.ty is Class),
        Expr::ListConcat { lhs, rhs } => te.ty is List && lhs.ty == te.ty && rhs.ty == te.ty,
        Expr::ListLit { elements } => te.ty matches Type::List(id)
            && forall|i: int| 0 <= i < elements@.len() ==> (#[trigger] elements@[i]).ty == id.spec_elem(a),
        Expr::ListIndex { list, index } => list.ty matches Type::List(id) && te.ty == id.spec_elem(a) && index.ty == Type::I64,
        Expr::TupleLit { elements } => te.ty matches Type::Tuple(id) && id.spec_elems(a).len() == elements@.len()
            && forall|i: int| 0 <= i < elements@.len() ==> (#[trigger] elements@[i]).ty == id.spec_elems(a)[i],
        Expr::TupleIndex { tuple, index } => tuple.ty matches Type::Tuple(id) && index < id.spec_elems(a).len()
            && te.ty == id.spec_elems(a)[index as int],
        Expr::SetLit { elements } => te.ty matches Type::SetOf(id)
            && forall|i: int| 0 <= i < elements@.len() ==> (#[trigger] elements@[i]).ty == id.spec_elem(a),
        Expr::DictLit { entries } => te.ty matches Type::Dict(id)
            && forall|i: int| 0 <= i < entries@.len() ==> (#[trigger] entries@[i]).0.ty == id.spec_key(a) && entries@[i].1.ty == id.spec_val(a),
        Expr::DictGet { dict, key } => dict.ty matches Type::Dict(id) && te.ty == id.spec_val(a) && key.ty == id.spec_key(a),
        _ => true,
    }
}

/// Every type mentioned in `te` is valid in `a`, and every node of `te`
/// has the type that its form gives it ([`node_typed`]).
pub open spec fn expr_valid(a: &Arena, te: TypedExpr) -> bool
    decreases te,
{
    &&& a.valid(te.ty)
    &&& node_typed(a, te)
    &&& match te.expr {
        Expr::BinOp { lhs, rhs, .. } => expr_valid(a, *lhs) && expr_valid(a, *rhs),
        Expr::UnaryOp { operand, .. } => expr_valid(a, *operand),
        Expr::Cmp { lhs, rhs, .. } => expr_valid(a, *lhs) && expr_valid(a, *rhs),
        Expr::CmpChain { first, rest } => expr_valid(a, *first) && forall|i: int| 0 <= i < rest@.len() ==> expr_valid(a, #[trigger] rest@[i].1),
        Expr::Not(inner) => expr_valid(a, *inner),
        Expr::BoolOp { lhs, rhs, .. } => expr_valid(a, *lhs) && expr_valid(a, *rhs),
        Expr::Call { args, .. } => forall|i: int| 0 <= i < args@.len() ==> expr_valid(a, #[trigger] args@[i]),
        Expr::Coerce { inner } => expr_valid(a, *inner),
        Expr::TupleLit { elements } => forall|i: int| 0 <= i < elements@.len() ==> expr_valid(a, #[trigger] elements@[i]),
        Expr::TupleIndex { tuple, .. } => expr_valid(a, *tuple),
        Expr::ListLit { elements } => forall|i: int| 0 <= i < elements@.len() ==> expr_valid(a, #[trigger] elements@[i]),
        Expr::ListIndex { list, index } => expr_valid(a, *list) && expr_valid(a, *index),
        Expr::ListLen { list } => expr_valid(a, *list),
        Expr::ListConcat { lhs, rhs } => expr_valid(a, *lhs) && expr_valid(a, *rhs),
        Expr::DoBlock { stmts, result } => stmts_valid(a, stmts@) && expr_valid(a, *result),
        Expr::StrConcat { lhs, rhs } => expr_valid(a, *lhs) && expr_valid(a, *rhs),
        Expr::StrLen { s } => expr_valid(a, *s),
        Expr::StrEq { lhs, rhs, .. } => expr_valid(a, *lhs) && expr_valid(a, *rhs),
        Expr::FormatToStr { inner } => expr_valid(a, *inner),
        Expr::StrIndex { s, index } => expr_valid(a, *s) && expr_valid(a, *index),
        Expr::StrSlice { s, start, stop } => expr_valid(a, *s) && expr_valid(a, *start) && expr_valid(a, *stop),
        Expr::MathCall { arg, .. } => expr_valid(a, *arg),
        Expr::DictLit { entries } => forall|i: int| #![trigger entries@[i]] 0 <= i < entries@.len() ==> expr_valid(a, entries@[i].0) && expr_valid(a, entries@[i].1),
        Expr::DictGet { dict, key } => expr_valid(a, *dict) && expr_valid(a, *key),
        Expr::DictHas { dict, key } => expr_valid(a, *dict) && expr_valid(a, *key),
        Expr::DictLen { dict } => expr_valid(a, *dict),
        Expr::SetLit { elements } => forall|i: int| 0 <= i < elements@.len() ==> expr_valid(a, #[trigger] elements@[i]),
        Expr::SetHas { set, key } => expr_valid(a, *set) && expr_valid(a, *key),
        Expr::SetLen { set } => expr_valid(a, *set),
        Expr::FieldGet { obj, .. } => expr_valid(a, *obj),
        Expr::ClassNew { class, init_class, args } => {
            &&& a.valid(Type::Class(class))
            &&& (init_class matches Some(c) ==> a.valid(Type::Class(c)))
            &&& forall|i: int| 0 <= i < args@.len() ==> expr_valid(a, #[trigger] args@[i])
        },
        _ => true,
    }
}

/// The typing rule of statement `s`: conditions are `bool`, and what is
/// stored into a container has the container's element type.
pub open spec fn stmt_typed(a: &Arena, s: Stmt) -> bool {
    match s {
        Stmt::If { cond, .. } => cond.ty == Type::Bool,
        Stmt::While { cond, .. } => cond.ty == Type::Bool,
        Stmt::ListAppend { list, value } => list.ty matches Type::List(id) && value.ty == id.spec_elem(a),
        Stmt::SetAdd { set, value } => set.ty matches Type::SetOf(id) && value.ty == id.spec_elem(a),
        Stmt::SetSubscript { container, key, value } => match container.ty {
            Type::List(id) => key.ty == Type::I64 && value.ty == id.spec_elem(a),
            Type::Dict(id) => key.ty == id.spec_key(a) && value.ty == id.spec_val(a),
            _ => false,
        },
        _ => true,
    }
}

pub open spec fn stmt_valid(a: &Arena, s: Stmt) -> bool
    decreases s,
{
    &&& stmt_typed(a, s)
    &&& match s {
        Stmt::Let { value, .. } => expr_valid(a, value),
        Stmt::Return { value } => expr_valid(a, value),
        Stmt::If { cond, then_body, else_body } => expr_valid(a, cond) && stmts_valid(a, then_body@) && stmts_valid(a, else_body@),
        Stmt::While { cond, body, update } => expr_valid(a, cond) && stmts_valid(a, body@) && stmts_valid(a, update@),
        Stmt::Break => true,
        Stmt::Continue => true,
        Stmt::ListAppend { list, value } => expr_valid(a, list) && expr_valid(a, value),
        Stmt::SetAdd { set, value } => expr_valid(a, set) && expr_valid(a, value),
        Stmt::SetField { obj, value, .. } => expr_valid(a, obj) && expr_valid(a, value),
        Stmt::SetSubscript { container, key, value } => expr_valid(a, container) && expr_valid(a, key) && expr_valid(a, value),
        Stmt::ExprStmt(e) => expr_valid(a, e),
    }
}

pub open spec fn stmts_valid(a: &Arena, ss: Seq<Stmt>) -> bool
    decreases ss,
{
    forall|i: int| 0 <= i < ss.len() ==> stmt_valid(a, #[trigger] ss[i])
}


/// The parts of a compound type stay what they were when the arena
/// grows.
pub proof fn lemma_parts_stable(a: &Arena, b: &Arena, t: Type)
    requires
        a.valid(t),
        b.extends(a),
    ensures
        match t {
            Type::List(id) => id.spec_elem(b) == id.spec_elem(a),
            Type::SetOf(id) => id.spec_elem(b) == id.spec_elem(a),
            Type::Dict(id) => id.spec_key(b) == id.spec_key(a) && id.spec_val(b) == id.spec_val(a),
            Type::Tuple(id) => id.spec_elems(b) == id.spec_elems(a),
            _ => true,
        },
{
    match t {
        Type::List(id) => { assert(b.compounds@[id.0 as int] == a.compounds@[id.0 as int]); },
        Type::SetOf(id) => { assert(b.compounds@[id.0 as int] == a.compounds@[id.0 as int]); },
        Type::Dict(id) => { assert(b.compounds@[id.0 as int] == a.compounds@[id.0 as int]); },
        Type::Tuple(id) => { assert(b.compounds@[id.0 as int] == a.compounds@[id.0 as int]); },
        _ => {},
    }
}

/// Validity of a tree is preserved when the arena grows.
pub proof fn lemma_expr_valid_mono(a: &Arena, b: &Arena, te: TypedExpr)
    requires
        expr_valid(a, te),
        b.extends(a),
    ensures
        expr_valid(b, te),
    decreases te,
{
    b.lemma_valid_mono(a, te.ty);
    lemma_parts_stable(a, b, te.ty);
    match te.expr {
        Expr::ListIndex { list, .. } => { assert(expr_valid(a, *list)); lemma_parts_stable(a, b, list.ty); },
        Expr::TupleIndex { tuple, .. } => { assert(expr_valid(a, *tuple)); lemma_parts_stable(a, b, tuple.ty); },
        Expr::DictGet { dict, .. } => { assert(expr_valid(a, *dict)); lemma_parts_stable(a, b, dict.ty); },
        Expr::DictHas { dict, .. } => { assert(expr_valid(a, *dict)); lemma_parts_stable(a, b, dict.ty); },
        Expr::SetHas { set, .. } => { assert(expr_valid(a, *set)); lemma_parts_stable(a, b, set.ty); },
        _ => {},
    }
    match te.expr {
        Expr::BinOp { lhs, rhs, .. } => { lemma_expr_valid_mono(a, b, *lhs); lemma_expr_valid_mono(a, b, *rhs); },
        Expr::UnaryOp { operand, .. } => { lemma_expr_valid_mono(a, b, *operand); },
        Expr::Cmp { lhs, rhs, .. } => { lemma_expr_valid_mono(a, b, *lhs); lemma_expr_valid_mono(a, b, *rhs); },
        Expr::CmpChain { first, rest } => {
            lemma_expr_valid_mono(a, b, *first);
            assert forall|i: int| 0 <= i < rest@.len() implies expr_valid(b, #[trigger] rest@[i].1) by {
                lemma_expr_valid_mono(a, b, rest@[i].1);
            }
        },
        Expr::Not(inner) => { lemma_expr_valid_mono(a, b, *inner); },
        Expr::BoolOp { lhs, rhs, .. } => { lemma_expr_valid_mono(a, b, *lhs); lemma_expr_valid_mono(a, b, *rhs); },
        Expr::Call { args, .. } => {
            assert forall|i: int| 0 <= i < args@.len() implies expr_valid(b, #[trigger] args@[i]) by {
                lemma_expr_valid_mono(a, b, args@[i]);
            }
        },
        Expr::Coerce { inner } => { lemma_expr_valid_mono(a, b, *inner); },
        Expr::TupleLit { elements } => {
            assert forall|i: int| 0 <= i < elements@.len() implies expr_valid(b, #[trigger] elements@[i]) by {
                lemma_expr_valid_mono(a, b, elements@[i]);
            }
        },
        Expr::TupleIndex { tuple, .. } => { lemma_expr_valid_mono(a, b, *tuple); },
        Expr::ListLit { elements } => {
            assert forall|i: int| 0 <= i < elements@.len() implies expr_valid(b, #[trigger] elements@[i]) by {
                lemma_expr_valid_mono(a, b, elements@[i]);
            }
        },
        Expr::ListIndex { list, index } => { lemma_expr_valid_mono(a, b, *list); lemma_expr_valid_mono(a, b, *index); },
        Expr::ListLen { list } => { lemma_expr_valid_mono(a, b, *list); },
        Expr::ListConcat { lhs, rhs } => { lemma_expr_valid_mono(a, b, *lhs); lemma_expr_valid_mono(a, b, *rhs); },
        Expr::DoBlock { stmts, result } => {
            lemma_stmts_valid_mono(a, b, stmts@);
            lemma_expr_valid_mono(a, b, *result);
        },
        Expr::StrConcat { lhs, rhs } => { lemma_expr_valid_mono(a, b, *lhs); lemma_expr_valid_mono(a, b, *rhs); },
        Expr::StrLen { s } => { lemma_expr_valid_mono(a, b, *s); },
        Expr::StrEq { lhs, rhs, .. } => { lemma_expr_valid_mono(a, b, *lhs); lemma_expr_valid_mono(a, b, *rhs); },
        Expr::FormatToStr { inner } => { lemma_expr_valid_mono(a, b, *inner); },
        Expr::StrIndex { s, index } => { lemma_expr_valid_mono(a, b, *s); lemma_expr_valid_mono(a, b, *index); },
        Expr::StrSlice { s, start, stop } => {
            lemma_expr_valid_mono(a, b, *s);
            lemma_expr_valid_mono(a, b, *start);
            lemma_expr_valid_mono(a, b, *stop);
        },
        Expr::MathCall { arg, .. } => { lemma_expr_valid_mono(a, b, *arg); },
        Expr::DictLit { entries } => {
            assert forall|i: int| #![trigger entries@[i]] 0 <= i < entries@.len() implies expr_valid(b, entries@[i].0) && expr_valid(b, entries@[i].1) by {
                lemma_expr_valid_mono(a, b, entries@[i].0);
                lemma_expr_valid_mono(a, b, entries@[i].1);
            }
        },
        Expr::DictGet { dict, key } => { lemma_expr_valid_mono(a, b, *dict); lemma_expr_valid_mono(a, b, *key); },
        Expr::DictHas { dict, key } => { lemma_expr_valid_mono(a, b, *dict); lemma_expr_valid_mono(a, b, *key); },
        Expr::DictLen { dict } => { lemma_expr_valid_mono(a, b, *dict); },
        Expr::SetLit { elements } => {
            assert forall|i: int| 0 <= i < elements@.len() implies expr_valid(b, #[trigger] elements@[i]) by {
                lemma_expr_valid_mono(a, b, elements@[i]);
            }
        },
        Expr::SetHas { set, key } => { lemma_expr_valid_mono(a, b, *set); lemma_expr_valid_mono(a, b, *key); },
        Expr::SetLen { set } => { lemma_expr_valid_mono(a, b, *set); },
        Expr::FieldGet { obj, .. } => { lemma_expr_valid_mono(a, b, *obj); },
        Expr::ClassNew { class, init_class, args } => {
            assert forall|i: int| 0 <= i < args@.len() implies expr_valid(b, #[trigger] args@[i]) by {
                lemma_expr_valid_mono(a, b, args@[i]);
            }
        },
        _ => {},
    }
}

pub proof fn lemma_stmt_valid_mono(a: &Arena, b: &Arena, s: Stmt)
    requires
        stmt_valid(a, s),
        b.extends(a),
    ensures
        stmt_valid(b, s),
    decreases s,
{
    match s {
        Stmt::ListAppend { list, .. } => { assert(expr_valid(a, list)); lemma_parts_stable(a, b, list.ty); },
        Stmt::SetAdd { set, .. } => { assert(expr_valid(a, set)); lemma_parts_stable(a, b, set.ty); },
        Stmt::SetSubscript { container, .. } => { assert(expr_valid(a, container)); lemma_parts_stable(a, b, container.ty); },
        _ => {},
    }
    match s {
        Stmt::Let { value, .. } => { lemma_expr_valid_mono(a, b, value); },
        Stmt::Return { value } => { lemma_expr_valid_mono(a, b, value); },
        Stmt::If { cond, then_body, else_body } => {
            lemma_expr_valid_mono(a, b, cond);
            lemma_stmts_valid_mono(a, b, then_body@);
            lemma_stmts_valid_mono(a, b, else_body@);
        },
        Stmt::While { cond, body, update } => {
            lemma_expr_valid_mono(a, b, cond);
            lemma_stmts_valid_mono(a, b, body@);
            lemma_stmts_valid_mono(a, b, update@);
        },
        Stmt::ListAppend { list, value } => { lemma_expr_valid_mono(a, b, list); lemma_expr_valid_mono(a, b, value); },
        Stmt::SetAdd { set, value } => { lemma_expr_valid_mono(a, b, set); lemma_expr_valid_mono(a, b, value); },
        Stmt::SetField { obj, value, .. } => { lemma_expr_valid_mono(a, b, obj); lemma_expr_valid_mono(a, b, value); },
        Stmt::SetSubscript { container, key, value } => {
            lemma_expr_valid_mono(a, b, container);
            lemma_expr_valid_mono(a, b, key);
            lemma_expr_valid_mono(a, b, value);
        },
        Stmt::ExprStmt(e) => { lemma_expr_valid_mono(a, b, e); },
        _ => {},
    }
}

pub proof fn lemma_stmts_valid_mono(a: &Arena, b: &Arena, ss: Seq<Stmt>)
    requires
        stmts_valid(a, ss),
        b.extends(a),
    ensures
        stmts_valid(b, ss),
    decreases ss,
{
    assert forall|i: int| 0 <= i < ss.len() implies stmt_valid(b, #[trigger] ss[i]) by {
        lemma_stmt_valid_mono(a, b, ss[i]);
    }
}

} // verus!
