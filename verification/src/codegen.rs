//! LLVM IR text emission for a lowered [`Program`].
//!
//! Each function is emitted into its own body buffer by a [`Codegen`];
//! string literals are collected across functions into module-level
//! globals. The module then gets the runtime helpers and a C `main` that
//! parses `argv` into the entry function's parameters and prints its
//! result.

use vstd::prelude::*;
use vstd::string::StringSliceAdditionalSpecFns;
use crate::hir::{
    lemma_components_valid, lemma_field_valid, Arena, BinOp, BoolOp, ClassId, CmpOp, Expr,
    Function, Param, Program, Stmt, Type, TypedExpr, UnaryOp,
};
use crate::text::{comma_joined, decimal, i64_decimal, signed_decimal, lemma_decimal_injective, i64_to_string, str_eq, u64_to_string, push_decimal};
use crate::typing::{expr_valid, stmt_valid, stmts_valid};
use crate::check::module::{function_ok, program_ok, main_param_ok, main_return_ok};
use crate::check::{assoc, lemma_assoc_at, lemma_assoc_none};

verus! {

/// LLVM's name for a comparison on integers.
pub open spec fn icmp_name(op: CmpOp) -> Seq<char> {
    match op {
        CmpOp::Lt => "slt"@,
        CmpOp::Le => "sle"@,
        CmpOp::Gt => "sgt"@,
        CmpOp::Ge => "sge"@,
        CmpOp::Eq => "eq"@,
        CmpOp::Ne => "ne"@,
    }
}

/// LLVM's name for a comparison on doubles (ordered predicates).
pub open spec fn fcmp_name(op: CmpOp) -> Seq<char> {
    match op {
        CmpOp::Lt => "olt"@,
        CmpOp::Le => "ole"@,
        CmpOp::Gt => "ogt"@,
        CmpOp::Ge => "oge"@,
        CmpOp::Eq => "oeq"@,
        CmpOp::Ne => "one"@,
    }
}

pub fn llvm_icmp_op(op: CmpOp) -> (r: &'static str)
    ensures
        r@ == icmp_name(op),
{
    match op {
        CmpOp::Lt => "slt",
        CmpOp::Le => "sle",
        CmpOp::Gt => "sgt",
        CmpOp::Ge => "sge",
        CmpOp::Eq => "eq",
        CmpOp::Ne => "ne",
    }
}

pub fn llvm_fcmp_op(op: CmpOp) -> (r: &'static str)
    ensures
        r@ == fcmp_name(op),
{
    match op {
        CmpOp::Lt => "olt",
        CmpOp::Le => "ole",
        CmpOp::Gt => "ogt",
        CmpOp::Ge => "oge",
        CmpOp::Eq => "oeq",
        CmpOp::Ne => "one",
    }
}

/// ASCII letters and digits.
pub open spec fn is_ident_char(c: char) -> bool {
    ('a' <= c && c <= 'z') || ('A' <= c && c <= 'Z') || ('0' <= c && c <= '9') || c == '_'
}

/// A module identifier: every character that is not an ASCII letter,
/// digit or `_` becomes `_`.
pub open spec fn sanitized(s: Seq<char>) -> Seq<char> {
    Seq::new(s.len(), |i: int| if is_ident_char(s[i]) { s[i] } else { '_' })
}

pub fn sanitize_module_id(s: &str) -> (r: String)
    ensures
        r@ == sanitized(s@),
{
    let n = s.unicode_len();
    let mut out = String::new();
    let mut i: usize = 0;
    while i < n
        invariant
            0 <= i <= n,
            n == s@.len(),
            out@ == sanitized(s@).subrange(0, i as int),
        decreases n - i,
    {
        let c = s.get_char(i);
        proof { reveal_strlit("_"); }
        if ('a' <= c && c <= 'z') || ('A' <= c && c <= 'Z') || ('0' <= c && c <= '9') || c == '_' {
            out.append(s.substring_char(i, i + 1));
        } else {
            out.append("_");
        }
        proof {
            assert(sanitized(s@).subrange(0, i + 1) =~= sanitized(s@).subrange(0, i as int).push(sanitized(s@)[i as int]));
            assert(out@ =~= sanitized(s@).subrange(0, i + 1));
        }
        i += 1;
    }
    assert(sanitized(s@).subrange(0, n as int) =~= sanitized(s@));
    out
}

/// Law: a sanitized module identifier has the same length as its source
/// and consists only of ASCII letters, digits and `_`.
pub proof fn law_sanitized_is_identifier(s: Seq<char>)
    ensures
        sanitized(s).len() == s.len(),
        forall|i: int| 0 <= i < s.len() ==> is_ident_char(#[trigger] sanitized(s)[i]),
        forall|i: int| 0 <= i < s.len() && is_ident_char(s[i]) ==> #[trigger] sanitized(s)[i] == s[i],
{
}

/// `x` rounded up to a multiple of `al`.
pub open spec fn round_up(x: nat, al: nat) -> nat {
    if al == 0 { x } else { (((x + al - 1) as nat / al) * al) as nat }
}

/// Rounding up never makes a size smaller.
proof fn lemma_round_up_ge(x: nat, al: nat)
    requires
        1 <= al <= 8,
    ensures
        round_up(x, al) >= x,
        round_up(x, al) <= x + al - 1,
{
    let y = (x + al - 1) as nat;
    let q = y / al;
    let r = y % al;
    vstd::arithmetic::div_mod::lemma_fundamental_div_mod(y as int, al as int);
    vstd::arithmetic::div_mod::lemma_mod_bound(y as int, al as int);
    assert(y == al * q + r);
    assert(q * al == al * q) by (nonlinear_arith);
    assert(round_up(x, al) == q * al);
}

/// Byte size of a value of type `t` as LLVM lays it out on x86-64 (its
/// alloc size): tuples are stored inline as structs, with each element at
/// an offset aligned for it and the whole padded to the struct's
/// alignment; strings are `{ i64, i8* }`; lists, dicts, sets and class
/// instances are pointers.
pub open spec fn type_size(a: &Arena, t: Type) -> nat
    decreases t.rank(), 1nat, 0nat,
{
    match t {
        Type::I8 | Type::Bool => 1,
        Type::I16 => 2,
        Type::I32 => 4,
        Type::I64 | Type::F64 => 8,
        Type::Tuple(id) => round_up(struct_layout(a, id.spec_elems(a), id.0 as nat + 1).0,
            struct_layout(a, id.spec_elems(a), id.0 as nat + 1).1),
        Type::List(_) | Type::Dict(_) | Type::SetOf(_) | Type::Class(_) => 8,
        Type::Str => 16,
    }
}

/// Alignment in bytes of a value of type `t` on x86-64.
pub open spec fn type_align(a: &Arena, t: Type) -> nat
    decreases t.rank(), 1nat, 0nat,
{
    match t {
        Type::I8 | Type::Bool => 1,
        Type::I16 => 2,
        Type::I32 => 4,
        Type::Tuple(id) => struct_layout(a, id.spec_elems(a), id.0 as nat + 1).1,
        _ => 8,
    }
}

/// The layout of a struct of the types `ts` (those ranking below
/// `bound`): the end offset of its last member, and its alignment.
pub open spec fn struct_layout(a: &Arena, ts: Seq<Type>, bound: nat) -> (nat, nat)
    decreases bound, 0nat, ts.len(),
{
    if ts.len() == 0 {
        (0, 1)
    } else {
        let prev = struct_layout(a, ts.drop_last(), bound);
        let sz = if ts.last().rank() < bound { type_size(a, ts.last()) } else { 0 };
        let al = if ts.last().rank() < bound { type_align(a, ts.last()) } else { 1 };
        (round_up(prev.0, al) + sz, if al > prev.1 { al } else { prev.1 })
    }
}

/// Alignments are 1, 2, 4 or 8.
proof fn lemma_align_bounds(a: &Arena, t: Type)
    ensures
        1 <= type_align(a, t) <= 8,
    decreases t.rank(), 1nat, 0nat,
{
    match t {
        Type::Tuple(id) => { lemma_layout_align_bounds(a, id.spec_elems(a), id.0 as nat + 1); },
        _ => {},
    }
}

proof fn lemma_layout_align_bounds(a: &Arena, ts: Seq<Type>, bound: nat)
    ensures
        1 <= struct_layout(a, ts, bound).1 <= 8,
    decreases bound, 0nat, ts.len(),
{
    if ts.len() > 0 {
        lemma_layout_align_bounds(a, ts.drop_last(), bound);
        if ts.last().rank() < bound {
            lemma_align_bounds(a, ts.last());
        }
    }
}

pub open spec fn sat(n: nat) -> u64 {
    if n > u64::MAX { u64::MAX } else { n as u64 }
}

/// One step of struct layout on saturated sizes: the member of size `sz`
/// (saturated) and alignment `al` placed after an end offset `end`
/// (saturated); `end_true` and `sz_true` are the exact values.
fn place_member(end: u64, al: u64, sz: u64, Ghost(end_true): Ghost<nat>, Ghost(sz_true): Ghost<nat>) -> (r: u64)
    requires
        end == sat(end_true),
        sz == sat(sz_true),
        1 <= al <= 8,
    ensures
        r == sat(round_up(end_true, al as nat) + sz_true),
{
    proof { lemma_round_up_ge(end_true, al as nat); }
    if end == u64::MAX || sz == u64::MAX {
        return u64::MAX;
    }
    let x: u128 = end as u128;
    let a: u128 = al as u128;
    let rounded: u128 = ((x + a - 1) / a) * a;
    proof {
        assert(end_true == end as nat);
        assert(rounded == round_up(end_true, al as nat));
    }
    let total: u128 = rounded + sz as u128;
    if total >= u64::MAX as u128 { u64::MAX } else { total as u64 }
}

/// Alignment in bytes of type `ty`.
pub fn type_byte_align(arena: &Arena, ty: Type) -> (r: u64)
    requires
        arena.wf(),
        arena.valid(ty),
    ensures
        r == type_align(arena, ty),
    decreases ty.rank(),
{
    match ty {
        Type::I8 | Type::Bool => 1,
        Type::I16 => 2,
        Type::I32 => 4,
        Type::Tuple(id) => {
            let elems = id.elems(arena);
            let ghost bound = id.0 as nat + 1;
            let mut m: u64 = 1;
            let mut i: usize = 0;
            while i < elems.len()
                invariant
                    arena.wf(),
                    arena.valid(ty),
                    ty == Type::Tuple(id),
                    elems@ == id.spec_elems(arena),
                    bound == id.0 as nat + 1,
                    0 <= i <= elems@.len(),
                    m == struct_layout(arena, elems@.take(i as int), bound).1,
                    1 <= m <= 8,
                decreases elems.len() - i,
            {
                let e = elems[i];
                proof {
                    assert(arena.compounds@[id.0 as int].parts()[i as int] == e);
                    assert(elems@.take(i + 1).drop_last() =~= elems@.take(i as int));
                    lemma_align_bounds(arena, e);
                }
                let al = type_byte_align(arena, e);
                if al > m {
                    m = al;
                }
                i += 1;
            }
            proof { assert(elems@.take(elems@.len() as int) =~= elems@); }
            m
        },
        _ => 8,
    }
}

/// Element size in bytes for malloc sizing: the alloc size of the type's
/// LLVM layout, the stride at which arrays of it are indexed (saturating
/// at `u64::MAX`).
pub fn type_byte_size(arena: &Arena, ty: Type) -> (r: u64)
    requires
        arena.wf(),
        arena.valid(ty),
    ensures
        r == sat(type_size(arena, ty)),
    decreases ty.rank(),
{
    match ty {
        Type::I8 | Type::Bool => 1,
        Type::I16 => 2,
        Type::I32 => 4,
        Type::I64 | Type::F64 => 8,
        Type::Tuple(id) => {
            let elems = id.elems(arena);
            let ghost bound = id.0 as nat + 1;
            let mut end: u64 = 0;
            let mut m: u64 = 1;
            let mut i: usize = 0;
            while i < elems.len()
                invariant
                    arena.wf(),
                    arena.valid(ty),
                    ty == Type::Tuple(id),
                    elems@ == id.spec_elems(arena),
                    bound == id.0 as nat + 1,
                    0 <= i <= elems@.len(),
                    end == sat(struct_layout(arena, elems@.take(i as int), bound).0),
                    m == struct_layout(arena, elems@.take(i as int), bound).1,
                    1 <= m <= 8,
                decreases elems.len() - i,
            {
                let e = elems[i];
                proof {
                    assert(arena.compounds@[id.0 as int].parts()[i as int] == e);
                    assert(elems@.take(i + 1).drop_last() =~= elems@.take(i as int));
                    lemma_align_bounds(arena, e);
                }
                let sz = type_byte_size(arena, e);
                let al = type_byte_align(arena, e);
                end = place_member(end, al, sz, Ghost(struct_layout(arena, elems@.take(i as int), bound).0), Ghost(type_size(arena, e)));
                if al > m {
                    m = al;
                }
                i += 1;
            }
            proof { assert(elems@.take(elems@.len() as int) =~= elems@); }
            place_member(end, m, 0, Ghost(struct_layout(arena, elems@, bound).0), Ghost(0))
        },
        Type::List(_) | Type::Dict(_) | Type::SetOf(_) | Type::Class(_) => 8,
        Type::Str => 16,
    }
}

/// The layout of a class instance's field struct: the end offset of its
/// last field, and its alignment.
pub open spec fn fields_layout(a: &Arena, fs: Seq<(String, Type)>) -> (nat, nat)
    decreases fs.len(),
{
    if fs.len() == 0 {
        (0, 1)
    } else {
        let prev = fields_layout(a, fs.drop_last());
        let al = type_align(a, fs.last().1);
        (round_up(prev.0, al) + type_size(a, fs.last().1), if al > prev.1 { al } else { prev.1 })
    }
}

/// Heap size of a class instance: the alloc size of its field struct.
pub open spec fn class_size(a: &Arena, fs: Seq<(String, Type)>) -> nat {
    round_up(fields_layout(a, fs).0, fields_layout(a, fs).1)
}

/// Bytes to allocate for an instance of class `id` (at least 1).
pub fn class_byte_size(arena: &Arena, id: ClassId) -> (r: u64)
    requires
        arena.wf(),
        id.0 < arena.classes@.len(),
    ensures
        r == (if class_size(arena, id.def(arena).fields@) == 0 { 1 } else { sat(class_size(arena, id.def(arena).fields@)) }),
{
    let fs = &arena.classes[id.0].fields;
    let mut end: u64 = 0;
    let mut m: u64 = 1;
    let mut i: usize = 0;
    while i < fs.len()
        invariant
            arena.wf(),
            id.0 < arena.classes@.len(),
            *fs == id.def(arena).fields,
            0 <= i <= fs@.len(),
            end == sat(fields_layout(arena, fs@.take(i as int)).0),
            m == fields_layout(arena, fs@.take(i as int)).1,
            1 <= m <= 8,
        decreases fs.len() - i,
    {
        proof {
            lemma_field_valid(arena, id, i as int);
            assert(fs@.take(i + 1).drop_last() =~= fs@.take(i as int));
            lemma_align_bounds(arena, fs@[i as int].1);
        }
        let sz = type_byte_size(arena, fs[i].1);
        let al = type_byte_align(arena, fs[i].1);
        end = place_member(end, al, sz, Ghost(fields_layout(arena, fs@.take(i as int)).0), Ghost(type_size(arena, fs@[i as int].1)));
        if al > m {
            m = al;
        }
        i += 1;
    }
    proof { assert(fs@.take(fs@.len() as int) =~= fs@); }
    let total = place_member(end, m, 0, Ghost(fields_layout(arena, fs@).0), Ghost(0));
    proof {
        lemma_round_up_ge(fields_layout(arena, fs@).0, m as nat);
    }
    if total == 0 { 1 } else { total }
}

/// The LLVM type of `t`, expanding class layouts at most `fuel` levels
/// deep (None when a class layout would need more: a class that contains
/// itself has no finite layout).
pub fn llvm_ty(arena: &Arena, ty: Type, fuel: usize) -> (r: Option<String>)
    requires
        arena.wf(),
        arena.valid(ty),
    ensures
        is_scalar(ty) ==> (r matches Some(s) && s@ == scalar_llvm(ty)),
        layout_spelling(arena, ty, fuel, r),
    decreases fuel, ty.rank(),
{
    proof {
        reveal(all_layout_free);
        reveal(layout_spelling);
    }
    match ty {
        Type::I8 => Some(String::from_str("i8")),
        Type::I16 => Some(String::from_str("i16")),
        Type::I32 => Some(String::from_str("i32")),
        Type::I64 => Some(String::from_str("i64")),
        Type::F64 => Some(String::from_str("double")),
        Type::Bool => Some(String::from_str("i1")),
        Type::Tuple(id) => {
            let elems = id.elems(arena);
            let mut s = String::from_str("{ ");
            let mut i: usize = 0;
            while i < elems.len()
                invariant
                    arena.wf(),
                    arena.valid(ty),
                    ty == Type::Tuple(id),
                    elems@ == id.spec_elems(arena),
                    0 <= i <= elems@.len(),
                    all_layout_free(elems@) ==> s@ == "{ "@ + joined_scalars(elems@.take(i as int)),
                decreases elems.len() - i,
            {
                let e = elems[i];
                proof { assert(arena.compounds@[id.0 as int].parts()[i as int] == e); }
                proof {
                    reveal(all_layout_free);
                    reveal(layout_spelling);
                    if all_layout_free(elems@) {
                        assert(is_scalar(elems@[i as int]));
                    }
                }
                let es = llvm_ty(arena, e, fuel)?;
                proof {
                    reveal_strlit(", ");
                    assert(elems@.take(i + 1).drop_last() == elems@.take(i as int));
                }
                if i > 0 {
                    s.append(", ");
                }
                s.append(es.as_str());
                i += 1;
            }
            proof {
                reveal_strlit(" }");
                assert(elems@.take(elems@.len() as int) == elems@);
            }
            s.append(" }");
            Some(s)
        },
        Type::List(_) | Type::Dict(_) | Type::SetOf(_) => Some(String::from_str("{ i64, i64, i8* }*")),
        Type::Str => Some(String::from_str("{ i64, i8* }")),
        Type::Class(id) => {
            if fuel == 0 {
                return None;
            }
            let fs = &arena.classes[id.0].fields;
            let mut s = String::from_str("{ ");
            let mut i: usize = 0;
            while i < fs.len()
                invariant
                    arena.wf(),
                    fuel > 0,
                    ty == Type::Class(id),
                    id.0 < arena.classes@.len(),
                    *fs == id.def(arena).fields,
                    0 <= i <= fs@.len(),
                    all_layout_free(field_types(fs@)) ==> s@ == "{ "@ + joined_scalars(field_types(fs@).take(i as int)),
                decreases fs.len() - i,
            {
                proof {
                    lemma_field_valid(arena, id, i as int);
                    reveal(all_layout_free);
                    reveal(layout_spelling);
                    assert(field_types(fs@)[i as int] == fs@[i as int].1);
                    if all_layout_free(field_types(fs@)) {
                        assert(is_scalar(field_types(fs@)[i as int]));
                    }
                }
                let es = llvm_ty(arena, fs[i].1, fuel - 1)?;
                proof {
                    reveal_strlit(", ");
                    assert(field_types(fs@)[i as int] == fs@[i as int].1);
                    assert(field_types(fs@).take(i + 1).drop_last() == field_types(fs@).take(i as int));
                }
                if i > 0 {
                    s.append(", ");
                }
                s.append(es.as_str());
                i += 1;
            }
            if fs.len() == 0 {
                return Some(String::from_str("{ i8 }*"));
            }
            proof {
                reveal_strlit(" }*");
                assert(field_types(fs@).take(fs@.len() as int) == field_types(fs@));
            }
            s.append(" }*");
            Some(s)
        },
    }
}

/// The name of the SSA value that `c` handed out last.
pub open spec fn last_value(c: &Codegen) -> Seq<char> {
    value_name((c.next_id - 1) as nat)
}

/// The name of the SSA value that `c` handed out `k` values before its
/// last one.
pub open spec fn value_back(c: &Codegen, k: nat) -> Seq<char> {
    value_name((c.next_id - 1 - k) as nat)
}

/// `s` starts with `t`.
pub open spec fn starts_with(s: Seq<char>, t: Seq<char>) -> bool {
    t.len() <= s.len() && s.subrange(0, t.len() as int) == t
}

/// A text that ends with `y` still does after `x` is put before it.
pub proof fn lemma_ends_with_parts(p: Seq<char>, x: Seq<char>, y: Seq<char>)
    ensures
        ends_with(p + (x + y), y),
{
    let t = p + (x + y);
    assert(t.subrange(t.len() - y.len(), t.len() as int) =~= y);
}

/// A name with a binding among `es` is the name of one of its entries.
pub proof fn lemma_assoc_named<V>(es: Seq<(String, V)>, name: Seq<char>)
    requires
        assoc(es, name) is Some,
    ensures
        exists|i: int| 0 <= i < es.len() && (#[trigger] es[i]).0@ == name,
    decreases es.len(),
{
    if es[0].0@ == name {
        assert(es[0].0@ == name);
    } else {
        lemma_assoc_named(es.drop_first(), name);
        let i = choose|i: int| 0 <= i < es.drop_first().len() && (#[trigger] es.drop_first()[i]).0@ == name;
        assert(es[i + 1] == es.drop_first()[i]);
    }
}

/// `x` is a power of two.
pub open spec fn is_pow2(x: nat) -> bool
    decreases x,
{
    if x <= 1 {
        x == 1
    } else {
        x % 2 == 0 && is_pow2(x / 2)
    }
}

/// `s` ends with `t`.
pub open spec fn ends_with(s: Seq<char>, t: Seq<char>) -> bool {
    t.len() <= s.len() && s.subrange(s.len() - t.len(), s.len() as int) == t
}

/// The LLVM instruction of an integer binary operator that maps to a
/// single instruction.
pub open spec fn int_op_name(op: BinOp) -> Option<Seq<char>> {
    match op {
        BinOp::Add => Some("add"@),
        BinOp::Sub => Some("sub"@),
        BinOp::Mul => Some("mul"@),
        BinOp::BitAnd => Some("and"@),
        BinOp::BitOr => Some("or"@),
        BinOp::BitXor => Some("xor"@),
        BinOp::Shl => Some("shl"@),
        BinOp::Shr => Some("ashr"@),
        _ => None,
    }
}

/// The LLVM instruction of a float binary operator that maps to a single
/// instruction.
pub open spec fn float_op_name(op: BinOp) -> Option<Seq<char>> {
    match op {
        BinOp::Add => Some("fadd"@),
        BinOp::Sub => Some("fsub"@),
        BinOp::Mul => Some("fmul"@),
        BinOp::TrueDiv => Some("fdiv"@),
        _ => None,
    }
}

/// The line `<d> = <name> <ty> <a>, <b>`.
pub open spec fn int_op_line(d: Seq<char>, name: Seq<char>, ty: Seq<char>, a: Seq<char>, b: Seq<char>) -> Seq<char> {
    instr(d + " = "@ + name + " "@ + ty + " "@ + a + ", "@ + b)
}

/// The line `<d> = <name> double <a>, <b>`.
pub open spec fn float_op_line(d: Seq<char>, name: Seq<char>, a: Seq<char>, b: Seq<char>) -> Seq<char> {
    instr(d + " = "@ + name + " double "@ + a + ", "@ + b)
}

/// After lowering a binary operation `op` on operands of type `t`, a
/// block still open ends with the operation's instruction: the single
/// integer or float instruction of `op`, writing the last value handed
/// out, on some operand texts.
#[verifier::opaque]
pub open spec fn binop_emitted(c: &Codegen, op: BinOp, t: Type) -> bool {
    &&& (t.spec_is_int() && c.next_id < usize::MAX && !c.block_terminated)
        ==> (int_op_name(op) matches Some(nm) ==> exists|a: Seq<char>, b: Seq<char>|
            #[trigger] ends_with(c.body@, int_op_line(last_value(c), nm, scalar_llvm(t), a, b)))
    &&& (t == Type::F64 && c.next_id < usize::MAX && !c.block_terminated)
        ==> (float_op_name(op) matches Some(nm) ==> exists|a: Seq<char>, b: Seq<char>|
            #[trigger] ends_with(c.body@, float_op_line(last_value(c), nm, a, b)))
}

/// The operand text that lowering the leaf `e` gives when the next value
/// number is `k`, with the number of values it takes: a constant is
/// written in place, a scalar variable is loaded into value `k`.
pub open spec fn leaf_operand(locals: Seq<(String, Type)>, e: TypedExpr, k: usize) -> Option<(Seq<char>, nat)> {
    match e.expr {
        Expr::ConstI64(v) => Some((i64_decimal(v), 0nat)),
        Expr::ConstBool(b) => Some((if b { "1"@ } else { "0"@ }, 0nat)),
        Expr::ConstF64(f) => Some((f.text@, 0nat)),
        Expr::Var(n) => match assoc(locals, n@) {
            Some(t) => if is_scalar(t) { Some((value_name_of(k), 1nat)) } else { None },
            None => None,
        },
        _ => None,
    }
}

/// The branch that ends the left operand's block of a short-circuit
/// `and` / `or` numbered `n` on truth value `c`: `and` goes on to the
/// right operand when `c` holds and to the merge otherwise, `or` the
/// other way round.
pub open spec fn short_circuit_branch(op: BoolOp, c: Seq<char>, n: Seq<char>) -> Seq<char> {
    match op {
        BoolOp::And => instr("br i1 "@ + c + ", label %"@ + ("bool.eval_rhs."@ + n) + ", label %"@ + ("bool.merge."@ + n)),
        BoolOp::Or => instr("br i1 "@ + c + ", label %"@ + ("bool.merge."@ + n) + ", label %"@ + ("bool.eval_rhs."@ + n)),
    }
}

/// The line that sets `c` to the truth of operand `o` of type `t`: that it
/// differs from zero.
pub open spec fn truth_line(t: Type, c: Seq<char>, o: Seq<char>) -> Seq<char> {
    if t == Type::F64 {
        instr(c + " = fcmp one double "@ + o + ", 0.0"@)
    } else {
        instr(c + " = icmp ne "@ + scalar_llvm(t) + " "@ + o + ", 0"@)
    }
}

/// The load that lowering leaf `e` emits into value `k`: one for a
/// variable, none for a constant.
pub open spec fn leaf_load(locals: Seq<(String, Type)>, e: TypedExpr, k: usize) -> Seq<char> {
    match e.expr {
        Expr::Var(n) => match assoc(locals, n@) {
            Some(t) => instr(var_load(k, t, n@)),
            None => Seq::empty(),
        },
        _ => Seq::empty(),
    }
}

/// The slot `%bool.<k>.addr` that holds a short-circuit's value.
pub open spec fn bool_slot_name(k: usize) -> Seq<char> {
    "%bool."@ + decimal(k as nat) + ".addr"@
}

/// `store <t> <v>, <t>* <slot>`.
pub open spec fn store_line(t: Seq<char>, v: Seq<char>, slot: Seq<char>) -> Seq<char> {
    instr("store "@ + t + " "@ + v + ", "@ + t + "* "@ + slot)
}

/// Lowering `lhs op rhs` (`and` / `or`) on scalar leaves from state `c0`
/// (an open block) to `c1`: the left operand is stored into the
/// short-circuit's slot before it is tested, the block numbered `n` that
/// evaluates the right operand stores it into the same slot and jumps to
/// the merge, and the merge loads the slot into the result, the last
/// value handed out.
#[verifier::opaque]
pub open spec fn short_circuit_result(c0: &Codegen, c1: &Codegen, lhs: TypedExpr, rhs: TypedExpr, result_ty: Type) -> bool {
    (!c0.block_terminated && c0.next_id + 6 < usize::MAX && is_scalar(lhs.ty) && is_scalar(result_ty))
        ==> (leaf_operand(c0.locals@, lhs, offset_id(c0.next_id, 1)) matches Some(a)
        ==> (leaf_operand(c0.locals@, rhs, offset_id(c0.next_id, 2 + a.1)) matches Some(b) ==> {
            let t = scalar_llvm(result_ty);
            let slot = bool_slot_name(c0.next_id);
            let n = decimal(c0.next_block_id as nat);
            &&& holds_text(c1.body@, store_line(t, a.0, slot)
                + truth_line(lhs.ty, value_name_of(offset_id(c0.next_id, 1 + a.1)), a.0))
            &&& ends_with(c1.body@, ("bool.eval_rhs."@ + n) + ":\n"@
                + leaf_load(c0.locals@, rhs, offset_id(c0.next_id, 2 + a.1))
                + store_line(t, b.0, slot)
                + instr("br label %"@ + ("bool.merge."@ + n))
                + ("bool.merge."@ + n) + ":\n"@
                + instr(last_value(c1) + " = load "@ + t + ", "@ + t + "* "@ + slot))
        }))
}

/// Lowering a short-circuit `op` whose left operand `lhs` is a scalar
/// leaf, from state `c0` (an open block) to `c1`, tests the left operand
/// against zero and branches on that very test right away.
#[verifier::opaque]
pub open spec fn short_circuit_tests_truth(c0: &Codegen, c1: &Codegen, op: BoolOp, lhs: TypedExpr) -> bool {
    (!c0.block_terminated && c0.next_id + 4 < usize::MAX && is_scalar(lhs.ty))
        ==> (leaf_operand(c0.locals@, lhs, offset_id(c0.next_id, 1)) matches Some(a) ==> holds_text(c1.body@,
            truth_line(lhs.ty, value_name_of(offset_id(c0.next_id, 1 + a.1)), a.0)
            + short_circuit_branch(op, value_name_of(offset_id(c0.next_id, 1 + a.1)), decimal(c0.next_block_id as nat))))
}

/// Lowering a short-circuit `op` whose left operand `lhs` is a leaf, from
/// state `c0` (an open block) to `c1`, ends the left operand's block with
/// the branch of `short_circuit_branch` on the left operand's truth value.
#[verifier::opaque]
pub open spec fn short_circuit_emitted(c0: &Codegen, c1: &Codegen, op: BoolOp, lhs: TypedExpr) -> bool {
    (!c0.block_terminated && c0.next_id + 4 < usize::MAX && leaf_operand(c0.locals@, lhs, offset_id(c0.next_id, 1)) is Some)
        ==> exists|c: Seq<char>| #[trigger] holds_text(c1.body@, short_circuit_branch(op, c, decimal(c0.next_block_id as nat)))
}

/// Law: `x < y` on two `int` variables compares, with `icmp slt`, the
/// value loaded first (from `x`) against the value loaded second (from
/// `y`), in that order.
pub proof fn law_less_than_reads_left_then_right(c0: &Codegen, c1: &Codegen, x: String, y: String)
    requires
        compare_emitted(c0, c1, CmpOp::Lt, TypedExpr { ty: Type::I64, expr: Expr::Var(x) },
            TypedExpr { ty: Type::I64, expr: Expr::Var(y) }),
        !c0.block_terminated,
        c0.next_id + 3 < usize::MAX,
        assoc(c0.locals@, x@) == Some(Type::I64),
        assoc(c0.locals@, y@) == Some(Type::I64),
    ensures
        ends_with(c1.body@, "  "@ + last_value(c1) + " = icmp slt i64 "@ + value_name(c0.next_id as nat) + ", "@
            + value_name((c0.next_id + 1) as nat) + "\n"@),
{
    reveal(compare_emitted);
    reveal_strlit(" = icmp ");
    reveal_strlit("slt");
    reveal_strlit(" ");
    reveal_strlit("i64");
    reveal_strlit(" = icmp slt i64 ");
    let a = value_name(c0.next_id as nat);
    let b = value_name((c0.next_id + 1) as nat);
    assert(offset_id(c0.next_id, 1) == c0.next_id + 1);
    assert(" = icmp "@ + "slt"@ + " "@ + "i64"@ + " "@ =~= " = icmp slt i64 "@);
    assert(compare_line(last_value(c1), CmpOp::Lt, Type::I64, a, b)
        =~= "  "@ + last_value(c1) + " = icmp slt i64 "@ + a + ", "@ + b + "\n"@);
}

/// Law: after `l and r` (resp. `l or r`) with a leaf `l`, the block of
/// `l` ends with a branch on `l`'s truth value whose true target is the
/// block that evaluates `r` (resp. the merge, keeping `l`) and whose
/// false target is the merge (resp. the block that evaluates `r`): `and`
/// evaluates `r` exactly when `l` is true, `or` exactly when it is false.
pub proof fn law_short_circuit_targets(c0: &Codegen, c1: &Codegen, op: BoolOp, lhs: TypedExpr)
    requires
        short_circuit_emitted(c0, c1, op, lhs),
        !c0.block_terminated,
        c0.next_id + 4 < usize::MAX,
        leaf_operand(c0.locals@, lhs, offset_id(c0.next_id, 1)) is Some,
    ensures
        op == BoolOp::And ==> exists|c: Seq<char>| #[trigger] holds_text(c1.body@, "  br i1 "@ + c
            + (", label %bool.eval_rhs."@ + decimal(c0.next_block_id as nat))
            + (", label %bool.merge."@ + decimal(c0.next_block_id as nat)) + "\n"@),
        op == BoolOp::Or ==> exists|c: Seq<char>| #[trigger] holds_text(c1.body@, "  br i1 "@ + c
            + (", label %bool.merge."@ + decimal(c0.next_block_id as nat))
            + (", label %bool.eval_rhs."@ + decimal(c0.next_block_id as nat)) + "\n"@),
{
    reveal(short_circuit_emitted);
    reveal_strlit("br i1 ");
    reveal_strlit("  ");
    reveal_strlit("  br i1 ");
    reveal_strlit(", label %");
    reveal_strlit("bool.eval_rhs.");
    reveal_strlit("bool.merge.");
    reveal_strlit(", label %bool.eval_rhs.");
    reveal_strlit(", label %bool.merge.");
    let n = decimal(c0.next_block_id as nat);
    let c = choose|c: Seq<char>| #[trigger] holds_text(c1.body@, short_circuit_branch(op, c, n));
    assert("  "@ + "br i1 "@ =~= "  br i1 "@);
    assert(", label %"@ + "bool.eval_rhs."@ =~= ", label %bool.eval_rhs."@);
    assert(", label %"@ + "bool.merge."@ =~= ", label %bool.merge."@);
    if op == BoolOp::And {
        assert(short_circuit_branch(op, c, n) =~= "  br i1 "@ + c + (", label %bool.eval_rhs."@ + n)
            + (", label %bool.merge."@ + n) + "\n"@);
    } else {
        assert(short_circuit_branch(op, c, n) =~= "  br i1 "@ + c + (", label %bool.merge."@ + n)
            + (", label %bool.eval_rhs."@ + n) + "\n"@);
    }
}

/// A line of six, seven or nine parts emits their texts one after another.
#[verifier::opaque]
pub open spec fn line_of_parts(c0: &Codegen, c1: &Codegen, parts: Seq<&str>) -> bool {
    &&& parts.len() == 2 ==> emitted(c0, c1, instr(parts[0]@ + parts[1]@))
    &&& parts.len() == 4 ==> emitted(c0, c1, instr(parts[0]@ + parts[1]@ + parts[2]@ + parts[3]@))
    &&& parts.len() == 8 ==> emitted(c0, c1, instr(parts[0]@ + parts[1]@ + parts[2]@
        + parts[3]@ + parts[4]@ + parts[5]@ + parts[6]@ + parts[7]@))
    &&& parts.len() == 6 ==> emitted(c0, c1, instr(parts[0]@ + parts[1]@ + parts[2]@
        + parts[3]@ + parts[4]@ + parts[5]@))
    &&& parts.len() == 7 ==> emitted(c0, c1, instr(parts[0]@ + parts[1]@ + parts[2]@
        + parts[3]@ + parts[4]@ + parts[5]@ + parts[6]@))
    &&& parts.len() == 9 ==> emitted(c0, c1, instr(parts[0]@ + parts[1]@ + parts[2]@
        + parts[3]@ + parts[4]@ + parts[5]@ + parts[6]@ + parts[7]@ + parts[8]@))
}

/// The text of a short-circuit from its left operand's store to its
/// result's load, put together from the pieces that each step appended.
proof fn lemma_bool_tail(bs: Seq<char>, b1: Seq<char>, b2: Seq<char>, b3: Seq<char>, b4: Seq<char>, b5: Seq<char>,
    b6: Seq<char>, fin: Seq<char>, sline: Seq<char>, bline: Seq<char>, n: Seq<char>, ld: Seq<char>, t: Seq<char>,
    v: Seq<char>, sl: Seq<char>, d: Seq<char>)
    requires
        b1 == bs + sline + bline,
        b2 == b1 + ("bool.eval_rhs."@ + n) + ":\n"@,
        b3 == b2 + ld,
        b4 == b3 + store_line(t, v, sl),
        b5 == b4 + instr("br label %"@ + ("bool.merge."@ + n)),
        b6 == b5 + ("bool.merge."@ + n) + ":\n"@,
        fin == b6 + instr(d + " = load "@ + t + ", "@ + t + "* "@ + sl),
    ensures
        holds_text(fin, sline),
        ends_with(fin, ("bool.eval_rhs."@ + n) + ":\n"@ + ld + store_line(t, v, sl)
            + instr("br label %"@ + ("bool.merge."@ + n)) + ("bool.merge."@ + n) + ":\n"@
            + instr(d + " = load "@ + t + ", "@ + t + "* "@ + sl)),
{
    let tail = ("bool.eval_rhs."@ + n) + ":\n"@ + ld + store_line(t, v, sl)
        + instr("br label %"@ + ("bool.merge."@ + n)) + ("bool.merge."@ + n) + ":\n"@
        + instr(d + " = load "@ + t + ", "@ + t + "* "@ + sl);
    assert(fin =~= b1 + tail);
    lemma_ends_with_appended(b1, tail);
    assert(fin.subrange(bs.len() as int, (bs.len() + sline.len()) as int) =~= sline);
    assert(piece_at(fin, bs.len() as int, sline));
}

/// Extending a text twice extends it.
proof fn lemma_extends_text_trans(a: Seq<char>, b: Seq<char>, c: Seq<char>)
    requires
        extends_text(a, b),
        extends_text(b, c),
    ensures
        extends_text(a, c),
{
}

/// A text ends with what was appended to it last.
pub proof fn lemma_ends_with_appended(p: Seq<char>, t: Seq<char>)
    ensures
        ends_with(p + t, t),
{
    assert((p + t).subrange((p + t).len() - t.len(), (p + t).len() as int) =~= t);
}

/// Value number `k` moved on by `n`.
pub open spec fn offset_id(k: usize, n: nat) -> usize {
    (k + n) as usize
}

/// The compare instruction `<d> = icmp <op> <t> <a>, <b>` (`fcmp` on
/// doubles): `a` is the left operand, `b` the right one.
pub open spec fn compare_line(d: Seq<char>, op: CmpOp, t: Type, a: Seq<char>, b: Seq<char>) -> Seq<char> {
    if t == Type::F64 {
        instr(d + " = fcmp "@ + fcmp_name(op) + " double "@ + a + ", "@ + b)
    } else {
        instr(d + " = icmp "@ + icmp_name(op) + " "@ + scalar_llvm(t) + " "@ + a + ", "@ + b)
    }
}

/// Lowering the leaf `e` took the emitter from `c0` to `c1` and gave the
/// operand `t` (no claim where `e` is no leaf or the block was closed).
#[verifier::opaque]
pub open spec fn lowered_leaf(c0: &Codegen, c1: &Codegen, e: TypedExpr, t: Seq<char>) -> bool {
    (!c0.block_terminated && c0.next_id + 3 < usize::MAX) ==> (leaf_operand(c0.locals@, e, c0.next_id) matches Some(a) ==> {
        &&& t == a.0
        &&& c1.next_id == c0.next_id + a.1
        &&& !c1.block_terminated
        &&& c1.locals == c0.locals
    })
}

/// Lowering the comparison `lhs op rhs` from state `c0` to `c1`, where
/// both operands are leaves, writes the left operand's value first: an
/// open block ends with the compare of the left operand against the
/// right one, into the last value handed out.
#[verifier::opaque]
pub open spec fn compare_emitted(c0: &Codegen, c1: &Codegen, op: CmpOp, lhs: TypedExpr, rhs: TypedExpr) -> bool {
    (!c0.block_terminated && c0.next_id + 3 < usize::MAX && is_scalar(lhs.ty)) ==>
        (leaf_operand(c0.locals@, lhs, c0.next_id) matches Some(a) ==>
            (leaf_operand(c0.locals@, rhs, offset_id(c0.next_id, a.1)) matches Some(b) ==>
                ends_with(c1.body@, compare_line(last_value(c1), op, lhs.ty, a.0, b.0))))
}

/// The name of the SSA value numbered `k`.
pub open spec fn value_name_of(k: usize) -> Seq<char> {
    value_name(k as nat)
}

/// The instruction that loads scalar variable `n` of type `t` from its
/// slot into SSA value number `k`.
pub open spec fn var_load(k: usize, t: Type, n: Seq<char>) -> Seq<char> {
    value_name(k as nat) + " = load "@ + scalar_llvm(t) + ", "@ + scalar_llvm(t) + "* %"@ + n + ".addr"@
}

/// The state of the emitter for one function body.
pub struct Codegen {
    pub body: String,
    pub next_id: usize,
    pub next_block_id: usize,
    pub block_terminated: bool,
    /// (continue target, break target) of each enclosing loop.
    pub loop_targets: Vec<(String, String)>,
    /// Variable slots: name → type (set when entering a function).
    pub locals: Vec<(String, Type)>,
    /// String literals of the whole module, in first-use order.
    pub str_lits: Vec<String>,
    /// The first internal inconsistency met, if any.
    pub error: Option<String>,
}

/// `%v<n>`: the name of the `n`-th SSA value of a function.
pub open spec fn value_name(n: nat) -> Seq<char> {
    "%v"@ + decimal(n)
}

/// Law: values numbered differently get different names, so the names
/// that successive calls of [`Codegen::fresh`] hand out (its counter goes
/// up by one each time) never clash.
pub proof fn law_value_names_distinct(m: nat, n: nat)
    requires
        m != n,
    ensures
        value_name(m) != value_name(n),
{
    if value_name(m) == value_name(n) {
        reveal_strlit("%v");
        assert(value_name(m).subrange(2, value_name(m).len() as int) =~= decimal(m));
        assert(value_name(n).subrange(2, value_name(n).len() as int) =~= decimal(n));
        lemma_decimal_injective(m, n);
    }
}

/// The LLVM spelling of a type that is neither a tuple nor a class.
pub open spec fn scalar_llvm(t: Type) -> Seq<char> {
    match t {
        Type::I8 => "i8"@,
        Type::I16 => "i16"@,
        Type::I32 => "i32"@,
        Type::I64 => "i64"@,
        Type::F64 => "double"@,
        Type::Bool => "i1"@,
        Type::Str => "{ i64, i8* }"@,
        Type::List(_) | Type::Dict(_) | Type::SetOf(_) => "{ i64, i64, i8* }*"@,
        _ => Seq::empty(),
    }
}

/// What `llvm_ty` gives for a tuple or a class whose parts all have a
/// layout-free spelling: `{ a, b }` for a tuple, `{ a, b }*` for a class
/// (`{ i8 }*` when it has no field), and nothing for a class once `fuel`
/// is spent.
#[verifier::opaque]
pub open spec fn layout_spelling(arena: &Arena, ty: Type, fuel: usize, r: Option<String>) -> bool {
    &&& ty matches Type::Tuple(id) ==> (all_layout_free(id.spec_elems(arena))
            ==> (r matches Some(s) && s@ == "{ "@ + joined_scalars(id.spec_elems(arena)) + " }"@))
    &&& ty matches Type::Class(id) ==> (fuel == 0 ==> r is None)
    &&& ty matches Type::Class(id) ==> ((fuel > 0 && all_layout_free(field_types(id.def(arena).fields@)))
            ==> (r matches Some(s) && s@ == class_spelling(field_types(id.def(arena).fields@))))
}

/// Every type in `ts` has a layout-free LLVM spelling.
#[verifier::opaque]
pub open spec fn all_layout_free(ts: Seq<Type>) -> bool {
    forall|k: int| 0 <= k < ts.len() ==> #[trigger] is_scalar(ts[k])
}

/// The LLVM spellings of `ts`, separated by `", "`.
pub open spec fn joined_scalars(ts: Seq<Type>) -> Seq<char>
    decreases ts.len(),
{
    if ts.len() == 0 {
        Seq::empty()
    } else if ts.len() == 1 {
        scalar_llvm(ts[0])
    } else {
        joined_scalars(ts.drop_last()) + ", "@ + scalar_llvm(ts.last())
    }
}

/// The types of a class's fields, in order.
pub open spec fn field_types(fs: Seq<(String, Type)>) -> Seq<Type> {
    Seq::new(fs.len(), |k: int| fs[k].1)
}

/// The LLVM spelling of a pointer to a class whose fields have types `ts`
/// (a one-byte body when it has none).
pub open spec fn class_spelling(ts: Seq<Type>) -> Seq<char> {
    if ts.len() == 0 {
        "{ i8 }*"@
    } else {
        "{ "@ + joined_scalars(ts) + " }*"@
    }
}

/// Types whose LLVM spelling does not depend on a layout.
pub open spec fn is_scalar(t: Type) -> bool {
    !(t is Tuple || t is Class)
}

/// The instructions of Python floor division `l // r` on ints of LLVM
/// type `t`, numbering values from `n`: the truncating quotient, minus
/// one when the remainder is non-zero and the operands' signs differ.
pub open spec fn floor_div_text(n: nat, t: Seq<char>, l: Seq<char>, r: Seq<char>) -> Seq<char> {
    floor_div_lines(seq![value_name(n), value_name(n + 1), value_name(n + 2), value_name(n + 3),
        value_name(n + 4), value_name(n + 5), value_name(n + 6), value_name(n + 7)], t, l, r)
}

/// [`floor_div_text`] with the value names `v` spelled out.
pub open spec fn floor_div_lines(v: Seq<Seq<char>>, t: Seq<char>, l: Seq<char>, r: Seq<char>) -> Seq<char> {
    instr(v[0] + " = sdiv "@ + t + " "@ + l + ", "@ + r)
        + instr(v[1] + " = srem "@ + t + " "@ + l + ", "@ + r)
        + instr(v[2] + " = icmp ne "@ + t + " "@ + v[1] + ", 0"@)
        + instr(v[3] + " = xor "@ + t + " "@ + l + ", "@ + r)
        + instr(v[4] + " = icmp slt "@ + t + " "@ + v[3] + ", 0"@)
        + instr(v[5] + " = and i1 "@ + v[2] + ", "@ + v[4])
        + instr(v[6] + " = sext i1 "@ + v[5] + " to "@ + t)
        + instr(v[7] + " = add "@ + t + " "@ + v[0] + ", "@ + v[6])
}

/// The instructions of Python modulo `l % r` on ints of LLVM type `t`,
/// numbering values from `n`: the truncating remainder, plus `r` when it
/// is non-zero and its sign differs from `r`'s.
pub open spec fn floor_mod_text(n: nat, t: Seq<char>, l: Seq<char>, r: Seq<char>) -> Seq<char> {
    floor_mod_lines(seq![value_name(n), value_name(n + 1), value_name(n + 2), value_name(n + 3),
        value_name(n + 4), value_name(n + 5), value_name(n + 6)], t, l, r)
}

/// [`floor_mod_text`] with the value names `v` spelled out.
pub open spec fn floor_mod_lines(v: Seq<Seq<char>>, t: Seq<char>, l: Seq<char>, r: Seq<char>) -> Seq<char> {
    instr(v[0] + " = srem "@ + t + " "@ + l + ", "@ + r)
        + instr(v[1] + " = icmp ne "@ + t + " "@ + v[0] + ", 0"@)
        + instr(v[2] + " = xor "@ + t + " "@ + v[0] + ", "@ + r)
        + instr(v[3] + " = icmp slt "@ + t + " "@ + v[2] + ", 0"@)
        + instr(v[4] + " = and i1 "@ + v[1] + ", "@ + v[3])
        + instr(v[5] + " = select i1 "@ + v[4] + ", "@ + t + " "@ + r + ", "@ + t + " 0"@)
        + instr(v[6] + " = add "@ + t + " "@ + v[0] + ", "@ + v[5])
}

/// Loading field `field` (`"0"` length, `"2"` data) of the list header
/// `list`, numbering values from `n`.
pub open spec fn list_field_text(n: nat, list: Seq<char>, field: Seq<char>, ty: Seq<char>) -> Seq<char> {
    instr(value_name(n) + " = getelementptr { i64, i64, i8* }, { i64, i64, i8* }* "@ + list + ", i32 0, i32 "@ + field)
        + instr(value_name(n + 1) + " = load "@ + ty + ", "@ + ty + "* "@ + value_name(n))
}

/// Allocating a list header and storing `len`, `cap` and `data` into it,
/// numbering values from `n`.
pub open spec fn list_struct_text(n: nat, len: Seq<char>, cap: Seq<char>, data: Seq<char>) -> Seq<char> {
    let raw = value_name(n);
    let p = value_name(n + 1);
    let lp = value_name(n + 2);
    let cp = value_name(n + 3);
    let dp = value_name(n + 4);
    instr(raw + " = call i8* @malloc(i64 24)"@)
        + instr(p + " = bitcast i8* "@ + raw + " to { i64, i64, i8* }*"@)
        + instr(lp + " = getelementptr { i64, i64, i8* }, { i64, i64, i8* }* "@ + p + ", i32 0, i32 0"@)
        + instr("store i64 "@ + len + ", i64* "@ + lp)
        + instr(cp + " = getelementptr { i64, i64, i8* }, { i64, i64, i8* }* "@ + p + ", i32 0, i32 1"@)
        + instr("store i64 "@ + cap + ", i64* "@ + cp)
        + instr(dp + " = getelementptr { i64, i64, i8* }, { i64, i64, i8* }* "@ + p + ", i32 0, i32 2"@)
        + instr("store i8* "@ + data + ", i8** "@ + dp)
}

/// Where the literal `s` sits among the module's literals `lits`: at its
/// first occurrence, or at the end when it is new.
pub open spec fn lit_index(lits: Seq<Seq<char>>, s: Seq<char>) -> nat
    decreases lits.len(),
{
    if lits.len() == 0 {
        0
    } else if lit_index(lits.drop_last(), s) < lits.len() - 1 {
        lit_index(lits.drop_last(), s)
    } else if lits.last() == s {
        (lits.len() - 1) as nat
    } else {
        lits.len()
    }
}

/// The literals after `s` is used: unchanged when it already occurs,
/// else with `s` appended.
pub open spec fn interned(lits: Seq<Seq<char>>, s: Seq<char>) -> Seq<Seq<char>> {
    if lit_index(lits, s) < lits.len() { lits } else { lits.push(s) }
}

proof fn lemma_lit_index(lits: Seq<Seq<char>>, s: Seq<char>)
    ensures
        lit_index(lits, s) <= lits.len(),
        lit_index(lits, s) < lits.len() ==> lits[lit_index(lits, s) as int] == s,
        forall|j: int| 0 <= j < lit_index(lits, s) ==> lits[j] != s,
    decreases lits.len(),
{
    if lits.len() > 0 {
        lemma_lit_index(lits.drop_last(), s);
        assert forall|j: int| 0 <= j < lits.len() - 1 implies #[trigger] lits[j] == lits.drop_last()[j] by {}
    }
}

/// The instructions that view literal number `idx` (of `byte_len` bytes)
/// as a `{ len, data }` string, numbering values from `n`.
pub open spec fn str_lit_text(n: nat, idx: nat, byte_len: nat) -> Seq<char> {
    let data = value_name(n);
    let s0 = value_name(n + 1);
    let s1 = value_name(n + 2);
    instr(data + " = getelementptr inbounds ["@ + decimal(byte_len + 1) + " x i8], ["@ + decimal(byte_len + 1)
        + " x i8]* @.str."@ + decimal(idx) + ", i64 0, i64 0"@)
        + instr(s0 + " = insertvalue { i64, i8* } undef, i64 "@ + signed_decimal(((byte_len as int) as i64) as int) + ", 0"@)
        + instr(s1 + " = insertvalue { i64, i8* } "@ + s0 + ", i8* "@ + data + ", 1"@)
}

/// The text of one emitted instruction line.
pub open spec fn instr(s: Seq<char>) -> Seq<char> {
    "  "@ + s + "\n"@
}

/// The views of a list of string slices.
pub open spec fn part_views(parts: Seq<&str>) -> Seq<Seq<char>> {
    parts.map_values(|p: &str| p@)
}

/// The concatenation of `parts`, in order.
pub open spec fn concat_all(parts: Seq<Seq<char>>) -> Seq<char>
    decreases parts.len(),
{
    if parts.len() == 0 {
        Seq::empty()
    } else {
        concat_all(parts.drop_last()) + parts.last()
    }
}

/// `new` is `old` with `text` appended to the current block (nothing is
/// appended after the block's terminator) and nothing else changed but
/// the value counter.
pub open spec fn emitted(old: &Codegen, new: &Codegen, text: Seq<char>) -> bool {
    &&& new.body@ == old.body@ + (if old.block_terminated { Seq::<char>::empty() } else { text })
    &&& new.block_terminated == old.block_terminated
    &&& new.next_block_id == old.next_block_id
    &&& new.loop_targets == old.loop_targets
    &&& new.locals == old.locals
    &&& new.str_lits == old.str_lits
    &&& new.error == old.error
}

/// The single LLVM instruction of an integer operator, if it has one.
fn int_op_text(op: BinOp) -> (r: Option<&'static str>)
    ensures
        match (r, int_op_name(op)) {
            (Some(x), Some(y)) => x@ == y,
            (None, None) => true,
            _ => false,
        },
{
    match op {
        BinOp::Add => Some("add"),
        BinOp::Sub => Some("sub"),
        BinOp::Mul => Some("mul"),
        BinOp::BitAnd => Some("and"),
        BinOp::BitOr => Some("or"),
        BinOp::BitXor => Some("xor"),
        BinOp::Shl => Some("shl"),
        BinOp::Shr => Some("ashr"),
        _ => None,
    }
}

/// The single LLVM instruction of a float operator, if it has one.
fn float_op_text(op: BinOp) -> (r: Option<&'static str>)
    ensures
        match (r, float_op_name(op)) {
            (Some(x), Some(y)) => x@ == y,
            (None, None) => true,
            _ => false,
        },
{
    match op {
        BinOp::Add => Some("fadd"),
        BinOp::Sub => Some("fsub"),
        BinOp::Mul => Some("fmul"),
        BinOp::TrueDiv => Some("fdiv"),
        _ => None,
    }
}

impl Codegen {
    pub fn new() -> (r: Codegen)
        ensures
            r.body@.len() == 0,
            r.next_id == 0,
            r.next_block_id == 0,
            !r.block_terminated,
            r.loop_targets@.len() == 0,
            r.locals@.len() == 0,
            r.str_lits@.len() == 0,
            r.error is None,
    {
        Codegen {
            body: String::new(),
            next_id: 0,
            next_block_id: 0,
            block_terminated: false,
            loop_targets: Vec::new(),
            locals: Vec::new(),
            str_lits: Vec::new(),
            error: None,
        }
    }

    /// Record an internal inconsistency (the first one is kept).
    fn fail(&mut self, m: String)
        ensures
            final(self).error is Some,
            old(self).error is Some ==> final(self).error == old(self).error,
            final(self).body == old(self).body,
            final(self).next_id == old(self).next_id,
            final(self).next_block_id == old(self).next_block_id,
            final(self).block_terminated == old(self).block_terminated,
            final(self).loop_targets == old(self).loop_targets,
            final(self).locals == old(self).locals,
            final(self).str_lits == old(self).str_lits,
    {
        if self.error.is_none() {
            self.error = Some(m);
        }
    }

    /// A fresh SSA value name `%v<n>`.
    pub fn fresh(&mut self) -> (r: String)
        requires
            old(self).next_id < usize::MAX,
        ensures
            r@ == value_name(old(self).next_id as nat),
            final(self).next_id == old(self).next_id + 1,
            final(self).body == old(self).body,
            final(self).next_block_id == old(self).next_block_id,
            final(self).block_terminated == old(self).block_terminated,
            final(self).loop_targets == old(self).loop_targets,
            final(self).locals == old(self).locals,
            final(self).str_lits == old(self).str_lits,
            final(self).error == old(self).error,
    {
        let n = self.next_id;
        self.next_id = self.next_id + 1;
        let mut s = String::from_str("%v");
        push_decimal(&mut s, n as u64);
        s
    }

    /// Append `  <line>` to the current block, unless it is terminated.
    pub fn emit(&mut self, line: &str)
        ensures
            final(self).body@ == old(self).body@ + (if old(self).block_terminated { Seq::<char>::empty() } else { "  "@ + line@ + "\n"@ }),
            final(self).next_id == old(self).next_id,
            final(self).next_block_id == old(self).next_block_id,
            final(self).block_terminated == old(self).block_terminated,
            final(self).loop_targets == old(self).loop_targets,
            final(self).locals == old(self).locals,
            final(self).str_lits == old(self).str_lits,
            final(self).error == old(self).error,
    {
        if self.block_terminated {
            assert(self.body@ =~= old(self).body@ + Seq::<char>::empty());
            return;
        }
        self.body.append("  ");
        self.body.append(line);
        self.body.append("\n");
    }

    /// Start a new basic block `<label>:`.
    pub fn open_block(&mut self, label: &str)
        ensures
            final(self).body@ == old(self).body@ + label@ + ":\n"@,
            !final(self).block_terminated,
            final(self).next_id == old(self).next_id,
            final(self).next_block_id == old(self).next_block_id,
            final(self).loop_targets == old(self).loop_targets,
            final(self).locals == old(self).locals,
            final(self).str_lits == old(self).str_lits,
            final(self).error == old(self).error,
    {
        self.body.append(label);
        self.body.append(":\n");
        self.block_terminated = false;
    }

    /// A fresh block number.
    fn fresh_block(&mut self) -> (r: String)
        ensures
            r@ == decimal(old(self).next_block_id as nat),
            final(self).body == old(self).body,
            final(self).next_id == old(self).next_id,
            final(self).block_terminated == old(self).block_terminated,
            final(self).loop_targets == old(self).loop_targets,
            final(self).locals == old(self).locals,
            final(self).str_lits == old(self).str_lits,
            old(self).next_block_id < usize::MAX ==> final(self).next_block_id == old(self).next_block_id + 1,
            old(self).error is Some ==> final(self).error == old(self).error,
    {
        let n = self.next_block_id;
        if self.next_block_id < usize::MAX {
            self.next_block_id = self.next_block_id + 1;
        } else {
            self.fail(String::from_str("internal: block counter overflow"));
        }
        u64_to_string(n as u64)
    }

    /// A fresh value name; records an error instead of overflowing.
    fn value(&mut self) -> (r: String)
        ensures
            final(self).body == old(self).body,
            final(self).block_terminated == old(self).block_terminated,
            final(self).loop_targets == old(self).loop_targets,
            final(self).locals == old(self).locals,
            final(self).str_lits == old(self).str_lits,
            final(self).next_block_id == old(self).next_block_id,
            old(self).next_id < usize::MAX ==> r@ == value_name(old(self).next_id as nat) && final(self).next_id == old(self).next_id + 1,
            old(self).next_id < usize::MAX ==> final(self).error == old(self).error,
            old(self).error is Some ==> final(self).error == old(self).error,
            old(self).next_id == usize::MAX ==> final(self).next_id == usize::MAX,
    {
        if self.next_id < usize::MAX {
            self.fresh()
        } else {
            self.fail(String::from_str("internal: value counter overflow"));
            String::from_str("%overflow")
        }
    }

    /// Emit the concatenation of `parts` as one line.
    fn line(&mut self, parts: &[&str])
        ensures
            emitted(old(self), final(self), instr(concat_all(part_views(parts@)))),
            final(self).next_id == old(self).next_id,
            line_of_parts(old(self), final(self), parts@),
    {
        let mut s = String::new();
        let mut i: usize = 0;
        while i < parts.len()
            invariant
                0 <= i <= parts@.len(),
                s@ == concat_all(part_views(parts@.subrange(0, i as int))),
            decreases parts.len() - i,
        {
            proof {
                assert(part_views(parts@.subrange(0, i + 1)).drop_last() =~= part_views(parts@.subrange(0, i as int)));
            }
            s.append(parts[i]);
            i += 1;
        }
        assert(parts@.subrange(0, parts@.len() as int) =~= parts@);
        proof {
            reveal(line_of_parts);
            let pv = part_views(parts@);
            if parts@.len() == 2 {
                assert(pv =~= seq![parts@[0]@, parts@[1]@]);
                reveal_with_fuel(concat_all, 3);
                assert(concat_all(pv) =~= parts@[0]@ + parts@[1]@);
            }
            if parts@.len() == 8 {
                assert(pv =~= seq![parts@[0]@, parts@[1]@, parts@[2]@, parts@[3]@, parts@[4]@, parts@[5]@, parts@[6]@,
                    parts@[7]@]);
                reveal_with_fuel(concat_all, 9);
                assert(concat_all(pv) =~= parts@[0]@ + parts@[1]@ + parts@[2]@ + parts@[3]@ + parts@[4]@ + parts@[5]@ + parts@[6]@
                    + parts@[7]@);
            }
            if parts@.len() == 4 {
                assert(pv =~= seq![parts@[0]@, parts@[1]@, parts@[2]@, parts@[3]@]);
                reveal_with_fuel(concat_all, 5);
                assert(concat_all(pv) =~= parts@[0]@ + parts@[1]@ + parts@[2]@ + parts@[3]@);
            }
            if parts@.len() == 6 {
                assert(pv =~= seq![parts@[0]@, parts@[1]@, parts@[2]@, parts@[3]@, parts@[4]@, parts@[5]@]);
                reveal_with_fuel(concat_all, 7);
                assert(concat_all(pv) =~= parts@[0]@ + parts@[1]@ + parts@[2]@ + parts@[3]@ + parts@[4]@ + parts@[5]@);
            }
            if parts@.len() == 7 {
                assert(pv =~= seq![parts@[0]@, parts@[1]@, parts@[2]@, parts@[3]@, parts@[4]@, parts@[5]@, parts@[6]@]);
                reveal_with_fuel(concat_all, 8);
                assert(concat_all(pv) =~= parts@[0]@ + parts@[1]@ + parts@[2]@ + parts@[3]@ + parts@[4]@ + parts@[5]@ + parts@[6]@);
            }
            if parts@.len() == 9 {
                assert(pv =~= seq![parts@[0]@, parts@[1]@, parts@[2]@, parts@[3]@, parts@[4]@, parts@[5]@, parts@[6]@,
                    parts@[7]@, parts@[8]@]);
                reveal_with_fuel(concat_all, 10);
                assert(concat_all(pv) =~= parts@[0]@ + parts@[1]@ + parts@[2]@ + parts@[3]@ + parts@[4]@ + parts@[5]@ + parts@[6]@
                    + parts@[7]@ + parts@[8]@);
            }
        }
        self.emit(s.as_str());
    }

    /// Emit the line `ab`.
    fn line2(&mut self, a: &str, b: &str)
        ensures
            emitted(old(self), final(self), instr(a@ + b@)),
            final(self).next_id == old(self).next_id,
    {
        let parts = [a, b];
        proof {
            assert(parts@ == seq![a, b]);
            assert(part_views(parts@) =~= seq![a@, b@]);
            reveal_with_fuel(concat_all, 3);
            assert(concat_all(part_views(parts@)) =~= a@ + b@);
        }
        self.line(&parts);
    }

    /// Emit the line `abcd`.
    fn line4(&mut self, a: &str, b: &str, c: &str, d: &str)
        ensures
            emitted(old(self), final(self), instr(a@ + b@ + c@ + d@)),
            final(self).next_id == old(self).next_id,
    {
        let parts = [a, b, c, d];
        proof {
            assert(parts@ == seq![a, b, c, d]);
            assert(part_views(parts@) =~= seq![a@, b@, c@, d@]);
            reveal_with_fuel(concat_all, 5);
            assert(concat_all(part_views(parts@)) =~= a@ + b@ + c@ + d@);
        }
        self.line(&parts);
    }

    /// Emit the line `abcde`.
    fn line5(&mut self, a: &str, b: &str, c: &str, d: &str, e: &str)
        ensures
            emitted(old(self), final(self), instr(a@ + b@ + c@ + d@ + e@)),
            final(self).next_id == old(self).next_id,
    {
        let parts = [a, b, c, d, e];
        proof {
            assert(parts@ == seq![a, b, c, d, e]);
            assert(part_views(parts@) =~= seq![a@, b@, c@, d@, e@]);
            reveal_with_fuel(concat_all, 6);
            assert(concat_all(part_views(parts@)) =~= a@ + b@ + c@ + d@ + e@);
        }
        self.line(&parts);
    }

    /// Emit the line `abcdef`.
    fn line6(&mut self, a: &str, b: &str, c: &str, d: &str, e: &str, f: &str)
        ensures
            emitted(old(self), final(self), instr(a@ + b@ + c@ + d@ + e@ + f@)),
            final(self).next_id == old(self).next_id,
    {
        let parts = [a, b, c, d, e, f];
        proof {
            assert(parts@ == seq![a, b, c, d, e, f]);
            assert(part_views(parts@) =~= seq![a@, b@, c@, d@, e@, f@]);
            reveal_with_fuel(concat_all, 7);
            assert(concat_all(part_views(parts@)) =~= a@ + b@ + c@ + d@ + e@ + f@);
        }
        self.line(&parts);
    }

    /// Emit the line `abcdefg`.
    fn line7(&mut self, a: &str, b: &str, c: &str, d: &str, e: &str, f: &str, g: &str)
        ensures
            emitted(old(self), final(self), instr(a@ + b@ + c@ + d@ + e@ + f@ + g@)),
            final(self).next_id == old(self).next_id,
    {
        let parts = [a, b, c, d, e, f, g];
        proof {
            assert(parts@ == seq![a, b, c, d, e, f, g]);
            assert(part_views(parts@) =~= seq![a@, b@, c@, d@, e@, f@, g@]);
            reveal_with_fuel(concat_all, 8);
            assert(concat_all(part_views(parts@)) =~= a@ + b@ + c@ + d@ + e@ + f@ + g@);
        }
        self.line(&parts);
    }

    /// Emit the line `abcdefgh`.
    fn line8(&mut self, a: &str, b: &str, c: &str, d: &str, e: &str, f: &str, g: &str, h: &str)
        ensures
            emitted(old(self), final(self), instr(a@ + b@ + c@ + d@ + e@ + f@ + g@ + h@)),
            final(self).next_id == old(self).next_id,
    {
        let parts = [a, b, c, d, e, f, g, h];
        proof {
            assert(parts@ == seq![a, b, c, d, e, f, g, h]);
            assert(part_views(parts@) =~= seq![a@, b@, c@, d@, e@, f@, g@, h@]);
            reveal_with_fuel(concat_all, 9);
            assert(concat_all(part_views(parts@)) =~= a@ + b@ + c@ + d@ + e@ + f@ + g@ + h@);
        }
        self.line(&parts);
    }

    /// Emit the line `abcdefghij`.
    fn line10(&mut self, a: &str, b: &str, c: &str, d: &str, e: &str, f: &str, g: &str, h: &str, i: &str, j: &str)
        ensures
            emitted(old(self), final(self), instr(a@ + b@ + c@ + d@ + e@ + f@ + g@ + h@ + i@ + j@)),
            final(self).next_id == old(self).next_id,
    {
        let parts = [a, b, c, d, e, f, g, h, i, j];
        proof {
            assert(parts@ == seq![a, b, c, d, e, f, g, h, i, j]);
            assert(part_views(parts@) =~= seq![a@, b@, c@, d@, e@, f@, g@, h@, i@, j@]);
            reveal_with_fuel(concat_all, 11);
            assert(concat_all(part_views(parts@)) =~= a@ + b@ + c@ + d@ + e@ + f@ + g@ + h@ + i@ + j@);
        }
        self.line(&parts);
    }

    /// The LLVM type of `t`; records an error for a class that contains
    /// itself.
    fn ty(&mut self, arena: &Arena, t: Type) -> (r: String)
        requires
            arena.wf(),
            arena.valid(t),
        ensures
            final(self).body == old(self).body,
            final(self).next_id == old(self).next_id,
            final(self).next_block_id == old(self).next_block_id,
            final(self).block_terminated == old(self).block_terminated,
            final(self).loop_targets == old(self).loop_targets,
            final(self).locals == old(self).locals,
            final(self).str_lits == old(self).str_lits,
            is_scalar(t) ==> r@ == scalar_llvm(t) && final(self).error == old(self).error,
            old(self).error is Some ==> final(self).error == old(self).error,
    {
        let fuel = if arena.classes.len() < usize::MAX { arena.classes.len() + 1 } else { arena.classes.len() };
        match llvm_ty(arena, t, fuel) {
            Some(s) => s,
            None => {
                self.fail(String::from_str("internal: class layout contains itself"));
                String::from_str("void")
            },
        }
    }
}

} // verus!

verus! {

fn usize_text(n: usize) -> (r: String)
    ensures
        r@ == decimal(n as nat),
{
    u64_to_string(n as u64)
}

fn i64_text(n: i64) -> (r: String)
    ensures
        r@ == signed_decimal(n as int),
{
    i64_to_string(n)
}

fn u64_text(n: u64) -> (r: String)
    ensures
        r@ == decimal(n as nat),
{
    u64_to_string(n)
}

/// The Debug spelling of `t`.
pub open spec fn type_debug_text(t: Type) -> Seq<char> {
    match t {
        Type::I8 => "I8"@,
        Type::I16 => "I16"@,
        Type::I32 => "I32"@,
        Type::I64 => "I64"@,
        Type::F64 => "F64"@,
        Type::Bool => "Bool"@,
        Type::Str => "Str"@,
        Type::Tuple(id) => "Tuple(TupleId("@ + decimal(id.0 as nat) + "))"@,
        Type::List(id) => "List(ListId("@ + decimal(id.0 as nat) + "))"@,
        Type::Dict(id) => "Dict(DictId("@ + decimal(id.0 as nat) + "))"@,
        Type::SetOf(id) => "SetOf(SetId("@ + decimal(id.0 as nat) + "))"@,
        Type::Class(id) => "Class(ClassId("@ + decimal(id.0 as nat) + "))"@,
    }
}

/// The Debug spelling of a type, used in internal diagnostics.
fn type_debug(t: Type) -> (r: String)
    ensures
        r@ == type_debug_text(t),
{
    match t {
        Type::I8 => String::from_str("I8"),
        Type::I16 => String::from_str("I16"),
        Type::I32 => String::from_str("I32"),
        Type::I64 => String::from_str("I64"),
        Type::F64 => String::from_str("F64"),
        Type::Bool => String::from_str("Bool"),
        Type::Str => String::from_str("Str"),
        Type::Tuple(id) => {
            let mut s = String::from_str("Tuple(TupleId(");
            s.append(usize_text(id.0).as_str());
            s.append("))");
            s
        },
        Type::List(id) => {
            let mut s = String::from_str("List(ListId(");
            s.append(usize_text(id.0).as_str());
            s.append("))");
            s
        },
        Type::Dict(id) => {
            let mut s = String::from_str("Dict(DictId(");
            s.append(usize_text(id.0).as_str());
            s.append("))");
            s
        },
        Type::SetOf(id) => {
            let mut s = String::from_str("SetOf(SetId(");
            s.append(usize_text(id.0).as_str());
            s.append("))");
            s
        },
        Type::Class(id) => {
            let mut s = String::from_str("Class(ClassId(");
            s.append(usize_text(id.0).as_str());
            s.append("))");
            s
        },
    }
}

/// The Debug spelling of a binary operator.
pub open spec fn binop_debug_text(op: BinOp) -> Seq<char> {
    match op {
        BinOp::Add => "Add"@,
        BinOp::Sub => "Sub"@,
        BinOp::Mul => "Mul"@,
        BinOp::FloorDiv => "FloorDiv"@,
        BinOp::Mod => "Mod"@,
        BinOp::TrueDiv => "TrueDiv"@,
        BinOp::BitAnd => "BitAnd"@,
        BinOp::BitOr => "BitOr"@,
        BinOp::BitXor => "BitXor"@,
        BinOp::Shl => "Shl"@,
        BinOp::Shr => "Shr"@,
        BinOp::Pow => "Pow"@,
    }
}

/// The Debug spelling of a unary operator.
pub open spec fn unop_debug_text(op: UnaryOp) -> Seq<char> {
    match op {
        UnaryOp::Neg => "Neg"@,
        UnaryOp::Pos => "Pos"@,
        UnaryOp::BitNot => "BitNot"@,
    }
}

fn binop_debug(op: BinOp) -> (r: &'static str)
    ensures
        r@ == binop_debug_text(op),
{
    match op {
        BinOp::Add => "Add",
        BinOp::Sub => "Sub",
        BinOp::Mul => "Mul",
        BinOp::FloorDiv => "FloorDiv",
        BinOp::Mod => "Mod",
        BinOp::TrueDiv => "TrueDiv",
        BinOp::BitAnd => "BitAnd",
        BinOp::BitOr => "BitOr",
        BinOp::BitXor => "BitXor",
        BinOp::Shl => "Shl",
        BinOp::Shr => "Shr",
        BinOp::Pow => "Pow",
    }
}

fn unop_debug(op: UnaryOp) -> (r: &'static str)
    ensures
        r@ == unop_debug_text(op),
{
    match op {
        UnaryOp::Neg => "Neg",
        UnaryOp::Pos => "Pos",
        UnaryOp::BitNot => "BitNot",
    }
}

/// The views of a list of strings.
pub open spec fn string_views(v: Seq<String>) -> Seq<Seq<char>> {
    v.map_values(|s: String| s@)
}

/// Join strings with `, `.
fn join_comma(v: &Vec<String>) -> (r: String)
    ensures
        r@ == comma_joined(string_views(v@)),
{
    let mut s = String::new();
    let mut i: usize = 0;
    while i < v.len()
        invariant
            0 <= i <= v@.len(),
            s@ == comma_joined(string_views(v@.subrange(0, i as int))),
        decreases v.len() - i,
    {
        let ghost before = string_views(v@.subrange(0, i as int));
        let ghost after = string_views(v@.subrange(0, i + 1));
        proof {
            assert(after.drop_last() =~= before);
        }
        if i > 0 {
            s.append(", ");
        }
        s.append(v[i].as_str());
        proof {
            assert(s@ =~= comma_joined(after));
        }
        i += 1;
    }
    assert(v@.subrange(0, v@.len() as int) =~= v@);
    s
}

/// The LLVM struct a class instance points to (its type without `*`).
fn strip_pointer(s: &str) -> (r: String)
    ensures
        r@ == (if s@.len() > 0 && s@.last() == '*' { s@.drop_last() } else { s@ }),
{
    let n = s.unicode_len();
    if n > 0 && s.get_char(n - 1) == '*' {
        String::from_str(s.substring_char(0, n - 1))
    } else {
        String::from_str(s)
    }
}

/// The type bound to `name` among `vars`.
fn lookup_local(vars: &Vec<(String, Type)>, name: &str) -> (r: Option<Type>)
    ensures
        r == assoc(vars@, name@),
        r matches Some(t) ==> exists|i: int| 0 <= i < vars@.len() && vars@[i].1 == t,
{
    let mut i: usize = 0;
    while i < vars.len()
        invariant
            0 <= i <= vars@.len(),
            forall|j: int| 0 <= j < i ==> (#[trigger] vars@[j]).0@ != name@,
        decreases vars.len() - i,
    {
        if str_eq(vars[i].0.as_str(), name) {
            proof { lemma_assoc_at(vars@, i as int, name@); }
            return Some(vars[i].1);
        }
        i += 1;
    }
    proof { lemma_assoc_none(vars@, name@); }
    None
}

fn contains_str(v: &Vec<String>, name: &str) -> (r: bool)
    ensures
        r == exists|j: int| 0 <= j < v@.len() && (#[trigger] v@[j])@ == name@,
{
    let mut i: usize = 0;
    while i < v.len()
        invariant
            0 <= i <= v@.len(),
            forall|j: int| 0 <= j < i ==> (#[trigger] v@[j])@ != name@,
        decreases v.len() - i,
    {
        if str_eq(v[i].as_str(), name) {
            return true;
        }
        i += 1;
    }
    false
}

/// Every variable type recorded is valid in `a`.
pub open spec fn locals_ok(a: &Arena, vars: Seq<(String, Type)>) -> bool {
    forall|i: int| 0 <= i < vars.len() ==> a.valid(#[trigger] vars[i].1)
}

/// The label a block that is just `break` (or just `continue`) jumps to:
/// the exit (or the re-test) of the innermost enclosing loop.
pub open spec fn jump_target(stmts: Seq<Stmt>, targets: Seq<(String, String)>) -> Option<Seq<char>> {
    if stmts.len() == 1 && targets.len() > 0 {
        match stmts[0] {
            Stmt::Break => Some(targets.last().1@),
            Stmt::Continue => Some(targets.last().0@),
            _ => None,
        }
    } else {
        None
    }
}

/// The value of a block that is just `return <i64 constant>`.
pub open spec fn const_return(stmts: Seq<Stmt>) -> Option<i64> {
    if stmts.len() == 1 {
        match stmts[0] {
            Stmt::Return { value } => if value.ty == Type::I64 {
                match value.expr {
                    Expr::ConstI64(v) => Some(v),
                    _ => None,
                }
            } else {
                None
            },
            _ => None,
        }
    } else {
        None
    }
}

/// `n` is bound by a `Let` somewhere inside expression `te` (in the
/// statements of an expression block).
pub open spec fn expr_binds(te: TypedExpr, n: Seq<char>) -> bool
    decreases te,
{
    match te.expr {
        Expr::BinOp { lhs, rhs, .. } => expr_binds(*lhs, n) || expr_binds(*rhs, n),
        Expr::Cmp { lhs, rhs, .. } => expr_binds(*lhs, n) || expr_binds(*rhs, n),
        Expr::BoolOp { lhs, rhs, .. } => expr_binds(*lhs, n) || expr_binds(*rhs, n),
        Expr::ListConcat { lhs, rhs } => expr_binds(*lhs, n) || expr_binds(*rhs, n),
        Expr::UnaryOp { operand, .. } => expr_binds(*operand, n),
        Expr::Not(operand) => expr_binds(*operand, n),
        Expr::Coerce { inner } => expr_binds(*inner, n),
        Expr::CmpChain { first, rest } => expr_binds(*first, n)
            || exists|i: int| 0 <= i < rest@.len() && expr_binds(#[trigger] rest@[i].1, n),
        Expr::Call { args, .. } => exists|i: int| 0 <= i < args@.len() && expr_binds(#[trigger] args@[i], n),
        Expr::TupleLit { elements } => exists|i: int| 0 <= i < elements@.len() && expr_binds(#[trigger] elements@[i], n),
        Expr::ListLit { elements } => exists|i: int| 0 <= i < elements@.len() && expr_binds(#[trigger] elements@[i], n),
        Expr::SetLit { elements } => exists|i: int| 0 <= i < elements@.len() && expr_binds(#[trigger] elements@[i], n),
        Expr::ClassNew { args, .. } => exists|i: int| 0 <= i < args@.len() && expr_binds(#[trigger] args@[i], n),
        Expr::TupleIndex { tuple, .. } => expr_binds(*tuple, n),
        Expr::ListIndex { list, index } => expr_binds(*list, n) || expr_binds(*index, n),
        Expr::ListLen { list } => expr_binds(*list, n),
        Expr::DoBlock { stmts, result } => stmts_binds(stmts@, n) || expr_binds(*result, n),
        Expr::StrConcat { lhs, rhs } => expr_binds(*lhs, n) || expr_binds(*rhs, n),
        Expr::StrEq { lhs, rhs, .. } => expr_binds(*lhs, n) || expr_binds(*rhs, n),
        Expr::StrLen { s } => expr_binds(*s, n),
        Expr::StrIndex { s, index } => expr_binds(*s, n) || expr_binds(*index, n),
        Expr::StrSlice { s, start, stop } => expr_binds(*s, n) || expr_binds(*start, n) || expr_binds(*stop, n),
        Expr::FormatToStr { inner } => expr_binds(*inner, n),
        Expr::MathCall { arg, .. } => expr_binds(*arg, n),
        Expr::DictLit { entries } => exists|i: int| #![trigger entries@[i]] 0 <= i < entries@.len()
            && (expr_binds(entries@[i].0, n) || expr_binds(entries@[i].1, n)),
        Expr::DictGet { dict, key } => expr_binds(*dict, n) || expr_binds(*key, n),
        Expr::DictHas { dict, key } => expr_binds(*dict, n) || expr_binds(*key, n),
        Expr::SetHas { set, key } => expr_binds(*set, n) || expr_binds(*key, n),
        Expr::DictLen { dict } => expr_binds(*dict, n),
        Expr::SetLen { set } => expr_binds(*set, n),
        Expr::FieldGet { obj, .. } => expr_binds(*obj, n),
        _ => false,
    }
}

/// `n` is bound by a `Let` in statement `s` or inside it.
pub open spec fn stmt_binds(s: Stmt, n: Seq<char>) -> bool
    decreases s,
{
    match s {
        Stmt::Let { name, value } => name@ == n || expr_binds(value, n),
        Stmt::Return { value } => expr_binds(value, n),
        Stmt::Break | Stmt::Continue => false,
        Stmt::ListAppend { list, value } => expr_binds(list, n) || expr_binds(value, n),
        Stmt::SetAdd { set, value } => expr_binds(set, n) || expr_binds(value, n),
        Stmt::SetField { obj, value, .. } => expr_binds(obj, n) || expr_binds(value, n),
        Stmt::SetSubscript { container, key, value } => expr_binds(container, n) || expr_binds(key, n) || expr_binds(value, n),
        Stmt::ExprStmt(e) => expr_binds(e, n),
        Stmt::If { cond, then_body, else_body } => expr_binds(cond, n) || stmts_binds(then_body@, n) || stmts_binds(else_body@, n),
        Stmt::While { cond, body, update } => expr_binds(cond, n) || stmts_binds(body@, n) || stmts_binds(update@, n),
    }
}

/// `n` is bound by a `Let` somewhere in `ss`.
pub open spec fn stmts_binds(ss: Seq<Stmt>, n: Seq<char>) -> bool
    decreases ss,
{
    exists|i: int| 0 <= i < ss.len() && stmt_binds(#[trigger] ss[i], n)
}

/// `n` has a slot among `out`.
pub open spec fn slot_named(out: Seq<(String, Type)>, n: Seq<char>) -> bool {
    exists|i: int| 0 <= i < out.len() && (#[trigger] out[i]).0@ == n
}

/// `seen` lists the names of `out`, in order.
pub open spec fn names_of(seen: Seq<String>, out: Seq<(String, Type)>) -> bool {
    &&& seen.len() == out.len()
    &&& forall|i: int| 0 <= i < seen.len() ==> (#[trigger] seen[i])@ == out[i].0@
}

/// Record the first binding of each `Let` name, walking statements in
/// order (bodies of `if`, `while` and expression blocks included).
fn walk_stmts(stmts: &Vec<Stmt>, arena: &Arena, out: &mut Vec<(String, Type)>, seen: &mut Vec<String>)
    requires
        stmts_valid(arena, stmts@),
        locals_ok(arena, old(out)@),
        names_of(old(seen)@, old(out)@),
    ensures
        locals_ok(arena, final(out)@),
        const_return(stmts@) is Some ==> final(out)@ == old(out)@,
        names_of(final(seen)@, final(out)@),
        forall|n: Seq<char>| #[trigger] slot_named(final(out)@, n) <==> (slot_named(old(out)@, n) || stmts_binds(stmts@, n)),
    decreases stmts, 0nat,
{
    let ghost o0 = out@;
    let mut i: usize = 0;
    while i < stmts.len()
        invariant
            0 <= i <= stmts@.len(),
            stmts_valid(arena, stmts@),
            locals_ok(arena, out@),
            const_return(stmts@) is Some ==> out@ == o0,
            names_of(seen@, out@),
            forall|n: Seq<char>| #[trigger] slot_named(out@, n) <==> (slot_named(o0, n)
                || exists|j: int| 0 <= j < i && stmt_binds(#[trigger] stmts@[j], n)),
        decreases stmts.len() - i,
    {
        let ghost o1 = out@;
        assert(stmt_valid(arena, stmts@[i as int]));
        match &stmts[i] {
            Stmt::Let { name, value } => {
                if !contains_str(seen, name.as_str()) {
                    seen.push(name.clone());
                    out.push((name.clone(), value.ty));
                    proof {
                        assert forall|n: Seq<char>| #[trigger] slot_named(out@, n) <==> (slot_named(o1, n) || name@ == n) by {
                            if slot_named(out@, n) && n != name@ {
                                let k = choose|k: int| 0 <= k < out@.len() && (#[trigger] out@[k]).0@ == n;
                                assert(out@[k] == o1[k]);
                            }
                            if slot_named(o1, n) {
                                let k = choose|k: int| 0 <= k < o1.len() && (#[trigger] o1[k]).0@ == n;
                                assert(out@[k] == o1[k]);
                            }
                            if name@ == n {
                                assert(out@[out@.len() - 1].0@ == n);
                            }
                        }
                    }
                } else {
                    proof {
                        let k = choose|k: int| 0 <= k < seen@.len() && (#[trigger] seen@[k])@ == name@;
                        assert(out@[k].0@ == name@);
                    }
                }
                walk_expr(value, arena, out, seen);
            },
            Stmt::Return { value } => walk_expr(value, arena, out, seen),
            Stmt::Break | Stmt::Continue => {},
            Stmt::ListAppend { list, value } => {
                walk_expr(list, arena, out, seen);
                walk_expr(value, arena, out, seen);
            },
            Stmt::SetAdd { set, value } => {
                walk_expr(set, arena, out, seen);
                walk_expr(value, arena, out, seen);
            },
            Stmt::SetField { obj, value, .. } => {
                walk_expr(obj, arena, out, seen);
                walk_expr(value, arena, out, seen);
            },
            Stmt::SetSubscript { container, key, value } => {
                walk_expr(container, arena, out, seen);
                walk_expr(key, arena, out, seen);
                walk_expr(value, arena, out, seen);
            },
            Stmt::ExprStmt(e) => walk_expr(e, arena, out, seen),
            Stmt::If { cond, then_body, else_body } => {
                walk_expr(cond, arena, out, seen);
                walk_stmts(then_body, arena, out, seen);
                walk_stmts(else_body, arena, out, seen);
            },
            Stmt::While { cond, body, update } => {
                walk_expr(cond, arena, out, seen);
                walk_stmts(body, arena, out, seen);
                walk_stmts(update, arena, out, seen);
            },
        }
        proof {
            assert forall|n: Seq<char>| #[trigger] slot_named(out@, n) <==> (slot_named(o0, n)
                || exists|j: int| 0 <= j < i + 1 && stmt_binds(#[trigger] stmts@[j], n)) by {
                if exists|j: int| 0 <= j < i + 1 && stmt_binds(#[trigger] stmts@[j], n) {
                    let j = choose|j: int| 0 <= j < i + 1 && stmt_binds(#[trigger] stmts@[j], n);
                    if j == i {
                        assert(slot_named(out@, n) <==> (slot_named(o1, n) || stmt_binds(stmts@[i as int], n)));
                    }
                }
            }
        }
        i += 1;
    }
}

fn walk_exprs(es: &Vec<TypedExpr>, arena: &Arena, out: &mut Vec<(String, Type)>, seen: &mut Vec<String>)
    requires
        forall|i: int| 0 <= i < es@.len() ==> expr_valid(arena, #[trigger] es@[i]),
        locals_ok(arena, old(out)@),
        names_of(old(seen)@, old(out)@),
    ensures
        locals_ok(arena, final(out)@),
        names_of(final(seen)@, final(out)@),
        forall|n: Seq<char>| #[trigger] slot_named(final(out)@, n) <==> (slot_named(old(out)@, n) || exists|i: int| 0 <= i < es@.len() && expr_binds(#[trigger] es@[i], n)),
    decreases es, 0nat,
{
    let ghost o0 = out@;
    let mut i: usize = 0;
    while i < es.len()
        invariant
            0 <= i <= es@.len(),
            forall|i: int| 0 <= i < es@.len() ==> expr_valid(arena, #[trigger] es@[i]),
            locals_ok(arena, out@),
            names_of(seen@, out@),
            forall|n: Seq<char>| #[trigger] slot_named(out@, n) <==> (slot_named(o0, n)
                || exists|j: int| 0 <= j < i && expr_binds(#[trigger] es@[j], n)),
        decreases es.len() - i,
    {
        let ghost o1 = out@;
        walk_expr(&es[i], arena, out, seen);
        proof {
            assert forall|n: Seq<char>| #[trigger] slot_named(out@, n) <==> (slot_named(o0, n)
                || exists|j: int| 0 <= j < i + 1 && expr_binds(#[trigger] es@[j], n)) by {
                if exists|j: int| 0 <= j < i + 1 && expr_binds(#[trigger] es@[j], n) {
                    let j = choose|j: int| 0 <= j < i + 1 && expr_binds(#[trigger] es@[j], n);
                    if j == i {
                        assert(slot_named(out@, n) <==> (slot_named(o1, n) || expr_binds(es@[i as int], n)));
                    }
                }
            }
        }
        i += 1;
    }
}

fn walk_link(p: &(CmpOp, TypedExpr), arena: &Arena, out: &mut Vec<(String, Type)>, seen: &mut Vec<String>)
    requires
        expr_valid(arena, p.1),
        locals_ok(arena, old(out)@),
        names_of(old(seen)@, old(out)@),
    ensures
        locals_ok(arena, final(out)@),
        names_of(final(seen)@, final(out)@),
        forall|n: Seq<char>| #[trigger] slot_named(final(out)@, n) <==> (slot_named(old(out)@, n) || expr_binds(p.1, n)),

    decreases p, 3nat,
{
    walk_expr(&p.1, arena, out, seen);
}

fn walk_chain(v: &Vec<(CmpOp, TypedExpr)>, arena: &Arena, out: &mut Vec<(String, Type)>, seen: &mut Vec<String>)
    requires
        forall|i: int| 0 <= i < v@.len() ==> expr_valid(arena, #[trigger] v@[i].1),
        locals_ok(arena, old(out)@),
        names_of(old(seen)@, old(out)@),
    ensures
        locals_ok(arena, final(out)@),
        names_of(final(seen)@, final(out)@),
        forall|n: Seq<char>| #[trigger] slot_named(final(out)@, n) <==> (slot_named(old(out)@, n) || exists|i: int| 0 <= i < v@.len() && expr_binds(#[trigger] v@[i].1, n)),
    decreases v, 0nat,
{
    let ghost o0 = out@;
    let mut i: usize = 0;
    while i < v.len()
        invariant
            0 <= i <= v@.len(),
            forall|i: int| 0 <= i < v@.len() ==> expr_valid(arena, #[trigger] v@[i].1),
            locals_ok(arena, out@),
            names_of(seen@, out@),
            forall|n: Seq<char>| #[trigger] slot_named(out@, n) <==> (slot_named(o0, n)
                || exists|j: int| 0 <= j < i && expr_binds(#[trigger] v@[j].1, n)),
        decreases v.len() - i,
    {
        let ghost o1 = out@;
        walk_link(&v[i], arena, out, seen);
        proof {
            assert forall|n: Seq<char>| #[trigger] slot_named(out@, n) <==> (slot_named(o0, n)
                || exists|j: int| 0 <= j < i + 1 && expr_binds(#[trigger] v@[j].1, n)) by {
                if exists|j: int| 0 <= j < i + 1 && expr_binds(#[trigger] v@[j].1, n) {
                    let j = choose|j: int| 0 <= j < i + 1 && expr_binds(#[trigger] v@[j].1, n);
                    if j == i {
                        assert(slot_named(out@, n) <==> (slot_named(o1, n) || expr_binds(v@[i as int].1, n)));
                    }
                }
            }
        }
        i += 1;
    }
}

fn walk_entry(p: &(TypedExpr, TypedExpr), arena: &Arena, out: &mut Vec<(String, Type)>, seen: &mut Vec<String>)
    requires
        expr_valid(arena, p.0),
        expr_valid(arena, p.1),
        locals_ok(arena, old(out)@),
        names_of(old(seen)@, old(out)@),
    ensures
        locals_ok(arena, final(out)@),
        names_of(final(seen)@, final(out)@),
        forall|n: Seq<char>| #[trigger] slot_named(final(out)@, n) <==> (slot_named(old(out)@, n) || expr_binds(p.0, n) || expr_binds(p.1, n)),

    decreases p, 3nat,
{
    walk_expr(&p.0, arena, out, seen);
    walk_expr(&p.1, arena, out, seen);
}

fn walk_entries(v: &Vec<(TypedExpr, TypedExpr)>, arena: &Arena, out: &mut Vec<(String, Type)>, seen: &mut Vec<String>)
    requires
        forall|i: int| #![trigger v@[i]] 0 <= i < v@.len() ==> expr_valid(arena, v@[i].0) && expr_valid(arena, v@[i].1),
        locals_ok(arena, old(out)@),
        names_of(old(seen)@, old(out)@),
    ensures
        locals_ok(arena, final(out)@),
        names_of(final(seen)@, final(out)@),
        forall|n: Seq<char>| #[trigger] slot_named(final(out)@, n) <==> (slot_named(old(out)@, n) || exists|i: int| #![trigger v@[i]] 0 <= i < v@.len() && (expr_binds(v@[i].0, n) || expr_binds(v@[i].1, n))),
    decreases v, 0nat,
{
    let ghost o0 = out@;
    let mut i: usize = 0;
    while i < v.len()
        invariant
            0 <= i <= v@.len(),
            forall|i: int| #![trigger v@[i]] 0 <= i < v@.len() ==> expr_valid(arena, v@[i].0) && expr_valid(arena, v@[i].1),
            locals_ok(arena, out@),
            names_of(seen@, out@),
            forall|n: Seq<char>| #[trigger] slot_named(out@, n) <==> (slot_named(o0, n)
                || exists|j: int| #![trigger v@[j]] 0 <= j < i && (expr_binds(v@[j].0, n) || expr_binds(v@[j].1, n))),
        decreases v.len() - i,
    {
        let ghost o1 = out@;
        walk_entry(&v[i], arena, out, seen);
        proof {
            assert forall|n: Seq<char>| #[trigger] slot_named(out@, n) <==> (slot_named(o0, n)
                || exists|j: int| #![trigger v@[j]] 0 <= j < i + 1 && (expr_binds(v@[j].0, n) || expr_binds(v@[j].1, n))) by {
                if exists|j: int| #![trigger v@[j]] 0 <= j < i + 1 && (expr_binds(v@[j].0, n) || expr_binds(v@[j].1, n)) {
                    let j = choose|j: int| #![trigger v@[j]] 0 <= j < i + 1 && (expr_binds(v@[j].0, n) || expr_binds(v@[j].1, n));
                    if j == i {
                        assert(slot_named(out@, n) <==> (slot_named(o1, n) || (expr_binds(v@[i as int].0, n) || expr_binds(v@[i as int].1, n))));
                    }
                }
            }
        }
        i += 1;
    }
}

fn walk_expr(te: &TypedExpr, arena: &Arena, out: &mut Vec<(String, Type)>, seen: &mut Vec<String>)
    requires
        expr_valid(arena, *te),
        locals_ok(arena, old(out)@),
        names_of(old(seen)@, old(out)@),
    ensures
        locals_ok(arena, final(out)@),
        te.expr is ConstI64 ==> final(out)@ == old(out)@,
        names_of(final(seen)@, final(out)@),
        forall|n: Seq<char>| #[trigger] slot_named(final(out)@, n) <==> (slot_named(old(out)@, n) || expr_binds(*te, n)),

    decreases te, 1nat,
{
    match &te.expr {
        Expr::ConstI64(_) | Expr::ConstF64(_) | Expr::ConstBool(_) | Expr::Var(_) | Expr::StrLit(_) => {},
        Expr::BinOp { lhs, rhs, .. } => {
            walk_expr(lhs, arena, out, seen);
            walk_expr(rhs, arena, out, seen);
        },
        Expr::Cmp { lhs, rhs, .. } => {
            walk_expr(lhs, arena, out, seen);
            walk_expr(rhs, arena, out, seen);
        },
        Expr::BoolOp { lhs, rhs, .. } => {
            walk_expr(lhs, arena, out, seen);
            walk_expr(rhs, arena, out, seen);
        },
        Expr::ListConcat { lhs, rhs } => {
            walk_expr(lhs, arena, out, seen);
            walk_expr(rhs, arena, out, seen);
        },
        Expr::UnaryOp { operand, .. } => walk_expr(operand, arena, out, seen),
        Expr::Not(operand) => walk_expr(operand, arena, out, seen),
        Expr::Coerce { inner } => walk_expr(inner, arena, out, seen),
        Expr::CmpChain { first, rest } => {
            walk_expr(first, arena, out, seen);
            walk_chain(rest, arena, out, seen);
        },
        Expr::Call { args, .. } => walk_exprs(args, arena, out, seen),
        Expr::TupleLit { elements } => walk_exprs(elements, arena, out, seen),
        Expr::ListLit { elements } => walk_exprs(elements, arena, out, seen),
        Expr::SetLit { elements } => walk_exprs(elements, arena, out, seen),
        Expr::ClassNew { args, .. } => walk_exprs(args, arena, out, seen),
        Expr::TupleIndex { tuple, .. } => walk_expr(tuple, arena, out, seen),
        Expr::ListIndex { list, index } => {
            walk_expr(list, arena, out, seen);
            walk_expr(index, arena, out, seen);
        },
        Expr::ListLen { list } => walk_expr(list, arena, out, seen),
        Expr::DoBlock { stmts, result } => {
            walk_stmts(stmts, arena, out, seen);
            walk_expr(result, arena, out, seen);
        },
        Expr::StrConcat { lhs, rhs } => {
            walk_expr(lhs, arena, out, seen);
            walk_expr(rhs, arena, out, seen);
        },
        Expr::StrEq { lhs, rhs, .. } => {
            walk_expr(lhs, arena, out, seen);
            walk_expr(rhs, arena, out, seen);
        },
        Expr::StrLen { s } => walk_expr(s, arena, out, seen),
        Expr::StrIndex { s, index } => {
            walk_expr(s, arena, out, seen);
            walk_expr(index, arena, out, seen);
        },
        Expr::StrSlice { s, start, stop } => {
            walk_expr(s, arena, out, seen);
            walk_expr(start, arena, out, seen);
            walk_expr(stop, arena, out, seen);
        },
        Expr::FormatToStr { inner } => walk_expr(inner, arena, out, seen),
        Expr::MathCall { arg, .. } => walk_expr(arg, arena, out, seen),
        Expr::DictLit { entries } => walk_entries(entries, arena, out, seen),
        Expr::DictGet { dict, key } => {
            walk_expr(dict, arena, out, seen);
            walk_expr(key, arena, out, seen);
        },
        Expr::DictHas { dict, key } => {
            walk_expr(dict, arena, out, seen);
            walk_expr(key, arena, out, seen);
        },
        Expr::SetHas { set, key } => {
            walk_expr(set, arena, out, seen);
            walk_expr(key, arena, out, seen);
        },
        Expr::DictLen { dict } => walk_expr(dict, arena, out, seen),
        Expr::SetLen { set } => walk_expr(set, arena, out, seen),
        Expr::FieldGet { obj, .. } => walk_expr(obj, arena, out, seen),
    }
}

/// The `Let`-bound names of a body with the type of their first binding.
pub fn collect_locals(body: &Vec<Stmt>, arena: &Arena) -> (r: Vec<(String, Type)>)
    requires
        stmts_valid(arena, body@),
    ensures
        locals_ok(arena, r@),
        const_return(body@) is Some ==> r@.len() == 0,
        forall|n: Seq<char>| #[trigger] slot_named(r@, n) <==> stmts_binds(body@, n),
{
    let mut out: Vec<(String, Type)> = Vec::new();
    let mut seen: Vec<String> = Vec::new();
    walk_stmts(body, arena, &mut out, &mut seen);
    out
}

} // verus!

verus! {

/// `new` extends `old`: every character of `old` stays where it was.
pub open spec fn extends_text(old: Seq<char>, new: Seq<char>) -> bool {
    &&& old.len() <= new.len()
    &&& forall|i: int| 0 <= i < old.len() ==> #[trigger] new[i] == old[i]
}

/// `new` extends `old`: every entry of `old` stays at its index.
pub open spec fn extends_pool(old: Seq<String>, new: Seq<String>) -> bool {
    &&& old.len() <= new.len()
    &&& forall|i: int| 0 <= i < old.len() ==> #[trigger] new[i] == old[i]
}

/// What every lowering step of [`Codegen`] keeps: the loop stack and the
/// variable slots stay as they were; the emitted text and the pool of
/// string literals only grow at their ends, so what was emitted and the
/// index of each interned literal never change; and the first error
/// recorded is the one reported.
pub open spec fn cg_frame(old: &Codegen, new: &Codegen) -> bool {
    &&& new.loop_targets@ == old.loop_targets@
    &&& new.locals@ == old.locals@
    &&& extends_text(old.body@, new.body@)
    &&& extends_pool(old.str_lits@, new.str_lits@)
    &&& (old.error is Some ==> new.error == old.error)
}

/// The text of `if <b>: ... else: ...` with block number `id`: the
/// conditional branch, the `then.<id>` block holding `t`, the
/// `else.<id>` block holding `e`, and the opening of `merge.<id>`.
pub open spec fn if_text(b: bool, id: Seq<char>, t: Seq<char>, e: Seq<char>) -> Seq<char> {
    instr("br i1 "@ + (if b { "1"@ } else { "0"@ }) + ", label %"@ + ("then."@ + id) + ", label %"@ + ("else."@ + id))
        + ("then."@ + id) + ":\n"@ + t + ("else."@ + id) + ":\n"@ + e + ("merge."@ + id) + ":\n"@
}

proof fn lemma_if_text(start: Seq<char>, b: bool, id: Seq<char>, c: Seq<char>, tl: Seq<char>, el: Seq<char>,
    ml: Seq<char>, b1: Seq<char>, t0: Seq<char>, t1: Seq<char>, e0: Seq<char>, e1: Seq<char>, fin: Seq<char>)
    requires
        c == (if b { "1"@ } else { "0"@ }),
        tl == "then."@ + id,
        el == "else."@ + id,
        ml == "merge."@ + id,
        b1 == start + instr("br i1 "@ + c + ", label %"@ + tl + ", label %"@ + el),
        t0 == b1 + tl + ":\n"@,
        extends_text(t0, t1),
        e0 == t1 + el + ":\n"@,
        extends_text(e0, e1),
        fin == e1 + ml + ":\n"@,
    ensures
        fin == start + if_text(b, id, t1.subrange(t0.len() as int, t1.len() as int), e1.subrange(e0.len() as int, e1.len() as int)),
{
    let t = t1.subrange(t0.len() as int, t1.len() as int);
    let e = e1.subrange(e0.len() as int, e1.len() as int);
    assert(t1 =~= t0 + t);
    assert(e1 =~= e0 + e);
    assert(fin =~= start + if_text(b, id, t, e));
}

proof fn lemma_extends_append(a: Seq<char>, b: Seq<char>, x: Seq<char>)
    requires
        extends_text(a, b),
    ensures
        extends_text(a, b + x),
{
    assert forall|i: int| 0 <= i < a.len() implies #[trigger] (b + x)[i] == a[i] by {
        assert((b + x)[i] == b[i]);
    }
}

/// The text of `while <b>: ...` with block number `id`: the jump to the
/// `loop_header.<id>` block, which tests and branches to `loop_body.<id>`
/// or `loop_exit.<id>`; the body block holding `bt`; the
/// `loop_latch.<id>` block holding `ut`, where the update runs; and the
/// opening of the exit block.
pub open spec fn while_text(b: bool, id: Seq<char>, bt: Seq<char>, ut: Seq<char>) -> Seq<char> {
    instr("br label %"@ + ("loop_header."@ + id))
        + ("loop_header."@ + id) + ":\n"@
        + instr("br i1 "@ + (if b { "1"@ } else { "0"@ }) + ", label %"@ + ("loop_body."@ + id) + ", label %"@ + ("loop_exit."@ + id))
        + ("loop_body."@ + id) + ":\n"@ + bt
        + ("loop_latch."@ + id) + ":\n"@ + ut
        + ("loop_exit."@ + id) + ":\n"@
}

proof fn lemma_while_text(start: Seq<char>, b: bool, id: Seq<char>, c: Seq<char>, w1: Seq<char>, h0: Seq<char>,
    h1: Seq<char>, b0: Seq<char>, b1: Seq<char>, u0: Seq<char>, u1: Seq<char>, fin: Seq<char>)
    requires
        c == (if b { "1"@ } else { "0"@ }),
        w1 == start + instr("br label %"@ + ("loop_header."@ + id)),
        h0 == w1 + ("loop_header."@ + id) + ":\n"@,
        h1 == h0 + instr("br i1 "@ + c + ", label %"@ + ("loop_body."@ + id) + ", label %"@ + ("loop_exit."@ + id)),
        b0 == h1 + ("loop_body."@ + id) + ":\n"@,
        extends_text(b0, b1),
        u0 == b1 + ("loop_latch."@ + id) + ":\n"@,
        extends_text(u0, u1),
        fin == u1 + ("loop_exit."@ + id) + ":\n"@,
    ensures
        fin == start + while_text(b, id, b1.subrange(b0.len() as int, b1.len() as int), u1.subrange(u0.len() as int, u1.len() as int)),
{
    let bt = b1.subrange(b0.len() as int, b1.len() as int);
    let ut = u1.subrange(u0.len() as int, u1.len() as int);
    assert(b1 =~= b0 + bt);
    assert(u1 =~= u0 + ut);
    assert(fin =~= start + while_text(b, id, bt, ut));
}

/// A branch that returns the constant `v` right away holds `ret i64 <v>`.
pub open spec fn branch_text_ok(body: Seq<Stmt>, t: Seq<char>) -> bool {
    const_return(body) matches Some(v) ==> t == instr("ret i64 "@ + i64_decimal(v))
}

/// The stack slot of a scalar parameter and the store of its value.
pub open spec fn param_slot_text(p: Param) -> Seq<char> {
    instr("%"@ + p.name@ + ".addr = alloca "@ + scalar_llvm(p.ty))
        + instr("store "@ + scalar_llvm(p.ty) + " %p_"@ + p.name@ + ", "@ + scalar_llvm(p.ty) + "* %"@ + p.name@ + ".addr"@)
}

/// The slots of all the parameters, in order.
pub open spec fn param_slots(ps: Seq<Param>) -> Seq<char>
    decreases ps.len(),
{
    if ps.len() == 0 {
        Seq::empty()
    } else {
        param_slots(ps.drop_last()) + param_slot_text(ps.last())
    }
}

impl Codegen {
    /// Emit a function body: parameter and local slots in `entry`, then
    /// the statements.
    pub fn lower_function(&mut self, arena: &Arena, func: &Function)
        requires
            arena.wf(),
            function_ok(arena, *func),
            locals_ok(arena, old(self).locals@),
        ensures
            const_return(func.body@) is Some && all_scalar(func.params@) ==> final(self).error == old(self).error,
            all_scalar(func.params@) ==> (const_return(func.body@) matches Some(v) ==> final(self).body@
                == old(self).body@ + "entry"@ + ":\n"@ + param_slots(func.params@) + instr("ret i64 "@ + i64_decimal(v))),
            final(self).block_terminated,
            starts_with(final(self).body@, old(self).body@ + "entry"@ + ":\n"@),
            forall|j: int| 0 <= j < func.params@.len() ==> slot_named(final(self).locals@, (#[trigger] func.params@[j]).name@),
            forall|n: Seq<char>| #[trigger] stmts_binds(func.body@, n) ==> slot_named(final(self).locals@, n),
    {
        let ghost e0 = self.error;
        let ghost simple = const_return(func.body@) is Some && all_scalar(func.params@);
        self.open_block("entry");
        let ghost b1 = self.body@;
        let local_decls = collect_locals(&func.body, arena);
        let mut emitted: Vec<String> = Vec::new();
        let mut i: usize = 0;
        while i < func.params.len()
            invariant
                0 <= i <= func.params@.len(),
                arena.wf(),
                function_ok(arena, *func),
                locals_ok(arena, self.locals@),
                simple == (const_return(func.body@) is Some && all_scalar(func.params@)),
                simple ==> self.error == e0,
                extends_text(b1, self.body@),
                forall|j: int| 0 <= j < i ==> slot_named(self.locals@, (#[trigger] func.params@[j]).name@),
                !self.block_terminated,
                simple ==> self.body@ == b1 + param_slots(func.params@.subrange(0, i as int)),
            decreases func.params.len() - i,
        {
            let p = &func.params[i];
            proof { if simple { assert(is_scalar(func.params@[i as int].ty)); } }
            let t = self.ty(arena, p.ty);
            let ghost l0 = self.locals@;
            self.locals.push((p.name.clone(), p.ty));
            proof {
                assert(self.locals@[self.locals@.len() - 1].0@ == func.params@[i as int].name@);
                assert forall|j: int| 0 <= j < i + 1 implies slot_named(self.locals@, (#[trigger] func.params@[j]).name@) by {
                    if j < i {
                        let q = choose|q: int| 0 <= q < l0.len() && (#[trigger] l0[q]).0@ == func.params@[j].name@;
                        assert(self.locals@[q] == l0[q]);
                    }
                }
            }
            let ghost body_before = self.body@;
            self.line(&["%", p.name.as_str(), ".addr = alloca ", t.as_str()]);
            self.line(&["store ", t.as_str(), " %p_", p.name.as_str(), ", ", t.as_str(), "* %", p.name.as_str(), ".addr"]);
            proof {
                if simple {
                    let pp = func.params@[i as int];
                    reveal_with_fuel(concat_all, 10);
                    assert(func.params@.subrange(0, i + 1).drop_last() =~= func.params@.subrange(0, i as int));
                    assert(func.params@.subrange(0, i + 1).last() == pp);
                    assert(self.body@ =~= body_before + param_slot_text(pp));
                }
            }
            emitted.push(p.name.clone());
            i += 1;
        }
        proof { assert(func.params@.subrange(0, func.params@.len() as int) =~= func.params@); }
        let mut k: usize = 0;
        while k < local_decls.len()
            invariant
                0 <= k <= local_decls@.len(),
                arena.wf(),
                function_ok(arena, *func),
                locals_ok(arena, self.locals@),
                locals_ok(arena, local_decls@),
                simple == (const_return(func.body@) is Some && all_scalar(func.params@)),
                simple ==> self.error == e0 && local_decls@.len() == 0,
                simple ==> self.body@ == b1 + param_slots(func.params@) && !self.block_terminated,
                extends_text(b1, self.body@),
                forall|j: int| 0 <= j < func.params@.len() ==> slot_named(self.locals@, (#[trigger] func.params@[j]).name@),
                forall|j: int| 0 <= j < k ==> slot_named(self.locals@, (#[trigger] local_decls@[j]).0@),
                forall|n: Seq<char>| #[trigger] slot_named(local_decls@, n) <==> stmts_binds(func.body@, n),
            decreases local_decls.len() - k,
        {
            let name = &local_decls[k].0;
            let t = local_decls[k].1;
            let ghost l0 = self.locals@;
            let found = lookup_local(&self.locals, name.as_str());
            proof {
                if found is Some {
                    lemma_assoc_named(l0, name@);
                }
            }
            match found {
                Some(existing) => {
                    if existing != t {
                        let en = existing.name(arena);
                        let tn = t.name(arena);
                        let mut m = String::from_str("internal: local `");
                        m.append(name.as_str());
                        m.append("` re-binds with different type (");
                        m.append(en.as_str());
                        m.append("→");
                        m.append(tn.as_str());
                        m.append(") — should be rejected by check");
                        self.fail(m);
                    }
                },
                None => {
                    self.locals.push((name.clone(), t));
                    proof {
                        assert(self.locals@[self.locals@.len() - 1].0@ == name@);
                        assert forall|q: int| 0 <= q < l0.len() implies self.locals@[q] == l0[q] by {}
                    }
                    if !contains_str(&emitted, name.as_str()) {
                        emitted.push(name.clone());
                        let ts = self.ty(arena, t);
                        self.line(&["%", name.as_str(), ".addr = alloca ", ts.as_str()]);
                    }
                },
            }
            proof {
                assert forall|j: int| 0 <= j < func.params@.len() implies slot_named(self.locals@, (#[trigger] func.params@[j]).name@) by {
                    let q = choose|q: int| 0 <= q < l0.len() && (#[trigger] l0[q]).0@ == func.params@[j].name@;
                    assert(self.locals@[q] == l0[q]);
                }
                assert forall|j: int| 0 <= j < k + 1 implies slot_named(self.locals@, (#[trigger] local_decls@[j]).0@) by {
                    if j < k {
                        let q = choose|q: int| 0 <= q < l0.len() && (#[trigger] l0[q]).0@ == local_decls@[j].0@;
                        assert(self.locals@[q] == l0[q]);
                    }
                }
            }
            k += 1;
        }
        proof {
            assert forall|n: Seq<char>| #[trigger] stmts_binds(func.body@, n) implies slot_named(self.locals@, n) by {
                assert(slot_named(local_decls@, n));
                let q = choose|q: int| 0 <= q < local_decls@.len() && (#[trigger] local_decls@[q]).0@ == n;
                assert(slot_named(self.locals@, local_decls@[q].0@));
            }
        }
        let ghost before = self.body@;
        self.lower_block(arena, &func.body);
        proof {
            assert forall|i: int| 0 <= i < b1.len() implies #[trigger] self.body@[i] == b1[i] by {
                assert(self.body@[i] == before[i]);
            }
        }
        if !self.block_terminated {
            self.emit("unreachable");
            self.block_terminated = true;
        }
        proof {
            assert(self.body@.subrange(0, b1.len() as int) =~= b1);
        }
    }

    /// Emit `if cond: then_body else: else_body`: the branch, the `then`
    /// and `else` blocks, each ending in a jump to `merge` unless it
    /// already ended, and the opening of the `merge` block.
    #[verifier::spinoff_prover]
    #[verifier::rlimit(60)]
    fn lower_if(&mut self, arena: &Arena, s: &Stmt)
        requires
            arena.wf(),
            s is If,
            stmt_valid(arena, *s),
            locals_ok(arena, old(self).locals@),
        ensures
            cg_frame(old(self), final(self)),
            (!old(self).block_terminated && old(self).next_block_id < usize::MAX) ==>
                (*s matches Stmt::If { cond, then_body, else_body } ==> (cond.expr matches Expr::ConstBool(b) ==>
                exists|t: Seq<char>, e: Seq<char>| #![trigger if_text(b, decimal(old(self).next_block_id as nat), t, e)]
                    final(self).body@ == old(self).body@ + if_text(b, decimal(old(self).next_block_id as nat), t, e)
                    && branch_text_ok(then_body@, t) && branch_text_ok(else_body@, e))
                && !final(self).block_terminated
                && ((cond.expr is ConstBool && const_return(then_body@) is Some && const_return(else_body@) is Some)
                    ==> final(self).next_block_id == old(self).next_block_id + 1)),
        decreases s, 1nat,
    {
        let (cond, then_body, else_body) = match s {
            Stmt::If { cond, then_body, else_body } => (cond, then_body, else_body),
            _ => {
                proof { assert(false); }
                return;
            },
        };
        let ghost s0 = *self;
        let c = self.lower(arena, cond);
        let ghost s1 = *self;
        let id = self.fresh_block();
        let ghost nb = self.next_block_id;
        let mut then_lbl = String::from_str("then.");
        then_lbl.append(id.as_str());
        let mut else_lbl = String::from_str("else.");
        else_lbl.append(id.as_str());
        let mut merge_lbl = String::from_str("merge.");
        merge_lbl.append(id.as_str());
        let ghost b0 = self.body@;
        self.line(&["br i1 ", c.as_str(), ", label %", then_lbl.as_str(), ", label %", else_lbl.as_str()]);
        proof {
            if cond.expr is ConstBool && !s0.block_terminated {
                reveal_with_fuel(concat_all, 7);
                assert(self.body@ =~= b0 + instr("br i1 "@ + c@ + ", label %"@ + then_lbl@ + ", label %"@ + else_lbl@));
            }
        }
        self.block_terminated = true;
        self.open_block(then_lbl.as_str());
        let ghost t0 = self.body@;
        self.lower_block(arena, then_body);
        let ghost ta = self.body@;
        let ghost nb_then = self.next_block_id;
        let ghost then_const = const_return(then_body@) is Some;
        if !self.block_terminated {
            self.line(&["br label %", merge_lbl.as_str()]);
            self.block_terminated = true;
        }
        let ghost t1 = self.body@;
        proof {
            if self.body@ != ta {
                lemma_extends_append(t0, ta, self.body@.subrange(ta.len() as int, self.body@.len() as int));
                assert(self.body@ =~= ta + self.body@.subrange(ta.len() as int, self.body@.len() as int));
            }
        }
        self.open_block(else_lbl.as_str());
        let ghost e0 = self.body@;
        self.lower_block(arena, else_body);
        let ghost ea = self.body@;
        let ghost nb_else = self.next_block_id;
        if !self.block_terminated {
            self.line(&["br label %", merge_lbl.as_str()]);
            self.block_terminated = true;
        }
        let ghost e1 = self.body@;
        proof {
            if self.body@ != ea {
                lemma_extends_append(e0, ea, self.body@.subrange(ea.len() as int, self.body@.len() as int));
                assert(self.body@ =~= ea + self.body@.subrange(ea.len() as int, self.body@.len() as int));
            }
        }
        self.open_block(merge_lbl.as_str());
        proof {
            if cond.expr is ConstBool && s0.next_block_id < usize::MAX {
                assert(s1 == s0);
                assert(nb == s0.next_block_id + 1);
                if const_return(then_body@) is Some && const_return(else_body@) is Some {
                    assert(nb_then == nb);
                    assert(nb_else == nb);
                    assert(self.next_block_id == nb);
                }
            }
        }
        proof {
            if !s0.block_terminated && s0.next_block_id < usize::MAX {
                if let Expr::ConstBool(b) = cond.expr {
                    let nid = decimal(s0.next_block_id as nat);
                    lemma_if_text(s0.body@, b, nid, c@, then_lbl@, else_lbl@, merge_lbl@, b0 + instr("br i1 "@ + c@
                        + ", label %"@ + then_lbl@ + ", label %"@ + else_lbl@), t0, t1, e0, e1, self.body@);
                    let t = t1.subrange(t0.len() as int, t1.len() as int);
                    let e = e1.subrange(e0.len() as int, e1.len() as int);
                    if then_const {
                        assert(t =~= instr("ret i64 "@ + i64_decimal(const_return(then_body@)->0)));
                    }
                    if const_return(else_body@) is Some {
                        assert(e =~= instr("ret i64 "@ + i64_decimal(const_return(else_body@)->0)));
                    }
                    assert(self.body@ == s0.body@ + if_text(b, nid, t, e));
                    assert(branch_text_ok(then_body@, t));
                    assert(branch_text_ok(else_body@, e));
                    assert(!self.block_terminated);
                }
            }
        }
    }

    /// Emit `while cond: body` with its `update`: a header block that
    /// tests the condition, the body block, a latch block that runs the
    /// update and jumps back to the header (the target of `continue`), and
    /// the exit block (the target of `break`).
    #[verifier::spinoff_prover]
    #[verifier::rlimit(100)]
    fn lower_while(&mut self, arena: &Arena, s: &Stmt)
        requires
            arena.wf(),
            s is While,
            stmt_valid(arena, *s),
            locals_ok(arena, old(self).locals@),
        ensures
            cg_frame(old(self), final(self)),
            (!old(self).block_terminated && old(self).next_block_id < usize::MAX) ==>
                (*s matches Stmt::While { cond, body, update } ==> (cond.expr matches Expr::ConstBool(b) ==>
                exists|bt: Seq<char>, ut: Seq<char>| #![trigger while_text(b, decimal(old(self).next_block_id as nat), bt, ut)]
                    final(self).body@ == old(self).body@ + while_text(b, decimal(old(self).next_block_id as nat), bt, ut)
                    && (body@ == seq![Stmt::Continue] ==> bt == instr("br label %"@
                        + ("loop_latch."@ + decimal(old(self).next_block_id as nat))))
                    && (update@.len() == 0 ==> ut == instr("br label %"@
                        + ("loop_header."@ + decimal(old(self).next_block_id as nat)))))),
        decreases s, 1nat,
    {
        let (cond, body, update) = match s {
            Stmt::While { cond, body, update } => (cond, body, update),
            _ => {
                proof { assert(false); }
                return;
            },
        };
        let ghost s0 = *self;
        let id = self.fresh_block();
        let mut header_lbl = String::from_str("loop_header.");
        header_lbl.append(id.as_str());
        let mut body_lbl = String::from_str("loop_body.");
        body_lbl.append(id.as_str());
        let mut latch_lbl = String::from_str("loop_latch.");
        latch_lbl.append(id.as_str());
        let mut exit_lbl = String::from_str("loop_exit.");
        exit_lbl.append(id.as_str());
        self.line(&["br label %", header_lbl.as_str()]);
        let ghost w1 = self.body@;
        self.block_terminated = true;
        self.open_block(header_lbl.as_str());
        let c = self.lower(arena, cond);
        let ghost h0 = self.body@;
        self.line(&["br i1 ", c.as_str(), ", label %", body_lbl.as_str(), ", label %", exit_lbl.as_str()]);
        let ghost h1 = self.body@;
        proof {
            if cond.expr is ConstBool && !s0.block_terminated {
                assert(h1 =~= h0 + instr("br i1 "@ + c@ + ", label %"@ + body_lbl@ + ", label %"@ + exit_lbl@)) by {
                    reveal_with_fuel(concat_all, 7);
                }
                assert(w1 =~= s0.body@ + instr("br label %"@ + header_lbl@)) by {
                    reveal_with_fuel(concat_all, 3);
                }
            }
        }
        self.block_terminated = true;
        self.open_block(body_lbl.as_str());
        let ghost b0 = self.body@;
        let ghost saved = self.loop_targets@;
        self.loop_targets.push((latch_lbl.clone(), exit_lbl.clone()));
        self.lower_block(arena, body);
        self.loop_targets.pop();
        assert(self.loop_targets@ =~= saved);
        let ghost ba = self.body@;
        if !self.block_terminated {
            self.line(&["br label %", latch_lbl.as_str()]);
            self.block_terminated = true;
        }
        let ghost b1 = self.body@;
        proof {
            if self.body@ != ba {
                lemma_extends_append(b0, ba, self.body@.subrange(ba.len() as int, self.body@.len() as int));
                assert(self.body@ =~= ba + self.body@.subrange(ba.len() as int, self.body@.len() as int));
            }
        }
        self.open_block(latch_lbl.as_str());
        let ghost u0 = self.body@;
        self.lower_block(arena, update);
        let ghost ua = self.body@;
        if !self.block_terminated {
            self.line(&["br label %", header_lbl.as_str()]);
            self.block_terminated = true;
        }
        let ghost u1 = self.body@;
        proof {
            if self.body@ != ua {
                lemma_extends_append(u0, ua, self.body@.subrange(ua.len() as int, self.body@.len() as int));
                assert(self.body@ =~= ua + self.body@.subrange(ua.len() as int, self.body@.len() as int));
            }
        }
        self.open_block(exit_lbl.as_str());
        proof {
            if !s0.block_terminated && s0.next_block_id < usize::MAX {
                if let Expr::ConstBool(b) = cond.expr {
                    let nid = decimal(s0.next_block_id as nat);
                    assert(id@ == nid);
                    lemma_while_text(s0.body@, b, nid, c@, w1, h0, h1, b0, b1, u0, u1, self.body@);
                    let bt = b1.subrange(b0.len() as int, b1.len() as int);
                    let ut = u1.subrange(u0.len() as int, u1.len() as int);
                    if body@ == seq![Stmt::Continue] {
                        assert(ba == b1);
                        assert(bt =~= instr("br label %"@ + ("loop_latch."@ + nid)));
                    }
                    if update@.len() == 0 {
                        assert(ut =~= instr("br label %"@ + ("loop_header."@ + nid))) by {
                            reveal_with_fuel(concat_all, 3);
                        }
                    }
                }
            }
        }
    }

    #[verifier::rlimit(40)]
    pub fn lower_block(&mut self, arena: &Arena, stmts: &Vec<Stmt>)
        requires
            arena.wf(),
            stmts_valid(arena, stmts@),
            locals_ok(arena, old(self).locals@),
        ensures
            cg_frame(old(self), final(self)),
            stmts@.len() == 0 ==> *final(self) == *old(self),
            const_return(stmts@) matches Some(v) ==> {
                &&& final(self).body@ == old(self).body@ + (if old(self).block_terminated { Seq::<char>::empty() } else {
                    instr("ret i64 "@ + i64_decimal(v))
                })
                &&& final(self).block_terminated
                &&& final(self).error == old(self).error
                &&& final(self).next_id == old(self).next_id
                &&& final(self).next_block_id == old(self).next_block_id
                &&& final(self).str_lits == old(self).str_lits
            },
            jump_target(stmts@, old(self).loop_targets@) matches Some(t) ==> {
                &&& final(self).body@ == old(self).body@ + (if old(self).block_terminated { Seq::<char>::empty() } else {
                    instr("br label %"@ + t)
                })
                &&& final(self).block_terminated
                &&& final(self).error == old(self).error
            },
            (stmts@.len() == 1 && !old(self).block_terminated && old(self).next_block_id < usize::MAX) ==>
                (stmts@[0] matches Stmt::If { cond, then_body, else_body } ==> (cond.expr matches Expr::ConstBool(b) ==>
                exists|t: Seq<char>, e: Seq<char>| #![trigger if_text(b, decimal(old(self).next_block_id as nat), t, e)]
                    final(self).body@ == old(self).body@ + if_text(b, decimal(old(self).next_block_id as nat), t, e)
                    && branch_text_ok(then_body@, t) && branch_text_ok(else_body@, e))
                && !final(self).block_terminated
                && ((cond.expr is ConstBool && const_return(then_body@) is Some && const_return(else_body@) is Some)
                    ==> final(self).next_block_id == old(self).next_block_id + 1)),
        decreases stmts, 0nat,
    {
        let mut i: usize = 0;
        while i < stmts.len()
            invariant
                0 <= i <= stmts@.len(),
                arena.wf(),
                stmts_valid(arena, stmts@),
                locals_ok(arena, self.locals@),
                cg_frame(old(self), self),
                const_return(stmts@) is Some && i == 0 ==> *self == *old(self),
                i == 1 ==> (const_return(stmts@) matches Some(v) ==> {
                    &&& self.body@ == old(self).body@ + (if old(self).block_terminated { Seq::<char>::empty() } else {
                        instr("ret i64 "@ + i64_decimal(v))
                    })
                    &&& self.block_terminated
                    &&& self.error == old(self).error
                    &&& self.next_id == old(self).next_id
                    &&& self.next_block_id == old(self).next_block_id
                    &&& self.str_lits == old(self).str_lits
                }),
                jump_target(stmts@, old(self).loop_targets@) is Some && i == 0 ==> *self == *old(self),
                i == 0 ==> *self == *old(self),
                i == 1 ==> ((stmts@.len() == 1 && !old(self).block_terminated && old(self).next_block_id < usize::MAX) ==>
                    (stmts@[0] matches Stmt::If { cond, then_body, else_body } ==> (cond.expr matches Expr::ConstBool(b) ==>
                    exists|t: Seq<char>, e: Seq<char>| #![trigger if_text(b, decimal(old(self).next_block_id as nat), t, e)]
                        self.body@ == old(self).body@ + if_text(b, decimal(old(self).next_block_id as nat), t, e)
                        && branch_text_ok(then_body@, t) && branch_text_ok(else_body@, e))
                    && !self.block_terminated
                    && ((cond.expr is ConstBool && const_return(then_body@) is Some && const_return(else_body@) is Some)
                        ==> self.next_block_id == old(self).next_block_id + 1))),
                i == 1 ==> (jump_target(stmts@, old(self).loop_targets@) matches Some(t) ==> {
                    &&& self.body@ == old(self).body@ + (if old(self).block_terminated { Seq::<char>::empty() } else {
                        instr("br label %"@ + t)
                    })
                    &&& self.block_terminated
                    &&& self.error == old(self).error
                }),
            decreases stmts.len() - i,
        {
            if self.block_terminated {
                return;
            }
            assert(stmt_valid(arena, stmts@[i as int]));
            match &stmts[i] {
                Stmt::Let { name, value } => {
                    let op = self.lower(arena, value);
                    let t = self.ty(arena, value.ty);
                    self.line(&["store ", t.as_str(), " ", op.as_str(), ", ", t.as_str(), "* %", name.as_str(), ".addr"]);
                },
                Stmt::Return { value } => {
                    let op = self.lower(arena, value);
                    let t = self.ty(arena, value.ty);
                    self.line4("ret ", t.as_str(), " ", op.as_str());
                    self.block_terminated = true;
                    proof {
                        reveal_strlit("ret ");
                        reveal_strlit(" ");
                        reveal_strlit("i64");
                        reveal_strlit("ret i64 ");
                        assert("ret i64 "@ =~= "ret "@ + "i64"@ + " "@);
                    }
                },
                Stmt::If { .. } => {
                    self.lower_if(arena, &stmts[i]);
                },
                Stmt::While { .. } => {
                    self.lower_while(arena, &stmts[i]);
                },
                Stmt::Break => {
                    let n = self.loop_targets.len();
                    if n == 0 {
                        self.fail(String::from_str("internal: Break with empty loop stack"));
                    } else {
                        let target = self.loop_targets[n - 1].1.clone();
                        self.line2("br label %", target.as_str());
                    }
                    self.block_terminated = true;
                },
                Stmt::Continue => {
                    let n = self.loop_targets.len();
                    if n == 0 {
                        self.fail(String::from_str("internal: Continue with empty loop stack"));
                    } else {
                        let target = self.loop_targets[n - 1].0.clone();
                        self.line2("br label %", target.as_str());
                    }
                    self.block_terminated = true;
                },
                Stmt::ListAppend { list, value } => {
                    self.lower_list_append(arena, list, value, Ghost(stmts@[i as int]));
                },
                Stmt::SetAdd { set, value } => {
                    let d = self.lower(arena, set);
                    let v = self.lower(arena, value);
                    let raw = self.value();
                    self.line(&[raw.as_str(), " = bitcast { i64, i64, i8* }* ", d.as_str(), " to i8*"]);
                    self.line(&["call void @pyx86_dict_i64_insert(i8* ", raw.as_str(), ", i64 ", v.as_str(), ", i64 0)"]);
                },
                Stmt::SetField { obj, field_index, value } => {
                    self.lower_set_field(arena, obj, *field_index, value, Ghost(stmts@[i as int]));
                },
                Stmt::SetSubscript { container, key, value } => {
                    self.lower_set_subscript(arena, container, key, value, Ghost(stmts@[i as int]));
                },
                Stmt::ExprStmt(e) => {
                    let _ = self.lower(arena, e);
                },
            }
            i += 1;
        }
    }

    /// Lower a typed expression to an LLVM operand of its type.
    pub fn lower(&mut self, arena: &Arena, te: &TypedExpr) -> (r: String)
        requires
            arena.wf(),
            expr_valid(arena, *te),
            locals_ok(arena, old(self).locals@),
        ensures
            cg_frame(old(self), final(self)),
            te.expr matches Expr::ConstBool(b) ==> r@ == (if b { "1"@ } else { "0"@ }),
            te.expr matches Expr::ConstI64(v) ==> r@ == i64_decimal(v) && *final(self) == *old(self),
            te.expr matches Expr::ConstF64(f) ==> r@ == f.text@ && *final(self) == *old(self),
            te.expr is ConstBool ==> *final(self) == *old(self),
            te.expr matches Expr::Var(n) ==> match assoc(old(self).locals@, n@) {
                None => r@ == "undef"@ && final(self).error is Some && final(self).body == old(self).body,
                Some(t) => (is_scalar(t) && old(self).next_id < usize::MAX) ==> {
                    &&& r@ == value_name_of(old(self).next_id)
                    &&& final(self).next_id == old(self).next_id + 1
                    &&& emitted(old(self), final(self), instr(var_load(old(self).next_id, t, n@)))
                },
            },
            te.expr matches Expr::BinOp { op, lhs, .. } ==> binop_emitted(final(self), op, lhs.ty),
            te.expr matches Expr::Cmp { op, lhs, rhs } ==> compare_emitted(old(self), final(self), op, *lhs, *rhs),
            te.expr matches Expr::CmpChain { first, rest } ==> (rest@.len() == 1
                ==> compare_emitted(old(self), final(self), rest@[0].0, *first, rest@[0].1)),
            te.expr matches Expr::BoolOp { op, lhs, .. } ==> short_circuit_emitted(old(self), final(self), op, *lhs),
        decreases te, 2nat,
    {
        let ty = te.ty;
        match &te.expr {
            Expr::ConstI64(v) => i64_text(*v),
            Expr::ConstF64(f) => f.text.clone(),
            Expr::ConstBool(b) => {
                if *b {
                    String::from_str("1")
                } else {
                    String::from_str("0")
                }
            },
            Expr::Var(name) => {
                match lookup_local(&self.locals, name.as_str()) {
                    Some(vt) => {
                        let t = self.ty(arena, vt);
                        let dst = self.value();
                        self.line8(dst.as_str(), " = load ", t.as_str(), ", ", t.as_str(), "* %", name.as_str(), ".addr");
                        dst
                    },
                    None => {
                        let mut m = String::from_str("internal: var `");
                        m.append(name.as_str());
                        m.append("` not in codegen scope");
                        self.fail(m);
                        String::from_str("undef")
                    },
                }
            },
            Expr::Coerce { inner } => self.lower_coerce(arena, inner, ty),
            Expr::UnaryOp { op, operand } => self.lower_unary(arena, *op, operand),
            Expr::BinOp { op, lhs, rhs } => self.lower_binop(arena, *op, lhs, rhs, Ghost(*te)),
            Expr::Cmp { op, lhs, rhs } => self.lower_cmp(arena, *op, lhs, rhs, Ghost(*te)),
            Expr::CmpChain { first, rest } => self.lower_cmp_chain(arena, first, rest, Ghost(*te)),
            Expr::Not(inner) => self.lower_not(arena, inner),
            Expr::BoolOp { op, lhs, rhs } => self.lower_bool_op(arena, *op, lhs, rhs, ty, Ghost(*te)),
            Expr::Call { callee, args } => self.lower_call(arena, callee, args, ty),
            Expr::TupleLit { elements } => self.lower_tuple_lit(arena, elements, ty),
            Expr::TupleIndex { tuple, index } => {
                let t = self.lower(arena, tuple);
                let tt = self.ty(arena, tuple.ty);
                let dst = self.value();
                let ix = usize_text(*index);
                self.line(&[dst.as_str(), " = extractvalue ", tt.as_str(), " ", t.as_str(), ", ", ix.as_str()]);
                dst
            },
            Expr::ListLit { elements } => self.lower_list_lit(arena, elements, ty),
            Expr::ListIndex { list, index } => self.lower_list_index(arena, list, index, Ghost(*te)),
            Expr::ListLen { list } => {
                let l = self.lower(arena, list);
                self.list_load_len(l.as_str())
            },
            Expr::ListConcat { lhs, rhs } => self.lower_list_concat(arena, lhs, rhs, ty, Ghost(*te)),
            Expr::DoBlock { stmts, result } => {
                self.lower_block(arena, stmts);
                self.lower(arena, result)
            },
            Expr::StrLit(s) => self.lower_str_lit(s.as_str()),
            Expr::StrConcat { lhs, rhs } => self.lower_str_concat(arena, lhs, rhs, Ghost(*te)),
            Expr::StrLen { s } => {
                let v = self.lower(arena, s);
                let dst = self.value();
                self.line(&[dst.as_str(), " = extractvalue { i64, i8* } ", v.as_str(), ", 0"]);
                dst
            },
            Expr::StrEq { lhs, rhs, negated } => self.lower_str_eq(arena, lhs, rhs, *negated, Ghost(*te)),
            Expr::FormatToStr { inner } => self.lower_format_to_str(arena, inner),
            Expr::StrIndex { s, index } => self.lower_str_index(arena, s, index, Ghost(*te)),
            Expr::StrSlice { s, start, stop } => self.lower_str_slice(arena, s, start, stop, Ghost(*te)),
            Expr::MathCall { intrinsic, arg } => {
                let v = self.lower(arena, arg);
                let dst = self.value();
                self.line(&[dst.as_str(), " = call double @", *intrinsic, "(double ", v.as_str(), ")"]);
                dst
            },
            Expr::DictLit { entries } => self.lower_dict_lit(arena, entries),
            Expr::DictGet { dict, key } => self.lower_dict_call(arena, dict, key, "i64", "pyx86_dict_i64_lookup", Ghost(*te)),
            Expr::DictHas { dict, key } => self.lower_dict_call(arena, dict, key, "i1", "pyx86_dict_i64_has", Ghost(*te)),
            Expr::SetHas { set, key } => self.lower_dict_call(arena, set, key, "i1", "pyx86_dict_i64_has", Ghost(*te)),
            Expr::DictLen { dict } => {
                let d = self.lower(arena, dict);
                self.list_load_len(d.as_str())
            },
            Expr::SetLit { elements } => self.lower_set_lit(arena, elements),
            Expr::SetLen { set } => {
                let d = self.lower(arena, set);
                self.list_load_len(d.as_str())
            },
            Expr::FieldGet { obj, field_index } => self.lower_field_get(arena, obj, *field_index, ty),
            Expr::ClassNew { class, init_class, args } => self.lower_class_new(arena, *class, *init_class, args),
        }
    }

    /// [`Codegen::lower`] with only its frame stated: for callers that
    /// need no more of an operand than that it was emitted.
    fn lower_operand(&mut self, arena: &Arena, te: &TypedExpr) -> (r: String)
        requires
            arena.wf(),
            expr_valid(arena, *te),
            locals_ok(arena, old(self).locals@),
        ensures
            cg_frame(old(self), final(self)),
            te.expr matches Expr::ConstI64(v) ==> r@ == i64_decimal(v) && *final(self) == *old(self),
            te.expr matches Expr::ConstF64(f) ==> r@ == f.text@ && *final(self) == *old(self),
            te.expr matches Expr::ConstBool(b) ==> r@ == (if b { "1"@ } else { "0"@ }) && *final(self) == *old(self),
            te.expr matches Expr::Var(n) ==> match assoc(old(self).locals@, n@) {
                None => true,
                Some(t) => (is_scalar(t) && old(self).next_id < usize::MAX) ==> {
                    &&& r@ == value_name_of(old(self).next_id)
                    &&& final(self).next_id == old(self).next_id + 1
                    &&& emitted(old(self), final(self), instr(var_load(old(self).next_id, t, n@)))
                },
            },
        decreases te, 3nat,
    {
        self.lower(arena, te)
    }

    fn lower_coerce(&mut self, arena: &Arena, inner: &TypedExpr, target: Type) -> (r: String)
        requires
            arena.wf(),
            expr_valid(arena, *inner),
            arena.valid(target),
            locals_ok(arena, old(self).locals@),
        ensures
            cg_frame(old(self), final(self)),
            (inner.ty != target && old(self).error is None && final(self).error is None && final(self).next_id < usize::MAX)
                ==> r@ == last_value(final(self)),
        decreases inner, 3nat,
    {
        let op = self.lower(arena, inner);
        let from = inner.ty;
        if from == target {
            return op;
        }
        let fs = self.ty(arena, from);
        let ts = self.ty(arena, target);
        if from == Type::Bool && target.is_int() {
            let dst = self.value();
            self.line(&[dst.as_str(), " = zext i1 ", op.as_str(), " to ", ts.as_str()]);
            dst
        } else if from.is_int() && target == Type::Bool {
            let dst = self.value();
            self.line(&[dst.as_str(), " = icmp ne ", fs.as_str(), " ", op.as_str(), ", 0"]);
            dst
        } else if from == Type::Bool && target == Type::F64 {
            let mid = self.value();
            self.line(&[mid.as_str(), " = zext i1 ", op.as_str(), " to i64"]);
            let dst = self.value();
            self.line(&[dst.as_str(), " = sitofp i64 ", mid.as_str(), " to double"]);
            dst
        } else if from == Type::F64 && target == Type::Bool {
            let dst = self.value();
            self.line(&[dst.as_str(), " = fcmp one double ", op.as_str(), ", 0.0"]);
            dst
        } else if from.is_int() && target == Type::F64 {
            let dst = self.value();
            self.line(&[dst.as_str(), " = sitofp ", fs.as_str(), " ", op.as_str(), " to double"]);
            dst
        } else if from == Type::F64 && target.is_int() {
            let dst = self.value();
            self.line(&[dst.as_str(), " = fptosi double ", op.as_str(), " to ", ts.as_str()]);
            dst
        } else if from.is_int() && target.is_int() {
            let aw = from.int_width();
            let bw = target.int_width();
            let dst = self.value();
            let widen = match (aw, bw) {
                (Some(a), Some(b)) => b > a,
                _ => false,
            };
            if widen {
                self.line(&[dst.as_str(), " = sext ", fs.as_str(), " ", op.as_str(), " to ", ts.as_str()]);
            } else {
                self.line(&[dst.as_str(), " = trunc ", fs.as_str(), " ", op.as_str(), " to ", ts.as_str()]);
            }
            dst
        } else if matches!(from, Type::Class(_)) && matches!(target, Type::Class(_)) {
            let dst = self.value();
            self.line(&[dst.as_str(), " = bitcast ", fs.as_str(), " ", op.as_str(), " to ", ts.as_str()]);
            dst
        } else {
            let an = from.name(arena);
            let bn = target.name(arena);
            let mut m = String::from_str("internal: codegen Coerce ");
            m.append(an.as_str());
            m.append(" → ");
            m.append(bn.as_str());
            m.append(" not implemented");
            self.fail(m);
            op
        }
    }

    fn lower_unary(&mut self, arena: &Arena, op: UnaryOp, operand: &TypedExpr) -> (r: String)
        requires
            arena.wf(),
            expr_valid(arena, *operand),
            locals_ok(arena, old(self).locals@),
        ensures
            cg_frame(old(self), final(self)),
            (op != UnaryOp::Pos && old(self).error is None && final(self).error is None && final(self).next_id < usize::MAX)
                ==> r@ == last_value(final(self)),
        decreases operand, 3nat,
    {
        let v = self.lower(arena, operand);
        let t = operand.ty;
        match op {
            UnaryOp::Pos => v,
            UnaryOp::Neg => {
                if t.is_int() {
                    let ts = self.ty(arena, t);
                    let dst = self.value();
                    self.line(&[dst.as_str(), " = sub ", ts.as_str(), " 0, ", v.as_str()]);
                    dst
                } else if t == Type::F64 {
                    let dst = self.value();
                    self.line(&[dst.as_str(), " = fneg double ", v.as_str()]);
                    dst
                } else {
                    self.unary_failure(arena, op, t);
                    v
                }
            },
            UnaryOp::BitNot => {
                if t.is_int() {
                    let ts = self.ty(arena, t);
                    let dst = self.value();
                    self.line(&[dst.as_str(), " = xor ", ts.as_str(), " ", v.as_str(), ", -1"]);
                    dst
                } else {
                    self.unary_failure(arena, op, t);
                    v
                }
            },
        }
    }

    fn unary_failure(&mut self, arena: &Arena, op: UnaryOp, t: Type)
        requires
            arena.wf(),
            arena.valid(t),
        ensures
            cg_frame(old(self), final(self)),
            final(self).error is Some,
            final(self).body == old(self).body,
    {
        let n = t.name(arena);
        let mut m = String::from_str("internal: unary op ");
        m.append(unop_debug(op));
        m.append(" on type ");
        m.append(n.as_str());
        m.append(" should have been coerced");
        self.fail(m);
    }

    fn lower_binop(&mut self, arena: &Arena, op: BinOp, lhs: &TypedExpr, rhs: &TypedExpr, Ghost(parent): Ghost<TypedExpr>) -> (r: String)
        requires
            decreases_to!(parent => *lhs),
            decreases_to!(parent => *rhs),
            arena.wf(),
            expr_valid(arena, *lhs),
            expr_valid(arena, *rhs),
            locals_ok(arena, old(self).locals@),
        ensures
            cg_frame(old(self), final(self)),
            (old(self).error is None && final(self).error is None && final(self).next_id < usize::MAX)
                ==> r@ == last_value(final(self)),
            binop_emitted(final(self), op, lhs.ty),
        decreases parent, 1nat,
    {
        proof { reveal(binop_emitted); }
        let l = self.lower(arena, lhs);
        let r = self.lower(arena, rhs);
        let t = lhs.ty;
        if t.is_int() {
            if let Some(name) = int_op_text(op) {
                let ghost mid = *self;
                let d = self.simple_iop(arena, name, l.as_str(), r.as_str(), t);
                proof {
                    if self.next_id < usize::MAX && !self.block_terminated {
                        let line = int_op_line(last_value(self), name@, scalar_llvm(t), l@, r@);
                        assert(is_scalar(t));
                        assert(mid.next_id < usize::MAX);
                        assert(self.body@ =~= mid.body@ + line);
                        assert(self.body@.subrange(self.body@.len() - line.len(), self.body@.len() as int) =~= line);
                        assert(ends_with(self.body@, line));
                    }
                }
                return d;
            }
            match op {
                BinOp::FloorDiv => return self.floor_div_int(arena, l.as_str(), r.as_str(), t),
                BinOp::Mod => return self.floor_mod_int(arena, l.as_str(), r.as_str(), t),
                _ => {},
            }
        }
        if t == Type::F64 {
            if let Some(name) = float_op_text(op) {
                let ghost mid = *self;
                let d = self.simple_fop(name, l.as_str(), r.as_str());
                proof {
                    if self.next_id < usize::MAX && !self.block_terminated {
                        let line = float_op_line(last_value(self), name@, l@, r@);
                        assert(mid.next_id < usize::MAX);
                        assert(self.body@ =~= mid.body@ + line);
                        assert(self.body@.subrange(self.body@.len() - line.len(), self.body@.len() as int) =~= line);
                        assert(ends_with(self.body@, line));
                    }
                }
                return d;
            }
            match op {
                BinOp::Pow => {
                    let dst = self.value();
                    self.line(&[dst.as_str(), " = call double @llvm.pow.f64(double ", l.as_str(), ", double ", r.as_str(), ")"]);
                    return dst;
                },
                _ => {},
            }
        }
        if t == Type::I64 && op == BinOp::Pow {
            let dst = self.value();
            self.line(&[dst.as_str(), " = call i64 @pyx86_pow_i64(i64 ", l.as_str(), ", i64 ", r.as_str(), ")"]);
            return dst;
        }
        let n = t.name(arena);
        let mut m = String::from_str("internal: binop ");
        m.append(binop_debug(op));
        m.append(" on type ");
        m.append(n.as_str());
        m.append(" not supported (should be rejected by check)");
        self.fail(m);
        l
    }

    /// `<dst> = <op> <ty> <l>, <r>`.
    pub fn simple_iop(&mut self, arena: &Arena, op: &str, l: &str, r: &str, ty: Type) -> (d: String)
        requires
            arena.wf(),
            arena.valid(ty),
        ensures
            cg_frame(old(self), final(self)),
            final(self).next_id < usize::MAX ==> d@ == last_value(final(self)),
            is_scalar(ty) && old(self).next_id < usize::MAX ==> {
                &&& d@ == value_name(old(self).next_id as nat)
                &&& final(self).next_id == old(self).next_id + 1
                &&& emitted(old(self), final(self), instr(d@ + " = "@ + op@ + " "@ + scalar_llvm(ty) + " "@ + l@ + ", "@ + r@))
            },
            old(self).next_id == usize::MAX ==> final(self).next_id == usize::MAX,
    {
        let ts = self.ty(arena, ty);
        let dst = self.value();
        let s0_0 = dst.as_str();
        let s0_4 = ts.as_str();
        let parts = [s0_0, " = ", op, " ", s0_4, " ", l, ", ", r];
        proof {
            assert(parts@ == seq![s0_0, " = ", op, " ", s0_4, " ", l, ", ", r]);
            assert(part_views(parts@) =~= seq![s0_0@, " = "@, op@, " "@, s0_4@, " "@, l@, ", "@, r@]);
            reveal_with_fuel(concat_all, 10);
            assert(concat_all(part_views(parts@)) =~= s0_0@ + " = "@ + op@ + " "@ + s0_4@ + " "@ + l@ + ", "@ + r@);
        }
        self.line(&parts);
        dst
    }

    /// `<dst> = <op> double <l>, <r>`.
    pub fn simple_fop(&mut self, op: &str, l: &str, r: &str) -> (d: String)
        ensures
            cg_frame(old(self), final(self)),
            final(self).next_id < usize::MAX ==> d@ == last_value(final(self)),
            old(self).next_id < usize::MAX ==> {
                &&& d@ == value_name(old(self).next_id as nat)
                &&& final(self).next_id == old(self).next_id + 1
                &&& emitted(old(self), final(self), instr(d@ + " = "@ + op@ + " double "@ + l@ + ", "@ + r@))
            },
            old(self).next_id == usize::MAX ==> final(self).next_id == usize::MAX,
    {
        let dst = self.value();
        let d = dst.as_str();
        let parts = [d, " = ", op, " double ", l, ", ", r];
        assert(parts@ == seq![d, " = ", op, " double ", l, ", ", r]);
        assert(part_views(parts@) =~= seq![dst@, " = "@, op@, " double "@, l@, ", "@, r@]);
        proof {
            reveal_with_fuel(concat_all, 8);
            assert(concat_all(part_views(parts@)) =~= dst@ + " = "@ + op@ + " double "@ + l@ + ", "@ + r@);
        }
        self.line(&parts);
        dst
    }

    /// Python floor division on ints: truncating division, minus one when
    /// the remainder is non-zero and the operand signs differ.
    pub fn floor_div_int(&mut self, arena: &Arena, l: &str, r: &str, ty: Type) -> (d: String)
        requires
            arena.wf(),
            arena.valid(ty),
        ensures
            cg_frame(old(self), final(self)),
            final(self).next_id < usize::MAX ==> d@ == last_value(final(self)),
            is_scalar(ty) && old(self).next_id + 8 <= usize::MAX ==> {
                &&& d@ == value_name(old(self).next_id as nat + 7)
                &&& final(self).next_id == old(self).next_id + 8
                &&& emitted(old(self), final(self), floor_div_text(old(self).next_id as nat, scalar_llvm(ty), l@, r@))
            },
    {
        let t = self.ty(arena, ty);
        let ghost n = self.next_id as nat;
        let q = self.value();
        let rem = self.value();
        let rem_nz = self.value();
        let xor_sign = self.value();
        let signs_differ = self.value();
        let needs = self.value();
        let adj = self.value();
        let dst = self.value();
        let ghost names = seq![q@, rem@, rem_nz@, xor_sign@, signs_differ@, needs@, adj@, dst@];
        proof {
            if n + 8 <= usize::MAX {
                assert(names =~= seq![value_name(n), value_name(n + 1), value_name(n + 2), value_name(n + 3),
                    value_name(n + 4), value_name(n + 5), value_name(n + 6), value_name(n + 7)]);
            }
        }
        self.floor_div_lines(q.as_str(), rem.as_str(), rem_nz.as_str(), xor_sign.as_str(), signs_differ.as_str(),
            needs.as_str(), adj.as_str(), dst.as_str(), t.as_str(), l, r);
        dst
    }

    #[verifier::rlimit(100)]
    #[verifier::spinoff_prover]
    fn floor_div_lines(&mut self, q: &str, rem: &str, rem_nz: &str, xor_sign: &str, signs_differ: &str,
        needs: &str, adj: &str, dst: &str, t: &str, l: &str, r: &str)
        ensures
            emitted(old(self), final(self), floor_div_lines(
                seq![q@, rem@, rem_nz@, xor_sign@, signs_differ@, needs@, adj@, dst@], t@, l@, r@)),
            final(self).next_id == old(self).next_id,
    {
        let ghost b0 = self.body@;
        let ghost acc0 = Seq::<char>::empty();
        self.line7(q, " = sdiv ", t, " ", l, ", ", r);
        let ghost acc1 = acc0 + instr(q@ + " = sdiv "@ + t@ + " "@ + l@ + ", "@ + r@);
        proof { if !old(self).block_terminated { assert(self.body@ =~= b0 + acc1); } }
        self.line7(rem, " = srem ", t, " ", l, ", ", r);
        let ghost acc2 = acc1 + instr(rem@ + " = srem "@ + t@ + " "@ + l@ + ", "@ + r@);
        proof { if !old(self).block_terminated { assert(self.body@ =~= b0 + acc2); } }
        self.line6(rem_nz, " = icmp ne ", t, " ", rem, ", 0");
        let ghost acc3 = acc2 + instr(rem_nz@ + " = icmp ne "@ + t@ + " "@ + rem@ + ", 0"@);
        proof { if !old(self).block_terminated { assert(self.body@ =~= b0 + acc3); } }
        self.line7(xor_sign, " = xor ", t, " ", l, ", ", r);
        let ghost acc4 = acc3 + instr(xor_sign@ + " = xor "@ + t@ + " "@ + l@ + ", "@ + r@);
        proof { if !old(self).block_terminated { assert(self.body@ =~= b0 + acc4); } }
        self.line6(signs_differ, " = icmp slt ", t, " ", xor_sign, ", 0");
        let ghost acc5 = acc4 + instr(signs_differ@ + " = icmp slt "@ + t@ + " "@ + xor_sign@ + ", 0"@);
        proof { if !old(self).block_terminated { assert(self.body@ =~= b0 + acc5); } }
        self.line5(needs, " = and i1 ", rem_nz, ", ", signs_differ);
        let ghost acc6 = acc5 + instr(needs@ + " = and i1 "@ + rem_nz@ + ", "@ + signs_differ@);
        proof { if !old(self).block_terminated { assert(self.body@ =~= b0 + acc6); } }
        self.line5(adj, " = sext i1 ", needs, " to ", t);
        let ghost acc7 = acc6 + instr(adj@ + " = sext i1 "@ + needs@ + " to "@ + t@);
        proof { if !old(self).block_terminated { assert(self.body@ =~= b0 + acc7); } }
        self.line7(dst, " = add ", t, " ", q, ", ", adj);
        let ghost acc8 = acc7 + instr(dst@ + " = add "@ + t@ + " "@ + q@ + ", "@ + adj@);
        proof { if !old(self).block_terminated { assert(self.body@ =~= b0 + acc8); } }
        proof {
            if !old(self).block_terminated {
                assert(acc8 =~= floor_div_lines(
                    seq![q@, rem@, rem_nz@, xor_sign@, signs_differ@, needs@, adj@, dst@], t@, l@, r@));
            }
        }
    }

    /// Python modulo on ints: the remainder takes the divisor's sign.
    pub fn floor_mod_int(&mut self, arena: &Arena, l: &str, r: &str, ty: Type) -> (d: String)
        requires
            arena.wf(),
            arena.valid(ty),
        ensures
            cg_frame(old(self), final(self)),
            final(self).next_id < usize::MAX ==> d@ == last_value(final(self)),
            is_scalar(ty) && old(self).next_id + 7 <= usize::MAX ==> {
                &&& d@ == value_name(old(self).next_id as nat + 6)
                &&& final(self).next_id == old(self).next_id + 7
                &&& emitted(old(self), final(self), floor_mod_text(old(self).next_id as nat, scalar_llvm(ty), l@, r@))
            },
    {
        let t = self.ty(arena, ty);
        let ghost n = self.next_id as nat;
        let rem = self.value();
        let rem_nz = self.value();
        let xor_sign = self.value();
        let signs_differ = self.value();
        let needs = self.value();
        let adj = self.value();
        let dst = self.value();
        let ghost names = seq![rem@, rem_nz@, xor_sign@, signs_differ@, needs@, adj@, dst@];
        proof {
            if n + 7 <= usize::MAX {
                assert(names =~= seq![value_name(n), value_name(n + 1), value_name(n + 2), value_name(n + 3),
                    value_name(n + 4), value_name(n + 5), value_name(n + 6)]);
            }
        }
        self.floor_mod_lines(rem.as_str(), rem_nz.as_str(), xor_sign.as_str(), signs_differ.as_str(),
            needs.as_str(), adj.as_str(), dst.as_str(), t.as_str(), l, r);
        dst
    }

    #[verifier::spinoff_prover]
    #[verifier::rlimit(100)]
    fn floor_mod_lines(&mut self, rem: &str, rem_nz: &str, xor_sign: &str, signs_differ: &str,
        needs: &str, adj: &str, dst: &str, t: &str, l: &str, r: &str)
        ensures
            emitted(old(self), final(self), floor_mod_lines(
                seq![rem@, rem_nz@, xor_sign@, signs_differ@, needs@, adj@, dst@], t@, l@, r@)),
            final(self).next_id == old(self).next_id,
    {
        let ghost b0 = self.body@;
        let ghost acc0 = Seq::<char>::empty();
        self.line7(rem, " = srem ", t, " ", l, ", ", r);
        let ghost acc1 = acc0 + instr(rem@ + " = srem "@ + t@ + " "@ + l@ + ", "@ + r@);
        proof { if !old(self).block_terminated { assert(self.body@ =~= b0 + acc1); } }
        self.line6(rem_nz, " = icmp ne ", t, " ", rem, ", 0");
        let ghost acc2 = acc1 + instr(rem_nz@ + " = icmp ne "@ + t@ + " "@ + rem@ + ", 0"@);
        proof { if !old(self).block_terminated { assert(self.body@ =~= b0 + acc2); } }
        self.line7(xor_sign, " = xor ", t, " ", rem, ", ", r);
        let ghost acc3 = acc2 + instr(xor_sign@ + " = xor "@ + t@ + " "@ + rem@ + ", "@ + r@);
        proof { if !old(self).block_terminated { assert(self.body@ =~= b0 + acc3); } }
        self.line6(signs_differ, " = icmp slt ", t, " ", xor_sign, ", 0");
        let ghost acc4 = acc3 + instr(signs_differ@ + " = icmp slt "@ + t@ + " "@ + xor_sign@ + ", 0"@);
        proof { if !old(self).block_terminated { assert(self.body@ =~= b0 + acc4); } }
        self.line5(needs, " = and i1 ", rem_nz, ", ", signs_differ);
        let ghost acc5 = acc4 + instr(needs@ + " = and i1 "@ + rem_nz@ + ", "@ + signs_differ@);
        proof { if !old(self).block_terminated { assert(self.body@ =~= b0 + acc5); } }
        self.line10(adj, " = select i1 ", needs, ", ", t, " ", r, ", ", t, " 0");
        let ghost acc6 = acc5 + instr(adj@ + " = select i1 "@ + needs@ + ", "@ + t@ + " "@ + r@ + ", "@ + t@ + " 0"@);
        proof { if !old(self).block_terminated { assert(self.body@ =~= b0 + acc6); } }
        self.line7(dst, " = add ", t, " ", rem, ", ", adj);
        let ghost acc7 = acc6 + instr(dst@ + " = add "@ + t@ + " "@ + rem@ + ", "@ + adj@);
        proof { if !old(self).block_terminated { assert(self.body@ =~= b0 + acc7); } }
        proof {
            if !old(self).block_terminated {
                assert(acc7 =~= floor_mod_lines(
                    seq![rem@, rem_nz@, xor_sign@, signs_differ@, needs@, adj@, dst@], t@, l@, r@));
            }
        }
    }

    fn lower_cmp(&mut self, arena: &Arena, op: CmpOp, lhs: &TypedExpr, rhs: &TypedExpr, Ghost(parent): Ghost<TypedExpr>) -> (r: String)
        requires
            decreases_to!(parent => *lhs),
            decreases_to!(parent => *rhs),
            arena.wf(),
            expr_valid(arena, *lhs),
            expr_valid(arena, *rhs),
            locals_ok(arena, old(self).locals@),
        ensures
            cg_frame(old(self), final(self)),
            final(self).next_id < usize::MAX ==> r@ == last_value(final(self)),
            compare_emitted(old(self), final(self), op, *lhs, *rhs),
        decreases parent, 1nat,
    {
        let ghost c0 = *self;
        let l = self.lower(arena, lhs);
        let ghost c1 = *self;
        let r = self.lower(arena, rhs);
        let ghost c2 = *self;
        let dst = self.value();
        let ghost c3 = *self;
        if lhs.ty == Type::F64 {
            self.line(&[dst.as_str(), " = fcmp ", llvm_fcmp_op(op), " double ", l.as_str(), ", ", r.as_str()]);
        } else {
            let t = self.ty(arena, lhs.ty);
            self.line(&[dst.as_str(), " = icmp ", llvm_icmp_op(op), " ", t.as_str(), " ", l.as_str(), ", ", r.as_str()]);
        }
        proof {
            reveal(compare_emitted);
            reveal(line_of_parts);
            if !c0.block_terminated && c0.next_id + 3 < usize::MAX && is_scalar(lhs.ty) {
                if let Some(a) = leaf_operand(c0.locals@, *lhs, c0.next_id) {
                    if let Some(b) = leaf_operand(c0.locals@, *rhs, offset_id(c0.next_id, a.1)) {
                        let line = compare_line(last_value(self), op, lhs.ty, a.0, b.0);
                        assert(l@ == a.0);
                        assert(c1.next_id == c0.next_id + a.1);
                        assert(r@ == b.0);
                        assert(self.body@ =~= c3.body@ + line);
                        lemma_ends_with_appended(c3.body@, line);
                    }
                }
            }
        }
        dst
    }

    fn lower_cmp_chain(&mut self, arena: &Arena, first: &TypedExpr, rest: &Vec<(CmpOp, TypedExpr)>, Ghost(parent): Ghost<TypedExpr>) -> (r: String)
        requires
            decreases_to!(parent => *first),
            forall|k: int| 0 <= k < rest@.len() ==> decreases_to!(parent => #[trigger] rest@[k].1),
            arena.wf(),
            expr_valid(arena, *first),
            forall|i: int| 0 <= i < rest@.len() ==> expr_valid(arena, #[trigger] rest@[i].1),
            locals_ok(arena, old(self).locals@),
        ensures
            cg_frame(old(self), final(self)),
            rest@.len() > 0 && final(self).next_id < usize::MAX ==> r@ == last_value(final(self)),
            rest@.len() == 1 ==> compare_emitted(old(self), final(self), rest@[0].0, *first, rest@[0].1),
        decreases parent, 1nat,
    {
        let ghost c0 = *self;
        let mut prev_ty = first.ty;
        let mut prev_op = self.lower(arena, first);
        let ghost c1 = *self;
        let ghost p0 = prev_op@;
        proof { reveal(lowered_leaf); }
        let mut acc: Option<String> = None;
        let mut i: usize = 0;
        while i < rest.len()
            invariant
                i == 0 ==> *self == c1 && acc is None && prev_op@ == p0 && prev_ty == first.ty,
                lowered_leaf(&c0, &c1, *first, p0),
                rest@.len() == 1 && i == 1 ==> compare_emitted(&c0, self, rest@[0].0, *first, rest@[0].1),
                0 <= i <= rest@.len(),
                arena.wf(),
                forall|i: int| 0 <= i < rest@.len() ==> expr_valid(arena, #[trigger] rest@[i].1),
                forall|k: int| 0 <= k < rest@.len() ==> decreases_to!(parent => #[trigger] rest@[k].1),
                locals_ok(arena, self.locals@),
                arena.valid(prev_ty),
                cg_frame(old(self), self),
                i > 0 ==> (acc matches Some(a) && (self.next_id < usize::MAX ==> a@ == last_value(self))),
            decreases rest.len() - i,
        {
            let (op, e) = (rest[i].0, &rest[i].1);
            let next_op = self.lower(arena, e);
            let ghost c2 = *self;
            let c = self.value();
            let ghost c3 = *self;
            if prev_ty == Type::F64 {
                self.line(&[c.as_str(), " = fcmp ", llvm_fcmp_op(op), " double ", prev_op.as_str(), ", ", next_op.as_str()]);
            } else {
                let t = self.ty(arena, prev_ty);
                self.line(&[c.as_str(), " = icmp ", llvm_icmp_op(op), " ", t.as_str(), " ", prev_op.as_str(), ", ", next_op.as_str()]);
            }
            proof {
                reveal(compare_emitted);
                reveal(line_of_parts);
                reveal(lowered_leaf);
                if i == 0 && rest@.len() == 1 && !c0.block_terminated && c0.next_id + 3 < usize::MAX && is_scalar(first.ty) {
                    if let Some(a) = leaf_operand(c0.locals@, *first, c0.next_id) {
                        if let Some(b) = leaf_operand(c0.locals@, rest@[0].1, offset_id(c0.next_id, a.1)) {
                            let line = compare_line(last_value(self), op, first.ty, a.0, b.0);
                            assert(next_op@ == b.0);
                            assert(self.body@ =~= c3.body@ + line);
                            lemma_ends_with_appended(c3.body@, line);
                        }
                    }
                }
            }
            acc = match acc {
                None => Some(c),
                Some(a) => {
                    let combined = self.value();
                    self.line(&[combined.as_str(), " = and i1 ", a.as_str(), ", ", c.as_str()]);
                    Some(combined)
                },
            };
            prev_op = next_op;
            prev_ty = e.ty;
            i += 1;
        }
        match acc {
            Some(a) => a,
            None => {
                self.fail(String::from_str("CmpChain.rest must be non-empty"));
                String::from_str("undef")
            },
        }
    }

    fn lower_not(&mut self, arena: &Arena, inner: &TypedExpr) -> (r: String)
        requires
            arena.wf(),
            expr_valid(arena, *inner),
            locals_ok(arena, old(self).locals@),
        ensures
            cg_frame(old(self), final(self)),
            final(self).next_id < usize::MAX ==> r@ == last_value(final(self)),
        decreases inner, 3nat,
    {
        let v = self.lower(arena, inner);
        let dst = self.value();
        self.line(&[dst.as_str(), " = xor i1 ", v.as_str(), ", true"]);
        dst
    }

    #[verifier::rlimit(100)]
    #[verifier::spinoff_prover]
    fn lower_bool_op(&mut self, arena: &Arena, op: BoolOp, lhs: &TypedExpr, rhs: &TypedExpr, result_ty: Type, Ghost(parent): Ghost<TypedExpr>) -> (r: String)
        requires
            decreases_to!(parent => *lhs),
            decreases_to!(parent => *rhs),
            arena.wf(),
            expr_valid(arena, *lhs),
            expr_valid(arena, *rhs),
            arena.valid(result_ty),
            locals_ok(arena, old(self).locals@),
        ensures
            cg_frame(old(self), final(self)),
            final(self).next_id < usize::MAX ==> r@ == last_value(final(self)),
            short_circuit_emitted(old(self), final(self), op, *lhs),
            short_circuit_tests_truth(old(self), final(self), op, *lhs),
            short_circuit_result(old(self), final(self), *lhs, *rhs, result_ty),
        decreases parent, 1nat,
    {
        let ghost c0 = *self;
        let ty_str = self.ty(arena, result_ty);
        let slot = self.bool_slot(ty_str.as_str());
        let lhs_op = self.lower_operand(arena, lhs);
        let ghost bs = self.body@;
        self.line(&["store ", ty_str.as_str(), " ", lhs_op.as_str(), ", ", ty_str.as_str(), "* ", slot.as_str()]);
        let ghost bt = self.body@;
        let ghost kt = self.next_id;
        let cond = self.truth_test(arena, lhs.ty, lhs_op.as_str());
        let id = self.fresh_block();
        let mut eval_rhs_lbl = String::from_str("bool.eval_rhs.");
        eval_rhs_lbl.append(id.as_str());
        let mut merge_lbl = String::from_str("bool.merge.");
        merge_lbl.append(id.as_str());
        let ghost open_before = !self.block_terminated;
        let ghost nb = id@;
        let ghost pre = self.body@;
        match op {
            BoolOp::And => self.branch(cond.as_str(), eval_rhs_lbl.as_str(), merge_lbl.as_str()),
            BoolOp::Or => self.branch(cond.as_str(), merge_lbl.as_str(), eval_rhs_lbl.as_str()),
        }
        let ghost bline = short_circuit_branch(op, cond@, nb);
        let ghost tline = truth_line(lhs.ty, cond@, lhs_op@) + bline;
        let ghost tl_ok = open_before && kt < usize::MAX && is_scalar(lhs.ty) && pre == bt + truth_line(lhs.ty, cond@, lhs_op@);
        proof {
            if open_before {
                assert(self.body@ =~= pre + bline);
                assert(self.body@.subrange(pre.len() as int, (pre.len() + bline.len()) as int) =~= bline);
                assert(piece_at(self.body@, pre.len() as int, bline));
            }
            if tl_ok {
                assert(self.body@ =~= bt + tline);
                assert(self.body@.subrange(bt.len() as int, (bt.len() + tline.len()) as int) =~= tline);
                assert(piece_at(self.body@, bt.len() as int, tline));
            }
        }
        let ghost b1 = self.body@;
        self.open_block(eval_rhs_lbl.as_str());
        let ghost b2 = self.body@;
        let rhs_op = self.lower_operand(arena, rhs);
        let ghost b3 = self.body@;
        self.line(&["store ", ty_str.as_str(), " ", rhs_op.as_str(), ", ", ty_str.as_str(), "* ", slot.as_str()]);
        let ghost b4 = self.body@;
        self.line(&["br label %", merge_lbl.as_str()]);
        let ghost b5 = self.body@;
        self.block_terminated = true;
        self.open_block(merge_lbl.as_str());
        let ghost b6 = self.body@;
        let dst = self.value();
        self.line(&[dst.as_str(), " = load ", ty_str.as_str(), ", ", ty_str.as_str(), "* ", slot.as_str()]);
        proof {
            assert(extends_text(b1, self.body@)) by {
                lemma_extends_text_trans(b1, b2, b3);
                lemma_extends_text_trans(b1, b3, b4);
                lemma_extends_text_trans(b1, b4, b5);
                lemma_extends_text_trans(b1, b5, b6);
                lemma_extends_text_trans(b1, b6, self.body@);
            }
            assert(short_circuit_emitted(&c0, self, op, *lhs)) by {
                reveal(short_circuit_emitted);
                if open_before {
                    lemma_holds_text_extends(b1, self.body@, bline);
                }
                if !c0.block_terminated && c0.next_id + 4 < usize::MAX
                    && leaf_operand(c0.locals@, *lhs, offset_id(c0.next_id, 1)) is Some {
                    assert(open_before);
                    assert(nb == decimal(c0.next_block_id as nat));
                }
            }
            assert(short_circuit_tests_truth(&c0, self, op, *lhs)) by {
                reveal(short_circuit_tests_truth);
                if tl_ok {
                    lemma_holds_text_extends(b1, self.body@, tline);
                }
                if !c0.block_terminated && c0.next_id + 4 < usize::MAX && is_scalar(lhs.ty) {
                    if let Some(a) = leaf_operand(c0.locals@, *lhs, offset_id(c0.next_id, 1)) {
                        assert(open_before);
                        assert(lhs_op@ == a.0);
                        assert(kt == c0.next_id + 1 + a.1);
                        assert(cond@ == value_name_of(offset_id(c0.next_id, 1 + a.1)));
                        assert(tl_ok);
                        assert(nb == decimal(c0.next_block_id as nat));
                    }
                }
            }
            assert(short_circuit_result(&c0, self, *lhs, *rhs, result_ty)) by {
                reveal(short_circuit_result);
                reveal(line_of_parts);
                if !c0.block_terminated && c0.next_id + 6 < usize::MAX && is_scalar(lhs.ty) && is_scalar(result_ty) {
                    if let Some(a) = leaf_operand(c0.locals@, *lhs, offset_id(c0.next_id, 1)) {
                        if let Some(b) = leaf_operand(c0.locals@, *rhs, offset_id(c0.next_id, 2 + a.1)) {
                            let t = scalar_llvm(result_ty);
                            let sl = bool_slot_name(c0.next_id);
                            let n = decimal(c0.next_block_id as nat);
                            let sline = store_line(t, a.0, sl) + truth_line(lhs.ty, value_name_of(offset_id(c0.next_id, 1 + a.1)), a.0);
                            assert(ty_str@ == t);
                            assert(slot@ == sl);
                            assert(lhs_op@ == a.0);
                            assert(bt =~= bs + store_line(t, a.0, sl));
                            assert(pre =~= bs + sline);
                            assert(b1 =~= bs + sline + bline);
                            assert(eval_rhs_lbl@ == "bool.eval_rhs."@ + n);
                            assert(merge_lbl@ == "bool.merge."@ + n);
                            assert(rhs_op@ == b.0);
                            let ld = leaf_load(c0.locals@, *rhs, offset_id(c0.next_id, 2 + a.1));
                            assert(b3 =~= b2 + ld);
                            lemma_bool_tail(bs, b1, b2, b3, b4, b5, b6, self.body@, sline, bline, n, ld, t, b.0, sl, last_value(self));
                        }
                    }
                }
            }
        }
        dst
    }

    /// Allocate the slot `%bool.<n>.addr` of type `ty_str` that holds the
    /// value of a short-circuit `and` / `or`.
    fn bool_slot(&mut self, ty_str: &str) -> (r: String)
        ensures
            cg_frame(old(self), final(self)),
            r@ == "%bool."@ + decimal(old(self).next_id as nat) + ".addr"@,
            final(self).next_block_id == old(self).next_block_id,
            final(self).block_terminated == old(self).block_terminated,
            old(self).next_id < usize::MAX ==> final(self).next_id == old(self).next_id + 1,
    {
        let slot_id = self.next_id;
        if self.next_id < usize::MAX {
            self.next_id = self.next_id + 1;
        } else {
            self.fail(String::from_str("internal: value counter overflow"));
        }
        let mut slot = String::from_str("%bool.");
        slot.append(usize_text(slot_id).as_str());
        slot.append(".addr");
        self.line(&[slot.as_str(), " = alloca ", ty_str]);
        slot
    }

    /// The `i1` that tests operand `op` of type `t` against zero.
    fn truth_test(&mut self, arena: &Arena, t: Type, op: &str) -> (r: String)
        requires
            arena.wf(),
            arena.valid(t),
        ensures
            cg_frame(old(self), final(self)),
            final(self).next_id < usize::MAX ==> r@ == last_value(final(self)),
            final(self).next_block_id == old(self).next_block_id,
            final(self).block_terminated == old(self).block_terminated,
            (!old(self).block_terminated && old(self).next_id < usize::MAX && is_scalar(t)) ==> {
                &&& r@ == value_name_of(old(self).next_id)
                &&& final(self).next_id == old(self).next_id + 1
                &&& final(self).body@ == old(self).body@ + truth_line(t, r@, op@)
            },
    {
        let cond = self.value();
        if t == Type::F64 {
            self.line(&[cond.as_str(), " = fcmp one double ", op, ", 0.0"]);
        } else {
            let lt = self.ty(arena, t);
            self.line(&[cond.as_str(), " = icmp ne ", lt.as_str(), " ", op, ", 0"]);
        }
        proof { reveal(line_of_parts); }
        cond
    }

    /// End the current block with `br i1 cond, label %on_true, label %on_false`.
    fn branch(&mut self, cond: &str, on_true: &str, on_false: &str)
        ensures
            cg_frame(old(self), final(self)),
            final(self).block_terminated,
            final(self).next_id == old(self).next_id,
            final(self).next_block_id == old(self).next_block_id,
            !old(self).block_terminated ==> final(self).body@ == old(self).body@
                + instr("br i1 "@ + cond@ + ", label %"@ + on_true@ + ", label %"@ + on_false@),
    {
        self.line(&["br i1 ", cond, ", label %", on_true, ", label %", on_false]);
        proof { reveal(line_of_parts); }
        self.block_terminated = true;
    }

    /// Lower each expression, returning `(<llvm type> <operand>)` texts.
    fn lower_typed_args(&mut self, arena: &Arena, args: &Vec<TypedExpr>) -> (r: Vec<String>)
        requires
            arena.wf(),
            forall|i: int| 0 <= i < args@.len() ==> expr_valid(arena, #[trigger] args@[i]),
            locals_ok(arena, old(self).locals@),
        ensures
            cg_frame(old(self), final(self)),
            r@.len() == args@.len(),
            forall|i: int| 0 <= i < args@.len() && is_scalar(#[trigger] args@[i].ty)
                ==> starts_with(r@[i]@, scalar_llvm(args@[i].ty) + " "@),
        decreases args, 1nat,
    {
        let mut out: Vec<String> = Vec::new();
        let mut i: usize = 0;
        while i < args.len()
            invariant
                0 <= i <= args@.len(),
                arena.wf(),
                forall|i: int| 0 <= i < args@.len() ==> expr_valid(arena, #[trigger] args@[i]),
                locals_ok(arena, self.locals@),
                cg_frame(old(self), self),
                out@.len() == i,
                forall|j: int| 0 <= j < i && is_scalar(#[trigger] args@[j].ty)
                    ==> starts_with(out@[j]@, scalar_llvm(args@[j].ty) + " "@),
            decreases args.len() - i,
        {
            assert(expr_valid(arena, args@[i as int]));
            let op = self.lower(arena, &args[i]);
            let t = self.ty(arena, args[i].ty);
            let ghost tv = t@;
            let mut s = t;
            s.append(" ");
            s.append(op.as_str());
            proof {
                reveal_strlit(" ");
                assert(s@ == tv + " "@ + op@);
                if is_scalar(args@[i as int].ty) {
                    assert(tv == scalar_llvm(args@[i as int].ty));
                    assert(s@.subrange(0, scalar_llvm(args@[i as int].ty).len() as int + 1) =~= scalar_llvm(args@[i as int].ty) + " "@);
                }
            }
            out.push(s);
            i += 1;
        }
        out
    }

    fn lower_call(&mut self, arena: &Arena, callee: &String, args: &Vec<TypedExpr>, result_ty: Type) -> (r: String)
        requires
            arena.wf(),
            forall|i: int| 0 <= i < args@.len() ==> expr_valid(arena, #[trigger] args@[i]),
            arena.valid(result_ty),
            locals_ok(arena, old(self).locals@),
        ensures
            cg_frame(old(self), final(self)),
            final(self).next_id < usize::MAX ==> r@ == last_value(final(self)),
        decreases args, 2nat,
    {
        let parts = self.lower_typed_args(arena, args);
        let dst = self.value();
        let rt = self.ty(arena, result_ty);
        let joined = join_comma(&parts);
        self.line(&[dst.as_str(), " = call ", rt.as_str(), " @py_", callee.as_str(), "(", joined.as_str(), ")"]);
        dst
    }

    fn lower_tuple_lit(&mut self, arena: &Arena, elements: &Vec<TypedExpr>, tuple_ty: Type) -> (r: String)
        requires
            arena.wf(),
            forall|i: int| 0 <= i < elements@.len() ==> expr_valid(arena, #[trigger] elements@[i]),
            arena.valid(tuple_ty),
            locals_ok(arena, old(self).locals@),
        ensures
            cg_frame(old(self), final(self)),
            elements@.len() == 0 ==> r@ == "undef"@,
            elements@.len() > 0 && final(self).next_id < usize::MAX ==> r@ == last_value(final(self)),
        decreases elements, 2nat,
    {
        let tt = self.ty(arena, tuple_ty);
        let mut acc = String::from_str("undef");
        let mut i: usize = 0;
        while i < elements.len()
            invariant
                0 <= i <= elements@.len(),
                arena.wf(),
                forall|i: int| 0 <= i < elements@.len() ==> expr_valid(arena, #[trigger] elements@[i]),
                locals_ok(arena, self.locals@),
                cg_frame(old(self), self),
                i == 0 ==> acc@ == "undef"@,
                i > 0 && self.next_id < usize::MAX ==> acc@ == last_value(self),
            decreases elements.len() - i,
        {
            assert(expr_valid(arena, elements@[i as int]));
            let op = self.lower(arena, &elements[i]);
            let et = self.ty(arena, elements[i].ty);
            let dst = self.value();
            let ix = usize_text(i);
            self.line(&[dst.as_str(), " = insertvalue ", tt.as_str(), " ", acc.as_str(), ", ", et.as_str(), " ", op.as_str(), ", ", ix.as_str()]);
            acc = dst;
            i += 1;
        }
        acc
    }

    /// `<list>.len`: GEP and load of the length field.
    pub fn list_load_len(&mut self, list_op: &str) -> (r: String)
        ensures
            cg_frame(old(self), final(self)),
            old(self).next_id + 2 <= usize::MAX ==> {
                &&& r@ == value_name(old(self).next_id as nat + 1)
                &&& final(self).next_id == old(self).next_id + 2
                &&& emitted(old(self), final(self), list_field_text(old(self).next_id as nat, list_op@, "0"@, "i64"@))
            },
    {
        let ghost b0 = self.body@;
        let p = self.value();
        let s0_0 = p.as_str();
        let parts = [s0_0, " = getelementptr { i64, i64, i8* }, { i64, i64, i8* }* ", list_op, ", i32 0, i32 0"];
        proof {
            assert(parts@ == seq![s0_0, " = getelementptr { i64, i64, i8* }, { i64, i64, i8* }* ", list_op, ", i32 0, i32 0"]);
            assert(part_views(parts@) =~= seq![s0_0@, " = getelementptr { i64, i64, i8* }, { i64, i64, i8* }* "@, list_op@, ", i32 0, i32 0"@]);
            reveal_with_fuel(concat_all, 5);
            assert(concat_all(part_views(parts@)) =~= s0_0@ + " = getelementptr { i64, i64, i8* }, { i64, i64, i8* }* "@ + list_op@ + ", i32 0, i32 0"@);
        }
        self.line(&parts);
        let dst = self.value();
        let s1_0 = dst.as_str();
        let s1_2 = p.as_str();
        let parts = [s1_0, " = load i64, i64* ", s1_2];
        proof {
            assert(parts@ == seq![s1_0, " = load i64, i64* ", s1_2]);
            assert(part_views(parts@) =~= seq![s1_0@, " = load i64, i64* "@, s1_2@]);
            reveal_with_fuel(concat_all, 4);
            assert(concat_all(part_views(parts@)) =~= s1_0@ + " = load i64, i64* "@ + s1_2@);
        }
        self.line(&parts);
        proof {
            reveal_strlit("0");
            reveal_strlit("i64");
            reveal_strlit(", i32 0, i32 0");
            reveal_strlit(", i32 0, i32 ");
            reveal_strlit(" = load i64, i64* ");
            reveal_strlit(" = load ");
            reveal_strlit(", ");
            reveal_strlit("* ");
            if old(self).next_id + 2 <= usize::MAX && !old(self).block_terminated {
                assert(", i32 0, i32 0"@ =~= ", i32 0, i32 "@ + "0"@);
                assert(" = load i64, i64* "@ =~= " = load "@ + "i64"@ + ", "@ + "i64"@ + "* "@);
                assert(self.body@ =~= b0 + list_field_text(old(self).next_id as nat, list_op@, "0"@, "i64"@));
            }
        }
        dst
    }

    /// `<list>.data` as an untyped `i8*`.
    pub fn list_load_data_raw(&mut self, list_op: &str) -> (r: String)
        ensures
            cg_frame(old(self), final(self)),
            old(self).next_id + 2 <= usize::MAX ==> {
                &&& r@ == value_name(old(self).next_id as nat + 1)
                &&& final(self).next_id == old(self).next_id + 2
                &&& emitted(old(self), final(self), list_field_text(old(self).next_id as nat, list_op@, "2"@, "i8*"@))
            },
    {
        let ghost b0 = self.body@;
        let p = self.value();
        let s0_0 = p.as_str();
        let parts = [s0_0, " = getelementptr { i64, i64, i8* }, { i64, i64, i8* }* ", list_op, ", i32 0, i32 2"];
        proof {
            assert(parts@ == seq![s0_0, " = getelementptr { i64, i64, i8* }, { i64, i64, i8* }* ", list_op, ", i32 0, i32 2"]);
            assert(part_views(parts@) =~= seq![s0_0@, " = getelementptr { i64, i64, i8* }, { i64, i64, i8* }* "@, list_op@, ", i32 0, i32 2"@]);
            reveal_with_fuel(concat_all, 5);
            assert(concat_all(part_views(parts@)) =~= s0_0@ + " = getelementptr { i64, i64, i8* }, { i64, i64, i8* }* "@ + list_op@ + ", i32 0, i32 2"@);
        }
        self.line(&parts);
        let dst = self.value();
        let s1_0 = dst.as_str();
        let s1_2 = p.as_str();
        let parts = [s1_0, " = load i8*, i8** ", s1_2];
        proof {
            assert(parts@ == seq![s1_0, " = load i8*, i8** ", s1_2]);
            assert(part_views(parts@) =~= seq![s1_0@, " = load i8*, i8** "@, s1_2@]);
            reveal_with_fuel(concat_all, 4);
            assert(concat_all(part_views(parts@)) =~= s1_0@ + " = load i8*, i8** "@ + s1_2@);
        }
        self.line(&parts);
        proof {
            reveal_strlit("2");
            reveal_strlit("i8*");
            reveal_strlit(", i32 0, i32 2");
            reveal_strlit(", i32 0, i32 ");
            reveal_strlit(" = load i8*, i8** ");
            reveal_strlit(" = load ");
            reveal_strlit(", ");
            reveal_strlit("* ");
            if old(self).next_id + 2 <= usize::MAX && !old(self).block_terminated {
                assert(", i32 0, i32 2"@ =~= ", i32 0, i32 "@ + "2"@);
                assert(" = load i8*, i8** "@ =~= " = load "@ + "i8*"@ + ", "@ + "i8*"@ + "* "@);
                assert(self.body@ =~= b0 + list_field_text(old(self).next_id as nat, list_op@, "2"@, "i8*"@));
            }
        }
        dst
    }

    /// Allocate and fill a `{ i64 len, i64 cap, i8* data }` list header.
    #[verifier::rlimit(80)]
    #[verifier::spinoff_prover]
    pub fn list_build_struct(&mut self, len: &str, cap: &str, data: &str) -> (r: String)
        ensures
            cg_frame(old(self), final(self)),
            final(self).next_id < usize::MAX ==> r@ == value_back(final(self), 3),
            old(self).next_id + 5 <= usize::MAX ==> {
                &&& r@ == value_name(old(self).next_id as nat + 1)
                &&& final(self).next_id == old(self).next_id + 5
                &&& emitted(old(self), final(self), list_struct_text(old(self).next_id as nat, len@, cap@, data@))
            },
    {
        let ghost b0 = self.body@;
        let raw = self.value();
        self.line2(raw.as_str(), " = call i8* @malloc(i64 24)");
        let ghost b1 = self.body@;
        let p = self.value();
        self.line4(p.as_str(), " = bitcast i8* ", raw.as_str(), " to { i64, i64, i8* }*");
        let ghost b2 = self.body@;
        let lp = self.value();
        self.line4(lp.as_str(), " = getelementptr { i64, i64, i8* }, { i64, i64, i8* }* ", p.as_str(), ", i32 0, i32 0");
        let ghost b3 = self.body@;
        self.line4("store i64 ", len, ", i64* ", lp.as_str());
        let ghost b4 = self.body@;
        let cp = self.value();
        self.line4(cp.as_str(), " = getelementptr { i64, i64, i8* }, { i64, i64, i8* }* ", p.as_str(), ", i32 0, i32 1");
        let ghost b5 = self.body@;
        self.line4("store i64 ", cap, ", i64* ", cp.as_str());
        let ghost b6 = self.body@;
        let dp = self.value();
        self.line4(dp.as_str(), " = getelementptr { i64, i64, i8* }, { i64, i64, i8* }* ", p.as_str(), ", i32 0, i32 2");
        let ghost b7 = self.body@;
        self.line4("store i8* ", data, ", i8** ", dp.as_str());
        proof {
            if old(self).next_id + 5 <= usize::MAX && !old(self).block_terminated {
                assert(self.body@ =~= b0 + list_struct_text(old(self).next_id as nat, len@, cap@, data@));
            }
        }
        p
    }

    fn lower_list_lit(&mut self, arena: &Arena, elements: &Vec<TypedExpr>, list_ty: Type) -> (r: String)
        requires
            arena.wf(),
            forall|i: int| 0 <= i < elements@.len() ==> expr_valid(arena, #[trigger] elements@[i]),
            arena.valid(list_ty),
            locals_ok(arena, old(self).locals@),
        ensures
            cg_frame(old(self), final(self)),
            list_ty is List && final(self).next_id < usize::MAX ==> r@ == value_back(final(self), 3),
        decreases elements, 2nat,
    {
        let id = match list_ty {
            Type::List(id) => id,
            _ => {
                self.fail(String::from_str("internal: list_lit with non-list type"));
                return String::from_str("undef");
            },
        };
        proof { lemma_components_valid(arena, list_ty); }
        let elem_ty = id.elem(arena);
        let elem_llvm = self.ty(arena, elem_ty);
        let elem_size = type_byte_size(arena, elem_ty);
        let n = elements.len();
        let mut ops: Vec<String> = Vec::new();
        let mut i: usize = 0;
        while i < n
            invariant
                0 <= i <= n,
                n == elements@.len(),
                arena.wf(),
                forall|i: int| 0 <= i < elements@.len() ==> expr_valid(arena, #[trigger] elements@[i]),
                locals_ok(arena, self.locals@),
                cg_frame(old(self), self),
            decreases n - i,
        {
            assert(expr_valid(arena, elements@[i as int]));
            let op = self.lower(arena, &elements[i]);
            ops.push(op);
            i += 1;
        }
        let count = self.count_text(n);
        let data_bytes = self.bytes_text(if n == 0 { 1 } else { n }, elem_size);
        let data_raw = self.value();
        self.line(&[data_raw.as_str(), " = call i8* @malloc(i64 ", data_bytes.as_str(), ")"]);
        let data_typed = self.value();
        self.line(&[data_typed.as_str(), " = bitcast i8* ", data_raw.as_str(), " to ", elem_llvm.as_str(), "*"]);
        let mut k: usize = 0;
        while k < ops.len()
            invariant
                0 <= k <= ops@.len(),
                cg_frame(old(self), self),
            decreases ops.len() - k,
        {
            let p = self.value();
            let ix = usize_text(k);
            self.line(&[p.as_str(), " = getelementptr ", elem_llvm.as_str(), ", ", elem_llvm.as_str(), "* ", data_typed.as_str(), ", i64 ", ix.as_str()]);
            self.line(&["store ", elem_llvm.as_str(), " ", ops[k].as_str(), ", ", elem_llvm.as_str(), "* ", p.as_str()]);
            k += 1;
        }
        let struct_raw = self.value();
        self.line(&[struct_raw.as_str(), " = call i8* @malloc(i64 24)"]);
        let struct_p = self.value();
        self.line(&[struct_p.as_str(), " = bitcast i8* ", struct_raw.as_str(), " to { i64, i64, i8* }*"]);
        let len_p = self.value();
        self.line(&[len_p.as_str(), " = getelementptr { i64, i64, i8* }, { i64, i64, i8* }* ", struct_p.as_str(), ", i32 0, i32 0"]);
        self.line(&["store i64 ", count.as_str(), ", i64* ", len_p.as_str()]);
        let cap_p = self.value();
        self.line(&[cap_p.as_str(), " = getelementptr { i64, i64, i8* }, { i64, i64, i8* }* ", struct_p.as_str(), ", i32 0, i32 1"]);
        self.line(&["store i64 ", count.as_str(), ", i64* ", cap_p.as_str()]);
        let data_p = self.value();
        self.line(&[data_p.as_str(), " = getelementptr { i64, i64, i8* }, { i64, i64, i8* }* ", struct_p.as_str(), ", i32 0, i32 2"]);
        self.line(&["store i8* ", data_raw.as_str(), ", i8** ", data_p.as_str()]);
        struct_p
    }

    /// A count as an `i64` literal.
    fn count_text(&mut self, n: usize) -> (r: String)
        ensures
            *final(self) == *old(self),
            r@ == signed_decimal((n as i64) as int),
    {
        i64_text(n as i64)
    }

    /// `n * size` bytes as a literal (wrapping as the machine would).
    fn bytes_text(&mut self, n: usize, size: u64) -> (r: String)
        ensures
            *final(self) == *old(self),
            r@ == decimal((((n as nat) * (size as nat)) % 0x1_0000_0000_0000_0000) as nat),
    {
        u64_text((n as u64).wrapping_mul(size))
    }

    fn lower_list_index(&mut self, arena: &Arena, list: &TypedExpr, index: &TypedExpr, Ghost(parent): Ghost<TypedExpr>) -> (r: String)
        requires
            decreases_to!(parent => *list),
            decreases_to!(parent => *index),
            arena.wf(),
            expr_valid(arena, *list),
            expr_valid(arena, *index),
            locals_ok(arena, old(self).locals@),
        ensures
            cg_frame(old(self), final(self)),
            list.ty is List && final(self).next_id < usize::MAX ==> r@ == last_value(final(self)),
        decreases parent, 1nat,
    {
        let list_op = self.lower(arena, list);
        let idx_op = self.lower(arena, index);
        let elem_ty = match list.ty {
            Type::List(id) => {
                proof { lemma_components_valid(arena, list.ty); }
                id.elem(arena)
            },
            _ => {
                self.fail(String::from_str("internal: list_index on non-list"));
                return String::from_str("undef");
            },
        };
        let elem_llvm = self.ty(arena, elem_ty);
        let data_p = self.value();
        self.line(&[data_p.as_str(), " = getelementptr { i64, i64, i8* }, { i64, i64, i8* }* ", list_op.as_str(), ", i32 0, i32 2"]);
        let data_raw = self.value();
        self.line(&[data_raw.as_str(), " = load i8*, i8** ", data_p.as_str()]);
        let data_typed = self.value();
        self.line(&[data_typed.as_str(), " = bitcast i8* ", data_raw.as_str(), " to ", elem_llvm.as_str(), "*"]);
        let p = self.value();
        self.line(&[p.as_str(), " = getelementptr ", elem_llvm.as_str(), ", ", elem_llvm.as_str(), "* ", data_typed.as_str(), ", i64 ", idx_op.as_str()]);
        let dst = self.value();
        self.line(&[dst.as_str(), " = load ", elem_llvm.as_str(), ", ", elem_llvm.as_str(), "* ", p.as_str()]);
        dst
    }

    fn lower_list_concat(&mut self, arena: &Arena, lhs: &TypedExpr, rhs: &TypedExpr, list_ty: Type, Ghost(parent): Ghost<TypedExpr>) -> (r: String)
        requires
            decreases_to!(parent => *lhs),
            decreases_to!(parent => *rhs),
            arena.wf(),
            expr_valid(arena, *lhs),
            expr_valid(arena, *rhs),
            arena.valid(list_ty),
            locals_ok(arena, old(self).locals@),
        ensures
            cg_frame(old(self), final(self)),
            list_ty is List && final(self).next_id < usize::MAX ==> r@ == value_back(final(self), 3),
        decreases parent, 1nat,
    {
        let id = match list_ty {
            Type::List(id) => id,
            _ => {
                self.fail(String::from_str("internal: list_concat with non-list result type"));
                return String::from_str("undef");
            },
        };
        proof { lemma_components_valid(arena, list_ty); }
        let elem_size = type_byte_size(arena, id.elem(arena));
        let size = u64_text(elem_size);
        let lhs_op = self.lower(arena, lhs);
        let rhs_op = self.lower(arena, rhs);
        let lhs_len = self.list_load_len(lhs_op.as_str());
        let lhs_data = self.list_load_data_raw(lhs_op.as_str());
        let rhs_len = self.list_load_len(rhs_op.as_str());
        let rhs_data = self.list_load_data_raw(rhs_op.as_str());
        let total_len = self.value();
        self.line(&[total_len.as_str(), " = add i64 ", lhs_len.as_str(), ", ", rhs_len.as_str()]);
        let lhs_bytes = self.value();
        self.line(&[lhs_bytes.as_str(), " = mul i64 ", lhs_len.as_str(), ", ", size.as_str()]);
        let rhs_bytes = self.value();
        self.line(&[rhs_bytes.as_str(), " = mul i64 ", rhs_len.as_str(), ", ", size.as_str()]);
        let total_bytes = self.value();
        self.line(&[total_bytes.as_str(), " = add i64 ", lhs_bytes.as_str(), ", ", rhs_bytes.as_str()]);
        let bytes_or_one = self.value();
        let nz = self.value();
        self.line(&[nz.as_str(), " = icmp ne i64 ", total_bytes.as_str(), ", 0"]);
        self.line(&[bytes_or_one.as_str(), " = select i1 ", nz.as_str(), ", i64 ", total_bytes.as_str(), ", i64 1"]);
        let new_data = self.value();
        self.line(&[new_data.as_str(), " = call i8* @malloc(i64 ", bytes_or_one.as_str(), ")"]);
        self.line(&["call void @llvm.memcpy.p0i8.p0i8.i64(i8* ", new_data.as_str(), ", i8* ", lhs_data.as_str(), ", i64 ", lhs_bytes.as_str(), ", i1 false)"]);
        let mid = self.value();
        self.line(&[mid.as_str(), " = getelementptr i8, i8* ", new_data.as_str(), ", i64 ", lhs_bytes.as_str()]);
        self.line(&["call void @llvm.memcpy.p0i8.p0i8.i64(i8* ", mid.as_str(), ", i8* ", rhs_data.as_str(), ", i64 ", rhs_bytes.as_str(), ", i1 false)"]);
        self.list_build_struct(total_len.as_str(), total_len.as_str(), new_data.as_str())
    }

    /// `lst.append(value)`: grows the buffer (doubling, at least 4) when
    /// full, then stores at `data[len]` and bumps `len`.
    fn lower_list_append(&mut self, arena: &Arena, list: &TypedExpr, value: &TypedExpr, Ghost(parent): Ghost<Stmt>)
        requires
            decreases_to!(parent => *list),
            decreases_to!(parent => *value),
            arena.wf(),
            expr_valid(arena, *list),
            expr_valid(arena, *value),
            locals_ok(arena, old(self).locals@),
        ensures
            cg_frame(old(self), final(self)),
            !(list.ty is List) ==> final(self).error is Some && final(self).body == old(self).body,
            list.ty is List && final(self).next_id < usize::MAX ==> exists|p: Seq<char>|
                ends_with(final(self).body@, #[trigger] instr("store i64 "@ + last_value(final(self)) + ", i64* "@ + p)),
            list.ty is List ==> holds_text(final(self).body@, realloc_call()),
        decreases parent, 1nat,
    {
        let elem_ty = match list.ty {
            Type::List(id) => {
                proof { lemma_components_valid(arena, list.ty); }
                id.elem(arena)
            },
            _ => {
                self.fail(String::from_str("internal: list_append on non-list"));
                return;
            },
        };
        let elem_llvm = self.ty(arena, elem_ty);
        let size = u64_text(type_byte_size(arena, elem_ty));
        let list_op = self.lower_operand(arena, list);
        let value_op = self.lower_operand(arena, value);
        let len_p = self.value();
        self.line(&[len_p.as_str(), " = getelementptr { i64, i64, i8* }, { i64, i64, i8* }* ", list_op.as_str(), ", i32 0, i32 0"]);
        let len = self.value();
        self.line(&[len.as_str(), " = load i64, i64* ", len_p.as_str()]);
        let cap_p = self.value();
        self.line(&[cap_p.as_str(), " = getelementptr { i64, i64, i8* }, { i64, i64, i8* }* ", list_op.as_str(), ", i32 0, i32 1"]);
        let cap = self.value();
        self.line(&[cap.as_str(), " = load i64, i64* ", cap_p.as_str()]);
        let data_p = self.value();
        self.line(&[data_p.as_str(), " = getelementptr { i64, i64, i8* }, { i64, i64, i8* }* ", list_op.as_str(), ", i32 0, i32 2"]);
        let need_grow = self.value();
        self.line(&[need_grow.as_str(), " = icmp uge i64 ", len.as_str(), ", ", cap.as_str()]);
        let id = self.fresh_block();
        let mut grow_lbl = String::from_str("append.grow.");
        grow_lbl.append(id.as_str());
        let mut after_lbl = String::from_str("append.after.");
        after_lbl.append(id.as_str());
        self.branch(need_grow.as_str(), grow_lbl.as_str(), after_lbl.as_str());
        self.append_grow(cap.as_str(), cap_p.as_str(), data_p.as_str(), size.as_str(), grow_lbl.as_str(), after_lbl.as_str());
        let ghost b2 = self.body@;
        self.append_store(data_p.as_str(), elem_llvm.as_str(), value_op.as_str(), len.as_str(), len_p.as_str());
        proof {
            lemma_holds_text_extends(b2, self.body@, realloc_call());
            if self.next_id < usize::MAX {
                assert(ends_with(self.body@, instr("store i64 "@ + last_value(self) + ", i64* "@ + len_p@)));
            }
        }
    }

    /// The block `grow_lbl` of an append: doubles the capacity (at least
    /// 4), reallocates the buffer, then falls through to `after_lbl`,
    /// which it opens.
    #[verifier::rlimit(30)]
    fn append_grow(&mut self, cap: &str, cap_p: &str, data_p: &str, size: &str, grow_lbl: &str, after_lbl: &str)
        ensures
            cg_frame(old(self), final(self)),
            ends_with(final(self).body@, after_lbl@ + ":\n"@),
            !final(self).block_terminated,
            holds_text(final(self).body@, realloc_call()),
    {
        self.open_block(grow_lbl);
        let cap2 = self.value();
        self.line(&[cap2.as_str(), " = mul i64 ", cap, ", 2"]);
        let small = self.value();
        self.line(&[small.as_str(), " = icmp ult i64 ", cap2.as_str(), ", 4"]);
        let new_cap = self.value();
        self.line(&[new_cap.as_str(), " = select i1 ", small.as_str(), ", i64 4, i64 ", cap2.as_str()]);
        let new_bytes = self.value();
        self.line(&[new_bytes.as_str(), " = mul i64 ", new_cap.as_str(), ", ", size]);
        let old_data = self.value();
        self.line(&[old_data.as_str(), " = load i8*, i8** ", data_p]);
        let new_data = self.value();
        let ghost b0 = self.body@;
        self.line6(new_data.as_str(), " = call i8* @realloc(i8* ", old_data.as_str(), ", i64 ", new_bytes.as_str(), ")");
        proof {
            reveal_strlit(" = call i8* @realloc(i8* ");
            reveal_strlit("  ");
            let k: int = b0.len() as int + 2 + new_data@.len() as int;
            assert(self.body@.subrange(k, k + realloc_call().len() as int) =~= realloc_call());
            assert(piece_at(self.body@, k, realloc_call()));
        }
        let ghost b1 = self.body@;
        self.line(&["store i8* ", new_data.as_str(), ", i8** ", data_p]);
        self.line(&["store i64 ", new_cap.as_str(), ", i64* ", cap_p]);
        self.line(&["br label %", after_lbl]);
        self.block_terminated = true;
        let ghost b = self.body@;
        self.open_block(after_lbl);
        proof {
            lemma_ends_with_parts(b, Seq::<char>::empty(), after_lbl@ + ":\n"@);
            assert(b + (Seq::<char>::empty() + (after_lbl@ + ":\n"@)) =~= self.body@);
            lemma_holds_text_extends(b1, self.body@, realloc_call());
        }
    }

    /// The tail of an append: stores `value_op` at `data[len]` and bumps
    /// the length.
    fn append_store(&mut self, data_p: &str, elem_llvm: &str, value_op: &str, len: &str, len_p: &str)
        ensures
            cg_frame(old(self), final(self)),
            !old(self).block_terminated && final(self).next_id < usize::MAX
                ==> ends_with(final(self).body@, instr("store i64 "@ + last_value(final(self)) + ", i64* "@ + len_p@)),
    {
        let data_raw = self.value();
        self.line(&[data_raw.as_str(), " = load i8*, i8** ", data_p]);
        let data_typed = self.value();
        self.line(&[data_typed.as_str(), " = bitcast i8* ", data_raw.as_str(), " to ", elem_llvm, "*"]);
        let slot = self.value();
        self.line(&[slot.as_str(), " = getelementptr ", elem_llvm, ", ", elem_llvm, "* ", data_typed.as_str(), ", i64 ", len]);
        self.line(&["store ", elem_llvm, " ", value_op, ", ", elem_llvm, "* ", slot.as_str()]);
        let new_len = self.value();
        self.line(&[new_len.as_str(), " = add i64 ", len, ", 1"]);
        let ghost b = self.body@;
        self.line4("store i64 ", new_len.as_str(), ", i64* ", len_p);
        proof {
            if !self.block_terminated {
                lemma_ends_with_parts(b, Seq::<char>::empty(), instr("store i64 "@ + new_len@ + ", i64* "@ + len_p@));
                assert(b + (Seq::<char>::empty() + instr("store i64 "@ + new_len@ + ", i64* "@ + len_p@)) =~= self.body@);
            }
        }
    }

    /// The capacity of a fresh hash table for `n` entries: the least power
    /// of two that is at least `max(2n, 4)`.
    fn table_capacity(&mut self, n: usize) -> (r: u64)
        ensures
            *final(self) == *old(self),
            4 <= r,
            r == u64::MAX || is_pow2(r as nat),
            r >= 2 * n || r == u64::MAX,
            r == 4 || r / 2 < 2 * n,
    {
        let nn: u64 = n as u64;
        let want: u64 = match nn.checked_mul(2) {
            Some(v) => if v < 4 { 4 } else { v },
            None => u64::MAX,
        };
        let mut cap: u64 = 4;
        proof { reveal_with_fuel(is_pow2, 3); }
        while cap < want
            invariant
                4 <= cap,
                cap == u64::MAX || is_pow2(cap as nat),
                cap == 4 || cap / 2 < 2 * n,
                want == (if 2 * n > u64::MAX { u64::MAX as int } else if 2 * n < 4 { 4 } else { 2 * n }),
            decreases u64::MAX - cap,
        {
            cap = match cap.checked_mul(2) {
                Some(v) => v,
                None => u64::MAX,
            };
        }
        cap
    }

    /// Allocate an empty hash table (outer struct plus zeroed slots) for
    /// `n` entries; returns (raw i8* pointer, typed struct pointer).
    fn new_table(&mut self, n: usize) -> (r: (String, String))
        ensures
            cg_frame(old(self), final(self)),
            old(self).next_id + 6 <= usize::MAX ==> r.0@ == value_name(old(self).next_id as nat + 1)
                && r.1@ == value_name(old(self).next_id as nat + 2) && final(self).next_id == old(self).next_id + 6,
            final(self).next_id < usize::MAX ==> r.0@ == value_back(final(self), 4) && r.1@ == value_back(final(self), 3),
    {
        let cap = self.table_capacity(n);
        let cap_s = u64_text(cap);
        let slot_bytes = u64_text(cap.wrapping_mul(24));
        let slots_raw = self.value();
        self.line(&[slots_raw.as_str(), " = call i8* @malloc(i64 ", slot_bytes.as_str(), ")"]);
        self.line(&["call void @llvm.memset.p0i8.i64(i8* ", slots_raw.as_str(), ", i8 0, i64 ", slot_bytes.as_str(), ", i1 false)"]);
        let table_raw = self.value();
        self.line(&[table_raw.as_str(), " = call i8* @malloc(i64 24)"]);
        let tp = self.value();
        self.line(&[tp.as_str(), " = bitcast i8* ", table_raw.as_str(), " to { i64, i64, i8* }*"]);
        let size_p = self.value();
        self.line(&[size_p.as_str(), " = getelementptr { i64, i64, i8* }, { i64, i64, i8* }* ", tp.as_str(), ", i32 0, i32 0"]);
        self.line(&["store i64 0, i64* ", size_p.as_str()]);
        let cap_p = self.value();
        self.line(&[cap_p.as_str(), " = getelementptr { i64, i64, i8* }, { i64, i64, i8* }* ", tp.as_str(), ", i32 0, i32 1"]);
        self.line(&["store i64 ", cap_s.as_str(), ", i64* ", cap_p.as_str()]);
        let slots_p = self.value();
        self.line(&[slots_p.as_str(), " = getelementptr { i64, i64, i8* }, { i64, i64, i8* }* ", tp.as_str(), ", i32 0, i32 2"]);
        self.line(&["store i8* ", slots_raw.as_str(), ", i8** ", slots_p.as_str()]);
        (table_raw, tp)
    }

    fn lower_dict_lit(&mut self, arena: &Arena, entries: &Vec<(TypedExpr, TypedExpr)>) -> (r: String)
        requires
            arena.wf(),
            forall|i: int| #![trigger entries@[i]] 0 <= i < entries@.len() ==> expr_valid(arena, entries@[i].0) && expr_valid(arena, entries@[i].1),
            locals_ok(arena, old(self).locals@),
        ensures
            cg_frame(old(self), final(self)),
            old(self).next_id + 6 <= usize::MAX ==> r@ == value_name(old(self).next_id as nat + 2),
            entries@.len() == 0 && final(self).next_id < usize::MAX ==> r@ == value_back(final(self), 3),
        decreases entries, 2nat,
    {
        let (table_raw, tp) = self.new_table(entries.len());
        let ghost t0 = *self;
        let mut i: usize = 0;
        while i < entries.len()
            invariant
                0 <= i <= entries@.len(),
                arena.wf(),
                forall|i: int| #![trigger entries@[i]] 0 <= i < entries@.len() ==> expr_valid(arena, entries@[i].0) && expr_valid(arena, entries@[i].1),
                locals_ok(arena, self.locals@),
                cg_frame(old(self), self),
                i == 0 ==> *self == t0,
            decreases entries.len() - i,
        {
            assert(expr_valid(arena, entries@[i as int].0));
            let k = self.lower(arena, &entries[i].0);
            let v = self.lower(arena, &entries[i].1);
            self.line(&["call void @pyx86_dict_i64_insert(i8* ", table_raw.as_str(), ", i64 ", k.as_str(), ", i64 ", v.as_str(), ")"]);
            i += 1;
        }
        tp
    }

    fn lower_set_lit(&mut self, arena: &Arena, elements: &Vec<TypedExpr>) -> (r: String)
        requires
            arena.wf(),
            forall|i: int| 0 <= i < elements@.len() ==> expr_valid(arena, #[trigger] elements@[i]),
            locals_ok(arena, old(self).locals@),
        ensures
            cg_frame(old(self), final(self)),
            old(self).next_id + 6 <= usize::MAX ==> r@ == value_name(old(self).next_id as nat + 2),
            elements@.len() == 0 && final(self).next_id < usize::MAX ==> r@ == value_back(final(self), 3),
        decreases elements, 2nat,
    {
        let (table_raw, tp) = self.new_table(elements.len());
        let ghost t0 = *self;
        let mut i: usize = 0;
        while i < elements.len()
            invariant
                0 <= i <= elements@.len(),
                arena.wf(),
                forall|i: int| 0 <= i < elements@.len() ==> expr_valid(arena, #[trigger] elements@[i]),
                locals_ok(arena, self.locals@),
                cg_frame(old(self), self),
                i == 0 ==> *self == t0,
            decreases elements.len() - i,
        {
            assert(expr_valid(arena, elements@[i as int]));
            let k = self.lower(arena, &elements[i]);
            self.line(&["call void @pyx86_dict_i64_insert(i8* ", table_raw.as_str(), ", i64 ", k.as_str(), ", i64 0)"]);
            i += 1;
        }
        tp
    }

    /// `<fun>(table, key)` on a dict or set, returning `<ret>`.
    fn lower_dict_call(&mut self, arena: &Arena, dict: &TypedExpr, key: &TypedExpr, ret: &str, fun: &str, Ghost(parent): Ghost<TypedExpr>) -> (r: String)
        requires
            decreases_to!(parent => *dict),
            decreases_to!(parent => *key),
            arena.wf(),
            expr_valid(arena, *dict),
            expr_valid(arena, *key),
            locals_ok(arena, old(self).locals@),
        ensures
            cg_frame(old(self), final(self)),
            final(self).next_id < usize::MAX ==> r@ == last_value(final(self)),
        decreases parent, 1nat,
    {
        let d = self.lower(arena, dict);
        let k = self.lower(arena, key);
        let raw = self.value();
        self.line(&[raw.as_str(), " = bitcast { i64, i64, i8* }* ", d.as_str(), " to i8*"]);
        let dst = self.value();
        self.line(&[dst.as_str(), " = call ", ret, " @", fun, "(i8* ", raw.as_str(), ", i64 ", k.as_str(), ")"]);
        dst
    }

    fn lower_field_get(&mut self, arena: &Arena, obj: &TypedExpr, field_index: usize, result_ty: Type) -> (r: String)
        requires
            arena.wf(),
            expr_valid(arena, *obj),
            arena.valid(result_ty),
            locals_ok(arena, old(self).locals@),
        ensures
            cg_frame(old(self), final(self)),
            obj.ty is Class && final(self).next_id < usize::MAX ==> r@ == last_value(final(self)),
        decreases obj, 3nat,
    {
        let obj_op = self.lower(arena, obj);
        if !matches!(obj.ty, Type::Class(_)) {
            self.fail(String::from_str("internal: field_get on non-class"));
            return String::from_str("undef");
        }
        let class_llvm = self.ty(arena, obj.ty);
        let sty = strip_pointer(class_llvm.as_str());
        let p = self.value();
        let ix = usize_text(field_index);
        self.line(&[p.as_str(), " = getelementptr ", sty.as_str(), ", ", sty.as_str(), "* ", obj_op.as_str(), ", i32 0, i32 ", ix.as_str()]);
        let ft = self.ty(arena, result_ty);
        let dst = self.value();
        self.line(&[dst.as_str(), " = load ", ft.as_str(), ", ", ft.as_str(), "* ", p.as_str()]);
        dst
    }

    /// `Foo(args...)`: allocate the instance and call the `__init__` the
    /// class resolves to (viewing the instance as that class's layout).
    fn lower_class_new(&mut self, arena: &Arena, class_id: ClassId, init_class: Option<ClassId>, args: &Vec<TypedExpr>) -> (r: String)
        requires
            arena.wf(),
            class_id.0 < arena.classes@.len(),
            init_class matches Some(c) ==> c.0 < arena.classes@.len(),
            forall|i: int| 0 <= i < args@.len() ==> expr_valid(arena, #[trigger] args@[i]),
            locals_ok(arena, old(self).locals@),
        ensures
            cg_frame(old(self), final(self)),
            init_class is None && old(self).next_id + 2 <= usize::MAX ==> r@ == value_name(old(self).next_id as nat + 1),
            init_class is Some && final(self).next_id < usize::MAX ==> r@ == last_value(final(self)),
        decreases args, 2nat,
    {
        let class_llvm = self.ty(arena, Type::Class(class_id));
        let sty = strip_pointer(class_llvm.as_str());
        let bytes = u64_text(class_byte_size(arena, class_id));
        let raw = self.value();
        self.line(&[raw.as_str(), " = call i8* @malloc(i64 ", bytes.as_str(), ")"]);
        let self_p = self.value();
        self.line(&[self_p.as_str(), " = bitcast i8* ", raw.as_str(), " to ", sty.as_str(), "*"]);
        let ops = self.lower_typed_args(arena, args);
        let ic = match init_class {
            Some(c) => c,
            None => {
                return self_p;
            },
        };
        let ist = if ic == class_id {
            sty.clone()
        } else {
            let l = self.ty(arena, Type::Class(ic));
            strip_pointer(l.as_str())
        };
        let receiver = if ic == class_id {
            self_p.clone()
        } else {
            let c = self.value();
            self.line(&[c.as_str(), " = bitcast ", sty.as_str(), "* ", self_p.as_str(), " to ", ist.as_str(), "*"]);
            c
        };
        let mut call_args: Vec<String> = Vec::new();
        let mut first = ist.clone();
        first.append("* ");
        first.append(receiver.as_str());
        call_args.push(first);
        let mut k: usize = 0;
        while k < ops.len()
            invariant
                0 <= k <= ops@.len(),
            decreases ops.len() - k,
        {
            call_args.push(ops[k].clone());
            k += 1;
        }
        let init_name = ic.name(arena);
        let joined = join_comma(&call_args);
        let dst = self.value();
        self.line(&[dst.as_str(), " = call ", ist.as_str(), "* @py_", init_name.as_str(), ".__init__(", joined.as_str(), ")"]);
        if ic == class_id {
            dst
        } else {
            let back = self.value();
            self.line(&[back.as_str(), " = bitcast ", ist.as_str(), "* ", dst.as_str(), " to ", sty.as_str(), "*"]);
            back
        }
    }

    fn lower_set_field(&mut self, arena: &Arena, obj: &TypedExpr, field_index: usize, value: &TypedExpr, Ghost(parent): Ghost<Stmt>)
        requires
            decreases_to!(parent => *obj),
            decreases_to!(parent => *value),
            arena.wf(),
            expr_valid(arena, *obj),
            expr_valid(arena, *value),
            locals_ok(arena, old(self).locals@),
        ensures
            cg_frame(old(self), final(self)),
            is_scalar(value.ty) && !final(self).block_terminated && final(self).next_id < usize::MAX
                ==> ends_with(final(self).body@, ", "@ + scalar_llvm(value.ty) + "* "@ + last_value(final(self)) + "\n"@),
        decreases parent, 1nat,
    {
        let obj_op = self.lower(arena, obj);
        let value_op = self.lower(arena, value);
        let class_llvm = self.ty(arena, obj.ty);
        let sty = strip_pointer(class_llvm.as_str());
        let p = self.value();
        let ix = usize_text(field_index);
        self.line(&[p.as_str(), " = getelementptr ", sty.as_str(), ", ", sty.as_str(), "* ", obj_op.as_str(), ", i32 0, i32 ", ix.as_str()]);
        let ft = self.ty(arena, value.ty);
        let ghost b = self.body@;
        self.line8("store ", ft.as_str(), " ", value_op.as_str(), ", ", ft.as_str(), "* ", p.as_str());
        proof {
            if !self.block_terminated {
                let x = "  "@ + "store "@ + ft@ + " "@ + value_op@;
                let y = ", "@ + ft@ + "* "@ + p@ + "\n"@;
                lemma_ends_with_parts(b, x, y);
                assert(b + (x + y) =~= self.body@);
            }
        }
    }

    #[verifier::rlimit(30)]
    fn lower_set_subscript(&mut self, arena: &Arena, container: &TypedExpr, key: &TypedExpr, value: &TypedExpr, Ghost(parent): Ghost<Stmt>)
        requires
            decreases_to!(parent => *container),
            decreases_to!(parent => *key),
            decreases_to!(parent => *value),
            arena.wf(),
            expr_valid(arena, *container),
            expr_valid(arena, *key),
            expr_valid(arena, *value),
            locals_ok(arena, old(self).locals@),
        ensures
            cg_frame(old(self), final(self)),
            (container.ty matches Type::List(id) && is_scalar(id.spec_elem(arena)) && !final(self).block_terminated
                && final(self).next_id < usize::MAX)
                ==> ends_with(final(self).body@, ", "@ + scalar_llvm(container.ty->List_0.spec_elem(arena)) + "* "@
                    + last_value(final(self)) + "\n"@),
            !(container.ty is List || container.ty is Dict) ==> final(self).error is Some && final(self).body == old(self).body,
        decreases parent, 1nat,
    {
        match container.ty {
            Type::Dict(_) => {
                let d = self.lower(arena, container);
                let k = self.lower(arena, key);
                let v = self.lower(arena, value);
                let raw = self.value();
                self.line(&[raw.as_str(), " = bitcast { i64, i64, i8* }* ", d.as_str(), " to i8*"]);
                self.line(&["call void @pyx86_dict_i64_insert(i8* ", raw.as_str(), ", i64 ", k.as_str(), ", i64 ", v.as_str(), ")"]);
            },
            Type::List(id) => {
                proof { lemma_components_valid(arena, container.ty); }
                let elem_llvm = self.ty(arena, id.elem(arena));
                let list_op = self.lower(arena, container);
                let idx_op = self.lower(arena, key);
                let value_op = self.lower(arena, value);
                let data_p = self.value();
                self.line(&[data_p.as_str(), " = getelementptr { i64, i64, i8* }, { i64, i64, i8* }* ", list_op.as_str(), ", i32 0, i32 2"]);
                let data_raw = self.value();
                self.line(&[data_raw.as_str(), " = load i8*, i8** ", data_p.as_str()]);
                let data_typed = self.value();
                self.line(&[data_typed.as_str(), " = bitcast i8* ", data_raw.as_str(), " to ", elem_llvm.as_str(), "*"]);
                let slot = self.value();
                self.line(&[slot.as_str(), " = getelementptr ", elem_llvm.as_str(), ", ", elem_llvm.as_str(), "* ", data_typed.as_str(), ", i64 ", idx_op.as_str()]);
        let ghost b = self.body@;
        self.line8("store ", elem_llvm.as_str(), " ", value_op.as_str(), ", ", elem_llvm.as_str(), "* ", slot.as_str());
        proof {
            if !self.block_terminated {
                let x = "  "@ + "store "@ + elem_llvm@ + " "@ + value_op@;
                let y = ", "@ + elem_llvm@ + "* "@ + slot@ + "\n"@;
                lemma_ends_with_parts(b, x, y);
                assert(b + (x + y) =~= self.body@);
            }
        }
            },
            other => {
                let mut m = String::from_str("internal: SetSubscript on unsupported type ");
                m.append(type_debug(other).as_str());
                self.fail(m);
            },
        }
    }

    /// A string literal: a `{ len, data }` view of a module-level global
    /// (equal literals share one global).
    #[verifier::spinoff_prover]
    #[verifier::rlimit(60)]
    pub fn lower_str_lit(&mut self, s: &str) -> (r: String)
        ensures
            cg_frame(old(self), final(self)),
            string_views(final(self).str_lits@) == interned(string_views(old(self).str_lits@), s@),
            final(self).block_terminated == old(self).block_terminated,
            old(self).next_id + 3 <= usize::MAX && s.spec_bytes().len() < usize::MAX ==> {
                &&& final(self).error == old(self).error
                &&& r@ == value_name(old(self).next_id as nat + 2)
                &&& final(self).next_id == old(self).next_id + 3
                &&& final(self).body@ == old(self).body@ + (if old(self).block_terminated { Seq::<char>::empty() } else {
                    str_lit_text(old(self).next_id as nat, lit_index(string_views(old(self).str_lits@), s@),
                        s.spec_bytes().len())
                })
            },
    {
        let ghost lits0 = string_views(self.str_lits@);
        proof { lemma_lit_index(lits0, s@); }
        let mut idx: usize = 0;
        let mut found = false;
        let mut i: usize = 0;
        while i < self.str_lits.len()
            invariant
                0 <= i <= self.str_lits@.len(),
                self.str_lits == old(self).str_lits,
                lits0 == string_views(self.str_lits@),
                found ==> idx < i && idx == lit_index(lits0, s@),
                !found ==> forall|j: int| 0 <= j < i ==> lits0[j] != s@,
            decreases self.str_lits.len() - i,
        {
            if !found && str_eq(self.str_lits[i].as_str(), s) {
                idx = i;
                found = true;
                proof {
                    lemma_lit_index(lits0, s@);
                    assert(lits0[i as int] == s@);
                    if lit_index(lits0, s@) < i {
                        assert(lits0[lit_index(lits0, s@) as int] == s@);
                    }
                }
            }
            i += 1;
        }
        if !found {
            idx = self.str_lits.len();
            self.str_lits.push(String::from_str(s));
            proof {
                assert(string_views(self.str_lits@) =~= lits0.push(s@));
            }
        } else {
            assert(string_views(self.str_lits@) =~= lits0);
        }
        let ghost b0 = self.body@;
        let len_text = self.count_text(s.len());
        let n_text = if s.len() < usize::MAX { usize_text(s.len() + 1) } else { usize_text(s.len()) };
        let ix = usize_text(idx);
        let data = self.value();
        self.line10(data.as_str(), " = getelementptr inbounds [", n_text.as_str(), " x i8], [", n_text.as_str(), " x i8]* @.str.", ix.as_str(), ", i64 0, i64 0", "", "");
        let ghost b1 = self.body@;
        let s0 = self.value();
        self.line4(s0.as_str(), " = insertvalue { i64, i8* } undef, i64 ", len_text.as_str(), ", 0");
        let ghost b2 = self.body@;
        let s1 = self.value();
        self.line6(s1.as_str(), " = insertvalue { i64, i8* } ", s0.as_str(), ", i8* ", data.as_str(), ", 1");
        proof {
            reveal_strlit("");
            if old(self).next_id + 3 <= usize::MAX && s.spec_bytes().len() < usize::MAX && !old(self).block_terminated {
                assert(self.body@ =~= b0 + str_lit_text(old(self).next_id as nat, lit_index(lits0, s@), s.spec_bytes().len()));
            }
        }
        s1
    }

    fn lower_str_concat(&mut self, arena: &Arena, lhs: &TypedExpr, rhs: &TypedExpr, Ghost(parent): Ghost<TypedExpr>) -> (r: String)
        requires
            decreases_to!(parent => *lhs),
            decreases_to!(parent => *rhs),
            arena.wf(),
            expr_valid(arena, *lhs),
            expr_valid(arena, *rhs),
            locals_ok(arena, old(self).locals@),
        ensures
            cg_frame(old(self), final(self)),
            final(self).next_id < usize::MAX ==> r@ == last_value(final(self)),
        decreases parent, 1nat,
    {
        let l = self.lower(arena, lhs);
        let r = self.lower(arena, rhs);
        let lhs_len = self.value();
        self.line(&[lhs_len.as_str(), " = extractvalue { i64, i8* } ", l.as_str(), ", 0"]);
        let lhs_data = self.value();
        self.line(&[lhs_data.as_str(), " = extractvalue { i64, i8* } ", l.as_str(), ", 1"]);
        let rhs_len = self.value();
        self.line(&[rhs_len.as_str(), " = extractvalue { i64, i8* } ", r.as_str(), ", 0"]);
        let rhs_data = self.value();
        self.line(&[rhs_data.as_str(), " = extractvalue { i64, i8* } ", r.as_str(), ", 1"]);
        let total = self.value();
        self.line(&[total.as_str(), " = add i64 ", lhs_len.as_str(), ", ", rhs_len.as_str()]);
        let new_data = self.value();
        self.line(&[new_data.as_str(), " = call i8* @malloc(i64 ", total.as_str(), ")"]);
        self.line(&["call void @llvm.memcpy.p0i8.p0i8.i64(i8* ", new_data.as_str(), ", i8* ", lhs_data.as_str(), ", i64 ", lhs_len.as_str(), ", i1 false)"]);
        let mid = self.value();
        self.line(&[mid.as_str(), " = getelementptr i8, i8* ", new_data.as_str(), ", i64 ", lhs_len.as_str()]);
        self.line(&["call void @llvm.memcpy.p0i8.p0i8.i64(i8* ", mid.as_str(), ", i8* ", rhs_data.as_str(), ", i64 ", rhs_len.as_str(), ", i1 false)"]);
        let s0 = self.value();
        self.line(&[s0.as_str(), " = insertvalue { i64, i8* } undef, i64 ", total.as_str(), ", 0"]);
        let s1 = self.value();
        self.line(&[s1.as_str(), " = insertvalue { i64, i8* } ", s0.as_str(), ", i8* ", new_data.as_str(), ", 1"]);
        s1
    }

    /// Format an int or bool as a `{ i64, i8* }` str value.
    fn lower_format_to_str(&mut self, arena: &Arena, inner: &TypedExpr) -> (r: String)
        requires
            arena.wf(),
            expr_valid(arena, *inner),
            locals_ok(arena, old(self).locals@),
        ensures
            cg_frame(old(self), final(self)),
            (inner.ty.spec_is_int() || inner.ty == Type::Bool) && final(self).next_id < usize::MAX
                ==> r@ == last_value(final(self)),
        decreases inner, 3nat,
    {
        match inner.ty {
            Type::I64 => {
                let v = self.lower(arena, inner);
                let dst = self.value();
                self.line(&[dst.as_str(), " = call { i64, i8* } @pyx86_i64_to_str(i64 ", v.as_str(), ")"]);
                dst
            },
            Type::I8 | Type::I16 | Type::I32 => {
                let v = self.lower(arena, inner);
                let it = self.ty(arena, inner.ty);
                let widened = self.value();
                self.line(&[widened.as_str(), " = sext ", it.as_str(), " ", v.as_str(), " to i64"]);
                let dst = self.value();
                self.line(&[dst.as_str(), " = call { i64, i8* } @pyx86_i64_to_str(i64 ", widened.as_str(), ")"]);
                dst
            },
            Type::Bool => {
                let v = self.lower(arena, inner);
                let true_data = self.value();
                self.line(&[true_data.as_str(), " = getelementptr inbounds [5 x i8], [5 x i8]* @.s_true, i64 0, i64 0"]);
                let false_data = self.value();
                self.line(&[false_data.as_str(), " = getelementptr inbounds [6 x i8], [6 x i8]* @.s_false, i64 0, i64 0"]);
                let chosen_len = self.value();
                self.line(&[chosen_len.as_str(), " = select i1 ", v.as_str(), ", i64 4, i64 5"]);
                let chosen_data = self.value();
                self.line(&[chosen_data.as_str(), " = select i1 ", v.as_str(), ", i8* ", true_data.as_str(), ", i8* ", false_data.as_str()]);
                let s0 = self.value();
                self.line(&[s0.as_str(), " = insertvalue { i64, i8* } undef, i64 ", chosen_len.as_str(), ", 0"]);
                let s1 = self.value();
                self.line(&[s1.as_str(), " = insertvalue { i64, i8* } ", s0.as_str(), ", i8* ", chosen_data.as_str(), ", 1"]);
                s1
            },
            Type::Str => self.lower(arena, inner),
            other => {
                let mut m = String::from_str("internal: lower_format_to_str on unsupported type ");
                m.append(type_debug(other).as_str());
                self.fail(m);
                String::from_str("undef")
            },
        }
    }

    fn lower_str_eq(&mut self, arena: &Arena, lhs: &TypedExpr, rhs: &TypedExpr, negated: bool, Ghost(parent): Ghost<TypedExpr>) -> (r: String)
        requires
            decreases_to!(parent => *lhs),
            decreases_to!(parent => *rhs),
            arena.wf(),
            expr_valid(arena, *lhs),
            expr_valid(arena, *rhs),
            locals_ok(arena, old(self).locals@),
        ensures
            cg_frame(old(self), final(self)),
            final(self).next_id < usize::MAX ==> r@ == last_value(final(self)),
        decreases parent, 1nat,
    {
        let l = self.lower_operand(arena, lhs);
        let r = self.lower_operand(arena, rhs);
        let lhs_len = self.value();
        self.line(&[lhs_len.as_str(), " = extractvalue { i64, i8* } ", l.as_str(), ", 0"]);
        let rhs_len = self.value();
        self.line(&[rhs_len.as_str(), " = extractvalue { i64, i8* } ", r.as_str(), ", 0"]);
        let result_addr = self.value();
        self.line(&[result_addr.as_str(), " = alloca i1"]);
        self.line(&["store i1 0, i1* ", result_addr.as_str()]);
        let len_eq = self.value();
        self.line(&[len_eq.as_str(), " = icmp eq i64 ", lhs_len.as_str(), ", ", rhs_len.as_str()]);
        let id = self.fresh_block();
        let mut bytes_lbl = String::from_str("streq.memcmp.");
        bytes_lbl.append(id.as_str());
        let mut merge_lbl = String::from_str("streq.merge.");
        merge_lbl.append(id.as_str());
        self.branch(len_eq.as_str(), bytes_lbl.as_str(), merge_lbl.as_str());
        self.str_eq_bytes(l.as_str(), r.as_str(), lhs_len.as_str(), result_addr.as_str(), bytes_lbl.as_str(), merge_lbl.as_str());
        let result = self.value();
        self.line(&[result.as_str(), " = load i1, i1* ", result_addr.as_str()]);
        if negated {
            let neg = self.value();
            self.line(&[neg.as_str(), " = xor i1 ", result.as_str(), ", true"]);
            neg
        } else {
            result
        }
    }

    /// The block `bytes_lbl` of a string comparison of equal lengths:
    /// compares the bytes and stores the outcome, then falls through to
    /// `merge_lbl`, which it opens.
    #[verifier::rlimit(30)]
    fn str_eq_bytes(&mut self, l: &str, r: &str, len: &str, result_addr: &str, bytes_lbl: &str, merge_lbl: &str)
        ensures
            cg_frame(old(self), final(self)),
            ends_with(final(self).body@, merge_lbl@ + ":\n"@),
            !final(self).block_terminated,
    {
        self.open_block(bytes_lbl);
        let lhs_data = self.value();
        self.line(&[lhs_data.as_str(), " = extractvalue { i64, i8* } ", l, ", 1"]);
        let rhs_data = self.value();
        self.line(&[rhs_data.as_str(), " = extractvalue { i64, i8* } ", r, ", 1"]);
        let diff = self.value();
        self.line(&[diff.as_str(), " = call i32 @memcmp(i8* ", lhs_data.as_str(), ", i8* ", rhs_data.as_str(), ", i64 ", len, ")"]);
        let eq = self.value();
        self.line(&[eq.as_str(), " = icmp eq i32 ", diff.as_str(), ", 0"]);
        self.line(&["store i1 ", eq.as_str(), ", i1* ", result_addr]);
        self.line(&["br label %", merge_lbl]);
        self.block_terminated = true;
        let ghost b = self.body@;
        self.open_block(merge_lbl);
        proof { lemma_ends_with_parts(b, Seq::<char>::empty(), merge_lbl@ + ":\n"@); assert(b + (Seq::<char>::empty() + (merge_lbl@ + ":\n"@)) =~= self.body@); }
    }

    /// `s[i]`: a fresh one-byte string holding the byte at `i`.
    fn lower_str_index(&mut self, arena: &Arena, s: &TypedExpr, index: &TypedExpr, Ghost(parent): Ghost<TypedExpr>) -> (r: String)
        requires
            decreases_to!(parent => *s),
            decreases_to!(parent => *index),
            arena.wf(),
            expr_valid(arena, *s),
            expr_valid(arena, *index),
            locals_ok(arena, old(self).locals@),
        ensures
            cg_frame(old(self), final(self)),
            final(self).next_id < usize::MAX ==> r@ == last_value(final(self)),
        decreases parent, 1nat,
    {
        let sv = self.lower(arena, s);
        let iv = self.lower(arena, index);
        let data = self.value();
        self.line(&[data.as_str(), " = extractvalue { i64, i8* } ", sv.as_str(), ", 1"]);
        let p = self.value();
        self.line(&[p.as_str(), " = getelementptr i8, i8* ", data.as_str(), ", i64 ", iv.as_str()]);
        let c = self.value();
        self.line(&[c.as_str(), " = load i8, i8* ", p.as_str()]);
        let buf = self.value();
        self.line(&[buf.as_str(), " = call i8* @malloc(i64 1)"]);
        self.line(&["store i8 ", c.as_str(), ", i8* ", buf.as_str()]);
        let r0 = self.value();
        self.line(&[r0.as_str(), " = insertvalue { i64, i8* } undef, i64 1, 0"]);
        let r1 = self.value();
        self.line(&[r1.as_str(), " = insertvalue { i64, i8* } ", r0.as_str(), ", i8* ", buf.as_str(), ", 1"]);
        r1
    }

    /// `x` clamped to `[lo, hi]` style selects: `<dst> = select (x <op> bound), bound, x`.
    fn clamp(&mut self, x: &str, op: &str, bound: &str) -> (r: String)
        ensures
            cg_frame(old(self), final(self)),
            final(self).next_id < usize::MAX ==> r@ == last_value(final(self)),
    {
        let c = self.value();
        self.line(&[c.as_str(), " = icmp ", op, " i64 ", x, ", ", bound]);
        let dst = self.value();
        self.line(&[dst.as_str(), " = select i1 ", c.as_str(), ", i64 ", bound, ", i64 ", x]);
        dst
    }

    /// `s[start:stop]`: bounds clamped to `[0, len(s)]`, copied into a
    /// fresh buffer.
    fn lower_str_slice(&mut self, arena: &Arena, s: &TypedExpr, start: &TypedExpr, stop: &TypedExpr, Ghost(parent): Ghost<TypedExpr>) -> (r: String)
        requires
            decreases_to!(parent => *s),
            decreases_to!(parent => *start),
            decreases_to!(parent => *stop),
            arena.wf(),
            expr_valid(arena, *s),
            expr_valid(arena, *start),
            expr_valid(arena, *stop),
            locals_ok(arena, old(self).locals@),
        ensures
            cg_frame(old(self), final(self)),
            final(self).next_id < usize::MAX ==> r@ == last_value(final(self)),
        decreases parent, 1nat,
    {
        let sv = self.lower(arena, s);
        let a = self.lower(arena, start);
        let b = self.lower(arena, stop);
        let len = self.value();
        self.line(&[len.as_str(), " = extractvalue { i64, i8* } ", sv.as_str(), ", 0"]);
        let data = self.value();
        self.line(&[data.as_str(), " = extractvalue { i64, i8* } ", sv.as_str(), ", 1"]);
        let s0 = self.clamp(a.as_str(), "slt", "0");
        let s1 = self.clamp(s0.as_str(), "sgt", len.as_str());
        let t0 = self.clamp(b.as_str(), "slt", "0");
        let t1 = self.clamp(t0.as_str(), "sgt", len.as_str());
        let diff = self.value();
        self.line(&[diff.as_str(), " = sub i64 ", t1.as_str(), ", ", s1.as_str()]);
        let out_len = self.clamp(diff.as_str(), "slt", "0");
        let empty = self.value();
        self.line(&[empty.as_str(), " = icmp eq i64 ", out_len.as_str(), ", 0"]);
        let alloc_n = self.value();
        self.line(&[alloc_n.as_str(), " = select i1 ", empty.as_str(), ", i64 1, i64 ", out_len.as_str()]);
        let buf = self.value();
        self.line(&[buf.as_str(), " = call i8* @malloc(i64 ", alloc_n.as_str(), ")"]);
        let src = self.value();
        self.line(&[src.as_str(), " = getelementptr i8, i8* ", data.as_str(), ", i64 ", s1.as_str()]);
        self.line(&["call void @llvm.memcpy.p0i8.p0i8.i64(i8* ", buf.as_str(), ", i8* ", src.as_str(), ", i64 ", out_len.as_str(), ", i1 false)"]);
        let r0 = self.value();
        self.line(&[r0.as_str(), " = insertvalue { i64, i8* } undef, i64 ", out_len.as_str(), ", 0"]);
        let r1 = self.value();
        self.line(&[r1.as_str(), " = insertvalue { i64, i8* } ", r0.as_str(), ", i8* ", buf.as_str(), ", 1"]);
        r1
    }
}

} // verus!

verus! {

/// How a function receives a parameter of a scalar type.
pub open spec fn param_text(p: Param) -> Seq<char> {
    scalar_llvm(p.ty) + " %p_"@ + p.name@
}

/// Every parameter has a scalar type.
pub open spec fn all_scalar(ps: Seq<Param>) -> bool {
    forall|i: int| 0 <= i < ps.len() ==> is_scalar(#[trigger] ps[i].ty)
}

/// The parameter list of a function definition: `<ty> %p_<name>, ...`
/// (`None` when a class layout contains itself).
pub fn format_signature(arena: &Arena, func: &Function) -> (r: Option<String>)
    requires
        arena.wf(),
        forall|i: int| 0 <= i < func.params@.len() ==> arena.valid(#[trigger] func.params@[i].ty),
    ensures
        all_scalar(func.params@) ==> (r matches Some(t)
            && t@ == comma_joined(func.params@.map_values(|p: Param| param_text(p)))),
{
    let fuel = if arena.classes.len() < usize::MAX { arena.classes.len() + 1 } else { arena.classes.len() };
    let mut parts: Vec<String> = Vec::new();
    let mut i: usize = 0;
    while i < func.params.len()
        invariant
            0 <= i <= func.params@.len(),
            arena.wf(),
            forall|i: int| 0 <= i < func.params@.len() ==> arena.valid(#[trigger] func.params@[i].ty),
            all_scalar(func.params@) ==> string_views(parts@)
                == func.params@.subrange(0, i as int).map_values(|p: Param| param_text(p)),
        decreases func.params.len() - i,
    {
        let mut s = llvm_ty(arena, func.params[i].ty, fuel)?;
        s.append(" %p_");
        s.append(func.params[i].name.as_str());
        parts.push(s);
        proof {
            if all_scalar(func.params@) {
                assert(is_scalar(func.params@[i as int].ty));
                assert(func.params@.subrange(0, i + 1).map_values(|p: Param| param_text(p))
                    =~= func.params@.subrange(0, i as int).map_values(|p: Param| param_text(p)).push(param_text(func.params@[i as int])));
                assert(string_views(parts@) =~= func.params@.subrange(0, i + 1).map_values(|p: Param| param_text(p)));
            }
        }
        i += 1;
    }
    assert(func.params@.subrange(0, func.params@.len() as int) =~= func.params@);
    Some(join_comma(&parts))
}

/// How the C `main` reads parameter `i` (`p`) of the program's `main`
/// from `argv[i + 1]`: `atoll` for an int, `atof` for a float.
pub open spec fn argv_line(i: nat, p: Param) -> Seq<char> {
    "  %slot"@ + decimal(i) + " = getelementptr inbounds i8*, i8** %argv, i64 "@ + decimal(i + 1)
        + "\n  %str"@ + decimal(i) + " = load i8*, i8** %slot"@ + decimal(i) + "\n"@
        + "  %p_"@ + p.name@ + (if p.ty == Type::F64 { " = call double @atof(i8* %str"@ } else { " = call i64 @atoll(i8* %str"@ })
        + decimal(i) + ")\n"@
}

/// The argument-reading prologue for all of `ps`.
pub open spec fn argv_text(ps: Seq<Param>) -> Seq<char>
    decreases ps.len(),
{
    if ps.len() == 0 {
        Seq::empty()
    } else {
        argv_text(ps.drop_last()) + argv_line((ps.len() - 1) as nat, ps.last())
    }
}

fn argv_line_string(i: usize, p: &Param) -> (r: String)
    requires
        i < usize::MAX,
    ensures
        r@ == argv_line(i as nat, *p),
{
    let ix = usize_text(i);
    let argv_index = usize_text(i + 1);
    let mut s = String::from_str("  %slot");
    s.append(ix.as_str());
    s.append(" = getelementptr inbounds i8*, i8** %argv, i64 ");
    s.append(argv_index.as_str());
    s.append("\n  %str");
    s.append(ix.as_str());
    s.append(" = load i8*, i8** %slot");
    s.append(ix.as_str());
    s.append("\n");
    s.append("  %p_");
    s.append(p.name.as_str());
    if p.ty == Type::F64 {
        s.append(" = call double @atof(i8* %str");
    } else {
        s.append(" = call i64 @atoll(i8* %str");
    }
    s.append(ix.as_str());
    s.append(")\n");
    s
}

/// The `main(argc, argv)` prologue that reads each parameter of the entry
/// function from `argv[i + 1]` (`atoll` for `int`, `atof` for `float`).
pub fn format_argv_parsing(func: &Function) -> (r: String)
    requires
        forall|i: int| 0 <= i < func.params@.len() ==> main_param_ok(#[trigger] func.params@[i].ty),
    ensures
        r@ == argv_text(func.params@),
{
    let mut s = String::new();
    let mut i: usize = 0;
    while i < func.params.len()
        invariant
            0 <= i <= func.params@.len(),
            s@ == argv_text(func.params@.subrange(0, i as int)),
        decreases func.params.len() - i,
    {
        let line = argv_line_string(i, &func.params[i]);
        let ghost before = s@;
        s.append(line.as_str());
        proof {
            let ps = func.params@.subrange(0, i + 1);
            assert(ps.drop_last() =~= func.params@.subrange(0, i as int));
            assert(ps.last() == func.params@[i as int]);
        }
        i += 1;
    }
    assert(func.params@.subrange(0, func.params@.len() as int) =~= func.params@);
    s
}

/// The IR of the runtime helpers every module carries.
pub const RUNTIME_HELPERS: &'static str = "\
; pyx86_print_f64 — best-effort Python-style repr of a double, plus newline.
;   - Prints %.17g into a 64-byte buffer.
;   - Scans for '.' / 'e' / 'E' / 'n' (nan) / 'i' (inf) / 'N' / 'I'.
;   - If none present (i.e. integer-valued shortest form), append '.0'.
;   - Print buffer with trailing newline via printf.
; Matches CPython's repr exactly for the common cases (integer-valued
; floats, sums/products that produce 17-digit shortest forms).
; Diverges for values whose shortest round-trip uses fewer than 17
; digits (e.g. 0.1 prints as 0.10000000000000001 vs Python's 0.1).
; Test programs target the matching cases.
define internal void @pyx86_print_f64(double %x) {
entry:
  %buf = alloca [64 x i8]
  %buf_p = getelementptr inbounds [64 x i8], [64 x i8]* %buf, i64 0, i64 0
  %fmt_p = getelementptr inbounds [6 x i8], [6 x i8]* @.fmt_f64_g, i64 0, i64 0
  %_w = call i32 (i8*, i8*, ...) @sprintf(i8* %buf_p, i8* %fmt_p, double %x)
  ; Scan for any of '.', 'e', 'E', 'n', 'i', 'N', 'I' in buf.
  %has_special = call i1 @pyx86_has_decimal_or_special(i8* %buf_p)
  br i1 %has_special, label %print, label %append_dot_zero
append_dot_zero:
  %len = call i64 @strlen(i8* %buf_p)
  %end0 = getelementptr i8, i8* %buf_p, i64 %len
  store i8 46, i8* %end0          ; '.'
  %end1 = getelementptr i8, i8* %end0, i64 1
  store i8 48, i8* %end1          ; '0'
  %end2 = getelementptr i8, i8* %end1, i64 1
  store i8 0, i8* %end2           ; '\\0'
  br label %print
print:
  %out_fmt = getelementptr inbounds [4 x i8], [4 x i8]* @.fmt_str_nl, i64 0, i64 0
  %_p = call i32 (i8*, ...) @printf(i8* %out_fmt, i8* %buf_p)
  ret void
}

define internal i1 @pyx86_has_decimal_or_special(i8* %s) {
entry:
  %i.addr = alloca i64
  store i64 0, i64* %i.addr
  br label %loop_header
loop_header:
  %i = load i64, i64* %i.addr
  %p = getelementptr i8, i8* %s, i64 %i
  %c = load i8, i8* %p
  %is_zero = icmp eq i8 %c, 0
  br i1 %is_zero, label %not_found, label %check
check:
  %is_dot = icmp eq i8 %c, 46
  %is_e   = icmp eq i8 %c, 101
  %is_E   = icmp eq i8 %c, 69
  %is_n   = icmp eq i8 %c, 110
  %is_i   = icmp eq i8 %c, 105
  %is_N   = icmp eq i8 %c, 78
  %is_I   = icmp eq i8 %c, 73
  %t1 = or i1 %is_dot, %is_e
  %t2 = or i1 %t1, %is_E
  %t3 = or i1 %t2, %is_n
  %t4 = or i1 %t3, %is_i
  %t5 = or i1 %t4, %is_N
  %found = or i1 %t5, %is_I
  br i1 %found, label %yes, label %step
step:
  %i_new = add i64 %i, 1
  store i64 %i_new, i64* %i.addr
  br label %loop_header
yes:
  ret i1 true
not_found:
  ret i1 false
}

; ---------------------------------------------------------------------
; pyx86_dict_i64_lookup / pyx86_dict_i64_insert / pyx86_dict_i64_has
; Hash-table runtime for dict[i64, i64]. Open addressing with linear
; probing; cap is always a power of two; slot layout
;   { i64 key, i64 value, i64 occupied (0 or 1) }
; (24 bytes per slot — wasteful but simple). Hash of i64 key is
; `key & (cap - 1)`.
; ---------------------------------------------------------------------

define internal i64 @pyx86_dict_i64_lookup(i8* %table_raw, i64 %key) {
entry:
  %tp = bitcast i8* %table_raw to { i64, i64, i8* }*
  %cap_p = getelementptr { i64, i64, i8* }, { i64, i64, i8* }* %tp, i32 0, i32 1
  %cap = load i64, i64* %cap_p
  %slots_pp = getelementptr { i64, i64, i8* }, { i64, i64, i8* }* %tp, i32 0, i32 2
  %slots_raw = load i8*, i8** %slots_pp
  %slots = bitcast i8* %slots_raw to { i64, i64, i64 }*
  %mask = sub i64 %cap, 1
  %h = and i64 %key, %mask
  %i.addr = alloca i64
  store i64 %h, i64* %i.addr
  br label %loop
loop:
  %i = load i64, i64* %i.addr
  %slot = getelementptr { i64, i64, i64 }, { i64, i64, i64 }* %slots, i64 %i
  %occ_p = getelementptr { i64, i64, i64 }, { i64, i64, i64 }* %slot, i32 0, i32 2
  %occ = load i64, i64* %occ_p
  %is_empty = icmp eq i64 %occ, 0
  br i1 %is_empty, label %not_found, label %check
check:
  %k_p = getelementptr { i64, i64, i64 }, { i64, i64, i64 }* %slot, i32 0, i32 0
  %k = load i64, i64* %k_p
  %match = icmp eq i64 %k, %key
  br i1 %match, label %found, label %next
next:
  %i_next = add i64 %i, 1
  %i_wrap = and i64 %i_next, %mask
  store i64 %i_wrap, i64* %i.addr
  br label %loop
found:
  %v_p = getelementptr { i64, i64, i64 }, { i64, i64, i64 }* %slot, i32 0, i32 1
  %v = load i64, i64* %v_p
  ret i64 %v
not_found:
  ret i64 0
}

; Grow the dict to 2x its current capacity. Called by insert when load
; factor reaches 75%. The outer-struct pointer stays valid; only the
; slot array is reallocated. Old slot memory is leaked (v1 ref-counting
; not yet wired up; v0.28 ships consistent with v0.27 in this respect).
define internal void @pyx86_dict_i64_grow(i8* %table_raw) {
entry:
  %g.i.addr = alloca i64
  %tp = bitcast i8* %table_raw to { i64, i64, i8* }*
  %size_p = getelementptr { i64, i64, i8* }, { i64, i64, i8* }* %tp, i32 0, i32 0
  %cap_p = getelementptr { i64, i64, i8* }, { i64, i64, i8* }* %tp, i32 0, i32 1
  %slots_pp = getelementptr { i64, i64, i8* }, { i64, i64, i8* }* %tp, i32 0, i32 2
  %old_cap = load i64, i64* %cap_p
  %old_slots_raw = load i8*, i8** %slots_pp
  %old_slots = bitcast i8* %old_slots_raw to { i64, i64, i64 }*
  %new_cap = mul i64 %old_cap, 2
  %new_bytes = mul i64 %new_cap, 24
  %new_slots_raw = call i8* @malloc(i64 %new_bytes)
  call void @llvm.memset.p0i8.i64(i8* %new_slots_raw, i8 0, i64 %new_bytes, i1 false)
  store i8* %new_slots_raw, i8** %slots_pp
  store i64 %new_cap, i64* %cap_p
  store i64 0, i64* %size_p
  store i64 0, i64* %g.i.addr
  br label %g_loop
g_loop:
  %g_i = load i64, i64* %g.i.addr
  %g_done = icmp uge i64 %g_i, %old_cap
  br i1 %g_done, label %g_ret, label %g_body
g_body:
  %g_slot = getelementptr { i64, i64, i64 }, { i64, i64, i64 }* %old_slots, i64 %g_i
  %g_occ_p = getelementptr { i64, i64, i64 }, { i64, i64, i64 }* %g_slot, i32 0, i32 2
  %g_occ = load i64, i64* %g_occ_p
  %g_is_occ = icmp ne i64 %g_occ, 0
  br i1 %g_is_occ, label %g_reinsert, label %g_skip
g_reinsert:
  %g_k_p = getelementptr { i64, i64, i64 }, { i64, i64, i64 }* %g_slot, i32 0, i32 0
  %g_k = load i64, i64* %g_k_p
  %g_v_p = getelementptr { i64, i64, i64 }, { i64, i64, i64 }* %g_slot, i32 0, i32 1
  %g_v = load i64, i64* %g_v_p
  call void @pyx86_dict_i64_insert(i8* %table_raw, i64 %g_k, i64 %g_v)
  br label %g_skip
g_skip:
  %g_i_next = add i64 %g_i, 1
  store i64 %g_i_next, i64* %g.i.addr
  br label %g_loop
g_ret:
  ret void
}

define internal void @pyx86_dict_i64_insert(i8* %table_raw, i64 %key, i64 %value) {
entry:
  %i.addr = alloca i64
  %tp = bitcast i8* %table_raw to { i64, i64, i8* }*
  %size_p = getelementptr { i64, i64, i8* }, { i64, i64, i8* }* %tp, i32 0, i32 0
  %cap_p = getelementptr { i64, i64, i8* }, { i64, i64, i8* }* %tp, i32 0, i32 1
  %slots_pp = getelementptr { i64, i64, i8* }, { i64, i64, i8* }* %tp, i32 0, i32 2
  %sz0 = load i64, i64* %size_p
  %cap0 = load i64, i64* %cap_p
  %sz4 = mul i64 %sz0, 4
  %cap3 = mul i64 %cap0, 3
  %need_grow = icmp uge i64 %sz4, %cap3
  br i1 %need_grow, label %do_grow, label %probe_init
do_grow:
  call void @pyx86_dict_i64_grow(i8* %table_raw)
  br label %probe_init
probe_init:
  %cap = load i64, i64* %cap_p
  %slots_raw = load i8*, i8** %slots_pp
  %slots = bitcast i8* %slots_raw to { i64, i64, i64 }*
  %mask = sub i64 %cap, 1
  %h = and i64 %key, %mask
  store i64 %h, i64* %i.addr
  br label %loop
loop:
  %i = load i64, i64* %i.addr
  %slot = getelementptr { i64, i64, i64 }, { i64, i64, i64 }* %slots, i64 %i
  %occ_p = getelementptr { i64, i64, i64 }, { i64, i64, i64 }* %slot, i32 0, i32 2
  %occ = load i64, i64* %occ_p
  %is_empty = icmp eq i64 %occ, 0
  br i1 %is_empty, label %do_insert, label %check
check:
  %k_p = getelementptr { i64, i64, i64 }, { i64, i64, i64 }* %slot, i32 0, i32 0
  %k = load i64, i64* %k_p
  %match = icmp eq i64 %k, %key
  br i1 %match, label %do_overwrite, label %next
next:
  %i_next = add i64 %i, 1
  %i_wrap = and i64 %i_next, %mask
  store i64 %i_wrap, i64* %i.addr
  br label %loop
do_insert:
  %k_p2 = getelementptr { i64, i64, i64 }, { i64, i64, i64 }* %slot, i32 0, i32 0
  store i64 %key, i64* %k_p2
  %v_p = getelementptr { i64, i64, i64 }, { i64, i64, i64 }* %slot, i32 0, i32 1
  store i64 %value, i64* %v_p
  store i64 1, i64* %occ_p
  %old_size = load i64, i64* %size_p
  %new_size = add i64 %old_size, 1
  store i64 %new_size, i64* %size_p
  ret void
do_overwrite:
  %v_p2 = getelementptr { i64, i64, i64 }, { i64, i64, i64 }* %slot, i32 0, i32 1
  store i64 %value, i64* %v_p2
  ret void
}

define internal i1 @pyx86_dict_i64_has(i8* %table_raw, i64 %key) {
entry:
  %tp = bitcast i8* %table_raw to { i64, i64, i8* }*
  %cap_p = getelementptr { i64, i64, i8* }, { i64, i64, i8* }* %tp, i32 0, i32 1
  %cap = load i64, i64* %cap_p
  %slots_pp = getelementptr { i64, i64, i8* }, { i64, i64, i8* }* %tp, i32 0, i32 2
  %slots_raw = load i8*, i8** %slots_pp
  %slots = bitcast i8* %slots_raw to { i64, i64, i64 }*
  %mask = sub i64 %cap, 1
  %h = and i64 %key, %mask
  %i.addr = alloca i64
  store i64 %h, i64* %i.addr
  br label %loop
loop:
  %i = load i64, i64* %i.addr
  %slot = getelementptr { i64, i64, i64 }, { i64, i64, i64 }* %slots, i64 %i
  %occ_p = getelementptr { i64, i64, i64 }, { i64, i64, i64 }* %slot, i32 0, i32 2
  %occ = load i64, i64* %occ_p
  %is_empty = icmp eq i64 %occ, 0
  br i1 %is_empty, label %not_found, label %check
check:
  %k_p = getelementptr { i64, i64, i64 }, { i64, i64, i64 }* %slot, i32 0, i32 0
  %k = load i64, i64* %k_p
  %match = icmp eq i64 %k, %key
  br i1 %match, label %found, label %next
next:
  %i_next = add i64 %i, 1
  %i_wrap = and i64 %i_next, %mask
  store i64 %i_wrap, i64* %i.addr
  br label %loop
found:
  ret i1 true
not_found:
  ret i1 false
}

; pyx86_pow_i64(base, exp) — int ** by binary exponentiation. For
; exp < 0 returns 0 (Python returns float; we have no float printer
; on main return, but local float values do exist — float**float
; uses llvm.pow.f64 via the generic pow path).
define internal i64 @pyx86_pow_i64(i64 %base, i64 %exp) {
entry:
  %neg = icmp slt i64 %exp, 0
  br i1 %neg, label %neg_exit, label %init
neg_exit:
  ret i64 0
init:
  %r.addr = alloca i64
  %b.addr = alloca i64
  %e.addr = alloca i64
  store i64 1, i64* %r.addr
  store i64 %base, i64* %b.addr
  store i64 %exp, i64* %e.addr
  br label %loop_header
loop_header:
  %e0 = load i64, i64* %e.addr
  %done = icmp eq i64 %e0, 0
  br i1 %done, label %loop_exit, label %loop_body
loop_body:
  %e1 = load i64, i64* %e.addr
  %odd_bit = and i64 %e1, 1
  %is_odd = icmp ne i64 %odd_bit, 0
  br i1 %is_odd, label %mul_r, label %skip_mul
mul_r:
  %r0 = load i64, i64* %r.addr
  %b0 = load i64, i64* %b.addr
  %r1 = mul i64 %r0, %b0
  store i64 %r1, i64* %r.addr
  br label %skip_mul
skip_mul:
  %b1 = load i64, i64* %b.addr
  %b2 = mul i64 %b1, %b1
  store i64 %b2, i64* %b.addr
  %e2 = load i64, i64* %e.addr
  %e3 = ashr i64 %e2, 1
  store i64 %e3, i64* %e.addr
  br label %loop_header
loop_exit:
  %r_final = load i64, i64* %r.addr
  ret i64 %r_final
}

; pyx86_i64_to_str — format an i64 in base 10, return a fresh str struct.
; Buffer is 24 bytes (enough for -9223372036854775808 + NUL).
define internal { i64, i8* } @pyx86_i64_to_str(i64 %x) {
entry:
  %buf = call i8* @malloc(i64 24)
  %fmt = getelementptr inbounds [4 x i8], [4 x i8]* @.fmt_i64_buf, i64 0, i64 0
  %n = call i32 (i8*, i8*, ...) @sprintf(i8* %buf, i8* %fmt, i64 %x)
  %len = sext i32 %n to i64
  %s0 = insertvalue { i64, i8* } undef, i64 %len, 0
  %s1 = insertvalue { i64, i8* } %s0, i8* %buf, 1
  ret { i64, i8* } %s1
}

";

/// The IR of the runtime helpers every module carries.
pub fn runtime_helpers() -> (r: &'static str)
    ensures
        r@ == RUNTIME_HELPERS@,
{
    RUNTIME_HELPERS
}


/// The first lines of every emitted module: its id (`pyx86_` and the
/// sanitized source basename) and the target triple.
pub open spec fn module_header(source_basename: Seq<char>) -> Seq<char> {
    "; ModuleID = 'pyx86_"@ + sanitized(source_basename) + "'\ntarget triple = \"x86_64-unknown-linux-gnu\"\n\n"@
}

/// How the C `main` passes a parameter of the program's `main` on.
pub open spec fn entry_arg(p: Param) -> Seq<char> {
    (if p.ty == Type::F64 { "double"@ } else { "i64"@ }) + " %p_"@ + p.name@
}

/// The LLVM type the C `main` receives the program's result at.
pub open spec fn entry_result_type(t: Type) -> Seq<char> {
    if t == Type::I64 {
        "i64"@
    } else if t == Type::F64 {
        "double"@
    } else {
        "{ i64, i8* }"@
    }
}

/// How the C `main` prints the result: `%ld` for an int, the float
/// printer for a float, the `repr` of a string.
pub open spec fn print_result(t: Type) -> Seq<char> {
    if t == Type::I64 {
        "  %fmt = getelementptr inbounds [5 x i8], [5 x i8]* @.fmt_i64, i64 0, i64 0\n  call i32 (i8*, ...) @printf(i8* %fmt, i64 %r)"@
    } else if t == Type::F64 {
        "  call void @pyx86_print_f64(double %r)"@
    } else {
        "  %r_len = extractvalue { i64, i8* } %r, 0\n  %r_data = extractvalue { i64, i8* } %r, 1\n  %r_len32 = trunc i64 %r_len to i32\n  %fmt_repr = getelementptr inbounds [8 x i8], [8 x i8]* @.fmt_str_repr, i64 0, i64 0\n  call i32 (i8*, ...) @printf(i8* %fmt_repr, i32 %r_len32, i8* %r_data)"@
    }
}

/// The end of every emitted module: the C `main` calls the program's
/// `main` (renamed `py_main`) on the parsed command-line arguments,
/// prints its result and exits with status 0.
pub open spec fn c_main_tail(main_fn: Function) -> Seq<char> {
    "define i32 @main(i32 %argc, i8** %argv) {\nentry:\n"@ + argv_text(main_fn.params@)
        + "  %r = call "@ + entry_result_type(main_fn.return_ty) + " @py_main("@
        + comma_joined(main_fn.params@.map_values(|p: Param| entry_arg(p))) + ")\n"@
        + print_result(main_fn.return_ty) + "\n  ret i32 0\n}\n"@
}

/// `s` starts with `head` and ends with `tail`, which do not overlap.
pub open spec fn framed(s: Seq<char>, head: Seq<char>, tail: Seq<char>) -> bool {
    &&& s.len() >= head.len() + tail.len()
    &&& s.subrange(0, head.len() as int) == head
    &&& s.subrange(s.len() - tail.len(), s.len() as int) == tail
}

/// A program whose functions all return an `i64` constant right away
/// and take and return scalar values only.
pub open spec fn const_program(p: &Program) -> bool {
    forall|i: int| 0 <= i < p.functions@.len() ==> const_return((#[trigger] p.functions@[i]).body@) is Some
        && all_scalar(p.functions@[i].params@) && is_scalar(p.functions@[i].return_ty)
}

/// `t` stands in `s` from position `k` on.
pub open spec fn piece_at(s: Seq<char>, k: int, t: Seq<char>) -> bool {
    &&& 0 <= k
    &&& k + t.len() <= s.len()
    &&& s.subrange(k, k + t.len()) == t
}

/// `s` holds `t` as a contiguous piece.
pub open spec fn holds_text(s: Seq<char>, t: Seq<char>) -> bool {
    exists|k: int| #[trigger] piece_at(s, k, t)
}

/// The call by which an append grows a list's buffer.
pub open spec fn realloc_call() -> Seq<char> {
    " = call i8* @realloc(i8* "@
}

proof fn lemma_holds_text_extends(old: Seq<char>, new: Seq<char>, t: Seq<char>)
    requires
        holds_text(old, t),
        extends_text(old, new),
    ensures
        holds_text(new, t),
{
    let k = choose|k: int| #[trigger] piece_at(old, k, t);
    assert(new.subrange(k, k + t.len()) =~= old.subrange(k, k + t.len()));
    assert(piece_at(new, k, t));
}

proof fn lemma_holds_text(pre: Seq<char>, s: Seq<char>, post: Seq<char>, t: Seq<char>)
    requires
        holds_text(s, t),
    ensures
        holds_text(pre + s + post, t),
{
    let k = choose|k: int| #[trigger] piece_at(s, k, t);
    assert((pre + s + post).subrange(pre.len() + k, pre.len() + k + t.len()) =~= s.subrange(k, k + t.len()));
    assert(piece_at(pre + s + post, pre.len() + k, t));
}

/// The definition emitted for a function with scalar parameters whose
/// body returns an integer constant right away: its signature, the slots
/// of its parameters in `entry`, and the `ret`.
pub open spec fn const_fn_text(f: Function) -> Seq<char> {
    "define "@ + scalar_llvm(f.return_ty) + " @py_"@ + f.name@ + "("@
        + comma_joined(f.params@.map_values(|p: Param| param_text(p))) + ") {\n"@
        + ("entry"@ + ":\n"@ + param_slots(f.params@) + instr("ret i64 "@ + i64_decimal(const_return(f.body@)->0)))
        + "}\n\n"@
}

/// Emit the whole module: functions, string-literal globals, runtime
/// helpers and the C `main`. `Err` carries an internal inconsistency of
/// the program (such as a local re-binding a parameter at another type).
#[verifier::rlimit(40)]
#[verifier::spinoff_prover]
pub fn emit_ll(prog: &Program, source_basename: &str) -> (r: Result<String, String>)
    requires
        program_ok(prog),
    ensures
        r matches Ok(s) ==> framed(s@, module_header(source_basename@), c_main_tail(prog.spec_main())),
        const_program(prog) ==> r is Ok,
        const_program(prog) ==> (r matches Ok(s) && forall|j: int| 0 <= j < prog.functions@.len()
            ==> holds_text(s@, const_fn_text(#[trigger] prog.functions@[j]))),
{
    let arena = &prog.arena;
    let mut lits: Vec<String> = Vec::new();
    let mut defs = String::new();
    let mut i: usize = 0;
    while i < prog.functions.len()
        invariant
            0 <= i <= prog.functions@.len(),
            program_ok(prog),
            arena == &prog.arena,
            const_program(prog) ==> forall|j: int| 0 <= j < prog.functions@.len() ==> const_return((#[trigger] prog.functions@[j]).body@) is Some
                && all_scalar(prog.functions@[j].params@) && is_scalar(prog.functions@[j].return_ty),
            const_program(prog) ==> forall|j: int| 0 <= j < i ==> holds_text(defs@, const_fn_text(#[trigger] prog.functions@[j])),
        decreases prog.functions.len() - i,
    {
        let func = &prog.functions[i];
        assert(function_ok(arena, prog.functions@[i as int]));
        let mut cg = Codegen::new();
        cg.str_lits = lits;
        cg.lower_function(arena, func);
        if let Some(m) = cg.error {
            return Err(m);
        }
        lits = cg.str_lits;
        let ret = match llvm_ty(arena, func.return_ty, if arena.classes.len() < usize::MAX { arena.classes.len() + 1 } else { arena.classes.len() }) {
            Some(t) => t,
            None => {
                return Err(String::from_str("internal: class layout contains itself"));
            },
        };
        let sig = match format_signature(arena, func) {
            Some(s) => s,
            None => {
                return Err(String::from_str("internal: class layout contains itself"));
            },
        };
        let ghost d0 = defs@;
        defs.append("define ");
        defs.append(ret.as_str());
        defs.append(" @py_");
        defs.append(func.name.as_str());
        defs.append("(");
        defs.append(sig.as_str());
        defs.append(") {\n");
        defs.append(cg.body.as_str());
        defs.append("}\n\n");
        proof {
            if const_program(prog) {
                let f = prog.functions@[i as int];
                let t = const_fn_text(f);
                assert(defs@ =~= d0 + t);
                assert(d0 + t =~= Seq::<char>::empty() + d0 + t);
                assert(defs@.subrange(d0.len() as int, (d0.len() + t.len()) as int) =~= t);
                assert(piece_at(defs@, d0.len() as int, t));
                assert forall|j: int| 0 <= j < i + 1 implies holds_text(defs@, const_fn_text(#[trigger] prog.functions@[j])) by {
                    if j < i {
                        lemma_holds_text(Seq::<char>::empty(), d0, t, const_fn_text(prog.functions@[j]));
                    }
                }
            }
        }
        i += 1;
    }
    let mut globals = String::new();
    let mut k: usize = 0;
    while k < lits.len()
        invariant
            0 <= k <= lits@.len(),
        decreases lits.len() - k,
    {
        let lit = lits[k].as_str();
        let n = if lit.len() < usize::MAX { lit.len() + 1 } else { lit.len() };
        globals.append("@.str.");
        globals.append(usize_text(k).as_str());
        globals.append(" = private unnamed_addr constant [");
        globals.append(usize_text(n).as_str());
        globals.append(" x i8] c\"");
        globals.append(lit);
        globals.append("\\00\"\n");
        k += 1;
    }
    let main_fn = prog.main();
    let tail = c_main_text(main_fn);
    let head = module_header_text(source_basename);
    let mut out = String::new();
    out.append(head.as_str());
    out.append(module_decls());
    out.append("\n");
    out.append(globals.as_str());
    out.append("\n");
    out.append(runtime_helpers());
    let ghost pre_defs = out@;
    out.append(defs.as_str());
    let ghost body_end = out@;
    out.append(tail.as_str());
    proof {
        if const_program(prog) {
            assert(out@ =~= pre_defs + defs@ + tail@);
            assert forall|j: int| 0 <= j < prog.functions@.len() implies holds_text(out@, const_fn_text(#[trigger] prog.functions@[j])) by {
                lemma_holds_text(pre_defs, defs@, tail@, const_fn_text(prog.functions@[j]));
            }
        }
    }
    proof {
        assert(body_end.subrange(0, head@.len() as int) =~= head@);
        assert(out@.subrange(0, head@.len() as int) =~= head@);
        assert(out@.subrange(out@.len() - tail@.len(), out@.len() as int) =~= tail@);
    }
    Ok(out)
}

/// The module header text for a source file's basename.
fn module_header_text(source_basename: &str) -> (r: String)
    ensures
        r@ == module_header(source_basename@),
{
    let basename = sanitize_module_id(source_basename);
    let mut out = String::from_str("; ModuleID = 'pyx86_");
    out.append(basename.as_str());
    out.append("'\ntarget triple = \"x86_64-unknown-linux-gnu\"\n\n");
    proof { reveal_strlit("; ModuleID = 'pyx86_"); }
    assert(out@ =~= module_header(source_basename@));
    out
}

/// The C `main` that reads the entry function's parameters, calls it and
/// prints its result.
fn c_main_text(main_fn: &Function) -> (r: String)
    requires
        main_return_ok(main_fn.return_ty),
        forall|i: int| 0 <= i < main_fn.params@.len() ==> main_param_ok(#[trigger] main_fn.params@[i].ty),
    ensures
        r@ == c_main_tail(*main_fn),
{
    let mut call_parts: Vec<String> = Vec::new();
    let mut j: usize = 0;
    while j < main_fn.params.len()
        invariant
            0 <= j <= main_fn.params@.len(),
            string_views(call_parts@) == main_fn.params@.subrange(0, j as int).map_values(|p: Param| entry_arg(p)),
        decreases main_fn.params.len() - j,
    {
        let mut s = if main_fn.params[j].ty == Type::F64 { String::from_str("double") } else { String::from_str("i64") };
        s.append(" %p_");
        s.append(main_fn.params[j].name.as_str());
        call_parts.push(s);
        proof {
            assert(main_fn.params@.subrange(0, j + 1).map_values(|p: Param| entry_arg(p))
                =~= main_fn.params@.subrange(0, j as int).map_values(|p: Param| entry_arg(p)).push(entry_arg(main_fn.params@[j as int])));
            assert(string_views(call_parts@) =~= main_fn.params@.subrange(0, j + 1).map_values(|p: Param| entry_arg(p)));
        }
        j += 1;
    }
    assert(main_fn.params@.subrange(0, main_fn.params@.len() as int) =~= main_fn.params@);
    let call_args = join_comma(&call_parts);
    let parse = format_argv_parsing(main_fn);
    let (ret_ty, print_block) = if main_fn.return_ty == Type::I64 {
        ("i64", "  %fmt = getelementptr inbounds [5 x i8], [5 x i8]* @.fmt_i64, i64 0, i64 0\n  call i32 (i8*, ...) @printf(i8* %fmt, i64 %r)")
    } else if main_fn.return_ty == Type::F64 {
        ("double", "  call void @pyx86_print_f64(double %r)")
    } else {
        ("{ i64, i8* }", "  %r_len = extractvalue { i64, i8* } %r, 0\n  %r_data = extractvalue { i64, i8* } %r, 1\n  %r_len32 = trunc i64 %r_len to i32\n  %fmt_repr = getelementptr inbounds [8 x i8], [8 x i8]* @.fmt_str_repr, i64 0, i64 0\n  call i32 (i8*, ...) @printf(i8* %fmt_repr, i32 %r_len32, i8* %r_data)")
    };
    assert(ret_ty@ == entry_result_type(main_fn.return_ty));
    assert(print_block@ == print_result(main_fn.return_ty));
    let mut out = String::from_str("define i32 @main(i32 %argc, i8** %argv) {\nentry:\n");
    out.append(parse.as_str());
    out.append("  %r = call ");
    out.append(ret_ty);
    out.append(" @py_main(");
    out.append(call_args.as_str());
    out.append(")\n");
    out.append(print_block);
    out.append("\n  ret i32 0\n}\n");
    assert(out@ =~= c_main_tail(*main_fn));
    out
}

/// The declarations of the C library functions and LLVM intrinsics a
/// module calls, and its format-string constants.
pub const MODULE_DECLS: &'static str = "declare i32 @printf(i8*, ...)
declare i64 @atoll(i8*)
declare double @atof(i8*)
declare double @llvm.pow.f64(double, double)
declare i64 @strlen(i8*)
declare i32 @sprintf(i8*, i8*, ...)
declare i8* @malloc(i64)
declare i8* @realloc(i8*, i64)
declare i32 @memcmp(i8*, i8*, i64)
declare void @llvm.memcpy.p0i8.p0i8.i64(i8*, i8*, i64, i1)
declare void @llvm.memset.p0i8.i64(i8*, i8, i64, i1)
declare double @llvm.sqrt.f64(double)
declare double @llvm.sin.f64(double)
declare double @llvm.cos.f64(double)
declare double @llvm.exp.f64(double)
declare double @llvm.log.f64(double)
declare double @llvm.floor.f64(double)
declare double @llvm.ceil.f64(double)
declare double @llvm.fabs.f64(double)
declare double @tan(double)

@.fmt_i64 = private unnamed_addr constant [5 x i8] c\"%ld\\0A\\00\"
@.fmt_f64_g = private unnamed_addr constant [6 x i8] c\"%.17g\\00\"
@.fmt_str_nl = private unnamed_addr constant [4 x i8] c\"%s\\0A\\00\"
@.fmt_i64_buf = private unnamed_addr constant [4 x i8] c\"%ld\\00\"
@.s_true = private unnamed_addr constant [5 x i8] c\"True\\00\"
@.s_false = private unnamed_addr constant [6 x i8] c\"False\\00\"
@.fmt_str_repr = private unnamed_addr constant [8 x i8] c\"'%.*s'\\0A\\00\"
";

fn module_decls() -> (r: &'static str)
    ensures
        r@ == MODULE_DECLS@,
{
    MODULE_DECLS
}


} // verus!
