//! Typed high-level IR.
//!
//! Each expression carries its result type (`TypedExpr.ty`). The
//! check pass infers the type bottom-up and inserts `Coerce` nodes
//! when an expression used in a context expecting type T has type
//! U ≠ T (e.g. an i64 used where a Bool is required for `if`, or a
//! Bool used in arithmetic).
//!
//! Compound types (tuples, lists, dicts, sets) and class definitions
//! live in an explicit [`Arena`] that the checker threads through
//! lowering and the emitter reads. Compound types are interned: two
//! requests for the same shape give the same id.

use vstd::prelude::*;
use crate::text::{str_eq, concat2, concat3};
use crate::typing::{expr_valid, stmt_valid, stmts_valid};

verus! {

/// Compile-time identifier for an interned tuple type. Two tuples
/// with the same element types share the same `TupleId`.
#[derive(Debug, Clone, Copy, PartialEq, Eq, Structural, Hash)]
pub struct TupleId(pub usize);

/// Identifier for an interned list element type. `list[int]` and
/// `list[int]` share the same `ListId`.
#[derive(Debug, Clone, Copy, PartialEq, Eq, Structural, Hash)]
pub struct ListId(pub usize);

/// Identifier for an interned (key, value) pair for a dict type.
/// Two `dict[int, int]` types share the same `DictId`.
#[derive(Debug, Clone, Copy, PartialEq, Eq, Structural, Hash)]
pub struct DictId(pub usize);

/// Identifier for an interned element type for a set. Two `set[int]`
/// types share the same `SetId`.
#[derive(Debug, Clone, Copy, PartialEq, Eq, Structural, Hash)]
pub struct SetId(pub usize);

/// Identifier for a class definition. Each `class Foo:` gets a unique id.
#[derive(Debug, Clone, Copy, PartialEq, Eq, Structural, Hash)]
pub struct ClassId(pub usize);

#[derive(Debug, Clone, Copy, PartialEq, Eq, Structural, Hash)]
pub enum Type {
    I8,
    I16,
    I32,
    /// 64-bit signed integer. The default int type and what
    /// `: int` annotations mean. Wraps on overflow.
    I64,
    /// IEEE-754 double-precision float. What `: float` means.
    F64,
    /// Internal type produced by comparisons, `not`, boolean literals.
    Bool,
    /// Fixed-arity heterogeneous tuple, passed by value.
    Tuple(TupleId),
    /// Homogeneous heap-allocated list `list[T]`.
    List(ListId),
    /// Immutable byte-string `{ i64 len, i8* data }`.
    Str,
    /// Heap-allocated `dict[K, V]` (K = V = I64 in this slice).
    Dict(DictId),
    /// `set[T]` (T = I64), layout-identical to `dict[i64, i64]`.
    SetOf(SetId),
    /// User-defined class instance (heap-allocated struct pointer).
    Class(ClassId),
}

/// The shape of an interned compound type.
#[derive(Debug, Clone)]
pub enum Compound {
    Tuple(Vec<Type>),
    List(Type),
    Dict(Type, Type),
    SetOf(Type),
}

#[derive(Debug, Clone)]
pub struct ClassDef {
    pub name: String,
    /// (field_name, field_type) in declaration order. For a subclass,
    /// the parent's fields are **prepended** before the subclass's own.
    pub fields: Vec<(String, Type)>,
    /// Parent class for single concrete inheritance. None for root classes.
    pub parent: Option<ClassId>,
    /// Names of methods declared `@abstractmethod` (here or inherited)
    /// that are not yet overridden. A class is abstract iff non-empty.
    pub abstract_methods: Vec<String>,
}

/// Storage for interned compound types and class definitions.
/// Entries are only ever appended; ids index into the two vectors.
#[derive(Debug)]
pub struct Arena {
    pub compounds: Vec<Compound>,
    pub classes: Vec<ClassDef>,
}

impl Compound {
    /// The component types of this compound, in order.
    pub open spec fn parts(self) -> Seq<Type> {
        match self {
            Compound::Tuple(ts) => ts@,
            Compound::List(t) => seq![t],
            Compound::Dict(k, v) => seq![k, v],
            Compound::SetOf(t) => seq![t],
        }
    }

    /// Shallow equality of shapes (element sequences compared by value).
    pub open spec fn same(self, other: Compound) -> bool {
        match (self, other) {
            (Compound::Tuple(a), Compound::Tuple(b)) => a@ == b@,
            (Compound::List(a), Compound::List(b)) => a == b,
            (Compound::Dict(a, b), Compound::Dict(c, d)) => a == c && b == d,
            (Compound::SetOf(a), Compound::SetOf(b)) => a == b,
            _ => false,
        }
    }
}

impl Type {
    /// Rank used to order types: compounds rank above every component
    /// they contain, all other types rank 0.
    pub open spec fn rank(self) -> nat {
        match self {
            Type::Tuple(id) => id.0 as nat + 1,
            Type::List(id) => id.0 as nat + 1,
            Type::Dict(id) => id.0 as nat + 1,
            Type::SetOf(id) => id.0 as nat + 1,
            _ => 0,
        }
    }

    pub open spec fn spec_int_width(self) -> Option<u8> {
        match self {
            Type::I8 => Some(8u8),
            Type::I16 => Some(16u8),
            Type::I32 => Some(32u8),
            Type::I64 => Some(64u8),
            _ => None,
        }
    }

    pub open spec fn spec_is_int(self) -> bool {
        self.spec_int_width() is Some
    }
}

impl Arena {
    /// `t` refers only to entries that exist, with the right kind.
    pub open spec fn valid(&self, t: Type) -> bool {
        match t {
            Type::Tuple(id) => id.0 < self.compounds@.len() && self.compounds@[id.0 as int] is Tuple,
            Type::List(id) => id.0 < self.compounds@.len() && self.compounds@[id.0 as int] is List,
            Type::Dict(id) => id.0 < self.compounds@.len() && self.compounds@[id.0 as int] is Dict,
            Type::SetOf(id) => id.0 < self.compounds@.len() && self.compounds@[id.0 as int] is SetOf,
            Type::Class(id) => id.0 < self.classes@.len(),
            _ => true,
        }
    }

    pub open spec fn all_valid(&self, ts: Seq<Type>) -> bool {
        forall|i: int| 0 <= i < ts.len() ==> self.valid(#[trigger] ts[i])
    }

    pub open spec fn fields_valid(&self, fs: Seq<(String, Type)>) -> bool {
        forall|i: int| 0 <= i < fs.len() ==> self.valid(#[trigger] fs[i].1)
    }

    pub open spec fn class_ok(&self, c: ClassDef) -> bool {
        &&& self.fields_valid(c.fields@)
        &&& c.parent matches Some(p) ==> p.0 < self.classes@.len()
    }

    /// Well-formedness: every compound only mentions valid types that
    /// rank below it, and every class mentions only valid types/classes.
    pub open spec fn wf(&self) -> bool {
        &&& forall|i: int, j: int|
            #![trigger self.compounds@[i].parts()[j]]
            0 <= i < self.compounds@.len() && 0 <= j < self.compounds@[i].parts().len() ==> {
                &&& self.valid(self.compounds@[i].parts()[j])
                &&& self.compounds@[i].parts()[j].rank() <= i
            }
        &&& forall|i: int| 0 <= i < self.classes@.len() ==> self.class_ok(#[trigger] self.classes@[i])
    }

    /// `self` only grew relative to `old`: compounds are a prefix-preserving
    /// extension and no class was removed.
    pub open spec fn extends(&self, old: &Arena) -> bool {
        &&& old.compounds@.len() <= self.compounds@.len()
        &&& forall|i: int| 0 <= i < old.compounds@.len() ==> #[trigger] self.compounds@[i] == old.compounds@[i]
        &&& old.classes@.len() <= self.classes@.len()
    }

    /// Types keep their validity when the arena grows.
    pub proof fn lemma_valid_mono(&self, old: &Arena, t: Type)
        requires
            self.extends(old),
            old.valid(t),
        ensures
            self.valid(t),
    {
        match t {
            Type::Tuple(id) => { assert(self.compounds@[id.0 as int] == old.compounds@[id.0 as int]); },
            Type::List(id) => { assert(self.compounds@[id.0 as int] == old.compounds@[id.0 as int]); },
            Type::Dict(id) => { assert(self.compounds@[id.0 as int] == old.compounds@[id.0 as int]); },
            Type::SetOf(id) => { assert(self.compounds@[id.0 as int] == old.compounds@[id.0 as int]); },
            _ => {},
        }
    }

    /// Growing an arena is transitive.
    pub proof fn lemma_extends_trans(a: &Arena, b: &Arena, c: &Arena)
        requires
            b.extends(a),
            c.extends(b),
        ensures
            c.extends(a),
    {
        assert forall|i: int| 0 <= i < a.compounds@.len() implies #[trigger] c.compounds@[i] == a.compounds@[i] by {
            assert(c.compounds@[i] == b.compounds@[i]);
        }
    }

    pub proof fn lemma_extends_refl(a: &Arena)
        ensures
            a.extends(a),
    {
    }

    /// A fresh, empty arena.
    pub fn new() -> (r: Arena)
        ensures
            r.wf(),
            r.compounds@.len() == 0,
            r.classes@.len() == 0,
    {
        Arena { compounds: Vec::new(), classes: Vec::new() }
    }

    /// The first entry equal in shape to `c`, if any.
    pub open spec fn is_first_match(&self, c: Compound, i: int) -> bool {
        &&& 0 <= i < self.compounds@.len()
        &&& self.compounds@[i].same(c)
        &&& forall|j: int| 0 <= j < i ==> !(#[trigger] self.compounds@[j]).same(c)
    }

    pub open spec fn has_match(&self, c: Compound) -> bool {
        exists|j: int| 0 <= j < self.compounds@.len() && (#[trigger] self.compounds@[j]).same(c)
    }

    /// Intern a compound shape: the index of the first equal entry, or a
    /// new entry appended at the end.
    fn find_compound(&self, c: &Compound) -> (r: Option<usize>)
        ensures
            match r {
                Some(i) => self.is_first_match(*c, i as int),
                None => !self.has_match(*c),
            },
    {
        let n = self.compounds.len();
        let mut i: usize = 0;
        while i < n
            invariant
                n == self.compounds@.len(),
                0 <= i <= n,
                forall|j: int| 0 <= j < i ==> !(#[trigger] self.compounds@[j]).same(*c),
            decreases n - i,
        {
            if compound_eq(&self.compounds[i], c) {
                return Some(i);
            }
            i += 1;
        }
        None
    }

    /// Intern a compound shape: the index of the first equal entry, or a
    /// new entry appended at the end.
    fn intern_compound(&mut self, c: Compound) -> (r: usize)
        requires
            old(self).wf(),
            forall|j: int| 0 <= j < c.parts().len() ==> {
                &&& old(self).valid(#[trigger] c.parts()[j])
                &&& c.parts()[j].rank() <= old(self).compounds@.len()
            },
        ensures
            final(self).wf(),
            final(self).extends(old(self)),
            final(self).classes@ == old(self).classes@,
            r < final(self).compounds@.len(),
            final(self).compounds@[r as int].same(c),
            old(self).has_match(c) ==> final(self).compounds@ == old(self).compounds@ && old(self).is_first_match(c, r as int),
            !old(self).has_match(c) ==> final(self).compounds@ == old(self).compounds@.push(c) && r as int == old(self).compounds@.len(),
    {
        if let Some(i) = self.find_compound(&c) {
            return i;
        }
        let n = self.compounds.len();
        self.compounds.push(c);
        proof {
            assert forall|k: int, j: int|
                #![trigger self.compounds@[k].parts()[j]]
                0 <= k < self.compounds@.len() && 0 <= j < self.compounds@[k].parts().len() implies {
                    &&& self.valid(self.compounds@[k].parts()[j])
                    &&& self.compounds@[k].parts()[j].rank() <= k
                } by {
                if k < n {
                    assert(self.compounds@[k] == old(self).compounds@[k]);
                    self.lemma_valid_mono(old(self), self.compounds@[k].parts()[j]);
                } else {
                    self.lemma_valid_mono(old(self), c.parts()[j]);
                }
            }
            assert forall|k: int| 0 <= k < self.classes@.len() implies self.class_ok(#[trigger] self.classes@[k]) by {
                let cd = self.classes@[k];
                assert(old(self).class_ok(cd));
                assert forall|f: int| 0 <= f < cd.fields@.len() implies self.valid(#[trigger] cd.fields@[f].1) by {
                    self.lemma_valid_mono(old(self), cd.fields@[f].1);
                }
            }
        }
        n
    }

    /// Add a class definition; its id is the previous number of classes.
    fn push_class(&mut self, def: ClassDef) -> (r: usize)
        requires
            old(self).wf(),
            old(self).fields_valid(def.fields@),
            def.parent matches Some(p) ==> p.0 < old(self).classes@.len(),
        ensures
            final(self).wf(),
            final(self).extends(old(self)),
            final(self).compounds@ == old(self).compounds@,
            final(self).classes@ == old(self).classes@.push(def),
            r as int == old(self).classes@.len(),
    {
        let n = self.classes.len();
        self.classes.push(def);
        proof {
            assert forall|k: int| 0 <= k < self.classes@.len() implies self.class_ok(#[trigger] self.classes@[k]) by {
                let cd = self.classes@[k];
                if k < n {
                    assert(old(self).class_ok(cd));
                }
                assert forall|f: int| 0 <= f < cd.fields@.len() implies self.valid(#[trigger] cd.fields@[f].1) by {
                    if k < n {
                        assert(old(self).valid(cd.fields@[f].1));
                    }
                    self.lemma_valid_mono(old(self), cd.fields@[f].1);
                }
            }
        }
        n
    }
}

/// Whether two types are the same.
pub fn type_eq(a: Type, b: Type) -> (r: bool)
    ensures
        r == (a == b),
{
    a == b
}

fn types_eq(a: &Vec<Type>, b: &Vec<Type>) -> (r: bool)
    ensures
        r == (a@ == b@),
{
    if a.len() != b.len() {
        return false;
    }
    let mut i: usize = 0;
    while i < a.len()
        invariant
            a.len() == b.len(),
            0 <= i <= a.len(),
            forall|j: int| 0 <= j < i ==> a@[j] == b@[j],
        decreases a.len() - i,
    {
        if a[i] != b[i] {
            return false;
        }
        i += 1;
    }
    assert(a@ =~= b@);
    true
}

fn compound_eq(a: &Compound, b: &Compound) -> (r: bool)
    ensures
        r == a.same(*b),
{
    match (a, b) {
        (Compound::Tuple(x), Compound::Tuple(y)) => types_eq(x, y),
        (Compound::List(x), Compound::List(y)) => *x == *y,
        (Compound::Dict(x1, x2), Compound::Dict(y1, y2)) => *x1 == *y1 && *x2 == *y2,
        (Compound::SetOf(x), Compound::SetOf(y)) => *x == *y,
        _ => false,
    }
}

impl ClassId {
    pub open spec fn def(self, arena: &Arena) -> ClassDef {
        arena.classes@[self.0 as int]
    }

    /// Register a class definition and get its fresh id.
    pub fn intern(arena: &mut Arena, def: ClassDef) -> (r: ClassId)
        requires
            old(arena).wf(),
            old(arena).fields_valid(def.fields@),
            def.parent matches Some(p) ==> p.0 < old(arena).classes@.len(),
        ensures
            final(arena).wf(),
            final(arena).extends(old(arena)),
            final(arena).compounds@ == old(arena).compounds@,
            final(arena).classes@ == old(arena).classes@.push(def),
            r.0 as int == old(arena).classes@.len(),
    {
        ClassId(arena.push_class(def))
    }

    pub fn name(self, arena: &Arena) -> (r: String)
        requires
            self.0 < arena.classes@.len(),
        ensures
            r@ == self.def(arena).name@,
    {
        arena.classes[self.0].name.clone()
    }

    pub fn fields(self, arena: &Arena) -> (r: Vec<(String, Type)>)
        requires
            self.0 < arena.classes@.len(),
        ensures
            r@ == self.def(arena).fields@,
    {
        let fs = &arena.classes[self.0].fields;
        let mut out: Vec<(String, Type)> = Vec::new();
        let mut i: usize = 0;
        while i < fs.len()
            invariant
                0 <= i <= fs.len(),
                out@.len() == i,
                forall|j: int| 0 <= j < i ==> #[trigger] out@[j] == fs@[j],
            decreases fs.len() - i,
        {
            out.push((fs[i].0.clone(), fs[i].1));
            i += 1;
        }
        assert(out@ =~= fs@);
        out
    }

    /// Position of the first field called `name`.
    pub fn field_index(self, arena: &Arena, name: &str) -> (r: Option<usize>)
        requires
            self.0 < arena.classes@.len(),
        ensures
            r == first_field(self.def(arena).fields@, name@),
    {
        let fs = &arena.classes[self.0].fields;
        let mut i: usize = 0;
        while i < fs.len()
            invariant
                0 <= i <= fs.len(),
                fs@ == self.def(arena).fields@,
                forall|j: int| 0 <= j < i ==> (#[trigger] fs@[j]).0@ != name@,
            decreases fs.len() - i,
        {
            if str_eq(fs[i].0.as_str(), name) {
                proof {
                    lemma_first_field(fs@, name@);
                }
                return Some(i);
            }
            i += 1;
        }
        proof {
            lemma_first_field(fs@, name@);
        }
        None
    }

    /// Type of the first field called `name`.
    pub fn field_ty(self, arena: &Arena, name: &str) -> (r: Option<Type>)
        requires
            self.0 < arena.classes@.len(),
        ensures
            r == (match first_field(self.def(arena).fields@, name@) {
                Some(i) => Some(self.def(arena).fields@[i as int].1),
                None => None,
            }),
    {
        let n = arena.classes[self.0].fields.len();
        proof {
            lemma_first_field(self.def(arena).fields@, name@);
        }
        match self.field_index(arena, name) {
            Some(i) => Some(arena.classes[self.0].fields[i].1),
            None => None,
        }
    }

    /// Replace the field list (used after pre-registration).
    pub fn set_fields(self, arena: &mut Arena, fields: Vec<(String, Type)>)
        requires
            old(arena).wf(),
            self.0 < old(arena).classes@.len(),
            old(arena).fields_valid(fields@),
        ensures
            final(arena).wf(),
            final(arena).extends(old(arena)),
            final(arena).compounds@ == old(arena).compounds@,
            final(arena).classes@ == old(arena).classes@.update(self.0 as int, ClassDef { fields, ..old(arena).classes@[self.0 as int] }),
    {
        let i = self.0;
        arena.classes[i].fields = fields;
        proof { lemma_classes_update_wf(old(arena), arena, i as int); }
    }

    pub fn parent(self, arena: &Arena) -> (r: Option<ClassId>)
        requires
            self.0 < arena.classes@.len(),
        ensures
            r == self.def(arena).parent,
    {
        arena.classes[self.0].parent
    }

    pub fn set_parent(self, arena: &mut Arena, parent: Option<ClassId>)
        requires
            old(arena).wf(),
            self.0 < old(arena).classes@.len(),
            parent matches Some(p) ==> p.0 < old(arena).classes@.len(),
        ensures
            final(arena).wf(),
            final(arena).extends(old(arena)),
            final(arena).compounds@ == old(arena).compounds@,
            final(arena).classes@ == old(arena).classes@.update(self.0 as int, ClassDef { parent, ..old(arena).classes@[self.0 as int] }),
    {
        let i = self.0;
        arena.classes[i].parent = parent;
        proof { lemma_classes_update_wf(old(arena), arena, i as int); }
    }

    pub fn abstract_methods(self, arena: &Arena) -> (r: Vec<String>)
        requires
            self.0 < arena.classes@.len(),
        ensures
            r@ == self.def(arena).abstract_methods@,
    {
        arena.classes[self.0].abstract_methods.clone()
    }

    pub fn set_abstract_methods(self, arena: &mut Arena, methods: Vec<String>)
        requires
            old(arena).wf(),
            self.0 < old(arena).classes@.len(),
        ensures
            final(arena).wf(),
            final(arena).extends(old(arena)),
            final(arena).compounds@ == old(arena).compounds@,
            final(arena).classes@ == old(arena).classes@.update(self.0 as int, ClassDef { abstract_methods: methods, ..old(arena).classes@[self.0 as int] }),
    {
        let i = self.0;
        arena.classes[i].abstract_methods = methods;
        proof { lemma_classes_update_wf(old(arena), arena, i as int); }
    }

    /// A class is abstract iff it has unimplemented abstract methods.
    pub fn is_abstract(self, arena: &Arena) -> (r: bool)
        requires
            self.0 < arena.classes@.len(),
        ensures
            r == (self.def(arena).abstract_methods@.len() > 0),
    {
        arena.classes[self.0].abstract_methods.len() > 0
    }
}

/// Index of the first field named `name`.
pub open spec fn first_field(fs: Seq<(String, Type)>, name: Seq<char>) -> Option<usize>
    decreases fs.len(),
{
    if fs.len() == 0 {
        None
    } else {
        match first_field(fs.drop_last(), name) {
            Some(i) => Some(i),
            None => if fs.last().0@ == name { Some((fs.len() - 1) as usize) } else { None },
        }
    }
}

/// Characterisation of [`first_field`] by position.
pub proof fn lemma_first_field(fs: Seq<(String, Type)>, name: Seq<char>)
    requires
        fs.len() <= usize::MAX,
    ensures
        match first_field(fs, name) {
            Some(i) => i < fs.len() && fs[i as int].0@ == name && forall|j: int| 0 <= j < i ==> (#[trigger] fs[j]).0@ != name,
            None => forall|j: int| 0 <= j < fs.len() ==> (#[trigger] fs[j]).0@ != name,
        },
    decreases fs.len(),
{
    if fs.len() > 0 {
        lemma_first_field(fs.drop_last(), name);
        match first_field(fs.drop_last(), name) {
            Some(i) => {
                assert forall|j: int| 0 <= j < i implies (#[trigger] fs[j]).0@ != name by {
                    assert(fs[j] == fs.drop_last()[j]);
                }
            },
            None => {
                assert forall|j: int| 0 <= j < fs.len() - 1 implies (#[trigger] fs[j]).0@ != name by {
                    assert(fs[j] == fs.drop_last()[j]);
                }
            },
        }
    }
}

proof fn lemma_classes_update_wf(a: &Arena, b: &Arena, i: int)
    requires
        a.wf(),
        0 <= i < a.classes@.len(),
        b.compounds@ == a.compounds@,
        b.classes@.len() == a.classes@.len(),
        forall|k: int| 0 <= k < a.classes@.len() && k != i ==> b.classes@[k] == a.classes@[k],
        b.class_ok(b.classes@[i]),
    ensures
        b.wf(),
        b.extends(a),
{
    assert forall|k: int| 0 <= k < b.classes@.len() implies b.class_ok(#[trigger] b.classes@[k]) by {
        if k != i {
            let cd = b.classes@[k];
            assert(a.class_ok(cd));
            assert forall|f: int| 0 <= f < cd.fields@.len() implies b.valid(#[trigger] cd.fields@[f].1) by {
                b.lemma_valid_mono(a, cd.fields@[f].1);
            }
        }
    }
    assert forall|k: int, j: int|
        #![trigger b.compounds@[k].parts()[j]]
        0 <= k < b.compounds@.len() && 0 <= j < b.compounds@[k].parts().len() implies {
            &&& b.valid(b.compounds@[k].parts()[j])
            &&& b.compounds@[k].parts()[j].rank() <= k
        } by {
        b.lemma_valid_mono(a, b.compounds@[k].parts()[j]);
    }
}


/// The contract of interning `c` into `a0`, giving `a1` and index `r`.
pub open spec fn intern_post(a0: &Arena, a1: &Arena, c: Compound, r: usize) -> bool {
    &&& a1.wf()
    &&& a1.extends(a0)
    &&& a1.classes@ == a0.classes@
    &&& r < a1.compounds@.len()
    &&& a1.compounds@[r as int].same(c)
    &&& a0.has_match(c) ==> a1.compounds@ == a0.compounds@ && a0.is_first_match(c, r as int)
    &&& !a0.has_match(c) ==> a1.compounds@ == a0.compounds@.push(c) && r as int == a0.compounds@.len()
}

/// Interning is idempotent: interning the same shape a second time gives
/// the same id and leaves the arena as the first call left it.
pub proof fn law_intern_idempotent(a0: &Arena, a1: &Arena, a2: &Arena, c: Compound, r1: usize, r2: usize)
    requires
        intern_post(a0, a1, c, r1),
        intern_post(a1, a2, c, r2),
    ensures
        r1 == r2,
        a2.compounds@ == a1.compounds@,
        a2.classes@ == a1.classes@,
{
    assert(a1.has_match(c)) by {
        assert(a1.compounds@[r1 as int].same(c));
    }
    if a0.has_match(c) {
        assert(a1.is_first_match(c, r1 as int));
    } else {
        assert forall|j: int| 0 <= j < r1 implies !(#[trigger] a1.compounds@[j]).same(c) by {
            assert(a1.compounds@[j] == a0.compounds@[j]);
            if a0.compounds@[j].same(c) {
                assert(a0.has_match(c));
            }
        }
        assert(a1.is_first_match(c, r1 as int));
    }
}

/// Interning distinguishes shapes: interning two different shapes, one
/// after the other, gives two different ids, and the first id still
/// denotes the first shape.
pub proof fn law_intern_distinct(a0: &Arena, a1: &Arena, a2: &Arena, c1: Compound, c2: Compound, r1: usize, r2: usize)
    requires
        intern_post(a0, a1, c1, r1),
        intern_post(a1, a2, c2, r2),
        !c1.same(c2),
    ensures
        r1 != r2,
        a2.compounds@[r1 as int].same(c1),
{
    assert(a2.compounds@[r1 as int] == a1.compounds@[r1 as int]);
}

/// Interning is stable across other work: interning a shape, letting the
/// arena grow in any way, then interning the same shape again gives the
/// same id and adds nothing.
pub proof fn law_intern_stable(a0: &Arena, a1: &Arena, mid: &Arena, a2: &Arena, c: Compound, r1: usize, r2: usize)
    requires
        intern_post(a0, a1, c, r1),
        mid.extends(a1),
        intern_post(mid, a2, c, r2),
    ensures
        r1 == r2,
        a2.compounds@ == mid.compounds@,
{
    assert(mid.compounds@[r1 as int] == a1.compounds@[r1 as int]);
    assert(mid.has_match(c)) by {
        assert(mid.compounds@[r1 as int].same(c));
    }
    assert forall|j: int| 0 <= j < r1 implies !(#[trigger] mid.compounds@[j]).same(c) by {
        assert(mid.compounds@[j] == a1.compounds@[j]);
        assert(a1.compounds@[j] == a0.compounds@[j]);
        if !a0.has_match(c) && a0.compounds@[j].same(c) {
            assert(a0.has_match(c));
        }
    }
    if r2 < r1 {
        assert(!mid.compounds@[r2 as int].same(c));
    }
    if r2 > r1 {
        assert(mid.is_first_match(c, r2 as int));
        assert(!mid.compounds@[r1 as int].same(c));
    }
}

/// What an id denotes does not change as the arena grows: the elements of
/// a tuple, the element of a list or set, the key and value of a dict,
/// and the class an id names stays registered.
pub proof fn law_ids_persist(a: &Arena, b: &Arena, t: Type)
    requires
        a.valid(t),
        b.extends(a),
    ensures
        b.valid(t),
        match t {
            Type::Tuple(id) => id.spec_elems(b) == id.spec_elems(a),
            Type::List(id) => id.spec_elem(b) == id.spec_elem(a),
            Type::Dict(id) => id.spec_key(b) == id.spec_key(a) && id.spec_val(b) == id.spec_val(a),
            Type::SetOf(id) => id.spec_elem(b) == id.spec_elem(a),
            Type::Class(id) => id.0 < b.classes@.len(),
            _ => true,
        },
{
    b.lemma_valid_mono(a, t);
    match t {
        Type::Tuple(id) => { assert(b.compounds@[id.0 as int] == a.compounds@[id.0 as int]); },
        Type::List(id) => { assert(b.compounds@[id.0 as int] == a.compounds@[id.0 as int]); },
        Type::Dict(id) => { assert(b.compounds@[id.0 as int] == a.compounds@[id.0 as int]); },
        Type::SetOf(id) => { assert(b.compounds@[id.0 as int] == a.compounds@[id.0 as int]); },
        _ => {},
    }
}

/// Registering a class keeps every earlier class as it was, its name
/// included.
pub proof fn law_class_intern_keeps(a0: &Arena, a1: &Arena, def: ClassDef, id: ClassId)
    requires
        a1.classes@ == a0.classes@.push(def),
        id.0 < a0.classes@.len(),
    ensures
        id.def(a1) == id.def(a0),
        id.def(a1).name@ == id.def(a0).name@,
{
}

impl TupleId {
    pub open spec fn spec_elems(self, arena: &Arena) -> Seq<Type> {
        match arena.compounds@[self.0 as int] {
            Compound::Tuple(ts) => ts@,
            _ => Seq::empty(),
        }
    }

    /// Intern a tuple-element list and get back its id. Idempotent
    /// for repeated calls with the same elements.
    pub fn intern(arena: &mut Arena, elems: Vec<Type>) -> (r: TupleId)
        requires
            old(arena).wf(),
            old(arena).all_valid(elems@),
        ensures
            intern_post(old(arena), final(arena), Compound::Tuple(elems), r.0),
            final(arena).valid(Type::Tuple(r)),
            r.spec_elems(final(arena)) == elems@,
    {
        let ghost e = elems@;
        let c = Compound::Tuple(elems);
        proof {
            assert forall|j: int| 0 <= j < c.parts().len() implies {
                &&& old(arena).valid(#[trigger] c.parts()[j])
                &&& c.parts()[j].rank() <= old(arena).compounds@.len()
            } by {
                lemma_valid_rank(old(arena), c.parts()[j]);
            }
        }
        let i = arena.intern_compound(c);
        TupleId(i)
    }

    /// Number of elements of this tuple.
    pub fn len(self, arena: &Arena) -> (r: usize)
        requires
            arena.valid(Type::Tuple(self)),
        ensures
            r == self.spec_elems(arena).len(),
    {
        match &arena.compounds[self.0] {
            Compound::Tuple(ts) => ts.len(),
            _ => 0,
        }
    }

    /// The element at position `i`.
    pub fn elem_at(self, arena: &Arena, i: usize) -> (r: Type)
        requires
            arena.valid(Type::Tuple(self)),
            i < self.spec_elems(arena).len(),
        ensures
            r == self.spec_elems(arena)[i as int],
    {
        match &arena.compounds[self.0] {
            Compound::Tuple(ts) => ts[i],
            _ => Type::I64,
        }
    }

    /// Borrow the element types of this tuple. `f` is called with a
    /// slice of the elements.
    pub fn with_elems<R, F: FnOnce(&[Type]) -> R>(self, arena: &Arena, f: F) -> (r: R)
        requires
            arena.valid(Type::Tuple(self)),
            forall|s: &[Type]| s@ == self.spec_elems(arena) ==> f.requires((s,)),
        ensures
            exists|s: &[Type]| s@ == self.spec_elems(arena) && f.ensures((s,), r),
    {
        match &arena.compounds[self.0] {
            Compound::Tuple(ts) => f(ts.as_slice()),
            _ => {
                let v: Vec<Type> = Vec::new();
                f(v.as_slice())
            },
        }
    }

    /// Convenience: copy the elements out of the arena.
    pub fn elems(self, arena: &Arena) -> (r: Vec<Type>)
        requires
            arena.valid(Type::Tuple(self)),
        ensures
            r@ == self.spec_elems(arena),
    {
        match &arena.compounds[self.0] {
            Compound::Tuple(ts) => ts.clone(),
            _ => Vec::new(),
        }
    }
}

impl ListId {
    pub open spec fn spec_elem(self, arena: &Arena) -> Type {
        match arena.compounds@[self.0 as int] {
            Compound::List(t) => t,
            _ => Type::I64,
        }
    }

    pub fn intern(arena: &mut Arena, elem: Type) -> (r: ListId)
        requires
            old(arena).wf(),
            old(arena).valid(elem),
        ensures
            intern_post(old(arena), final(arena), Compound::List(elem), r.0),
            final(arena).valid(Type::List(r)),
            r.spec_elem(final(arena)) == elem,
    {
        proof { lemma_valid_rank(old(arena), elem); }
        let i = arena.intern_compound(Compound::List(elem));
        ListId(i)
    }

    pub fn elem(self, arena: &Arena) -> (r: Type)
        requires
            arena.valid(Type::List(self)),
        ensures
            r == self.spec_elem(arena),
    {
        match &arena.compounds[self.0] {
            Compound::List(t) => *t,
            _ => Type::I64,
        }
    }
}

impl DictId {
    pub open spec fn spec_key(self, arena: &Arena) -> Type {
        match arena.compounds@[self.0 as int] {
            Compound::Dict(k, _) => k,
            _ => Type::I64,
        }
    }

    pub open spec fn spec_val(self, arena: &Arena) -> Type {
        match arena.compounds@[self.0 as int] {
            Compound::Dict(_, v) => v,
            _ => Type::I64,
        }
    }

    pub fn intern(arena: &mut Arena, key: Type, value: Type) -> (r: DictId)
        requires
            old(arena).wf(),
            old(arena).valid(key),
            old(arena).valid(value),
        ensures
            intern_post(old(arena), final(arena), Compound::Dict(key, value), r.0),
            final(arena).valid(Type::Dict(r)),
            r.spec_key(final(arena)) == key,
            r.spec_val(final(arena)) == value,
    {
        proof {
            lemma_valid_rank(old(arena), key);
            lemma_valid_rank(old(arena), value);
        }
        let c = Compound::Dict(key, value);
        assert(c.parts() =~= seq![key, value]);
        let i = arena.intern_compound(c);
        DictId(i)
    }

    pub fn key(self, arena: &Arena) -> (r: Type)
        requires
            arena.valid(Type::Dict(self)),
        ensures
            r == self.spec_key(arena),
    {
        match &arena.compounds[self.0] {
            Compound::Dict(k, _) => *k,
            _ => Type::I64,
        }
    }

    pub fn val(self, arena: &Arena) -> (r: Type)
        requires
            arena.valid(Type::Dict(self)),
        ensures
            r == self.spec_val(arena),
    {
        match &arena.compounds[self.0] {
            Compound::Dict(_, v) => *v,
            _ => Type::I64,
        }
    }
}

impl SetId {
    pub open spec fn spec_elem(self, arena: &Arena) -> Type {
        match arena.compounds@[self.0 as int] {
            Compound::SetOf(t) => t,
            _ => Type::I64,
        }
    }

    pub fn intern(arena: &mut Arena, elem: Type) -> (r: SetId)
        requires
            old(arena).wf(),
            old(arena).valid(elem),
        ensures
            intern_post(old(arena), final(arena), Compound::SetOf(elem), r.0),
            final(arena).valid(Type::SetOf(r)),
            r.spec_elem(final(arena)) == elem,
    {
        proof { lemma_valid_rank(old(arena), elem); }
        let i = arena.intern_compound(Compound::SetOf(elem));
        SetId(i)
    }

    pub fn elem(self, arena: &Arena) -> (r: Type)
        requires
            arena.valid(Type::SetOf(self)),
        ensures
            r == self.spec_elem(arena),
    {
        match &arena.compounds[self.0] {
            Compound::SetOf(t) => *t,
            _ => Type::I64,
        }
    }
}

/// The component types of a valid compound type are valid.
pub proof fn lemma_components_valid(a: &Arena, t: Type)
    requires
        a.wf(),
        a.valid(t),
    ensures
        match t {
            Type::List(id) => a.valid(id.spec_elem(a)),
            Type::SetOf(id) => a.valid(id.spec_elem(a)),
            Type::Dict(id) => a.valid(id.spec_key(a)) && a.valid(id.spec_val(a)),
            Type::Tuple(id) => a.all_valid(id.spec_elems(a)),
            _ => true,
        },
{
    match t {
        Type::List(id) => { assert(a.compounds@[id.0 as int].parts()[0] == id.spec_elem(a)); },
        Type::SetOf(id) => { assert(a.compounds@[id.0 as int].parts()[0] == id.spec_elem(a)); },
        Type::Dict(id) => {
            assert(a.compounds@[id.0 as int].parts()[0] == id.spec_key(a));
            assert(a.compounds@[id.0 as int].parts()[1] == id.spec_val(a));
        },
        Type::Tuple(id) => {
            assert forall|j: int| 0 <= j < id.spec_elems(a).len() implies a.valid(#[trigger] id.spec_elems(a)[j]) by {
                assert(a.compounds@[id.0 as int].parts()[j] == id.spec_elems(a)[j]);
            }
        },
        _ => {},
    }
}

/// Field types of a class in a well-formed arena are valid.
pub proof fn lemma_field_valid(a: &Arena, c: ClassId, i: int)
    requires
        a.wf(),
        c.0 < a.classes@.len(),
        0 <= i < c.def(a).fields@.len(),
    ensures
        a.valid(c.def(a).fields@[i].1),
        c.def(a).parent matches Some(p) ==> p.0 < a.classes@.len(),
{
    assert(a.class_ok(a.classes@[c.0 as int]));
}

/// The parent of a class in a well-formed arena exists.
pub proof fn lemma_parent_valid(a: &Arena, c: ClassId)
    requires
        a.wf(),
        c.0 < a.classes@.len(),
    ensures
        c.def(a).parent matches Some(p) ==> p.0 < a.classes@.len(),
{
    assert(a.class_ok(a.classes@[c.0 as int]));
}

/// A valid type ranks at most the number of compounds.
pub proof fn lemma_valid_rank(a: &Arena, t: Type)
    requires
        a.valid(t),
    ensures
        t.rank() <= a.compounds@.len(),
{
}


/// The display name of a type, as used in error messages.
pub open spec fn display_name(a: &Arena, t: Type) -> Seq<char>
    decreases t.rank(), 1nat, 0nat,
{
    match t {
        Type::I8 => "i8"@,
        Type::I16 => "i16"@,
        Type::I32 => "i32"@,
        Type::I64 => "int"@,
        Type::F64 => "float"@,
        Type::Bool => "bool"@,
        Type::Str => "str"@,
        Type::Tuple(id) => "tuple["@ + names_joined(a, id.spec_elems(a), id.0 as nat + 1) + "]"@,
        Type::List(id) => "list["@ + sub_name(a, id.spec_elem(a), id.0 as nat + 1) + "]"@,
        Type::Dict(id) => "dict["@ + sub_name(a, id.spec_key(a), id.0 as nat + 1) + ", "@
            + sub_name(a, id.spec_val(a), id.0 as nat + 1) + "]"@,
        Type::SetOf(id) => "set["@ + sub_name(a, id.spec_elem(a), id.0 as nat + 1) + "]"@,
        Type::Class(id) => id.def(a).name@,
    }
}

/// Name of a component type ranking below `bound`.
pub open spec fn sub_name(a: &Arena, t: Type, bound: nat) -> Seq<char>
    decreases bound, 0nat, 0nat,
{
    if t.rank() < bound {
        display_name(a, t)
    } else {
        "?"@
    }
}

/// Names of `ts` separated by ", ".
pub open spec fn names_joined(a: &Arena, ts: Seq<Type>, bound: nat) -> Seq<char>
    decreases bound, 0nat, ts.len(),
{
    if ts.len() == 0 {
        Seq::empty()
    } else if ts.len() == 1 {
        sub_name(a, ts[0], bound)
    } else {
        names_joined(a, ts.drop_last(), bound) + ", "@ + sub_name(a, ts.last(), bound)
    }
}

impl Type {
    /// Human-readable name of the type.
    pub fn name(self, arena: &Arena) -> (r: String)
        requires
            arena.wf(),
            arena.valid(self),
        ensures
            r@ == display_name(arena, self),
        decreases self.rank(),
    {
        match self {
            Type::I8 => String::from_str("i8"),
            Type::I16 => String::from_str("i16"),
            Type::I32 => String::from_str("i32"),
            Type::I64 => String::from_str("int"),
            Type::F64 => String::from_str("float"),
            Type::Bool => String::from_str("bool"),
            Type::Str => String::from_str("str"),
            Type::Tuple(id) => {
                let elems = id.elems(arena);
                let ghost bound = id.0 as nat + 1;
                let mut s = String::from_str("tuple[");
                let mut i: usize = 0;
                proof {
                    assert(elems@.take(0) =~= Seq::<Type>::empty());
                }
                while i < elems.len()
                    invariant
                        arena.wf(),
                        arena.valid(self),
                        self == Type::Tuple(id),
                        elems@ == id.spec_elems(arena),
                        bound == id.0 as nat + 1,
                        0 <= i <= elems.len(),
                        s@ == "tuple["@ + names_joined(arena, elems@.take(i as int), bound),
                    decreases elems.len() - i,
                {
                    let e = elems[i];
                    proof {
                        assert(arena.compounds@[id.0 as int].parts()[i as int] == e);
                        assert(e.rank() < bound);
                    }
                    let en = e.name(arena);
                    let ghost prev = s@;
                    if i > 0 {
                        s.append(", ");
                    }
                    s.append(en.as_str());
                    proof {
                        let t1 = elems@.take(i + 1);
                        assert(t1.drop_last() =~= elems@.take(i as int));
                        assert(t1.last() == e);
                        assert(sub_name(arena, e, bound) == display_name(arena, e));
                        if i == 0 {
                            assert(s@ =~= "tuple["@ + names_joined(arena, t1, bound));
                        } else {
                            assert(s@ =~= "tuple["@ + names_joined(arena, t1, bound));
                        }
                    }
                    i += 1;
                }
                s.append("]");
                proof {
                    assert(elems@.take(elems@.len() as int) =~= elems@);
                }
                s
            },
            Type::List(id) => {
                let e = id.elem(arena);
                proof { assert(arena.compounds@[id.0 as int].parts()[0] == e); }
                let en = e.name(arena);
                concat3("list[", en.as_str(), "]")
            },
            Type::Dict(id) => {
                let k = id.key(arena);
                let v = id.val(arena);
                proof {
                    assert(arena.compounds@[id.0 as int].parts()[0] == k);
                    assert(arena.compounds@[id.0 as int].parts()[1] == v);
                }
                let kn = k.name(arena);
                let vn = v.name(arena);
                let mut s = concat3("dict[", kn.as_str(), ", ");
                s.append(vn.as_str());
                s.append("]");
                s
            },
            Type::SetOf(id) => {
                let e = id.elem(arena);
                proof { assert(arena.compounds@[id.0 as int].parts()[0] == e); }
                let en = e.name(arena);
                concat3("set[", en.as_str(), "]")
            },
            Type::Class(id) => id.name(arena),
        }
    }

    /// Width of the integer type in bits, or None for non-int types.
    pub fn int_width(self) -> (r: Option<u8>)
        ensures
            r == self.spec_int_width(),
    {
        match self {
            Type::I8 => Some(8),
            Type::I16 => Some(16),
            Type::I32 => Some(32),
            Type::I64 => Some(64),
            _ => None,
        }
    }

    pub fn is_int(self) -> (r: bool)
        ensures
            r == self.spec_is_int(),
    {
        self.int_width().is_some()
    }

    pub fn is_tuple(self) -> (r: bool)
        ensures
            r == (self is Tuple),
    {
        match self {
            Type::Tuple(_) => true,
            _ => false,
        }
    }

    /// True iff `self` is a class type whose class is abstract.
    pub fn is_abstract_class(self, arena: &Arena) -> (r: bool)
        requires
            arena.valid(self),
        ensures
            r == (match self {
                Type::Class(c) => c.def(arena).abstract_methods@.len() > 0,
                _ => false,
            }),
    {
        match self {
            Type::Class(c) => c.is_abstract(arena),
            _ => false,
        }
    }
}


#[derive(Debug, Clone)]
pub struct Param {
    pub name: String,
    pub ty: Type,
}

#[derive(Debug)]
pub struct Function {
    pub name: String,
    pub params: Vec<Param>,
    pub return_ty: Type,
    pub body: Vec<Stmt>,
}

#[derive(Debug)]
pub struct Program {
    /// All user-defined functions in declaration order. Exactly one
    /// is named "main" — that's the entry point invoked by the C
    /// `main(argc, argv)` wrapper.
    pub functions: Vec<Function>,
    /// The compound types and classes the functions' types refer to.
    pub arena: Arena,
}

/// Index of the first function named `name`.
pub open spec fn first_named(fs: Seq<Function>, name: Seq<char>) -> Option<int>
    decreases fs.len(),
{
    if fs.len() == 0 {
        None
    } else {
        match first_named(fs.drop_last(), name) {
            Some(i) => Some(i),
            None => if fs.last().name@ == name { Some(fs.len() - 1) } else { None },
        }
    }
}

pub proof fn lemma_first_named(fs: Seq<Function>, name: Seq<char>)
    ensures
        match first_named(fs, name) {
            Some(i) => 0 <= i < fs.len() && fs[i].name@ == name && forall|j: int| 0 <= j < i ==> (#[trigger] fs[j]).name@ != name,
            None => forall|j: int| 0 <= j < fs.len() ==> (#[trigger] fs[j]).name@ != name,
        },
    decreases fs.len(),
{
    if fs.len() > 0 {
        lemma_first_named(fs.drop_last(), name);
        match first_named(fs.drop_last(), name) {
            Some(i) => {
                assert forall|j: int| 0 <= j < i implies (#[trigger] fs[j]).name@ != name by {
                    assert(fs[j] == fs.drop_last()[j]);
                }
            },
            None => {
                assert forall|j: int| 0 <= j < fs.len() - 1 implies (#[trigger] fs[j]).name@ != name by {
                    assert(fs[j] == fs.drop_last()[j]);
                }
            },
        }
    }
}

impl Program {
    pub open spec fn has_main(&self) -> bool {
        first_named(self.functions@, "main"@) is Some
    }

    pub open spec fn spec_main(&self) -> Function {
        self.functions@[first_named(self.functions@, "main"@)->0]
    }

    /// The entry-point function.
    pub fn main(&self) -> (r: &Function)
        requires
            self.has_main(),
        ensures
            *r == self.spec_main(),
    {
        proof { lemma_first_named(self.functions@, "main"@); }
        let mut i: usize = 0;
        while i < self.functions.len()
            invariant
                0 <= i <= self.functions@.len(),
                self.has_main(),
                forall|j: int| 0 <= j < i ==> (#[trigger] self.functions@[j]).name@ != "main"@,
                match first_named(self.functions@, "main"@) {
                    Some(k) => 0 <= k < self.functions@.len() && self.functions@[k].name@ == "main"@
                        && forall|j: int| 0 <= j < k ==> (#[trigger] self.functions@[j]).name@ != "main"@,
                    None => false,
                },
            decreases self.functions@.len() - i,
        {
            if str_eq(self.functions[i].name.as_str(), "main") {
                return &self.functions[i];
            }
            i += 1;
        }
        &self.functions[0]
    }
}

#[derive(Debug)]
pub enum Stmt {
    Let { name: String, value: TypedExpr },
    Return { value: TypedExpr },
    If {
        cond: TypedExpr,
        then_body: Vec<Stmt>,
        else_body: Vec<Stmt>,
    },
    /// `while cond: body`; `update` is the loop latch, run after the body
    /// and after every `continue`, before the condition is tested again.
    While { cond: TypedExpr, body: Vec<Stmt>, update: Vec<Stmt> },
    Break,
    Continue,
    /// `<list>.append(<value>)`. List must be a Var.
    ListAppend { list: TypedExpr, value: TypedExpr },
    /// `<set>.add(<value>)`. Set must be a Var.
    SetAdd { set: TypedExpr, value: TypedExpr },
    /// `<obj>.<field> = <value>`; the field index is resolved at check.
    SetField {
        obj: TypedExpr,
        field_index: usize,
        value: TypedExpr,
    },
    /// `<container>[<key>] = <value>` on a dict or a list.
    SetSubscript {
        container: TypedExpr,
        key: TypedExpr,
        value: TypedExpr,
    },
    /// Expression evaluated for its side effect; result discarded.
    ExprStmt(TypedExpr),
}

/// An expression annotated with its result type.
#[derive(Debug)]
pub struct TypedExpr {
    pub ty: Type,
    pub expr: Expr,
}

impl TypedExpr {
    pub fn new(ty: Type, expr: Expr) -> (r: Self)
        ensures
            r == (TypedExpr { ty, expr }),
    {
        Self { ty, expr }
    }
}

/// A floating-point literal: its IEEE-754 bit pattern and the text that
/// spells it in LLVM IR.
#[derive(Debug, Clone)]
pub struct FloatLit {
    pub bits: u64,
    pub text: String,
}

#[derive(Debug)]
pub enum Expr {
    ConstI64(i64),
    ConstF64(FloatLit),
    ConstBool(bool),
    /// Reference to a parameter or previously assigned local.
    Var(String),
    BinOp { op: BinOp, lhs: Box<TypedExpr>, rhs: Box<TypedExpr> },
    UnaryOp { op: UnaryOp, operand: Box<TypedExpr> },
    Cmp { op: CmpOp, lhs: Box<TypedExpr>, rhs: Box<TypedExpr> },
    /// Python-style chained comparison `a < b < c < d`.
    CmpChain { first: Box<TypedExpr>, rest: Vec<(CmpOp, TypedExpr)> },
    /// Logical `not`. Always produces Bool.
    Not(Box<TypedExpr>),
    /// `and` / `or` with short-circuit value semantics.
    BoolOp { op: BoolOp, lhs: Box<TypedExpr>, rhs: Box<TypedExpr> },
    Call { callee: String, args: Vec<TypedExpr> },
    /// Type conversion from `inner.ty` to the surrounding type.
    Coerce { inner: Box<TypedExpr> },
    TupleLit { elements: Vec<TypedExpr> },
    /// Index into a tuple at a compile-time constant position.
    TupleIndex { tuple: Box<TypedExpr>, index: usize },
    ListLit { elements: Vec<TypedExpr> },
    /// Runtime list indexing (no bounds check).
    ListIndex { list: Box<TypedExpr>, index: Box<TypedExpr> },
    ListLen { list: Box<TypedExpr> },
    ListConcat { lhs: Box<TypedExpr>, rhs: Box<TypedExpr> },
    /// Execute `stmts`, then evaluate `result`.
    DoBlock { stmts: Vec<Stmt>, result: Box<TypedExpr> },
    StrLit(String),
    StrConcat { lhs: Box<TypedExpr>, rhs: Box<TypedExpr> },
    StrLen { s: Box<TypedExpr> },
    StrEq { lhs: Box<TypedExpr>, rhs: Box<TypedExpr>, negated: bool },
    /// Format an integer/bool value as a Str.
    FormatToStr { inner: Box<TypedExpr> },
    /// `s[i]` — single-char substring.
    StrIndex { s: Box<TypedExpr>, index: Box<TypedExpr> },
    /// `s[start:stop]` — substring, bounds clamped at runtime.
    StrSlice { s: Box<TypedExpr>, start: Box<TypedExpr>, stop: Box<TypedExpr> },
    /// Call to a math runtime / LLVM intrinsic, f64 → f64.
    MathCall { intrinsic: &'static str, arg: Box<TypedExpr> },
    DictLit { entries: Vec<(TypedExpr, TypedExpr)> },
    /// `d[k]`; a miss yields the value type's zero.
    DictGet { dict: Box<TypedExpr>, key: Box<TypedExpr> },
    DictHas { dict: Box<TypedExpr>, key: Box<TypedExpr> },
    DictLen { dict: Box<TypedExpr> },
    SetLit { elements: Vec<TypedExpr> },
    SetHas { set: Box<TypedExpr>, key: Box<TypedExpr> },
    SetLen { set: Box<TypedExpr> },
    /// Read a field of a class instance.
    FieldGet { obj: Box<TypedExpr>, field_index: usize },
    /// Construct a class instance; `init_class` owns the `__init__`
    /// called (None: no `__init__` in the chain, zero args).
    ClassNew { class: ClassId, init_class: Option<ClassId>, args: Vec<TypedExpr> },
}

#[derive(Debug, Clone, Copy, PartialEq, Eq, Structural)]
pub enum BinOp {
    Add,
    Sub,
    Mul,
    /// Integer floor-division `//`.
    FloorDiv,
    /// Integer floor-mod `%`.
    Mod,
    /// True division `/`. Always produces F64.
    TrueDiv,
    BitAnd,
    BitOr,
    BitXor,
    Shl,
    Shr,
    /// `a ** b`.
    Pow,
}

#[derive(Debug, Clone, Copy, PartialEq, Eq, Structural)]
pub enum UnaryOp {
    Neg,
    Pos,
    /// Bitwise not (`~x`).
    BitNot,
}

#[derive(Debug, Clone, Copy, PartialEq, Eq, Structural)]
pub enum CmpOp {
    Lt,
    Le,
    Gt,
    Ge,
    Eq,
    Ne,
}

#[derive(Debug, Clone, Copy, PartialEq, Eq, Structural)]
pub enum BoolOp {
    And,
    Or,
}


impl FloatLit {
    pub fn copy(&self) -> (r: FloatLit)
        ensures
            r == *self,
    {
        FloatLit { bits: self.bits, text: self.text.clone() }
    }
}

/// A constant, a variable, or a conversion of one: a tree whose copy is
/// equal to it.
pub open spec fn small_expr(e: TypedExpr) -> bool {
    match e.expr {
        Expr::ConstI64(_) | Expr::ConstF64(_) | Expr::ConstBool(_) | Expr::Var(_) => true,
        Expr::Coerce { inner } => match inner.expr {
            Expr::ConstI64(_) | Expr::ConstF64(_) | Expr::ConstBool(_) | Expr::Var(_) => true,
            _ => false,
        },
        _ => false,
    }
}

/// The shape-preserving contract of a deep copy: `r` has the type of `e`,
/// and is valid in every arena in which `e` is valid.
pub open spec fn copy_of(r: TypedExpr, e: TypedExpr) -> bool {
    &&& r.ty == e.ty
    &&& forall|a: &Arena| #![trigger expr_valid(a, e)] #![trigger expr_valid(a, r)] expr_valid(a, e) ==> expr_valid(a, r)
}

fn clone_exprs(v: &Vec<TypedExpr>) -> (r: Vec<TypedExpr>)
    ensures
        r@.len() == v@.len(),
        forall|i: int| 0 <= i < v@.len() ==> copy_of(#[trigger] r@[i], v@[i]),
    decreases v, 0nat,
{
    let mut out: Vec<TypedExpr> = Vec::new();
    let mut i: usize = 0;
    while i < v.len()
        invariant
            0 <= i <= v.len(),
            out@.len() == i,
            forall|j: int| 0 <= j < i ==> copy_of(#[trigger] out@[j], v@[j]),
        decreases v.len() - i,
    {
        out.push(v[i].copy());
        i += 1;
    }
    out
}

fn clone_stmts(v: &Vec<Stmt>) -> (r: Vec<Stmt>)
    ensures
        r@.len() == v@.len(),
        forall|a: &Arena| #[trigger] stmts_valid(a, v@) ==> stmts_valid(a, r@),
    decreases v, 0nat,
{
    let mut out: Vec<Stmt> = Vec::new();
    let mut i: usize = 0;
    while i < v.len()
        invariant
            0 <= i <= v.len(),
            out@.len() == i,
            forall|a: &Arena, j: int| 0 <= j < i && #[trigger] stmt_valid(a, v@[j]) ==> stmt_valid(a, out@[j]),
        decreases v.len() - i,
    {
        out.push(v[i].copy());
        i += 1;
    }
    proof {
        assert forall|a: &Arena| #[trigger] stmts_valid(a, v@) implies stmts_valid(a, out@) by {
            assert forall|j: int| 0 <= j < out@.len() implies stmt_valid(a, #[trigger] out@[j]) by {
                assert(stmt_valid(a, v@[j]));
            }
        }
    }
    out
}

fn copy_link(p: &(CmpOp, TypedExpr)) -> (r: (CmpOp, TypedExpr))
    ensures
        copy_of(r.1, p.1),
    decreases p, 3nat,
{
    (p.0, p.1.copy())
}

fn clone_chain(v: &Vec<(CmpOp, TypedExpr)>) -> (r: Vec<(CmpOp, TypedExpr)>)
    ensures
        r@.len() == v@.len(),
        forall|i: int| 0 <= i < v@.len() ==> copy_of(#[trigger] r@[i].1, v@[i].1),
    decreases v, 0nat,
{
    let mut out: Vec<(CmpOp, TypedExpr)> = Vec::new();
    let mut i: usize = 0;
    while i < v.len()
        invariant
            0 <= i <= v.len(),
            out@.len() == i,
            forall|j: int| 0 <= j < i ==> copy_of(#[trigger] out@[j].1, v@[j].1),
        decreases v.len() - i,
    {
        out.push(copy_link(&v[i]));
        i += 1;
    }
    out
}

fn copy_entry(p: &(TypedExpr, TypedExpr)) -> (r: (TypedExpr, TypedExpr))
    ensures
        copy_of(r.0, p.0),
        copy_of(r.1, p.1),
    decreases p, 3nat,
{
    (p.0.copy(), p.1.copy())
}

fn clone_entries(v: &Vec<(TypedExpr, TypedExpr)>) -> (r: Vec<(TypedExpr, TypedExpr)>)
    ensures
        r@.len() == v@.len(),
        forall|i: int| 0 <= i < v@.len() ==> copy_of(#[trigger] r@[i].0, v@[i].0) && copy_of(r@[i].1, v@[i].1),
    decreases v, 0nat,
{
    let mut out: Vec<(TypedExpr, TypedExpr)> = Vec::new();
    let mut i: usize = 0;
    while i < v.len()
        invariant
            0 <= i <= v.len(),
            out@.len() == i,
            forall|j: int| 0 <= j < i ==> copy_of(#[trigger] out@[j].0, v@[j].0) && copy_of(out@[j].1, v@[j].1),
        decreases v.len() - i,
    {
        out.push(copy_entry(&v[i]));
        i += 1;
    }
    out
}

fn boxed(e: &TypedExpr) -> (r: Box<TypedExpr>)
    ensures
        copy_of(*r, *e),
        small_expr(*e) ==> *r == *e,
    decreases e, 2nat,
{
    Box::new(e.copy())
}

impl TypedExpr {
    /// A deep copy of the tree.
    pub fn copy(&self) -> (r: TypedExpr)
        ensures
            copy_of(r, *self),
            small_expr(*self) ==> r == *self,
        decreases self, 1nat,
    {
        let e = match &self.expr {
            Expr::ConstI64(v) => Expr::ConstI64(*v),
            Expr::ConstF64(f) => Expr::ConstF64(f.copy()),
            Expr::ConstBool(b) => Expr::ConstBool(*b),
            Expr::Var(n) => Expr::Var(n.clone()),
            Expr::BinOp { op, lhs, rhs } => Expr::BinOp { op: *op, lhs: boxed(lhs), rhs: boxed(rhs) },
            Expr::UnaryOp { op, operand } => Expr::UnaryOp { op: *op, operand: boxed(operand) },
            Expr::Cmp { op, lhs, rhs } => Expr::Cmp { op: *op, lhs: boxed(lhs), rhs: boxed(rhs) },
            Expr::CmpChain { first, rest } => Expr::CmpChain { first: boxed(first), rest: clone_chain(rest) },
            Expr::Not(inner) => Expr::Not(boxed(inner)),
            Expr::BoolOp { op, lhs, rhs } => Expr::BoolOp { op: *op, lhs: boxed(lhs), rhs: boxed(rhs) },
            Expr::Call { callee, args } => Expr::Call { callee: callee.clone(), args: clone_exprs(args) },
            Expr::Coerce { inner } => Expr::Coerce { inner: boxed(inner) },
            Expr::TupleLit { elements } => Expr::TupleLit { elements: clone_exprs(elements) },
            Expr::TupleIndex { tuple, index } => Expr::TupleIndex { tuple: boxed(tuple), index: *index },
            Expr::ListLit { elements } => Expr::ListLit { elements: clone_exprs(elements) },
            Expr::ListIndex { list, index } => Expr::ListIndex { list: boxed(list), index: boxed(index) },
            Expr::ListLen { list } => Expr::ListLen { list: boxed(list) },
            Expr::ListConcat { lhs, rhs } => Expr::ListConcat { lhs: boxed(lhs), rhs: boxed(rhs) },
            Expr::DoBlock { stmts, result } => Expr::DoBlock { stmts: clone_stmts(stmts), result: boxed(result) },
            Expr::StrLit(s) => Expr::StrLit(s.clone()),
            Expr::StrConcat { lhs, rhs } => Expr::StrConcat { lhs: boxed(lhs), rhs: boxed(rhs) },
            Expr::StrLen { s } => Expr::StrLen { s: boxed(s) },
            Expr::StrEq { lhs, rhs, negated } => Expr::StrEq { lhs: boxed(lhs), rhs: boxed(rhs), negated: *negated },
            Expr::FormatToStr { inner } => Expr::FormatToStr { inner: boxed(inner) },
            Expr::StrIndex { s, index } => Expr::StrIndex { s: boxed(s), index: boxed(index) },
            Expr::StrSlice { s, start, stop } => Expr::StrSlice { s: boxed(s), start: boxed(start), stop: boxed(stop) },
            Expr::MathCall { intrinsic, arg } => Expr::MathCall { intrinsic: *intrinsic, arg: boxed(arg) },
            Expr::DictLit { entries } => Expr::DictLit { entries: clone_entries(entries) },
            Expr::DictGet { dict, key } => Expr::DictGet { dict: boxed(dict), key: boxed(key) },
            Expr::DictHas { dict, key } => Expr::DictHas { dict: boxed(dict), key: boxed(key) },
            Expr::DictLen { dict } => Expr::DictLen { dict: boxed(dict) },
            Expr::SetLit { elements } => Expr::SetLit { elements: clone_exprs(elements) },
            Expr::SetHas { set, key } => Expr::SetHas { set: boxed(set), key: boxed(key) },
            Expr::SetLen { set } => Expr::SetLen { set: boxed(set) },
            Expr::FieldGet { obj, field_index } => Expr::FieldGet { obj: boxed(obj), field_index: *field_index },
            Expr::ClassNew { class, init_class, args } => Expr::ClassNew { class: *class, init_class: *init_class, args: clone_exprs(args) },
        };
        let r = TypedExpr { ty: self.ty, expr: e };
        proof {
            assert forall|a: &Arena| #[trigger] expr_valid(a, *self) implies expr_valid(a, r) by {
                match (&self.expr, &r.expr) {
                    (Expr::BinOp { lhs, rhs, .. }, Expr::BinOp { .. }) => { assert(expr_valid(a, **lhs)); assert(expr_valid(a, **rhs)); },
                    (Expr::UnaryOp { operand, .. }, Expr::UnaryOp { .. }) => { assert(expr_valid(a, **operand)); },
                    (Expr::Cmp { lhs, rhs, .. }, Expr::Cmp { .. }) => { assert(expr_valid(a, **lhs)); assert(expr_valid(a, **rhs)); },
                    (Expr::BoolOp { lhs, rhs, .. }, Expr::BoolOp { .. }) => { assert(expr_valid(a, **lhs)); assert(expr_valid(a, **rhs)); },
                    (Expr::Coerce { inner, .. }, Expr::Coerce { .. }) => { assert(expr_valid(a, **inner)); },
                    (Expr::TupleIndex { tuple, .. }, Expr::TupleIndex { .. }) => { assert(expr_valid(a, **tuple)); },
                    (Expr::ListIndex { list, index, .. }, Expr::ListIndex { .. }) => { assert(expr_valid(a, **list)); assert(expr_valid(a, **index)); },
                    (Expr::ListLen { list, .. }, Expr::ListLen { .. }) => { assert(expr_valid(a, **list)); },
                    (Expr::ListConcat { lhs, rhs, .. }, Expr::ListConcat { .. }) => { assert(expr_valid(a, **lhs)); assert(expr_valid(a, **rhs)); },
                    (Expr::StrConcat { lhs, rhs, .. }, Expr::StrConcat { .. }) => { assert(expr_valid(a, **lhs)); assert(expr_valid(a, **rhs)); },
                    (Expr::StrLen { s, .. }, Expr::StrLen { .. }) => { assert(expr_valid(a, **s)); },
                    (Expr::StrEq { lhs, rhs, .. }, Expr::StrEq { .. }) => { assert(expr_valid(a, **lhs)); assert(expr_valid(a, **rhs)); },
                    (Expr::FormatToStr { inner, .. }, Expr::FormatToStr { .. }) => { assert(expr_valid(a, **inner)); },
                    (Expr::StrIndex { s, index, .. }, Expr::StrIndex { .. }) => { assert(expr_valid(a, **s)); assert(expr_valid(a, **index)); },
                    (Expr::StrSlice { s, start, stop, .. }, Expr::StrSlice { .. }) => { assert(expr_valid(a, **s)); assert(expr_valid(a, **start)); assert(expr_valid(a, **stop)); },
                    (Expr::MathCall { arg, .. }, Expr::MathCall { .. }) => { assert(expr_valid(a, **arg)); },
                    (Expr::DictGet { dict, key, .. }, Expr::DictGet { .. }) => { assert(expr_valid(a, **dict)); assert(expr_valid(a, **key)); },
                    (Expr::DictHas { dict, key, .. }, Expr::DictHas { .. }) => { assert(expr_valid(a, **dict)); assert(expr_valid(a, **key)); },
                    (Expr::DictLen { dict, .. }, Expr::DictLen { .. }) => { assert(expr_valid(a, **dict)); },
                    (Expr::SetHas { set, key, .. }, Expr::SetHas { .. }) => { assert(expr_valid(a, **set)); assert(expr_valid(a, **key)); },
                    (Expr::SetLen { set, .. }, Expr::SetLen { .. }) => { assert(expr_valid(a, **set)); },
                    (Expr::FieldGet { obj, .. }, Expr::FieldGet { .. }) => { assert(expr_valid(a, **obj)); },
                    (Expr::Not(inner), Expr::Not(_)) => { assert(expr_valid(a, **inner)); },
                    (Expr::DoBlock { stmts, result }, Expr::DoBlock { .. }) => { assert(stmts_valid(a, stmts@)); assert(expr_valid(a, **result)); },
                    (Expr::CmpChain { first, rest }, Expr::CmpChain { rest: r2, .. }) => {
                        assert(expr_valid(a, **first));
                        assert forall|i: int| 0 <= i < r2@.len() implies expr_valid(a, #[trigger] r2@[i].1) by {
                            assert(expr_valid(a, rest@[i].1));
                        }
                    },
                    (Expr::DictLit { entries, .. }, Expr::DictLit { entries: r2, .. }) => {
                        assert forall|i: int| 0 <= i < r2@.len() implies expr_valid(a, #[trigger] r2@[i].0) && expr_valid(a, r2@[i].1) by {
                            assert(expr_valid(a, entries@[i].0));
                            assert(expr_valid(a, entries@[i].1));
                            assert(copy_of(r2@[i].0, entries@[i].0));
                            assert(copy_of(r2@[i].1, entries@[i].1));
                        }
                    },
                    (Expr::Call { args, .. }, Expr::Call { args: r2, .. }) => {
                        assert forall|i: int| 0 <= i < r2@.len() implies expr_valid(a, #[trigger] r2@[i]) by {
                            assert(expr_valid(a, args@[i]));
                        }
                    },
                    (Expr::TupleLit { elements, .. }, Expr::TupleLit { elements: r2, .. }) => {
                        assert forall|i: int| 0 <= i < r2@.len() implies expr_valid(a, #[trigger] r2@[i]) by {
                            assert(expr_valid(a, elements@[i]));
                        }
                    },
                    (Expr::ListLit { elements, .. }, Expr::ListLit { elements: r2, .. }) => {
                        assert forall|i: int| 0 <= i < r2@.len() implies expr_valid(a, #[trigger] r2@[i]) by {
                            assert(expr_valid(a, elements@[i]));
                        }
                    },
                    (Expr::SetLit { elements, .. }, Expr::SetLit { elements: r2, .. }) => {
                        assert forall|i: int| 0 <= i < r2@.len() implies expr_valid(a, #[trigger] r2@[i]) by {
                            assert(expr_valid(a, elements@[i]));
                        }
                    },
                    (Expr::ClassNew { args, .. }, Expr::ClassNew { args: r2, .. }) => {
                        assert forall|i: int| 0 <= i < r2@.len() implies expr_valid(a, #[trigger] r2@[i]) by {
                            assert(expr_valid(a, args@[i]));
                        }
                    },
                    _ => {},
                }
            }
        }
        r
    }
}

impl Stmt {
    /// A deep copy of the statement.
    pub fn copy(&self) -> (r: Stmt)
        ensures
            forall|a: &Arena| #[trigger] stmt_valid(a, *self) ==> stmt_valid(a, r),
        decreases self, 1nat,
    {
        let r = match self {
            Stmt::Let { name, value } => Stmt::Let { name: name.clone(), value: value.copy() },
            Stmt::Return { value } => Stmt::Return { value: value.copy() },
            Stmt::If { cond, then_body, else_body } => Stmt::If { cond: cond.copy(), then_body: clone_stmts(then_body), else_body: clone_stmts(else_body) },
            Stmt::While { cond, body, update } => Stmt::While { cond: cond.copy(), body: clone_stmts(body), update: clone_stmts(update) },
            Stmt::Break => Stmt::Break,
            Stmt::Continue => Stmt::Continue,
            Stmt::ListAppend { list, value } => Stmt::ListAppend { list: list.copy(), value: value.copy() },
            Stmt::SetAdd { set, value } => Stmt::SetAdd { set: set.copy(), value: value.copy() },
            Stmt::SetField { obj, field_index, value } => Stmt::SetField { obj: obj.copy(), field_index: *field_index, value: value.copy() },
            Stmt::SetSubscript { container, key, value } => Stmt::SetSubscript { container: container.copy(), key: key.copy(), value: value.copy() },
            Stmt::ExprStmt(e) => Stmt::ExprStmt(e.copy()),
        };
        proof {
            assert forall|a: &Arena| #[trigger] stmt_valid(a, *self) implies stmt_valid(a, r) by {
                match (self, &r) {
                    (Stmt::Let { value, .. }, Stmt::Let { value: v2, .. }) => { assert(expr_valid(a, *value)); },
                    (Stmt::Return { value }, Stmt::Return { value: v2 }) => { assert(expr_valid(a, *value)); },
                    (Stmt::If { cond, then_body, else_body }, Stmt::If { cond: c2, then_body: t2, else_body: e2 }) => {
                        assert(expr_valid(a, *cond));
                        assert(stmts_valid(a, then_body@));
                        assert(stmts_valid(a, else_body@));
                    },
                    (Stmt::While { cond, body, update }, Stmt::While { .. }) => {
                        assert(expr_valid(a, *cond));
                        assert(stmts_valid(a, body@));
                        assert(stmts_valid(a, update@));
                    },
                    (Stmt::ListAppend { list, value }, Stmt::ListAppend { .. }) => { assert(expr_valid(a, *list)); assert(expr_valid(a, *value)); },
                    (Stmt::SetAdd { set, value }, Stmt::SetAdd { .. }) => { assert(expr_valid(a, *set)); assert(expr_valid(a, *value)); },
                    (Stmt::SetField { obj, value, .. }, Stmt::SetField { .. }) => { assert(expr_valid(a, *obj)); assert(expr_valid(a, *value)); },
                    (Stmt::SetSubscript { container, key, value }, Stmt::SetSubscript { .. }) => {
                        assert(expr_valid(a, *container));
                        assert(expr_valid(a, *key));
                        assert(expr_valid(a, *value));
                    },
                    (Stmt::ExprStmt(e), Stmt::ExprStmt(_)) => { assert(expr_valid(a, *e)); },
                    _ => {},
                }
            }
        }
        r
    }
}

} // verus!
