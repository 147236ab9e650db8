use pyx86::ast::{Arg, Arguments, Constant, Expr as PyExpr, FunctionDef, Module, Stmt as PyStmt};
use pyx86::check::module::check_entry;
use pyx86::check::{coerce, lower, unify_numeric, Scope};
use pyx86::hir::{
    Arena, ClassDef, ClassId, Expr, Function, ListId, Param, Stmt, TupleId, Type, TypedExpr,
};

fn name(s: &str) -> PyExpr {
    PyExpr::Name(s.to_string())
}

fn int_const(v: i64) -> PyExpr {
    PyExpr::Constant(Constant::Int(Some(v)))
}

fn def(n: &str, params: Vec<(&str, &str)>, ret: &str, body: Vec<PyStmt>) -> PyStmt {
    PyStmt::FunctionDef(FunctionDef {
        name: n.to_string(),
        args: Arguments {
            posonlyargs: vec![],
            args: params
                .into_iter()
                .map(|(p, t)| Arg { name: p.to_string(), annotation: Some(name(t)), default: None })
                .collect(),
            vararg: false,
            kwonlyargs: vec![],
            kwarg: false,
        },
        body,
        decorator_list: vec![],
        returns: Some(name(ret)),
    })
}

fn ret(e: PyExpr) -> PyStmt {
    PyStmt::Return(Some(e))
}

fn lower_err(body: Vec<PyStmt>) -> String {
    lower(&Module { body }, "t.py", &vec![]).err().unwrap().message().to_string()
}

#[test]
fn empty_module_has_no_main() {
    assert_eq!(lower_err(vec![]), "unsupported_feature: no `main` function defined at the top level");
}

#[test]
fn main_with_str_parameter_is_rejected() {
    let m = vec![def("main", vec![("s", "str")], "int", vec![ret(int_const(0))])];
    assert_eq!(lower_err(m), "unsupported_feature: `main` parameter `s` must be `int` or `float`, found str");
}

#[test]
fn main_with_float_parameter_is_accepted() {
    let m = vec![def("main", vec![("x", "float"), ("n", "int")], "int", vec![ret(int_const(0))])];
    let p = lower(&Module { body: m }, "t.py", &vec![]).unwrap();
    assert_eq!(p.main().params[0].ty, Type::F64);
    assert_eq!(p.main().params[1].ty, Type::I64);
}

#[test]
fn continue_outside_loop_is_rejected() {
    let m = vec![def("main", vec![], "int", vec![PyStmt::Continue, ret(int_const(0))])];
    assert!(lower_err(m).contains("`continue` outside of a loop"));
}

#[test]
fn pass_statements_lower_to_nothing() {
    let m = vec![def("main", vec![], "int", vec![PyStmt::Pass, PyStmt::Pass, ret(int_const(3))])];
    let p = lower(&Module { body: m }, "t.py", &vec![]).unwrap();
    assert_eq!(p.main().body.len(), 1);
    assert!(matches!(&p.main().body[0], Stmt::Return { value } if matches!(value.expr, Expr::ConstI64(3))));
}

#[test]
fn unsupported_statement_is_named() {
    let m = vec![def("main", vec![], "int", vec![PyStmt::Raise, ret(int_const(0))])];
    assert!(lower_err(m).starts_with("unsupported_feature: "));
}

fn simple_fn(n: &str, ret_ty: Type, params: Vec<Param>) -> Function {
    let value = match ret_ty {
        Type::Bool => TypedExpr::new(Type::Bool, Expr::ConstBool(true)),
        _ => TypedExpr::new(Type::I64, Expr::ConstI64(0)),
    };
    Function { name: n.to_string(), params, return_ty: ret_ty, body: vec![Stmt::Return { value }] }
}

#[test]
fn entry_check_without_main() {
    let e = check_entry(vec![simple_fn("helper", Type::I64, vec![])], Arena::new()).err().unwrap();
    assert_eq!(e.message(), "unsupported_feature: no `main` function defined at the top level");
}

#[test]
fn entry_check_with_bool_main() {
    let e = check_entry(vec![simple_fn("main", Type::Bool, vec![])], Arena::new()).err().unwrap();
    assert_eq!(e.message(), "unsupported_feature: `main` must return `int`, `float`, or `str`, found bool");
}

#[test]
fn entry_check_reports_the_first_bad_parameter() {
    let params = vec![
        Param { name: "a".into(), ty: Type::I64 },
        Param { name: "b".into(), ty: Type::Bool },
        Param { name: "c".into(), ty: Type::Str },
    ];
    let e = check_entry(vec![simple_fn("main", Type::I64, params)], Arena::new()).err().unwrap();
    assert_eq!(e.message(), "unsupported_feature: `main` parameter `b` must be `int` or `float`, found bool");
}

#[test]
fn entry_check_accepts_a_callable_main() {
    let fs = vec![simple_fn("helper", Type::I64, vec![]), simple_fn("main", Type::I64, vec![])];
    let p = check_entry(fs, Arena::new()).unwrap();
    assert_eq!(p.functions.len(), 2);
    assert_eq!(p.main().name, "main");
}

#[test]
fn scope_reads_back_what_was_written() {
    let arena = Arena::new();
    let mut s = Scope::new();
    s.insert(&arena, "x".to_string(), Type::I64);
    s.insert(&arena, "y".to_string(), Type::F64);
    assert_eq!(s.get(&arena, "x"), Some(Type::I64));
    assert_eq!(s.get(&arena, "y"), Some(Type::F64));
    s.insert(&arena, "x".to_string(), Type::Bool);
    assert_eq!(s.get(&arena, "x"), Some(Type::Bool));
    assert_eq!(s.get(&arena, "y"), Some(Type::F64));
    assert_eq!(s.get(&arena, "z"), None);
}

#[test]
fn coercing_to_the_same_type_changes_nothing() {
    let arena = Arena::new();
    let e = TypedExpr::new(Type::I64, Expr::ConstI64(5));
    let r = coerce(&arena, e, Type::I64).unwrap();
    assert_eq!(r.ty, Type::I64);
    assert!(matches!(r.expr, Expr::ConstI64(5)));
}

#[test]
fn float_to_int_coercion_is_refused() {
    let arena = Arena::new();
    let e = TypedExpr::new(Type::F64, Expr::ConstBool(true));
    let err = coerce(&arena, e, Type::I64).err().unwrap();
    assert!(err.message().contains("implicit float→int conversion"));
}

#[test]
fn numeric_promotion_is_symmetric() {
    let arena = Arena::new();
    let (a, b) = unify_numeric(
        &arena,
        TypedExpr::new(Type::I64, Expr::ConstI64(1)),
        TypedExpr::new(Type::F64, Expr::ConstI64(2)),
    )
    .unwrap();
    let (c, d) = unify_numeric(
        &arena,
        TypedExpr::new(Type::F64, Expr::ConstI64(2)),
        TypedExpr::new(Type::I64, Expr::ConstI64(1)),
    )
    .unwrap();
    assert_eq!((a.ty, b.ty), (Type::F64, Type::F64));
    assert_eq!((c.ty, d.ty), (Type::F64, Type::F64));
}

#[test]
fn interning_the_same_shape_twice_gives_one_id() {
    let mut arena = Arena::new();
    let t1 = TupleId::intern(&mut arena, vec![Type::I64, Type::F64]);
    let n = arena.compounds.len();
    let t2 = TupleId::intern(&mut arena, vec![Type::I64, Type::F64]);
    assert_eq!(t1, t2);
    assert_eq!(arena.compounds.len(), n);
}

#[test]
fn interning_different_shapes_gives_different_ids() {
    let mut arena = Arena::new();
    let a = ListId::intern(&mut arena, Type::I64);
    let b = ListId::intern(&mut arena, Type::F64);
    assert_ne!(a, b);
    assert_eq!(a.elem(&arena), Type::I64);
    assert_eq!(b.elem(&arena), Type::F64);
}

#[test]
fn type_names() {
    let mut arena = Arena::new();
    let l = ListId::intern(&mut arena, Type::I64);
    let t = TupleId::intern(&mut arena, vec![Type::I64, Type::Str]);
    assert_eq!(Type::I64.name(&arena), "int");
    assert_eq!(Type::F64.name(&arena), "float");
    assert_eq!(Type::Bool.name(&arena), "bool");
    assert_eq!(Type::List(l).name(&arena), "list[int]");
    assert_eq!(Type::Tuple(t).name(&arena), "tuple[int, str]");
    assert_eq!(Type::I32.int_width(), Some(32));
    assert_eq!(Type::F64.int_width(), None);
    assert!(Type::I8.is_int());
    assert!(!Type::Bool.is_int());
}

#[test]
fn class_fields_and_parents() {
    let mut arena = Arena::new();
    let base = ClassId::intern(
        &mut arena,
        ClassDef { name: "Base".into(), fields: vec![("x".into(), Type::I64)], parent: None, abstract_methods: vec![] },
    );
    let derived = ClassId::intern(
        &mut arena,
        ClassDef {
            name: "Derived".into(),
            fields: vec![("x".into(), Type::I64), ("y".into(), Type::F64)],
            parent: Some(base),
            abstract_methods: vec!["area".into()],
        },
    );
    assert_eq!(derived.field_index(&arena, "y"), Some(1));
    assert_eq!(derived.field_ty(&arena, "y"), Some(Type::F64));
    assert_eq!(derived.field_index(&arena, "z"), None);
    assert_eq!(derived.parent(&arena), Some(base));
    assert!(derived.is_abstract(&arena));
    assert!(!base.is_abstract(&arena));
    assert!(pyx86::check::is_subclass_of(&arena, derived, base));
    assert!(!pyx86::check::is_subclass_of(&arena, base, derived));
}

fn sub(head: &str, slice: pyx86::ast::Expr) -> pyx86::ast::Expr {
    pyx86::ast::Expr::Subscript {
        value: Box::new(pyx86::ast::Expr::Name(head.to_string())),
        slice: Box::new(slice),
    }
}

fn tname(n: &str) -> pyx86::ast::Expr {
    pyx86::ast::Expr::Name(n.to_string())
}

#[test]
fn tuple_annotation_interns_its_elements() {
    let mut arena = pyx86::hir::Arena::new();
    let reg = pyx86::check::Registry::new();
    let ann = sub("tuple", pyx86::ast::Expr::Tuple(vec![tname("int"), tname("float")]));
    let t = pyx86::check::parse_type_annotation(Some(&ann), &reg, &mut arena).unwrap();
    match t {
        pyx86::hir::Type::Tuple(id) => {
            assert_eq!(id.elems(&arena), vec![pyx86::hir::Type::I64, pyx86::hir::Type::F64]);
        },
        _ => panic!("expected a tuple type"),
    }
}

#[test]
fn dict_annotation_needs_int_keys_and_values() {
    let mut arena = pyx86::hir::Arena::new();
    let reg = pyx86::check::Registry::new();
    let ok = sub("dict", pyx86::ast::Expr::Tuple(vec![tname("int"), tname("int")]));
    assert!(pyx86::check::parse_type_annotation(Some(&ok), &reg, &mut arena).is_some());
    let bad = sub("dict", pyx86::ast::Expr::Tuple(vec![tname("int"), tname("float")]));
    assert!(pyx86::check::parse_type_annotation(Some(&bad), &reg, &mut arena).is_none());
    let unknown = sub("list", tname("Nope"));
    assert!(pyx86::check::parse_type_annotation(Some(&unknown), &reg, &mut arena).is_none());
}

#[test]
fn interning_is_stable_across_other_interning() {
    let mut arena = Arena::new();
    let l1 = ListId::intern(&mut arena, Type::I64);
    let t = TupleId::intern(&mut arena, vec![Type::Str, Type::I64]);
    let c = ClassId::intern(&mut arena, ClassDef { name: "Point".into(), fields: vec![], parent: None, abstract_methods: vec![] });
    let d = pyx86::hir::DictId::intern(&mut arena, Type::Str, Type::F64);
    let n = arena.compounds.len();
    let l2 = ListId::intern(&mut arena, Type::I64);
    assert_eq!(l1, l2);
    assert_eq!(arena.compounds.len(), n);
    let _other = ClassId::intern(&mut arena, ClassDef { name: "Other".into(), fields: vec![], parent: None, abstract_methods: vec![] });
    assert_eq!(c.name(&arena), "Point");
    assert_eq!(t.elems(&arena), vec![Type::Str, Type::I64]);
    assert_eq!(l1.elem(&arena), Type::I64);
    assert_eq!(d.key(&arena), Type::Str);
}
