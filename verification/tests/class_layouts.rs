use pyx86::ast::{Arg, Arguments, ClassDef as PyClassDef, Constant, Expr as PyExpr, FunctionDef, Module, Stmt as PyStmt};
use pyx86::check::module::collect_signature;
use pyx86::check::{lower, Registry};
use pyx86::codegen::llvm_ty;
use pyx86::hir::{Arena, ClassDef, ClassId, Program, TupleId, Type};

fn nm(s: &str) -> PyExpr {
    PyExpr::Name(s.to_string())
}

fn lit(v: i64) -> PyExpr {
    PyExpr::Constant(Constant::Int(Some(v)))
}

fn arg(n: &str, ann: Option<&str>, default: Option<PyExpr>) -> Arg {
    Arg { name: n.to_string(), annotation: ann.map(nm), default }
}

fn def_fn(n: &str, args: Vec<Arg>, ret: &str, decorators: Vec<PyExpr>) -> FunctionDef {
    FunctionDef {
        name: n.to_string(),
        args: Arguments { posonlyargs: vec![], args, vararg: false, kwonlyargs: vec![], kwarg: false },
        body: vec![PyStmt::Return(Some(lit(0)))],
        decorator_list: decorators,
        returns: Some(nm(ret)),
    }
}

fn field(n: &str, ty: &str) -> PyStmt {
    PyStmt::AnnAssign { target: nm(n), annotation: nm(ty), value: None, simple: true }
}

fn class(n: &str, base: Option<&str>, body: Vec<PyStmt>) -> PyStmt {
    PyStmt::ClassDef(PyClassDef {
        name: n.to_string(),
        bases: base.map(nm).into_iter().collect(),
        keywords: vec![],
        body,
        decorator_list: vec![],
    })
}

fn main_fn() -> PyStmt {
    PyStmt::FunctionDef(def_fn("main", vec![], "int", vec![]))
}

fn method(n: &str, abstract_: bool) -> PyStmt {
    let decorators = if abstract_ { vec![nm("abstractmethod")] } else { vec![] };
    PyStmt::FunctionDef(def_fn(n, vec![arg("self", None, None)], "int", decorators))
}

fn lower_body(body: Vec<PyStmt>) -> Result<Program, String> {
    lower(&Module { body }, "t.py", &vec![]).map_err(|e| e.message().to_string())
}

fn class_named<'a>(p: &'a Program, n: &str) -> (usize, &'a ClassDef) {
    p.arena.classes.iter().enumerate().find(|(_, c)| c.name == n).unwrap()
}

#[test]
fn inherited_fields_come_before_own_fields() {
    let p = lower_body(vec![
        class("P", None, vec![field("x", "int"), field("y", "float")]),
        class("C", Some("P"), vec![field("z", "bool")]),
        main_fn(),
    ])
    .unwrap();
    let (pi, _) = class_named(&p, "P");
    let (_, c) = class_named(&p, "C");
    let names: Vec<&str> = c.fields.iter().map(|(n, _)| n.as_str()).collect();
    assert_eq!(names, vec!["x", "y", "z"]);
    assert_eq!(c.fields[1].1, Type::F64);
    assert_eq!(c.fields[2].1, Type::Bool);
    assert_eq!(c.parent, Some(ClassId(pi)));
}

#[test]
fn field_repeating_an_inherited_one_is_rejected() {
    let m = vec![class("P", None, vec![field("x", "int")]), class("C", Some("P"), vec![field("x", "int")]), main_fn()];
    assert_eq!(lower_body(m).unwrap_err(), "unsupported_feature: duplicate field `x` in class `C`");
}

#[test]
fn abstract_methods_are_sorted_and_overrides_drop_out() {
    let p = lower_body(vec![
        class("A", None, vec![method("shrink", true), method("area", true)]),
        class("B", Some("A"), vec![method("area", false)]),
        main_fn(),
    ])
    .unwrap();
    let (_, a) = class_named(&p, "A");
    let (_, b) = class_named(&p, "B");
    assert_eq!(a.abstract_methods, vec!["area".to_string(), "shrink".to_string()]);
    assert_eq!(b.abstract_methods, vec!["shrink".to_string()]);
}

#[test]
fn defaults_fill_the_last_parameters() {
    let mut arena = Arena::new();
    let f = def_fn("f", vec![arg("a", Some("int"), None), arg("b", Some("int"), Some(lit(2)))], "int", vec![]);
    let sig = collect_signature(&f, &Registry::new(), &mut arena).unwrap();
    assert_eq!(sig.params.len(), 2);
    assert!(sig.defaults[0].is_none());
    assert!(sig.defaults[1].is_some());
}

#[test]
fn repeated_parameter_name_is_rejected() {
    let mut arena = Arena::new();
    let f = def_fn("f", vec![arg("a", Some("int"), None), arg("a", Some("int"), None)], "int", vec![]);
    let err = collect_signature(&f, &Registry::new(), &mut arena).err().unwrap();
    assert_eq!(err.message(), "unsupported_feature: duplicate parameter name `a` (in `f`)");
}

#[test]
fn tuple_and_class_spellings() {
    let mut arena = Arena::new();
    let t = TupleId::intern(&mut arena, vec![Type::I64, Type::F64]);
    assert_eq!(llvm_ty(&arena, Type::Tuple(t), 1).as_deref(), Some("{ i64, double }"));
    let c = ClassId::intern(&mut arena, ClassDef {
        name: "P".into(),
        fields: vec![("x".into(), Type::I64), ("ok".into(), Type::Bool)],
        parent: None,
        abstract_methods: vec![],
    });
    assert_eq!(llvm_ty(&arena, Type::Class(c), 1).as_deref(), Some("{ i64, i1 }*"));
    assert_eq!(llvm_ty(&arena, Type::Class(c), 0), None);
    let e = ClassId::intern(&mut arena, ClassDef { name: "E".into(), fields: vec![], parent: None, abstract_methods: vec![] });
    assert_eq!(llvm_ty(&arena, Type::Class(e), 1).as_deref(), Some("{ i8 }*"));
}
