use pyx86::ast::{
    Arg, Arguments, ClassDef, CmpOp as PyCmpOp, Comprehension, Constant, Expr as PyExpr, FunctionDef, Module,
    Stmt as PyStmt,
};
use pyx86::check::lower;
use pyx86::codegen::emit_ll;
use pyx86::hir::{CmpOp, Expr, Program, Stmt, Type};

fn nm(s: &str) -> PyExpr {
    PyExpr::Name(s.to_string())
}

fn lit(v: i64) -> PyExpr {
    PyExpr::Constant(Constant::Int(Some(v)))
}

fn def_fn(n: &str, params: Vec<(&str, Option<&str>)>, ret: Option<&str>, body: Vec<PyStmt>) -> PyStmt {
    PyStmt::FunctionDef(FunctionDef {
        name: n.to_string(),
        args: Arguments {
            posonlyargs: vec![],
            args: params
                .into_iter()
                .map(|(p, t)| Arg { name: p.to_string(), annotation: t.map(nm), default: None })
                .collect(),
            vararg: false,
            kwonlyargs: vec![],
            kwarg: false,
        },
        body,
        decorator_list: vec![],
        returns: ret.map(nm),
    })
}

fn ret(e: PyExpr) -> PyStmt {
    PyStmt::Return(Some(e))
}

fn call(f: &str, args: Vec<PyExpr>) -> PyExpr {
    PyExpr::Call { func: Box::new(nm(f)), args, keywords: vec![] }
}

fn lower_ok(body: Vec<PyStmt>) -> Program {
    lower(&Module { body }, "t.py", &vec![]).unwrap()
}

fn lower_msg(body: Vec<PyStmt>) -> String {
    lower(&Module { body }, "t.py", &vec![]).err().unwrap().message().to_string()
}

fn function<'a>(p: &'a Program, name: &str) -> &'a pyx86::hir::Function {
    p.functions.iter().find(|f| f.name == name).unwrap()
}

#[test]
fn constant_main_with_parameters() {
    let p = lower_ok(vec![def_fn("main", vec![("a", Some("int")), ("x", Some("float"))], Some("int"), vec![ret(lit(7))])]);
    assert_eq!(p.functions.len(), 1);
    let f = p.main();
    assert_eq!(f.params.len(), 2);
    assert_eq!(f.params[1].ty, Type::F64);
    assert!(matches!(&f.body[..], [Stmt::Return { value }] if matches!(value.expr, Expr::ConstI64(7))));
    let ll = emit_ll(&p, "t").unwrap();
    assert!(ll.contains("ret i64 7"));
    assert!(ll.contains("define i64 @py_main(i64 %p_a, double %p_x)"));
}

#[test]
fn comparison_of_literals() {
    let p = lower_ok(vec![
        def_fn(
            "less",
            vec![],
            Some("bool"),
            vec![ret(PyExpr::Compare { left: Box::new(lit(1)), ops: vec![PyCmpOp::Lt], comparators: vec![lit(2)] })],
        ),
        def_fn("main", vec![], Some("int"), vec![ret(lit(0))]),
    ]);
    match &function(&p, "less").body[0] {
        Stmt::Return { value } => match &value.expr {
            Expr::Cmp { op, lhs, rhs } => {
                assert_eq!(*op, CmpOp::Lt);
                assert!(matches!(lhs.expr, Expr::ConstI64(1)));
                assert!(matches!(rhs.expr, Expr::ConstI64(2)));
            },
            _ => panic!("expected a comparison"),
        },
        _ => panic!("expected a return"),
    }
}

#[test]
fn call_of_a_defined_function() {
    let p = lower_ok(vec![
        def_fn("g", vec![], Some("int"), vec![ret(lit(3))]),
        def_fn("main", vec![], Some("int"), vec![ret(call("g", vec![]))]),
    ]);
    match &p.main().body[0] {
        Stmt::Return { value } => {
            assert_eq!(value.ty, Type::I64);
            assert!(matches!(&value.expr, Expr::Call { callee, args } if callee == "g" && args.is_empty()));
        },
        _ => panic!("expected a return"),
    }
}

#[test]
fn call_of_an_undefined_function() {
    let m = vec![def_fn("main", vec![], Some("int"), vec![ret(call("h", vec![]))])];
    assert_eq!(lower_msg(m), "unsupported_feature: call to undefined function `h`");
}

#[test]
fn call_with_too_many_arguments() {
    let m = vec![
        def_fn("g", vec![], Some("int"), vec![ret(lit(1))]),
        def_fn("main", vec![], Some("int"), vec![ret(call("g", vec![lit(1)]))]),
    ];
    assert_eq!(
        lower_msg(m),
        "unsupported_feature: function `g` takes 0 positional arguments but 1 were supplied"
    );
}

#[test]
fn list_comprehension_over_a_range() {
    let comp = PyExpr::ListComp {
        elt: Box::new(lit(5)),
        generators: vec![Comprehension { target: nm("i"), iter: call("range", vec![lit(3)]), ifs: vec![], is_async: false }],
    };
    let m = vec![def_fn(
        "main",
        vec![],
        Some("int"),
        vec![PyStmt::Assign { targets: vec![nm("xs")], value: comp }, ret(call("len", vec![nm("xs")]))],
    )];
    let p = lower_ok(m);
    assert!(matches!(&p.main().body[0], Stmt::Let { name, value } if name == "xs" && matches!(value.ty, Type::List(_))));
}

#[test]
fn indexing_a_list_variable() {
    let m = vec![def_fn(
        "main",
        vec![],
        Some("int"),
        vec![
            PyStmt::Assign { targets: vec![nm("xs")], value: PyExpr::List(vec![lit(1), lit(2)]) },
            ret(PyExpr::Subscript { value: Box::new(nm("xs")), slice: Box::new(lit(0)) }),
        ],
    )];
    let p = lower_ok(m);
    match &p.main().body[1] {
        Stmt::Return { value } => assert!(matches!(&value.expr, Expr::ListIndex { .. })),
        _ => panic!("expected a return"),
    }
}

#[test]
fn interpolating_an_int_literal() {
    let fstr = PyExpr::JoinedStr {
        values: vec![PyExpr::FormattedValue { value: Box::new(lit(42)), has_conversion: false, has_format_spec: false }],
    };
    let p = lower_ok(vec![def_fn("main", vec![], Some("str"), vec![ret(fstr)])]);
    match &p.main().body[0] {
        Stmt::Return { value } => {
            assert_eq!(value.ty, Type::Str);
            assert!(matches!(&value.expr, Expr::FormatToStr { inner } if matches!(inner.expr, Expr::ConstI64(42))));
        },
        _ => panic!("expected a return"),
    }
}

#[test]
fn method_of_a_class() {
    let class = PyStmt::ClassDef(ClassDef {
        name: "C".into(),
        bases: vec![],
        keywords: vec![],
        body: vec![def_fn("get", vec![("self", None)], Some("int"), vec![ret(lit(4))])],
        decorator_list: vec![],
    });
    let p = lower_ok(vec![class, def_fn("main", vec![], Some("int"), vec![ret(lit(0))])]);
    let m = function(&p, "C.get");
    assert_eq!(m.return_ty, Type::I64);
    assert_eq!(m.params.len(), 1);
    assert!(matches!(m.params[0].ty, Type::Class(_)));
}

#[test]
fn lambda_is_rejected_by_name() {
    let m = vec![def_fn("main", vec![], Some("int"), vec![ret(PyExpr::Lambda)])];
    assert_eq!(lower_msg(m), "unsupported_feature: expression form `Lambda` is not supported");
}

#[test]
fn oversized_int_literal_is_rejected() {
    let m = vec![def_fn("main", vec![], Some("int"), vec![ret(PyExpr::Constant(Constant::Int(None)))])];
    assert_eq!(lower_msg(m), "unsupported_feature: integer literal does not fit in i64");
}

#[test]
fn none_literal_is_rejected() {
    let m = vec![def_fn("main", vec![], Some("int"), vec![ret(PyExpr::Constant(Constant::Other))])];
    assert_eq!(lower_msg(m), "unsupported_feature: only int / float / bool / str literals are supported");
}

#[test]
fn string_literal_with_quote_is_rejected() {
    let m = vec![def_fn("main", vec![], Some("str"), vec![ret(PyExpr::Constant(Constant::Str("it's".to_string())))])];
    assert!(lower_msg(m).contains("backslash or single-quote"));
}

#[test]
fn try_after_pass_is_rejected_by_name() {
    let m = vec![def_fn("main", vec![], Some("int"), vec![PyStmt::Pass, PyStmt::Try, ret(lit(0))])];
    assert_eq!(lower_msg(m), "unsupported_feature: statement `Try` is not supported");
}

#[test]
fn bare_return_is_rejected() {
    let m = vec![def_fn("main", vec![], Some("int"), vec![PyStmt::Return(None)])];
    assert_eq!(lower_msg(m), "unsupported_feature: `return` must have a value");
}

#[test]
fn chained_assignment_is_rejected() {
    let m = vec![def_fn(
        "main",
        vec![],
        Some("int"),
        vec![PyStmt::Assign { targets: vec![nm("a"), nm("b")], value: lit(1) }, ret(lit(0))],
    )];
    assert_eq!(lower_msg(m), "unsupported_feature: chained assignment `a = b = ...` is not supported");
}

#[test]
fn int_with_two_arguments_is_rejected() {
    let m = vec![def_fn("main", vec![], Some("int"), vec![ret(call("int", vec![lit(1), lit(2)]))])];
    assert_eq!(lower_msg(m), "unsupported_feature: int() takes exactly 1 argument");
}

#[test]
fn max_with_three_arguments_is_rejected() {
    let m = vec![def_fn("main", vec![], Some("int"), vec![ret(call("max", vec![lit(1), lit(2), lit(3)]))])];
    assert_eq!(lower_msg(m), "unsupported_feature: max() with 3 arguments — only 2-arg form supported");
}

#[test]
fn decorated_function_is_rejected() {
    let mut f = def_fn("main", vec![], Some("int"), vec![ret(lit(0))]);
    if let PyStmt::FunctionDef(d) = &mut f {
        d.decorator_list.push(nm("staticmethod"));
    }
    assert_eq!(lower_msg(vec![f]), "unsupported_feature: decorators are not supported (in `main`)");
}

#[test]
fn method_without_self_is_rejected() {
    let class = PyStmt::ClassDef(ClassDef {
        name: "C".into(),
        bases: vec![],
        keywords: vec![],
        body: vec![def_fn("get", vec![("me", None)], Some("int"), vec![ret(lit(4))])],
        decorator_list: vec![],
    });
    let m = vec![class, def_fn("main", vec![], Some("int"), vec![ret(lit(0))])];
    assert_eq!(lower_msg(m), "unsupported_feature: method `get` first parameter must be named `self`");
}

#[test]
fn super_outside_a_method_is_rejected() {
    let sup = PyExpr::Call {
        func: Box::new(PyExpr::Attribute { value: Box::new(call("super", vec![])), attr: "get".to_string() }),
        args: vec![],
        keywords: vec![],
    };
    let m = vec![def_fn("main", vec![], Some("int"), vec![ret(sup)])];
    assert_eq!(lower_msg(m), "unsupported_feature: `super()` is only valid inside a method");
}

#[test]
fn top_level_statement_is_rejected() {
    let m = vec![PyStmt::Expr(lit(1)), def_fn("main", vec![], Some("int"), vec![ret(lit(0))])];
    assert_eq!(lower_msg(m), "unsupported_feature: only `def` and `from … import …` are allowed at the top level, found Expr");
}

#[test]
fn int_parameter_returned_from_a_float_main_is_converted() {
    let p = lower_ok(vec![def_fn("main", vec![("a", Some("int"))], Some("float"), vec![ret(nm("a"))])]);
    let f = p.main();
    assert_eq!(f.return_ty, Type::F64);
    match &f.body[..] {
        [Stmt::Return { value }] => {
            assert_eq!(value.ty, Type::F64);
            assert!(matches!(&value.expr, Expr::Coerce { inner } if inner.ty == Type::I64
                && matches!(&inner.expr, Expr::Var(n) if n == "a")));
        },
        _ => panic!("expected a single return"),
    }
}

#[test]
fn continue_after_pass_outside_a_loop_is_rejected() {
    let m = vec![def_fn("main", vec![], Some("int"), vec![PyStmt::Pass, PyStmt::Continue, ret(lit(0))])];
    assert_eq!(lower_msg(m), "unsupported_feature: `continue` outside of a loop");
}

#[test]
fn bool_main_returning_its_parameter_is_rejected_at_the_entry() {
    let m = vec![def_fn("main", vec![("b", Some("bool"))], Some("bool"), vec![ret(nm("b"))])];
    assert_eq!(lower_msg(m), "unsupported_feature: `main` must return `int`, `float`, or `str`, found bool");
}

#[test]
fn int_and_float_operands_meet_at_float() {
    let sum = PyExpr::BinOp { left: Box::new(nm("a")), op: pyx86::ast::Operator::Add, right: Box::new(nm("b")) };
    let p = lower_ok(vec![def_fn("main", vec![("a", Some("int")), ("b", Some("float"))], Some("float"), vec![ret(sum)])]);
    match &p.main().body[..] {
        [Stmt::Return { value }] => {
            assert_eq!(value.ty, Type::F64);
            match &value.expr {
                Expr::BinOp { op, lhs, rhs } => {
                    assert_eq!(*op, pyx86::hir::BinOp::Add);
                    assert!(matches!(&lhs.expr, Expr::Coerce { inner } if matches!(&inner.expr, Expr::Var(n) if n == "a")));
                    assert!(matches!(&rhs.expr, Expr::Var(n) if n == "b"));
                },
                _ => panic!("expected a binary operation"),
            }
        },
        _ => panic!("expected a single return"),
    }
}

#[test]
fn for_range_with_continue_advances_in_the_latch() {
    let body = vec![
        PyStmt::For { target: nm("i"), iter: call("range", vec![lit(3)]), body: vec![PyStmt::Continue], orelse: vec![] },
        ret(lit(0)),
    ];
    let p = lower_ok(vec![def_fn("main", vec![], Some("int"), body)]);
    let w = p.main().body.iter().find(|s| matches!(s, Stmt::While { .. })).unwrap();
    match w {
        Stmt::While { body, update, .. } => {
            assert!(body.iter().any(|s| matches!(s, Stmt::Continue)));
            assert!(!update.is_empty());
        },
        _ => unreachable!(),
    }
    let ll = emit_ll(&p, "t").unwrap();
    assert!(ll.contains("loop_latch."));
}

#[test]
fn appending_an_int_literal_stores_it() {
    let ann = PyExpr::Subscript { value: Box::new(nm("list")), slice: Box::new(nm("int")) };
    let append = PyExpr::Call {
        func: Box::new(PyExpr::Attribute { value: Box::new(nm("xs")), attr: "append".to_string() }),
        args: vec![lit(5)],
        keywords: vec![],
    };
    let body = vec![
        PyStmt::AnnAssign { target: nm("xs"), annotation: ann, value: Some(PyExpr::List(vec![])), simple: true },
        PyStmt::Expr(append),
        ret(call("len", vec![nm("xs")])),
    ];
    let p = lower_ok(vec![def_fn("main", vec![], Some("int"), body)]);
    assert!(matches!(&p.main().body[1], Stmt::ListAppend { value, .. } if matches!(value.expr, Expr::ConstI64(5))));
    let ll = emit_ll(&p, "t").unwrap();
    assert!(ll.contains("store i64 5, i64* "));
}

fn returned<'a>(p: &'a Program, name: &str) -> &'a pyx86::hir::TypedExpr {
    match &function(p, name).body[..] {
        [Stmt::Return { value }] => value,
        _ => panic!("expected a single return"),
    }
}

fn with_main(f: PyStmt) -> Vec<PyStmt> {
    vec![f, def_fn("main", vec![], Some("int"), vec![ret(lit(0))])]
}

#[test]
fn comparison_chain_of_leaves() {
    let chain = PyExpr::Compare {
        left: Box::new(lit(0)),
        ops: vec![PyCmpOp::Lt, PyCmpOp::Lt],
        comparators: vec![nm("a"), lit(10)],
    };
    let p = lower_ok(with_main(def_fn("f", vec![("a", Some("int"))], Some("bool"), vec![ret(chain)])));
    let v = returned(&p, "f");
    assert_eq!(v.ty, Type::Bool);
    match &v.expr {
        Expr::CmpChain { first, rest } => {
            assert!(matches!(first.expr, Expr::ConstI64(0)));
            assert_eq!(rest.len(), 2);
            assert_eq!(rest[0].0, CmpOp::Lt);
            assert!(matches!(&rest[0].1.expr, Expr::Var(n) if n == "a"));
            assert!(matches!(rest[1].1.expr, Expr::ConstI64(10)));
        },
        _ => panic!("expected a comparison chain"),
    }
}

#[test]
fn int_compared_with_float_is_converted() {
    let cmp = PyExpr::Compare { left: Box::new(nm("a")), ops: vec![PyCmpOp::Lt], comparators: vec![nm("b")] };
    let p = lower_ok(with_main(def_fn("f", vec![("a", Some("int")), ("b", Some("float"))], Some("bool"), vec![ret(cmp)])));
    match &returned(&p, "f").expr {
        Expr::Cmp { op, lhs, rhs } => {
            assert_eq!(*op, CmpOp::Lt);
            assert_eq!(lhs.ty, Type::F64);
            assert!(matches!(&lhs.expr, Expr::Coerce { inner } if matches!(&inner.expr, Expr::Var(n) if n == "a")));
            assert!(matches!(&rhs.expr, Expr::Var(n) if n == "b"));
        },
        _ => panic!("expected a comparison"),
    }
}

#[test]
fn sqrt_of_an_int_parameter() {
    let p = lower_ok(with_main(def_fn("f", vec![("a", Some("int"))], Some("float"), vec![ret(call("sqrt", vec![nm("a")]))])));
    let v = returned(&p, "f");
    assert_eq!(v.ty, Type::F64);
    match &v.expr {
        Expr::MathCall { intrinsic, arg } => {
            assert_eq!(*intrinsic, "llvm.sqrt.f64");
            assert!(matches!(&arg.expr, Expr::Coerce { inner } if matches!(&inner.expr, Expr::Var(n) if n == "a")));
        },
        _ => panic!("expected a math call"),
    }
}

#[test]
fn bool_of_an_int_parameter() {
    let p = lower_ok(with_main(def_fn("f", vec![("a", Some("int"))], Some("bool"), vec![ret(call("bool", vec![nm("a")]))])));
    let v = returned(&p, "f");
    assert_eq!(v.ty, Type::Bool);
    assert!(matches!(&v.expr, Expr::Coerce { inner } if matches!(&inner.expr, Expr::Var(n) if n == "a")));
}

fn tuple_main(index: PyExpr) -> Result<Program, String> {
    let pair = PyExpr::Tuple(vec![lit(1), PyExpr::Constant(Constant::Bool(true))]);
    let body = vec![
        PyStmt::Assign { targets: vec![nm("t")], value: pair },
        ret(PyExpr::Subscript { value: Box::new(nm("t")), slice: Box::new(index) }),
    ];
    lower(&Module { body: vec![def_fn("main", vec![], Some("int"), body)] }, "t.py", &vec![])
        .map_err(|e| e.message().to_string())
}

#[test]
fn negative_tuple_index_counts_from_the_end() {
    let neg = PyExpr::UnaryOp { op: pyx86::ast::UnaryOp::USub, operand: Box::new(lit(2)) };
    let p = tuple_main(neg).unwrap();
    match &p.main().body[1] {
        Stmt::Return { value } => {
            assert_eq!(value.ty, Type::I64);
            assert!(matches!(&value.expr, Expr::TupleIndex { index: 0, .. }));
        },
        _ => panic!("expected a return"),
    }
}

#[test]
fn tuple_index_out_of_range_is_rejected() {
    let msg = tuple_main(lit(2)).err().unwrap();
    assert!(msg.contains("tuple index 2 out of range for tuple[int, bool]"));
}

fn text(s: &str) -> PyExpr {
    PyExpr::Constant(Constant::Str(s.to_string()))
}

fn shown(e: PyExpr) -> PyExpr {
    PyExpr::FormattedValue { value: Box::new(e), has_conversion: false, has_format_spec: false }
}

#[test]
fn fstring_of_text_and_an_int_parameter() {
    let f = PyExpr::JoinedStr { values: vec![text("a"), shown(nm("x")), text("b")] };
    let p = lower_ok(with_main(def_fn("f", vec![("x", Some("int"))], Some("str"), vec![ret(f)])));
    let v = returned(&p, "f");
    assert_eq!(v.ty, Type::Str);
    match &v.expr {
        Expr::StrConcat { lhs, rhs } => {
            assert!(matches!(&rhs.expr, Expr::StrLit(s) if s == "b"));
            match &lhs.expr {
                Expr::StrConcat { lhs: l2, rhs: r2 } => {
                    assert!(matches!(&l2.expr, Expr::StrLit(s) if s == "a"));
                    assert!(matches!(&r2.expr, Expr::FormatToStr { inner } if matches!(&inner.expr, Expr::Var(n) if n == "x")));
                },
                _ => panic!("expected a nested concatenation"),
            }
        },
        _ => panic!("expected a concatenation"),
    }
}

#[test]
fn fstring_of_a_float_is_rejected() {
    let f = PyExpr::JoinedStr { values: vec![text("v="), shown(nm("y"))] };
    let m = with_main(def_fn("f", vec![("y", Some("float"))], Some("str"), vec![ret(f)]));
    assert_eq!(lower_msg(m), "unsupported_feature: f64 interpolation in f-strings is deferred");
}

#[test]
fn max_of_an_int_and_a_bool_is_an_int() {
    let m = vec![
        def_fn("f", vec![("a", Some("int")), ("b", Some("bool"))], Some("int"), vec![ret(call("max", vec![nm("a"), nm("b")]))]),
        def_fn("main", vec![], Some("int"), vec![ret(lit(0))]),
    ];
    let p = lower_ok(m);
    match &function(&p, "f").body[0] {
        Stmt::Return { value } => assert_eq!(value.ty, Type::I64),
        _ => panic!("expected a return"),
    }
}

#[test]
fn min_of_an_int_and_a_str_is_rejected() {
    let m = vec![def_fn("main", vec![("a", Some("int")), ("s", Some("str"))], Some("int"), vec![ret(call("min", vec![nm("a"), nm("s")]))])];
    assert!(lower(&Module { body: m }, "t.py", &vec![]).is_err());
}

#[test]
fn appending_grows_the_buffer_through_realloc() {
    let ann = PyExpr::Subscript { value: Box::new(nm("list")), slice: Box::new(nm("int")) };
    let append = PyExpr::Call {
        func: Box::new(PyExpr::Attribute { value: Box::new(nm("xs")), attr: "append".to_string() }),
        args: vec![lit(7)],
        keywords: vec![],
    };
    let body = vec![
        PyStmt::AnnAssign { target: nm("xs"), annotation: ann, value: Some(PyExpr::List(vec![])), simple: true },
        PyStmt::Expr(append),
        ret(call("len", vec![nm("xs")])),
    ];
    let p = lower_ok(vec![def_fn("main", vec![], Some("int"), body)]);
    let ll = emit_ll(&p, "t").unwrap();
    assert!(ll.contains(" = call i8* @realloc(i8* "));
    assert!(ll.contains("append.grow."));
}
