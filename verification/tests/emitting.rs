use pyx86::codegen::{emit_ll, format_argv_parsing, format_signature, Codegen};
use pyx86::hir::{Arena, BinOp, Expr, Function, Param, Program, Stmt, Type, TypedExpr};

fn const_i64(v: i64) -> TypedExpr {
    TypedExpr::new(Type::I64, Expr::ConstI64(v))
}

fn make_program(params: Vec<&str>, body: Vec<Stmt>) -> Program {
    Program {
        functions: vec![Function {
            name: "main".into(),
            params: params.into_iter().map(|n| Param { name: n.into(), ty: Type::I64 }).collect(),
            return_ty: Type::I64,
            body,
        }],
        arena: Arena::new(),
    }
}

#[test]
fn no_locals_emits_a_simple_return() {
    let ll = emit_ll(&make_program(vec![], vec![Stmt::Return { value: const_i64(42) }]), "test").unwrap();
    assert!(ll.contains("ret i64 42"));
}

#[test]
fn local_binds_then_returns() {
    let ll = emit_ll(
        &make_program(
            vec!["a"],
            vec![
                Stmt::Let {
                    name: "x".into(),
                    value: TypedExpr::new(
                        Type::I64,
                        Expr::BinOp {
                            op: BinOp::Add,
                            lhs: Box::new(TypedExpr::new(Type::I64, Expr::Var("a".into()))),
                            rhs: Box::new(const_i64(1)),
                        },
                    ),
                },
                Stmt::Return { value: TypedExpr::new(Type::I64, Expr::Var("x".into())) },
            ],
        ),
        "test",
    )
    .unwrap();
    assert!(ll.contains("alloca i64"));
    assert!(ll.contains("store i64"));
    assert!(ll.contains("load i64, i64* %x.addr"));
}

#[test]
fn module_starts_with_its_id_and_target() {
    let ll = emit_ll(&make_program(vec![], vec![Stmt::Return { value: const_i64(1) }]), "my-prog").unwrap();
    assert!(ll.starts_with("; ModuleID = 'pyx86_my_prog'\ntarget triple = \"x86_64-unknown-linux-gnu\"\n\n"));
}

#[test]
fn c_main_calls_py_main_and_prints() {
    let ll = emit_ll(&make_program(vec!["a", "b"], vec![Stmt::Return { value: const_i64(1) }]), "t").unwrap();
    assert!(ll.ends_with(
        "  %r = call i64 @py_main(i64 %p_a, i64 %p_b)\n  %fmt = getelementptr inbounds [5 x i8], [5 x i8]* @.fmt_i64, i64 0, i64 0\n  call i32 (i8*, ...) @printf(i8* %fmt, i64 %r)\n  ret i32 0\n}\n"
    ));
    assert!(ll.contains("define i64 @py_main("));
}

#[test]
fn float_main_prints_through_the_float_printer() {
    let prog = Program {
        functions: vec![Function {
            name: "main".into(),
            params: vec![Param { name: "x".into(), ty: Type::F64 }],
            return_ty: Type::F64,
            body: vec![Stmt::Return { value: TypedExpr::new(Type::F64, Expr::Var("x".into())) }],
        }],
        arena: Arena::new(),
    };
    let ll = emit_ll(&prog, "f").unwrap();
    assert!(ll.ends_with("  %r = call double @py_main(double %p_x)\n  call void @pyx86_print_f64(double %r)\n  ret i32 0\n}\n"));
}

#[test]
fn floor_division_gets_a_correction() {
    let body = vec![Stmt::Return {
        value: TypedExpr::new(
            Type::I64,
            Expr::BinOp {
                op: BinOp::FloorDiv,
                lhs: Box::new(TypedExpr::new(Type::I64, Expr::Var("a".into()))),
                rhs: Box::new(const_i64(2)),
            },
        ),
    }];
    let ll = emit_ll(&make_program(vec!["a"], body), "t").unwrap();
    assert!(ll.contains("sdiv i64"));
    assert!(ll.contains("srem i64"));
}

#[test]
fn floor_division_instructions() {
    let arena = Arena::new();
    let mut cg = Codegen::new();
    let d = cg.floor_div_int(&arena, "%a", "%b", Type::I64);
    assert_eq!(d, "%v7");
    assert_eq!(
        cg.body,
        "  %v0 = sdiv i64 %a, %b\n  %v1 = srem i64 %a, %b\n  %v2 = icmp ne i64 %v1, 0\n  %v3 = xor i64 %a, %b\n  %v4 = icmp slt i64 %v3, 0\n  %v5 = and i1 %v2, %v4\n  %v6 = sext i1 %v5 to i64\n  %v7 = add i64 %v0, %v6\n"
    );
}

#[test]
fn floor_modulo_instructions() {
    let arena = Arena::new();
    let mut cg = Codegen::new();
    let d = cg.floor_mod_int(&arena, "%a", "%b", Type::I32);
    assert_eq!(d, "%v6");
    assert_eq!(
        cg.body,
        "  %v0 = srem i32 %a, %b\n  %v1 = icmp ne i32 %v0, 0\n  %v2 = xor i32 %v0, %b\n  %v3 = icmp slt i32 %v2, 0\n  %v4 = and i1 %v1, %v3\n  %v5 = select i1 %v4, i32 %b, i32 0\n  %v6 = add i32 %v0, %v5\n"
    );
}

#[test]
fn simple_instructions_and_fresh_names() {
    let arena = Arena::new();
    let mut cg = Codegen::new();
    assert_eq!(cg.simple_iop(&arena, "add", "%x", "1", Type::I64), "%v0");
    assert_eq!(cg.simple_fop("fmul", "%y", "2.0"), "%v1");
    assert_eq!(cg.fresh(), "%v2");
    assert_eq!(cg.body, "  %v0 = add i64 %x, 1\n  %v1 = fmul double %y, 2.0\n");
}

#[test]
fn list_header_access() {
    let mut cg = Codegen::new();
    assert_eq!(cg.list_load_len("%l"), "%v1");
    assert_eq!(cg.list_load_data_raw("%l"), "%v3");
    assert_eq!(
        cg.body,
        "  %v0 = getelementptr { i64, i64, i8* }, { i64, i64, i8* }* %l, i32 0, i32 0\n  %v1 = load i64, i64* %v0\n  %v2 = getelementptr { i64, i64, i8* }, { i64, i64, i8* }* %l, i32 0, i32 2\n  %v3 = load i8*, i8** %v2\n"
    );
}

#[test]
fn list_header_construction() {
    let mut cg = Codegen::new();
    assert_eq!(cg.list_build_struct("3", "4", "%d"), "%v1");
    assert_eq!(
        cg.body,
        "  %v0 = call i8* @malloc(i64 24)\n  %v1 = bitcast i8* %v0 to { i64, i64, i8* }*\n  %v2 = getelementptr { i64, i64, i8* }, { i64, i64, i8* }* %v1, i32 0, i32 0\n  store i64 3, i64* %v2\n  %v3 = getelementptr { i64, i64, i8* }, { i64, i64, i8* }* %v1, i32 0, i32 1\n  store i64 4, i64* %v3\n  %v4 = getelementptr { i64, i64, i8* }, { i64, i64, i8* }* %v1, i32 0, i32 2\n  store i8* %d, i8** %v4\n"
    );
}

#[test]
fn equal_string_literals_share_a_global() {
    let mut cg = Codegen::new();
    assert_eq!(cg.lower_str_lit("hi"), "%v2");
    cg.lower_str_lit("yo");
    cg.lower_str_lit("hi");
    assert_eq!(cg.str_lits, vec!["hi".to_string(), "yo".to_string()]);
    assert!(cg.body.starts_with(
        "  %v0 = getelementptr inbounds [3 x i8], [3 x i8]* @.str.0, i64 0, i64 0\n  %v1 = insertvalue { i64, i8* } undef, i64 2, 0\n  %v2 = insertvalue { i64, i8* } %v1, i8* %v0, 1\n"
    ));
    assert!(cg.body.contains("@.str.1, i64 0, i64 0"));
    assert!(cg.body.ends_with("  %v6 = getelementptr inbounds [3 x i8], [3 x i8]* @.str.0, i64 0, i64 0\n  %v7 = insertvalue { i64, i8* } undef, i64 2, 0\n  %v8 = insertvalue { i64, i8* } %v7, i8* %v6, 1\n"));
}

#[test]
fn entry_parameters_are_read_from_argv() {
    let f = Function {
        name: "main".into(),
        params: vec![Param { name: "a".into(), ty: Type::I64 }, Param { name: "x".into(), ty: Type::F64 }],
        return_ty: Type::I64,
        body: vec![],
    };
    assert_eq!(
        format_argv_parsing(&f),
        "  %slot0 = getelementptr inbounds i8*, i8** %argv, i64 1\n  %str0 = load i8*, i8** %slot0\n  %p_a = call i64 @atoll(i8* %str0)\n  %slot1 = getelementptr inbounds i8*, i8** %argv, i64 2\n  %str1 = load i8*, i8** %slot1\n  %p_x = call double @atof(i8* %str1)\n"
    );
    assert_eq!(format_signature(&Arena::new(), &f).unwrap(), "i64 %p_a, double %p_x");
}

#[test]
fn reading_a_parameter_loads_its_slot() {
    let ll = emit_ll(
        &make_program(vec!["a"], vec![Stmt::Return { value: TypedExpr::new(Type::I64, Expr::Var("a".into())) }]),
        "test",
    )
    .unwrap();
    assert!(ll.contains(" = load i64, i64* %a.addr\n"));
}

#[test]
fn reading_an_unknown_variable_is_an_internal_error() {
    let r = emit_ll(
        &make_program(vec![], vec![Stmt::Return { value: TypedExpr::new(Type::I64, Expr::Var("zz".into())) }]),
        "test",
    );
    assert_eq!(r.err().unwrap(), "internal: var `zz` not in codegen scope");
}

#[test]
fn short_circuit_and_uses_a_slot_and_two_blocks() {
    let t = TypedExpr::new(Type::Bool, Expr::ConstBool(true));
    let f = TypedExpr::new(Type::Bool, Expr::ConstBool(false));
    let and = TypedExpr::new(Type::Bool, Expr::BoolOp { op: pyx86::hir::BoolOp::And, lhs: Box::new(t), rhs: Box::new(f) });
    let body = vec![
        Stmt::If { cond: and, then_body: vec![Stmt::Return { value: const_i64(1) }], else_body: vec![] },
        Stmt::Return { value: const_i64(0) },
    ];
    let ll = emit_ll(&make_program(vec![], body), "test").unwrap();
    assert!(ll.contains(" = alloca i1\n"));
    assert!(ll.contains("bool.eval_rhs."));
    assert!(ll.contains("bool.merge."));
}

#[test]
fn break_jumps_to_the_loop_exit() {
    let t = TypedExpr::new(Type::Bool, Expr::ConstBool(true));
    let body = vec![Stmt::While { cond: t, body: vec![Stmt::Break], update: vec![] }, Stmt::Return { value: const_i64(0) }];
    let ll = emit_ll(&make_program(vec![], body), "test").unwrap();
    assert!(ll.contains("loop_body.0:\n  br label %loop_exit.0\n"));
}

#[test]
fn tuple_sizes_follow_the_llvm_layout() {
    let mut arena = Arena::new();
    let t = pyx86::hir::TupleId::intern(&mut arena, vec![Type::I8, Type::I64]);
    assert_eq!(pyx86::codegen::type_byte_size(&arena, Type::Tuple(t)), 16);
    let u = pyx86::hir::TupleId::intern(&mut arena, vec![Type::I64, Type::I8]);
    assert_eq!(pyx86::codegen::type_byte_size(&arena, Type::Tuple(u)), 16);
    let v = pyx86::hir::TupleId::intern(&mut arena, vec![Type::I8, Type::I16, Type::I8]);
    assert_eq!(pyx86::codegen::type_byte_size(&arena, Type::Tuple(v)), 6);
    assert_eq!(pyx86::codegen::type_byte_align(&arena, Type::Tuple(v)), 2);
    assert_eq!(pyx86::codegen::type_byte_size(&arena, Type::Str), 16);
}

#[test]
fn constant_function_definition_text() {
    let prog = Program {
        functions: vec![Function {
            name: "main".into(),
            params: vec![Param { name: "a".into(), ty: Type::I64 }, Param { name: "x".into(), ty: Type::F64 }],
            return_ty: Type::I64,
            body: vec![Stmt::Return { value: const_i64(7) }],
        }],
        arena: Arena::new(),
    };
    let ll = emit_ll(&prog, "test").unwrap();
    assert!(ll.contains(
        "define i64 @py_main(i64 %p_a, double %p_x) {\nentry:\n  %a.addr = alloca i64\n  store i64 %p_a, i64* %a.addr\n  %x.addr = alloca double\n  store double %p_x, double* %x.addr\n  ret i64 7\n}\n\n"
    ));
}

#[test]
fn constant_if_else_text() {
    let t = TypedExpr::new(Type::Bool, Expr::ConstBool(true));
    let body = vec![Stmt::If {
        cond: t,
        then_body: vec![Stmt::Return { value: const_i64(1) }],
        else_body: vec![Stmt::Return { value: const_i64(0) }],
    }];
    let ll = emit_ll(&make_program(vec![], body), "test").unwrap();
    assert!(ll.contains(
        "entry:\n  br i1 1, label %then.0, label %else.0\nthen.0:\n  ret i64 1\nelse.0:\n  ret i64 0\nmerge.0:\n  unreachable\n"
    ));
}

#[test]
fn continue_jumps_to_the_latch_which_returns_to_the_header() {
    let f = TypedExpr::new(Type::Bool, Expr::ConstBool(false));
    let body = vec![
        Stmt::While { cond: f, body: vec![Stmt::Continue], update: vec![] },
        Stmt::Return { value: const_i64(0) },
    ];
    let ll = emit_ll(&make_program(vec![], body), "test").unwrap();
    assert!(ll.contains(
        "  br label %loop_header.0\nloop_header.0:\n  br i1 0, label %loop_body.0, label %loop_exit.0\nloop_body.0:\n  br label %loop_latch.0\nloop_latch.0:\n  br label %loop_header.0\nloop_exit.0:\n"
    ));
}
