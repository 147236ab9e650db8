use pyx86::ast::{Arg, Arguments, CmpOp, Constant, Expr, FunctionDef, Module, Operator, Stmt, UnaryOp};
use pyx86::check::{lower, CompileError};
use pyx86::hir::{FloatLit, Program, Stmt as HStmt, Type};

fn name(s: &str) -> Expr {
    Expr::Name(s.to_string())
}

fn int_lit(v: i64) -> Expr {
    Expr::Constant(Constant::Int(Some(v)))
}

fn float(v: f64) -> Expr {
    Expr::Constant(Constant::Float(FloatLit { bits: v.to_bits(), text: format!("{:?}", v) }))
}

fn param(n: &str, ann: &str) -> Arg {
    Arg { name: n.to_string(), annotation: Some(name(ann)), default: None }
}

fn func(n: &str, params: Vec<Arg>, ret: &str, body: Vec<Stmt>) -> Stmt {
    Stmt::FunctionDef(FunctionDef {
        name: n.to_string(),
        args: Arguments { posonlyargs: vec![], args: params, vararg: false, kwonlyargs: vec![], kwarg: false },
        body,
        decorator_list: vec![],
        returns: Some(name(ret)),
    })
}

fn ret(e: Expr) -> Stmt {
    Stmt::Return(Some(e))
}

fn lower_module(body: Vec<Stmt>) -> Result<Program, CompileError> {
    lower(&Module { body }, "t.py", &vec![])
}

#[test]
fn lowers_no_param_main() {
    // def main() -> int:
    //     return 42
    let p = lower_module(vec![func("main", vec![], "int", vec![ret(int_lit(42))])]).unwrap();
    assert_eq!(p.main().params.len(), 0);
    assert_eq!(p.main().return_ty, Type::I64);
}

#[test]
fn lowers_two_param_main() {
    // def main(a: int, b: int) -> int:
    //     return a + b
    let p = lower_module(vec![func(
        "main",
        vec![param("a", "int"), param("b", "int")],
        "int",
        vec![ret(Expr::BinOp { left: Box::new(name("a")), op: Operator::Add, right: Box::new(name("b")) })],
    )])
    .unwrap();
    assert_eq!(p.main().params.len(), 2);
    assert_eq!(p.main().params[0].ty, Type::I64);
}

#[test]
fn allows_float_local_inside_int_main() {
    // def helper() -> float:
    //     return 1.5 + 2.5
    //
    // def main() -> int:
    //     x: float = helper()
    //     if x > 0.0:
    //         return 1
    //     else:
    //         return 0
    let helper = func(
        "helper",
        vec![],
        "float",
        vec![ret(Expr::BinOp { left: Box::new(float(1.5)), op: Operator::Add, right: Box::new(float(2.5)) })],
    );
    let main = func(
        "main",
        vec![],
        "int",
        vec![
            Stmt::AnnAssign {
                target: name("x"),
                annotation: name("float"),
                value: Some(Expr::Call { func: Box::new(name("helper")), args: vec![], keywords: vec![] }),
                simple: true,
            },
            Stmt::If {
                test: Expr::Compare { left: Box::new(name("x")), ops: vec![CmpOp::Gt], comparators: vec![float(0.0)] },
                body: vec![ret(int_lit(1))],
                orelse: vec![ret(int_lit(0))],
            },
        ],
    );
    let _ = lower_module(vec![helper, main]).unwrap();
}

#[test]
fn rejects_implicit_float_to_int_on_return() {
    // def main() -> int:
    //     return 1.5
    let err = lower_module(vec![func("main", vec![], "int", vec![ret(float(1.5))])]).err().unwrap();
    assert!(err.message().contains("float→int"));
}

#[test]
fn accepts_float_main_return() {
    // def main() -> float:
    //     return 1.0
    let _ = lower_module(vec![func("main", vec![], "float", vec![ret(float(1.0))])]).unwrap();
}

#[test]
fn rejects_bool_main_return() {
    // def main() -> bool:
    //     return True
    let m = vec![func("main", vec![], "bool", vec![ret(Expr::Constant(Constant::Bool(true)))])];
    let err = lower_module(m).err().unwrap();
    assert!(err.message().contains("`main` must return"));
}

#[test]
fn lowers_simple_if_else() {
    // def main(a: int) -> int:
    //     if a < 0:
    //         return -a
    //     else:
    //         return a
    let p = lower_module(vec![func(
        "main",
        vec![param("a", "int")],
        "int",
        vec![Stmt::If {
            test: Expr::Compare { left: Box::new(name("a")), ops: vec![CmpOp::Lt], comparators: vec![int_lit(0)] },
            body: vec![ret(Expr::UnaryOp { op: UnaryOp::USub, operand: Box::new(name("a")) })],
            orelse: vec![ret(name("a"))],
        }],
    )])
    .unwrap();
    match &p.main().body[0] {
        HStmt::If { cond, .. } => assert_eq!(cond.ty, Type::Bool),
        _ => panic!("expected If"),
    }
}

#[test]
fn rejects_break_outside_loop() {
    // def main() -> int:
    //     break
    //     return 0
    let err = lower_module(vec![func("main", vec![], "int", vec![Stmt::Break, ret(int_lit(0))])]).err().unwrap();
    assert!(err.message().contains("`break` outside"));
}
