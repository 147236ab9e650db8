//! The Python syntax tree the checker reads: a module's statements and
//! expressions, with names and literals as plain values.
//!
//! Every statement and expression kind of Python has a variant here so
//! that unsupported constructs can be named in error messages; the kinds
//! the compiler never accepts carry no payload.

use vstd::prelude::*;
use crate::hir::FloatLit;

verus! {

pub struct Module {
    pub body: Vec<Stmt>,
}

/// One positional parameter, with its annotation and default value.
pub struct Arg {
    pub name: String,
    pub annotation: Option<Expr>,
    pub default: Option<Expr>,
}

pub struct Arguments {
    pub posonlyargs: Vec<Arg>,
    pub args: Vec<Arg>,
    pub vararg: bool,
    pub kwonlyargs: Vec<Arg>,
    pub kwarg: bool,
}

pub struct FunctionDef {
    pub name: String,
    pub args: Arguments,
    pub body: Vec<Stmt>,
    pub decorator_list: Vec<Expr>,
    pub returns: Option<Expr>,
}

pub struct ClassDef {
    pub name: String,
    pub bases: Vec<Expr>,
    pub keywords: Vec<Keyword>,
    pub body: Vec<Stmt>,
    pub decorator_list: Vec<Expr>,
}

pub struct Keyword {
    /// None for `**kwargs` unpacking.
    pub arg: Option<String>,
    pub value: Expr,
}

pub struct Alias {
    pub name: String,
    pub asname: Option<String>,
}

pub struct Comprehension {
    pub target: Expr,
    pub iter: Expr,
    pub ifs: Vec<Expr>,
    pub is_async: bool,
}

pub enum Stmt {
    FunctionDef(FunctionDef),
    AsyncFunctionDef,
    ClassDef(ClassDef),
    Return(Option<Expr>),
    Delete,
    Assign { targets: Vec<Expr>, value: Expr },
    AugAssign { target: Expr, op: Operator, value: Expr },
    AnnAssign { target: Expr, annotation: Expr, value: Option<Expr>, simple: bool },
    For { target: Expr, iter: Expr, body: Vec<Stmt>, orelse: Vec<Stmt> },
    AsyncFor,
    While { test: Expr, body: Vec<Stmt>, orelse: Vec<Stmt> },
    If { test: Expr, body: Vec<Stmt>, orelse: Vec<Stmt> },
    With,
    AsyncWith,
    Match,
    Raise,
    Try,
    TryStar,
    Assert,
    Import,
    ImportFrom { module: Option<String>, names: Vec<Alias> },
    Global,
    Nonlocal,
    Expr(Expr),
    Pass,
    Break,
    Continue,
    TypeAlias,
}

pub enum Constant {
    /// An integer literal; None when it does not fit in i64.
    Int(Option<i64>),
    Float(FloatLit),
    Bool(bool),
    Str(String),
    /// `None`, bytes, tuples, `...`, complex numbers.
    Other,
}

#[derive(Clone, Copy, PartialEq, Eq, Structural)]
pub enum Operator {
    Add,
    Sub,
    Mult,
    MatMult,
    Div,
    Mod,
    Pow,
    LShift,
    RShift,
    BitOr,
    BitXor,
    BitAnd,
    FloorDiv,
}

#[derive(Clone, Copy, PartialEq, Eq, Structural)]
pub enum UnaryOp {
    Invert,
    Not,
    UAdd,
    USub,
}

#[derive(Clone, Copy, PartialEq, Eq, Structural)]
pub enum BoolOp {
    And,
    Or,
}

#[derive(Clone, Copy, PartialEq, Eq, Structural)]
pub enum CmpOp {
    Eq,
    NotEq,
    Lt,
    LtE,
    Gt,
    GtE,
    Is,
    IsNot,
    In,
    NotIn,
}

pub enum Expr {
    BoolOp { op: BoolOp, values: Vec<Expr> },
    NamedExpr,
    BinOp { left: Box<Expr>, op: Operator, right: Box<Expr> },
    UnaryOp { op: UnaryOp, operand: Box<Expr> },
    Lambda,
    IfExp,
    Dict { keys: Vec<Option<Expr>>, values: Vec<Expr> },
    /// A set display `{a, b}`.
    SetDisplay { elts: Vec<Expr> },
    ListComp { elt: Box<Expr>, generators: Vec<Comprehension> },
    SetComp,
    DictComp,
    GeneratorExp,
    Await,
    Yield,
    YieldFrom,
    Compare { left: Box<Expr>, ops: Vec<CmpOp>, comparators: Vec<Expr> },
    Call { func: Box<Expr>, args: Vec<Expr>, keywords: Vec<Keyword> },
    /// An interpolation inside an f-string.
    FormattedValue { value: Box<Expr>, has_conversion: bool, has_format_spec: bool },
    JoinedStr { values: Vec<Expr> },
    Constant(Constant),
    Attribute { value: Box<Expr>, attr: String },
    Subscript { value: Box<Expr>, slice: Box<Expr> },
    Starred,
    Name(String),
    List(Vec<Expr>),
    Tuple(Vec<Expr>),
    Slice { lower: Option<Box<Expr>>, upper: Option<Box<Expr>>, step: Option<Box<Expr>> },
}

} // verus!
