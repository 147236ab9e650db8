//! A compiler from a statically typed subset of Python to LLVM IR.

pub mod text;
pub mod hir;
pub mod ast;
pub mod typing;
pub mod check;
pub mod codegen;
pub mod parser;
pub mod link;
pub mod bench;
