//! The clang command lines that turn emitted LLVM IR into a native
//! executable or into assembly text. Running clang is left to the caller.

use vstd::prelude::*;
use crate::text::{decimal, push_decimal};

verus! {

/// `-O<level>`.
pub open spec fn opt_flag(opt_level: u8) -> Seq<char> {
    "-O"@ + decimal(opt_level as nat)
}

/// The arguments for compiling the IR file `ll` into the executable `out`,
/// linking libm so that `floor`, `ceil`, `tan`, `pow`, ... resolve.
pub open spec fn elf_args(ll: Seq<char>, out: Seq<char>, opt_level: u8) -> Seq<Seq<char>> {
    seq![opt_flag(opt_level), "-x"@, "ir"@, ll, "-o"@, out, "-lm"@]
}

/// The arguments for compiling the IR file `ll` into the assembly file `out`.
pub open spec fn asm_args(ll: Seq<char>, out: Seq<char>, opt_level: u8) -> Seq<Seq<char>> {
    seq![opt_flag(opt_level), "-S"@, "-x"@, "ir"@, ll, "-o"@, out]
}

/// The views of a list of strings.
pub open spec fn views(v: Seq<String>) -> Seq<Seq<char>> {
    v.map_values(|s: String| s@)
}

fn opt_arg(opt_level: u8) -> (r: String)
    ensures
        r@ == opt_flag(opt_level),
{
    let mut s = String::from_str("-O");
    push_decimal(&mut s, opt_level as u64);
    s
}

/// The clang arguments that compile the IR file `ll` into the executable
/// `out` at optimisation level `opt_level`.
pub fn clang_emit_elf(ll: &str, out: &str, opt_level: u8) -> (r: Vec<String>)
    ensures
        views(r@) == elf_args(ll@, out@, opt_level),
{
    let mut v: Vec<String> = Vec::new();
    v.push(opt_arg(opt_level));
    v.push(String::from_str("-x"));
    v.push(String::from_str("ir"));
    v.push(String::from_str(ll));
    v.push(String::from_str("-o"));
    v.push(String::from_str(out));
    v.push(String::from_str("-lm"));
    assert(views(v@) =~= elf_args(ll@, out@, opt_level));
    v
}

/// The clang arguments that compile the IR file `ll` into the assembly
/// file `out` at optimisation level `opt_level`.
pub fn clang_emit_asm(ll: &str, out: &str, opt_level: u8) -> (r: Vec<String>)
    ensures
        views(r@) == asm_args(ll@, out@, opt_level),
{
    let mut v: Vec<String> = Vec::new();
    v.push(opt_arg(opt_level));
    v.push(String::from_str("-S"));
    v.push(String::from_str("-x"));
    v.push(String::from_str("ir"));
    v.push(String::from_str(ll));
    v.push(String::from_str("-o"));
    v.push(String::from_str(out));
    assert(views(v@) =~= asm_args(ll@, out@, opt_level));
    v
}

} // verus!
