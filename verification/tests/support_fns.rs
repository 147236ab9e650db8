use pyx86::codegen::{llvm_fcmp_op, llvm_icmp_op, sanitize_module_id};
use pyx86::hir::CmpOp;
use pyx86::link::{clang_emit_asm, clang_emit_elf};
use pyx86::text::{i64_to_string, str_eq, u64_to_string};

#[test]
fn decimal_rendering_of_unsigned_values() {
    assert_eq!(u64_to_string(0), "0");
    assert_eq!(u64_to_string(7), "7");
    assert_eq!(u64_to_string(1234), "1234");
    assert_eq!(u64_to_string(u64::MAX), "18446744073709551615");
}

#[test]
fn decimal_rendering_of_signed_values() {
    assert_eq!(i64_to_string(-42), "-42");
    assert_eq!(i64_to_string(0), "0");
    assert_eq!(i64_to_string(i64::MIN), "-9223372036854775808");
    assert_eq!(i64_to_string(i64::MAX), "9223372036854775807");
}

#[test]
fn string_equality_compares_contents() {
    assert!(str_eq("main", "main"));
    assert!(!str_eq("main", "mainx"));
    assert!(!str_eq("", "a"));
}

#[test]
fn module_ids_keep_identifier_characters_only() {
    assert_eq!(sanitize_module_id("my-prog.v2"), "my_prog_v2");
    assert_eq!(sanitize_module_id("abc_XYZ09"), "abc_XYZ09");
    assert_eq!(sanitize_module_id("é"), "_");
    assert_eq!(sanitize_module_id(""), "");
}

#[test]
fn comparison_predicates() {
    assert_eq!(llvm_icmp_op(CmpOp::Lt), "slt");
    assert_eq!(llvm_icmp_op(CmpOp::Ge), "sge");
    assert_eq!(llvm_icmp_op(CmpOp::Ne), "ne");
    assert_eq!(llvm_fcmp_op(CmpOp::Lt), "olt");
    assert_eq!(llvm_fcmp_op(CmpOp::Eq), "oeq");
    assert_eq!(llvm_fcmp_op(CmpOp::Ne), "one");
}

#[test]
fn clang_command_for_an_executable() {
    assert_eq!(clang_emit_elf("prog.ll", "prog", 2), vec!["-O2", "-x", "ir", "prog.ll", "-o", "prog", "-lm"]);
    assert_eq!(clang_emit_elf("a.ll", "b", 0)[0], "-O0");
}

#[test]
fn clang_command_for_assembly() {
    assert_eq!(clang_emit_asm("prog.ll", "prog.s", 3), vec!["-O3", "-S", "-x", "ir", "prog.ll", "-o", "prog.s"]);
}
