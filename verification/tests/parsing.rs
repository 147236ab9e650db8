use pyx86::parser::{byte_offset_to_line_col, parse, parse_error_message};

#[test]
fn parses_trivial_program() {
    let src = "def main() -> int:\n    return 42\n";
    let m = parse(src, "test.py").expect("should parse");
    assert_eq!(m.body.len(), 1);
}

#[test]
fn reports_syntax_error_with_location() {
    let src = "def main() -> int\n    return 42\n"; // missing colon
    let err = parse(src, "test.py").unwrap_err();
    assert!(err.contains("test.py"));
}

#[test]
fn line_and_column_of_byte_offsets() {
    assert_eq!(byte_offset_to_line_col("ab\ncd", 0), (1, 1));
    assert_eq!(byte_offset_to_line_col("ab\ncd", 2), (1, 3));
    assert_eq!(byte_offset_to_line_col("ab\ncd", 3), (2, 1));
    assert_eq!(byte_offset_to_line_col("ab\ncd", 4), (2, 2));
    assert_eq!(byte_offset_to_line_col("ab\ncd", 100), (2, 3));
    assert_eq!(byte_offset_to_line_col("", 5), (1, 1));
}

#[test]
fn columns_count_characters_not_bytes() {
    let s = "é\nxé";
    assert_eq!(byte_offset_to_line_col(s, 1), (1, 2));
    assert_eq!(byte_offset_to_line_col(s, 5), (2, 3));
    assert_eq!(byte_offset_to_line_col(s, 6), (2, 3));
}

#[test]
fn diagnostic_text_of_a_rejection() {
    assert_eq!(
        parse_error_message("unexpected token", 4, "ab\ncd", "t.py"),
        "parse: unexpected token \n --> t.py:2:2"
    );
}

#[test]
fn syntax_error_diagnostic_shape() {
    let err = parse("def main() -> int\n    return 42\n", "dir/prog.py").unwrap_err();
    assert!(err.starts_with("parse: "));
    assert!(err.contains(" \n --> dir/prog.py:"));
}

#[test]
fn valid_source_parses_to_all_statements() {
    let m = parse("x = 1\ny = 2\n\ndef main() -> int:\n    return x\n", "m.py").unwrap();
    assert_eq!(m.body.len(), 3);
}
