//! Reading Python source into a syntax tree: the parsing itself is done by
//! `rustpython_parser`; this module turns its rejections into located
//! diagnostics (`parse: <message> \n --> <path>:<line>:<column>`).

use vstd::prelude::*;
use rustpython_parser::ast::ModModule;
use rustpython_parser::Parse;
use rustpython_parser::text_size::TextRange;
use vstd::string::StringSliceAdditionalSpecFns;
use crate::text::{decimal, push_decimal};

verus! {

#[verifier::external_type_specification]
#[verifier::external_body]
#[verifier::reject_recursive_types(R)]
pub struct ExModModule<R>(ModModule<R>);

/// `ModModule`'s type parameter defaults to `TextRange`, so the parsed
/// module's type names it.
#[verifier::external_type_specification]
#[verifier::external_body]
pub struct ExTextRange(TextRange);

/// What `rustpython_parser`'s module parser reports when it rejects
/// `source`: its message and the byte offset it points at; `None` when it
/// accepts the source. The parser is a pure function of the text.
pub uninterp spec fn parse_rejection(source: Seq<char>) -> Option<(Seq<char>, usize)>;

/// Parse `source` as a Python module.
///
/// Trusted: `<ModModule as rustpython_parser::Parse>::parse`. The claim is
/// only that acceptance, and on rejection the rendered message
/// (`ParseError::error` through `Display`) and the offset
/// (`ParseError::offset`), are what the parser gives for this source text;
/// `path` is only recorded in the error's `source_path`, which is not read.
#[verifier::external_body]
fn parse_module(source: &str, path: &str) -> (r: Result<ModModule, (String, usize)>)
    ensures
        match r {
            Ok(_) => parse_rejection(source@) is None,
            Err((msg, offset)) => parse_rejection(source@) == Some((msg@, offset)),
        },
{
    match ModModule::parse(source, path) {
        Ok(m) => Ok(m),
        Err(e) => Err((e.error.to_string(), e.offset.to_usize())),
    }
}

/// Whether a UTF-8 byte continues a multi-byte character.
pub open spec fn is_continuation(b: u8) -> bool {
    0x80 <= b < 0xC0
}

/// The (line, column) reached after reading the first `n` bytes of
/// `bytes`: a newline starts the next line at column 1, every other
/// character moves one column right, and continuation bytes move nothing.
pub open spec fn line_col(bytes: Seq<u8>, n: nat) -> (nat, nat)
    decreases n,
{
    if n == 0 || n > bytes.len() {
        (1, 1)
    } else {
        let (line, col) = line_col(bytes, (n - 1) as nat);
        let b = bytes[n - 1];
        if b == 10 {
            (line + 1, 1)
        } else if is_continuation(b) {
            (line, col)
        } else {
            (line, col + 1)
        }
    }
}

/// The position of the character at byte `offset` (or of the end of
/// the text, for an offset past it).
pub open spec fn position_of(source: Seq<u8>, offset: nat) -> (nat, nat) {
    line_col(source, if offset < source.len() { offset } else { source.len() })
}

proof fn lemma_line_col_bound(bytes: Seq<u8>, n: nat)
    requires
        n <= bytes.len(),
    ensures
        line_col(bytes, n).0 >= 1,
        line_col(bytes, n).1 >= 1,
        line_col(bytes, n).0 + line_col(bytes, n).1 <= n + 2,
    decreases n,
{
    if n > 0 {
        lemma_line_col_bound(bytes, (n - 1) as nat);
    }
}

/// Law: positions are 1-based, and neither the line nor the column can
/// exceed the number of bytes read plus one.
pub proof fn law_position_bounds(source: Seq<u8>, offset: nat)
    ensures
        position_of(source, offset).0 >= 1,
        position_of(source, offset).1 >= 1,
        position_of(source, offset).0 + position_of(source, offset).1
            <= (if offset < source.len() { offset } else { source.len() }) + 2,
{
    lemma_line_col_bound(source, if offset < source.len() { offset } else { source.len() });
}

/// The 1-based line and column of byte `offset` in `source`, counting
/// columns in characters.
pub fn byte_offset_to_line_col(source: &str, offset: usize) -> (r: (usize, usize))
    requires
        source.spec_bytes().len() < usize::MAX,
    ensures
        (r.0 as nat, r.1 as nat) == position_of(source.spec_bytes(), offset as nat),
{
    let bytes = source.as_bytes();
    let ghost bs = source.spec_bytes();
    let end: usize = if offset < bytes.len() { offset } else { bytes.len() };
    let mut line: usize = 1;
    let mut col: usize = 1;
    let mut i: usize = 0;
    while i < end
        invariant
            bytes@ == bs,
            bs.len() < usize::MAX,
            end <= bs.len(),
            0 <= i <= end,
            (line as nat, col as nat) == line_col(bs, i as nat),
        decreases end - i,
    {
        proof { lemma_line_col_bound(bs, i as nat); }
        let b = bytes[i];
        if b == 10 {
            line = line + 1;
            col = 1;
        } else if !(0x80 <= b && b < 0xC0) {
            col = col + 1;
        }
        i = i + 1;
    }
    (line, col)
}

/// The diagnostic for a rejected source: the parser's message, then the
/// path, line and column of the offending byte.
pub open spec fn parse_error_text(message: Seq<char>, path: Seq<char>, pos: (nat, nat)) -> Seq<char> {
    "parse: "@ + message + " \n --> "@ + path + ":"@ + decimal(pos.0) + ":"@ + decimal(pos.1)
}

/// Render the parser's rejection (`message` at byte `offset` of `source`)
/// as a located diagnostic.
pub fn parse_error_message(message: &str, offset: usize, source: &str, path: &str) -> (r: String)
    requires
        source.spec_bytes().len() < usize::MAX,
    ensures
        r@ == parse_error_text(message@, path@, position_of(source.spec_bytes(), offset as nat)),
{
    let (line, col) = byte_offset_to_line_col(source, offset);
    let mut s = String::from_str("parse: ");
    s.append(message);
    s.append(" \n --> ");
    s.append(path);
    s.append(":");
    push_decimal(&mut s, line as u64);
    s.append(":");
    push_decimal(&mut s, col as u64);
    s
}

/// Parse `source` (read from `source_path`) as a Python module; a
/// rejection becomes a located diagnostic.
pub fn parse(source: &str, source_path: &str) -> (r: Result<ModModule, String>)
    requires
        source.spec_bytes().len() < usize::MAX,
    ensures
        match parse_rejection(source@) {
            None => r is Ok,
            Some((msg, offset)) => r matches Err(e) && e@ == parse_error_text(
                msg,
                source_path@,
                position_of(source.spec_bytes(), offset as nat),
            ),
        },
{
    match parse_module(source, source_path) {
        Ok(m) => Ok(m),
        Err((msg, offset)) => Err(parse_error_message(msg.as_str(), offset, source, source_path)),
    }
}

} // verus!
