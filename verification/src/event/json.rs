//! Texts as JSON.
use vstd::prelude::*;

use crate::text::gather;

verus! {

/// The digit of a number below sixteen.
pub open spec fn hex_digit(n: int) -> char {
    if n < 10 {
        ('0' as int + n) as char
    } else {
        ('a' as int + n - 10) as char
    }
}

/// How a character is written in a JSON text.
pub open spec fn escaped(c: char) -> Seq<char> {
    if c == '"' {
        seq!['\\', '"']
    } else if c == '\\' {
        seq!['\\', '\\']
    } else if c == '\n' {
        seq!['\\', 'n']
    } else if c == '\r' {
        seq!['\\', 'r']
    } else if c == '\t' {
        seq!['\\', 't']
    } else if c == '\u{8}' {
        seq!['\\', 'b']
    } else if c == '\u{c}' {
        seq!['\\', 'f']
    } else if (c as int) < 32 {
        seq!['\\', 'u', '0', '0', hex_digit(c as int / 16), hex_digit(c as int % 16)]
    } else {
        seq![c]
    }
}

/// A text as JSON: in quotation marks, with escapes.
pub open spec fn json_string(text: Seq<char>) -> Seq<char> {
    seq!['"'] + gather(text.len(), |i: int| escaped(text[i])) + seq!['"']
}

/// `serde_json::to_string` on a text: writes it in quotation marks, and with
/// escapes for quotation marks, backslashes and control characters.
#[verifier::external_body]
pub(crate) fn string_to_json(given: &str) -> (text: String)
    ensures
        text@ == json_string(given@),
{
    serde_json::to_string(given).unwrap_or_default()
}

} // verus!
