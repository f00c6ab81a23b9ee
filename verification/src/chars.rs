//! Byte classes of the lexical grammar.

use vstd::prelude::*;

verus! {

/// Horizontal white space: tab, vertical tab, form feed, space.
pub open spec fn spec_is_whitespace(b: u8) -> bool {
    b == 0x09 || b == 0x0B || b == 0x0C || b == 0x20
}

#[verifier::when_used_as_spec(spec_is_whitespace)]
pub fn is_whitespace(b: u8) -> (r: bool)
    ensures
        r == spec_is_whitespace(b),
{
    b == 0x09 || b == 0x0B || b == 0x0C || b == 0x20
}

/// Line feed or carriage return.
pub open spec fn spec_is_line_terminator(b: u8) -> bool {
    b == 0x0A || b == 0x0D
}

#[verifier::when_used_as_spec(spec_is_line_terminator)]
pub fn is_line_terminator(b: u8) -> (r: bool)
    ensures
        r == spec_is_line_terminator(b),
{
    b == 0x0A || b == 0x0D
}

pub open spec fn spec_is_digit(b: u8) -> bool {
    0x30 <= b <= 0x39
}

#[verifier::when_used_as_spec(spec_is_digit)]
pub fn is_digit(b: u8) -> (r: bool)
    ensures
        r == spec_is_digit(b),
{
    0x30 <= b && b <= 0x39
}

pub open spec fn spec_is_hex_digit(b: u8) -> bool {
    (0x30 <= b <= 0x39) || (0x41 <= b <= 0x46) || (0x61 <= b <= 0x66)
}

#[verifier::when_used_as_spec(spec_is_hex_digit)]
pub fn is_hex_digit(b: u8) -> (r: bool)
    ensures
        r == spec_is_hex_digit(b),
{
    (0x30 <= b && b <= 0x39) || (0x41 <= b && b <= 0x46) || (0x61 <= b && b <= 0x66)
}

/// A byte that may start an identifier: an ASCII letter, `_`, `$`, or any
/// byte of a multi-byte code point.
pub open spec fn spec_is_ident_start(b: u8) -> bool {
    (0x41 <= b <= 0x5A) || (0x61 <= b <= 0x7A) || b == 0x5F || b == 0x24 || b >= 0x80
}

#[verifier::when_used_as_spec(spec_is_ident_start)]
pub fn is_ident_start(b: u8) -> (r: bool)
    ensures
        r == spec_is_ident_start(b),
{
    (0x41 <= b && b <= 0x5A) || (0x61 <= b && b <= 0x7A) || b == 0x5F || b == 0x24 || b >= 0x80
}

/// A byte that may continue an identifier: an identifier start or a digit.
pub open spec fn spec_is_ident_part(b: u8) -> bool {
    spec_is_ident_start(b) || spec_is_digit(b)
}

#[verifier::when_used_as_spec(spec_is_ident_part)]
pub fn is_ident_part(b: u8) -> (r: bool)
    ensures
        r == spec_is_ident_part(b),
{
    is_ident_start(b) || is_digit(b)
}

/// A continuation byte of a multi-byte code point: no code point starts on it.
pub open spec fn spec_is_continuation(b: u8) -> bool {
    0x80 <= b < 0xC0
}

#[verifier::when_used_as_spec(spec_is_continuation)]
pub fn is_continuation(b: u8) -> (r: bool)
    ensures
        r == spec_is_continuation(b),
{
    0x80 <= b && b < 0xC0
}

/// `index` is a code-point boundary of `text`: its end, or a byte on which a
/// code point starts.
pub open spec fn is_boundary(text: Seq<u8>, index: int) -> bool {
    0 <= index <= text.len() && (index < text.len() ==> !spec_is_continuation(text[index]))
}

} // verus!
