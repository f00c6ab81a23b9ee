//! Maximal runs of one byte class, the building block of most lexical forms.

use vstd::prelude::*;
use crate::chars::{
    is_digit, is_hex_digit, is_ident_part, is_line_terminator, is_whitespace, spec_is_digit,
    spec_is_hex_digit, spec_is_ident_part, spec_is_line_terminator, spec_is_whitespace,
};

verus! {

/// The byte classes whose runs the lexer measures.
#[derive(Clone, Copy, Debug, PartialEq, Eq, Structural)]
pub enum ByteClass {
    WhiteSpace,
    IdentPart,
    Digit,
    HexDigit,
    /// Everything but a line terminator: the body of a line comment.
    LineBody,
}

impl ByteClass {
    pub open spec fn spec_holds(self, b: u8) -> bool {
        match self {
            ByteClass::WhiteSpace => spec_is_whitespace(b),
            ByteClass::IdentPart => spec_is_ident_part(b),
            ByteClass::Digit => spec_is_digit(b),
            ByteClass::HexDigit => spec_is_hex_digit(b),
            ByteClass::LineBody => !spec_is_line_terminator(b),
        }
    }

    #[verifier::when_used_as_spec(spec_holds)]
    pub fn holds(self, b: u8) -> (r: bool)
        ensures
            r == self.spec_holds(b),
    {
        match self {
            ByteClass::WhiteSpace => is_whitespace(b),
            ByteClass::IdentPart => is_ident_part(b),
            ByteClass::Digit => is_digit(b),
            ByteClass::HexDigit => is_hex_digit(b),
            ByteClass::LineBody => !is_line_terminator(b),
        }
    }
}

/// Where the longest run of `class` bytes that starts at `pos` ends: the first
/// index at or after `pos` whose byte is outside the class, or the text's end.
pub open spec fn run_end(text: Seq<u8>, pos: int, class: ByteClass) -> int
    decreases text.len() - pos,
{
    if 0 <= pos < text.len() && class.spec_holds(text[pos]) {
        run_end(text, pos + 1, class)
    } else {
        pos
    }
}

/// A run ends inside the text, holds only bytes of its class, and cannot be
/// extended: this pins `run_end` down.
pub proof fn lemma_run_end(text: Seq<u8>, pos: int, class: ByteClass)
    requires
        0 <= pos <= text.len(),
    ensures
        pos <= run_end(text, pos, class) <= text.len(),
        forall|j: int| pos <= j < run_end(text, pos, class) ==> class.spec_holds(#[trigger] text[j]),
        run_end(text, pos, class) < text.len() ==> !class.spec_holds(
            text[run_end(text, pos, class)],
        ),
    decreases text.len() - pos,
{
    if pos < text.len() && class.spec_holds(text[pos]) {
        lemma_run_end(text, pos + 1, class);
    }
}

/// Measures the run of `class` bytes at `pos`.
pub fn scan_run(text: &[u8], pos: usize, class: ByteClass) -> (end: usize)
    requires
        pos <= text@.len(),
    ensures
        end == run_end(text@, pos as int, class),
        pos <= end <= text@.len(),
{
    let mut i: usize = pos;
    while i < text.len() && class.holds(text[i])
        invariant
            pos <= i <= text@.len(),
            run_end(text@, pos as int, class) == run_end(text@, i as int, class),
        decreases text@.len() - i,
    {
        i += 1;
    }
    i
}

} // verus!
