//! Regular-expression literals and block comments: forms that run until a
//! closing mark and may be cut off.
//!
//! By ASCII code: `0x2F` is `/`, `0x2A` is `*`, `0x5B` is `[`, `0x5D` is `]`.

use vstd::prelude::*;
use crate::chars::{is_line_terminator, spec_is_line_terminator};
use crate::runs::{lemma_run_end, run_end, scan_run, ByteClass};
use crate::strings::BACKSLASH;

verus! {

pub const SLASH: u8 = 0x2F;

pub const STAR: u8 = 0x2A;

pub const LBRACK: u8 = 0x5B;

pub const RBRACK: u8 = 0x5D;

/// Where a delimited form ended and whether its closing mark was found.
pub struct Delimited {
    pub end: int,
    pub closed: bool,
    /// A line terminator occurs inside the form.
    pub newline: bool,
}

/// Outcome of `scan_regex` and `scan_block_comment`.
#[derive(Clone, Copy, Debug, PartialEq, Eq, Structural)]
pub struct DelimitedScan {
    pub end: usize,
    pub closed: bool,
    pub newline: bool,
}

impl View for DelimitedScan {
    type V = Delimited;

    open spec fn view(&self) -> Delimited {
        Delimited { end: self.end as int, closed: self.closed, newline: self.newline }
    }
}

/// The pattern of a regular expression from `i` on. It closes at the first
/// `/` that is neither escaped nor inside a character class; a line
/// terminator or the end of the text cuts it off, and it then stops short of
/// the line terminator.
pub open spec fn regex_body(text: Seq<u8>, i: int, in_class: bool) -> Delimited
    decreases text.len() - i,
{
    if i < 0 || i >= text.len() {
        Delimited { end: text.len() as int, closed: false, newline: false }
    } else if spec_is_line_terminator(text[i]) {
        Delimited { end: i, closed: false, newline: false }
    } else if text[i] == BACKSLASH {
        if i + 1 >= text.len() {
            Delimited { end: text.len() as int, closed: false, newline: false }
        } else if spec_is_line_terminator(text[i + 1]) {
            Delimited { end: i + 1, closed: false, newline: false }
        } else {
            regex_body(text, i + 2, in_class)
        }
    } else if text[i] == LBRACK {
        regex_body(text, i + 1, true)
    } else if text[i] == RBRACK {
        regex_body(text, i + 1, false)
    } else if text[i] == SLASH && !in_class {
        Delimited { end: i + 1, closed: true, newline: false }
    } else {
        regex_body(text, i + 1, in_class)
    }
}

/// A whole regular-expression literal whose opening `/` is at `pos`: the
/// pattern, and behind a closed pattern the run of flag letters.
pub open spec fn regex_literal(text: Seq<u8>, pos: int) -> Delimited {
    let body = regex_body(text, pos + 1, false);
    if body.closed {
        Delimited { end: run_end(text, body.end, ByteClass::IdentPart), closed: true, newline: false }
    } else {
        body
    }
}

/// The rest of a block comment from `i` on: it closes behind the first `*/`.
pub open spec fn block_comment_body(text: Seq<u8>, i: int) -> Delimited
    decreases text.len() - i,
{
    if i < 0 || i >= text.len() {
        Delimited { end: text.len() as int, closed: false, newline: false }
    } else if text[i] == STAR && i + 1 < text.len() && text[i + 1] == SLASH {
        Delimited { end: i + 2, closed: true, newline: false }
    } else {
        let rest = block_comment_body(text, i + 1);
        Delimited {
            end: rest.end,
            closed: rest.closed,
            newline: rest.newline || spec_is_line_terminator(text[i]),
        }
    }
}

/// A regular-expression pattern ends inside the text, never before `i`, and
/// holds no line terminator.
pub proof fn lemma_regex_body(text: Seq<u8>, i: int, in_class: bool)
    requires
        0 <= i <= text.len(),
    ensures
        i <= regex_body(text, i, in_class).end <= text.len(),
        regex_body(text, i, in_class).closed ==> i < regex_body(text, i, in_class).end && text[regex_body(
            text,
            i,
            in_class,
        ).end - 1] == SLASH,
        !regex_body(text, i, in_class).closed ==> regex_body(text, i, in_class).end == text.len()
            || spec_is_line_terminator(text[regex_body(text, i, in_class).end]),
        !regex_body(text, i, in_class).newline,
    decreases text.len() - i,
{
    if i < text.len() && !spec_is_line_terminator(text[i]) {
        if text[i] == BACKSLASH {
            if i + 1 < text.len() && !spec_is_line_terminator(text[i + 1]) {
                lemma_regex_body(text, i + 2, in_class);
            }
        } else if text[i] == LBRACK {
            lemma_regex_body(text, i + 1, true);
        } else if text[i] == RBRACK {
            lemma_regex_body(text, i + 1, false);
        } else if !(text[i] == SLASH && !in_class) {
            lemma_regex_body(text, i + 1, in_class);
        }
    }
}

/// A block comment ends inside the text, never before `i`; a closed one ends
/// behind `*/`, an open one at the end of the text.
pub proof fn lemma_block_comment_body(text: Seq<u8>, i: int)
    requires
        0 <= i <= text.len(),
    ensures
        i <= block_comment_body(text, i).end <= text.len(),
        block_comment_body(text, i).closed ==> i + 1 < block_comment_body(text, i).end && text[block_comment_body(
            text,
            i,
        ).end - 2] == STAR && text[block_comment_body(text, i).end - 1] == SLASH,
        !block_comment_body(text, i).closed ==> block_comment_body(text, i).end == text.len(),
    decreases text.len() - i,
{
    if i < text.len() && !(text[i] == STAR && i + 1 < text.len() && text[i + 1] == SLASH) {
        lemma_block_comment_body(text, i + 1);
    }
}

/// Scans a regular-expression literal whose opening `/` is at `pos`.
pub fn scan_regex(text: &[u8], pos: usize) -> (r: DelimitedScan)
    requires
        pos < text@.len(),
    ensures
        r@ == regex_literal(text@, pos as int),
        pos < r.end <= text@.len(),
{
    let n: usize = text.len();
    let mut i: usize = pos + 1;
    let mut in_class = false;
    let mut closed = false;
    let mut end: usize = n;
    let mut done = false;
    while !done
        invariant
            pos < i <= n,
            n == text@.len(),
            !done ==> !closed,
            !done ==> regex_body(text@, pos + 1, false) == regex_body(text@, i as int, in_class),
            done ==> regex_body(text@, pos + 1, false) == (Delimited {
                end: end as int,
                closed,
                newline: false,
            }),
            done ==> pos < end <= n,
        decreases n - i + (if done { 0int } else { 1int }),
    {
        if i >= n {
            end = n;
            done = true;
        } else {
            let b = text[i];
            if is_line_terminator(b) {
                end = i;
                done = true;
            } else if b == BACKSLASH {
                if n - i <= 1 {
                    end = n;
                    done = true;
                } else if is_line_terminator(text[i + 1]) {
                    end = i + 1;
                    done = true;
                } else {
                    i += 2;
                }
            } else if b == LBRACK {
                in_class = true;
                i += 1;
            } else if b == RBRACK {
                in_class = false;
                i += 1;
            } else if b == SLASH && !in_class {
                end = i + 1;
                closed = true;
                done = true;
            } else {
                i += 1;
            }
        }
    }
    if closed {
        proof {
            lemma_run_end(text@, end as int, ByteClass::IdentPart);
        }
        let flags_end = scan_run(text, end, ByteClass::IdentPart);
        DelimitedScan { end: flags_end, closed: true, newline: false }
    } else {
        DelimitedScan { end, closed: false, newline: false }
    }
}

/// Scans the inside of a block comment from `start` on.
pub fn scan_block_comment(text: &[u8], start: usize) -> (r: DelimitedScan)
    requires
        start <= text@.len(),
    ensures
        r@ == block_comment_body(text@, start as int),
        start <= r.end <= text@.len(),
{
    let n: usize = text.len();
    let mut i: usize = start;
    let mut newline = false;
    let mut closed = false;
    let mut end: usize = n;
    let mut done = false;
    while !done
        invariant
            start <= i <= n,
            n == text@.len(),
            !done ==> !closed,
            !done ==> block_comment_body(text@, start as int) == (Delimited {
                end: block_comment_body(text@, i as int).end,
                closed: block_comment_body(text@, i as int).closed,
                newline: newline || block_comment_body(text@, i as int).newline,
            }),
            done ==> block_comment_body(text@, start as int) == (Delimited {
                end: end as int,
                closed,
                newline,
            }),
            done ==> start <= end <= n,
        decreases n - i + (if done { 0int } else { 1int }),
    {
        if i >= n {
            end = n;
            done = true;
        } else {
            let b = text[i];
            if b == STAR && n - i > 1 && text[i + 1] == SLASH {
                end = i + 2;
                closed = true;
                done = true;
            } else {
                if is_line_terminator(b) {
                    newline = true;
                }
                i += 1;
            }
        }
    }
    DelimitedScan { end, closed, newline }
}

} // verus!
