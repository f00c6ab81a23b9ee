//! String and template literals: where they end, and what their escapes hold.
//!
//! Delimiters by ASCII code: `0x22` is `"`, `0x27` is `'`, `0x60` is a
//! backtick, `0x5C` a backslash, `0x24` is `$`, `0x7B` is `{`.

use vstd::prelude::*;
use crate::chars::{is_hex_digit, is_line_terminator, spec_is_hex_digit, spec_is_line_terminator};

verus! {

pub const BACKSLASH: u8 = 0x5C;

pub const BACKTICK: u8 = 0x60;

pub const DOLLAR: u8 = 0x24;

pub const LCURLY: u8 = 0x7B;

/// Whether the backslash at `i` starts a well-formed escape. `\x` wants two
/// hex digits, `\u` wants four or an opening brace; every other escape is
/// taken as it stands.
pub open spec fn escape_ok(text: Seq<u8>, i: int) -> bool {
    if i + 1 >= text.len() {
        false
    } else if text[i + 1] == 0x78 {
        i + 3 < text.len() && spec_is_hex_digit(text[i + 2]) && spec_is_hex_digit(text[i + 3])
    } else if text[i + 1] == 0x75 {
        (i + 2 < text.len() && text[i + 2] == LCURLY) || (i + 5 < text.len() && spec_is_hex_digit(
            text[i + 2],
        ) && spec_is_hex_digit(text[i + 3]) && spec_is_hex_digit(text[i + 4])
            && spec_is_hex_digit(text[i + 5]))
    } else {
        true
    }
}

/// Number of bytes the escape at `i` covers when one more byte follows the
/// backslash: three for a backslash before CR LF, else two.
pub open spec fn escape_len(text: Seq<u8>, i: int) -> int {
    if i + 2 < text.len() && text[i + 1] == 0x0D && text[i + 2] == 0x0A {
        3
    } else {
        2
    }
}

fn check_escape(text: &[u8], i: usize) -> (r: (bool, usize))
    requires
        i + 1 < text@.len(),
        text@[i as int] == BACKSLASH,
    ensures
        r.0 == escape_ok(text@, i as int),
        r.1 == escape_len(text@, i as int),
        i + r.1 <= text@.len(),
{
    let n: usize = text.len();
    let c = text[i + 1];
    let ok = if c == 0x78 {
        n - i > 3 && is_hex_digit(text[i + 2]) && is_hex_digit(text[i + 3])
    } else if c == 0x75 {
        (n - i > 2 && text[i + 2] == LCURLY) || (n - i > 5 && is_hex_digit(text[i + 2])
            && is_hex_digit(text[i + 3]) && is_hex_digit(text[i + 4]) && is_hex_digit(
            text[i + 5],
        ))
    } else {
        true
    };
    let len: usize = if n - i > 2 && c == 0x0D && text[i + 2] == 0x0A {
        3
    } else {
        2
    };
    (ok, len)
}

/// How a quoted form ended.
#[derive(Clone, Copy, Debug, PartialEq, Eq, Structural)]
pub enum Ending {
    /// The closing delimiter was found.
    Closed,
    /// A template ran into `${`.
    Substitution,
    /// The text, or for a string the line, ended first.
    Unterminated,
}

/// What scanning the inside of a quoted form found.
pub struct Quoted {
    pub end: int,
    pub ending: Ending,
    pub escaped: bool,
    pub bad_escape: bool,
}

/// Outcome of `scan_string` and `scan_template`.
#[derive(Clone, Copy, Debug, PartialEq, Eq, Structural)]
pub struct QuotedScan {
    pub end: usize,
    pub ending: Ending,
    pub escaped: bool,
    pub bad_escape: bool,
}

impl View for QuotedScan {
    type V = Quoted;

    open spec fn view(&self) -> Quoted {
        Quoted {
            end: self.end as int,
            ending: self.ending,
            escaped: self.escaped,
            bad_escape: self.bad_escape,
        }
    }
}

/// The rest of a string literal from `i` on, `quote` being its delimiter.
/// The string closes at the first unescaped `quote`; a line terminator or the
/// end of the text leaves it unterminated, and the literal then stops short of
/// the line terminator.
pub open spec fn string_body(text: Seq<u8>, i: int, quote: u8) -> Quoted
    decreases text.len() - i,
{
    if i < 0 || i >= text.len() {
        Quoted { end: text.len() as int, ending: Ending::Unterminated, escaped: false, bad_escape: false }
    } else if text[i] == quote {
        Quoted { end: i + 1, ending: Ending::Closed, escaped: false, bad_escape: false }
    } else if spec_is_line_terminator(text[i]) {
        Quoted { end: i, ending: Ending::Unterminated, escaped: false, bad_escape: false }
    } else if text[i] == BACKSLASH {
        if i + 1 >= text.len() {
            Quoted { end: text.len() as int, ending: Ending::Unterminated, escaped: true, bad_escape: false }
        } else {
            let rest = string_body(text, i + escape_len(text, i), quote);
            Quoted {
                end: rest.end,
                ending: rest.ending,
                escaped: true,
                bad_escape: rest.bad_escape || !escape_ok(text, i),
            }
        }
    } else {
        string_body(text, i + 1, quote)
    }
}

/// The rest of a template literal from `i` on. It closes at the first
/// unescaped backtick, or breaks off at the first unescaped `${`; line
/// terminators belong to it.
pub open spec fn template_body(text: Seq<u8>, i: int) -> Quoted
    decreases text.len() - i,
{
    if i < 0 || i >= text.len() {
        Quoted { end: text.len() as int, ending: Ending::Unterminated, escaped: false, bad_escape: false }
    } else if text[i] == BACKTICK {
        Quoted { end: i + 1, ending: Ending::Closed, escaped: false, bad_escape: false }
    } else if text[i] == DOLLAR && i + 1 < text.len() && text[i + 1] == LCURLY {
        Quoted { end: i + 2, ending: Ending::Substitution, escaped: false, bad_escape: false }
    } else if text[i] == BACKSLASH {
        if i + 1 >= text.len() {
            Quoted { end: text.len() as int, ending: Ending::Unterminated, escaped: true, bad_escape: false }
        } else {
            let rest = template_body(text, i + escape_len(text, i));
            Quoted {
                end: rest.end,
                ending: rest.ending,
                escaped: true,
                bad_escape: rest.bad_escape || !escape_ok(text, i),
            }
        }
    } else {
        template_body(text, i + 1)
    }
}

/// A string body ends inside the text, at or after where it started, and a
/// closed one ends just behind its delimiter.
pub proof fn lemma_string_body(text: Seq<u8>, i: int, quote: u8)
    requires
        0 <= i <= text.len(),
    ensures
        i <= string_body(text, i, quote).end <= text.len(),
        string_body(text, i, quote).ending != Ending::Substitution,
        string_body(text, i, quote).ending == Ending::Closed ==> i < string_body(
            text,
            i,
            quote,
        ).end && text[string_body(text, i, quote).end - 1] == quote,
        string_body(text, i, quote).ending == Ending::Unterminated ==> string_body(
            text,
            i,
            quote,
        ).end == text.len() || spec_is_line_terminator(text[string_body(text, i, quote).end]),
    decreases text.len() - i,
{
    if i < text.len() && text[i] != quote && !spec_is_line_terminator(text[i]) {
        if text[i] == BACKSLASH {
            if i + 1 < text.len() {
                lemma_string_body(text, i + escape_len(text, i), quote);
            }
        } else {
            lemma_string_body(text, i + 1, quote);
        }
    }
}

/// A template body ends inside the text, at or after where it started; a
/// closed one ends behind a backtick, a broken-off one behind `${`, an
/// unterminated one at the end of the text.
pub proof fn lemma_template_body(text: Seq<u8>, i: int)
    requires
        0 <= i <= text.len(),
    ensures
        i <= template_body(text, i).end <= text.len(),
        template_body(text, i).ending == Ending::Closed ==> i < template_body(text, i).end
            && text[template_body(text, i).end - 1] == BACKTICK,
        template_body(text, i).ending == Ending::Substitution ==> i + 1 < template_body(
            text,
            i,
        ).end && text[template_body(text, i).end - 2] == DOLLAR && text[template_body(
            text,
            i,
        ).end - 1] == LCURLY,
        template_body(text, i).ending == Ending::Unterminated ==> template_body(text, i).end
            == text.len(),
    decreases text.len() - i,
{
    if i < text.len() && text[i] != BACKTICK && !(text[i] == DOLLAR && i + 1 < text.len() && text[i
        + 1] == LCURLY) {
        if text[i] == BACKSLASH {
            if i + 1 < text.len() {
                lemma_template_body(text, i + escape_len(text, i));
            }
        } else {
            lemma_template_body(text, i + 1);
        }
    }
}

/// Scans the inside of a string literal from `start` on.
pub fn scan_string(text: &[u8], start: usize, quote: u8) -> (r: QuotedScan)
    requires
        start <= text@.len(),
    ensures
        r@ == string_body(text@, start as int, quote),
        start <= r.end <= text@.len(),
{
    let n: usize = text.len();
    let mut i: usize = start;
    let mut escaped = false;
    let mut bad = false;
    let mut ending = Ending::Unterminated;
    let mut end: usize = n;
    let mut done = false;
    while !done
        invariant
            start <= i <= n,
            n == text@.len(),
            !done ==> string_body(text@, start as int, quote) == (Quoted {
                end: string_body(text@, i as int, quote).end,
                ending: string_body(text@, i as int, quote).ending,
                escaped: escaped || string_body(text@, i as int, quote).escaped,
                bad_escape: bad || string_body(text@, i as int, quote).bad_escape,
            }),
            done ==> string_body(text@, start as int, quote) == (Quoted {
                end: end as int,
                ending,
                escaped,
                bad_escape: bad,
            }),
            done ==> start <= end <= n,
        decreases n - i + (if done { 0int } else { 1int }),
    {
        if i >= n {
            end = n;
            ending = Ending::Unterminated;
            done = true;
        } else {
            let b = text[i];
            if b == quote {
                end = i + 1;
                ending = Ending::Closed;
                done = true;
            } else if is_line_terminator(b) {
                end = i;
                ending = Ending::Unterminated;
                done = true;
            } else if b == BACKSLASH {
                escaped = true;
                if n - i <= 1 {
                    end = n;
                    ending = Ending::Unterminated;
                    done = true;
                } else {
                    let (ok, len) = check_escape(text, i);
                    if !ok {
                        bad = true;
                    }
                    i += len;
                }
            } else {
                i += 1;
            }
        }
    }
    QuotedScan { end, ending, escaped, bad_escape: bad }
}

/// Scans the inside of a template literal from `start` on.
pub fn scan_template(text: &[u8], start: usize) -> (r: QuotedScan)
    requires
        start <= text@.len(),
    ensures
        r@ == template_body(text@, start as int),
        start <= r.end <= text@.len(),
{
    let n: usize = text.len();
    let mut i: usize = start;
    let mut escaped = false;
    let mut bad = false;
    let mut ending = Ending::Unterminated;
    let mut end: usize = n;
    let mut done = false;
    while !done
        invariant
            start <= i <= n,
            n == text@.len(),
            !done ==> template_body(text@, start as int) == (Quoted {
                end: template_body(text@, i as int).end,
                ending: template_body(text@, i as int).ending,
                escaped: escaped || template_body(text@, i as int).escaped,
                bad_escape: bad || template_body(text@, i as int).bad_escape,
            }),
            done ==> template_body(text@, start as int) == (Quoted {
                end: end as int,
                ending,
                escaped,
                bad_escape: bad,
            }),
            done ==> start <= end <= n,
        decreases n - i + (if done { 0int } else { 1int }),
    {
        if i >= n {
            end = n;
            ending = Ending::Unterminated;
            done = true;
        } else {
            let b = text[i];
            if b == BACKTICK {
                end = i + 1;
                ending = Ending::Closed;
                done = true;
            } else if b == DOLLAR && n - i > 1 && text[i + 1] == LCURLY {
                end = i + 2;
                ending = Ending::Substitution;
                done = true;
            } else if b == BACKSLASH {
                escaped = true;
                if n - i <= 1 {
                    end = n;
                    ending = Ending::Unterminated;
                    done = true;
                } else {
                    let (ok, len) = check_escape(text, i);
                    if !ok {
                        bad = true;
                    }
                    i += len;
                }
            } else {
                i += 1;
            }
        }
    }
    QuotedScan { end, ending, escaped, bad_escape: bad }
}

} // verus!
