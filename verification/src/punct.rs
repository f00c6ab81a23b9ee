//! The punctuator table and the longest-match rule over it.
//!
//! Bytes are written by their ASCII codes; the kind beside each entry names
//! the spelling (`0x3C` is `<`, `0x3D` is `=`, `0x3E` is `>`).

use vstd::prelude::*;
use crate::token::Kind;

verus! {

/// The punctuator spelled by one byte, if any.
pub open spec fn punct1(a: u8) -> Option<Kind> {
    if a == 0x28 {
        Some(Kind::LParen)
    } else if a == 0x29 {
        Some(Kind::RParen)
    } else if a == 0x5B {
        Some(Kind::LBrack)
    } else if a == 0x5D {
        Some(Kind::RBrack)
    } else if a == 0x7B {
        Some(Kind::LCurly)
    } else if a == 0x7D {
        Some(Kind::RCurly)
    } else if a == 0x3B {
        Some(Kind::Semicolon)
    } else if a == 0x2C {
        Some(Kind::Comma)
    } else if a == 0x3A {
        Some(Kind::Colon)
    } else if a == 0x2E {
        Some(Kind::Dot)
    } else if a == 0x7E {
        Some(Kind::Tilde)
    } else if a == 0x40 {
        Some(Kind::At)
    } else if a == 0x23 {
        Some(Kind::Hash)
    } else if a == 0x3F {
        Some(Kind::Question)
    } else if a == 0x3C {
        Some(Kind::LAngle)
    } else if a == 0x3E {
        Some(Kind::RAngle)
    } else if a == 0x3D {
        Some(Kind::Eq)
    } else if a == 0x21 {
        Some(Kind::Bang)
    } else if a == 0x2B {
        Some(Kind::Plus)
    } else if a == 0x2D {
        Some(Kind::Minus)
    } else if a == 0x2A {
        Some(Kind::Star)
    } else if a == 0x2F {
        Some(Kind::Slash)
    } else if a == 0x25 {
        Some(Kind::Percent)
    } else if a == 0x26 {
        Some(Kind::Amp)
    } else if a == 0x7C {
        Some(Kind::Pipe)
    } else if a == 0x5E {
        Some(Kind::Caret)
    } else {
        None
    }
}

/// The punctuator spelled by two bytes, if any.
pub open spec fn punct2(a: u8, b: u8) -> Option<Kind> {
    if a == 0x3F && b == 0x3F {
        Some(Kind::Question2)
    } else if a == 0x3F && b == 0x2E {
        Some(Kind::QuestionDot)
    } else if a == 0x3C && b == 0x3D {
        Some(Kind::LtEq)
    } else if a == 0x3C && b == 0x3C {
        Some(Kind::ShiftLeft)
    } else if a == 0x3E && b == 0x3D {
        Some(Kind::GtEq)
    } else if a == 0x3E && b == 0x3E {
        Some(Kind::ShiftRight)
    } else if a == 0x3D && b == 0x3D {
        Some(Kind::Eq2)
    } else if a == 0x3D && b == 0x3E {
        Some(Kind::Arrow)
    } else if a == 0x21 && b == 0x3D {
        Some(Kind::Neq)
    } else if a == 0x2B && b == 0x2B {
        Some(Kind::Plus2)
    } else if a == 0x2B && b == 0x3D {
        Some(Kind::PlusEq)
    } else if a == 0x2D && b == 0x2D {
        Some(Kind::Minus2)
    } else if a == 0x2D && b == 0x3D {
        Some(Kind::MinusEq)
    } else if a == 0x2A && b == 0x2A {
        Some(Kind::Star2)
    } else if a == 0x2A && b == 0x3D {
        Some(Kind::StarEq)
    } else if a == 0x2F && b == 0x3D {
        Some(Kind::SlashEq)
    } else if a == 0x25 && b == 0x3D {
        Some(Kind::PercentEq)
    } else if a == 0x26 && b == 0x26 {
        Some(Kind::Amp2)
    } else if a == 0x26 && b == 0x3D {
        Some(Kind::AmpEq)
    } else if a == 0x7C && b == 0x7C {
        Some(Kind::Pipe2)
    } else if a == 0x7C && b == 0x3D {
        Some(Kind::PipeEq)
    } else if a == 0x5E && b == 0x3D {
        Some(Kind::CaretEq)
    } else {
        None
    }
}

/// The punctuator spelled by three bytes, if any.
pub open spec fn punct3(a: u8, b: u8, c: u8) -> Option<Kind> {
    if a == 0x2E && b == 0x2E && c == 0x2E {
        Some(Kind::Dot3)
    } else if a == 0x3F && b == 0x3F && c == 0x3D {
        Some(Kind::Question2Eq)
    } else if a == 0x3C && b == 0x3C && c == 0x3D {
        Some(Kind::ShiftLeftEq)
    } else if a == 0x3E && b == 0x3E && c == 0x3D {
        Some(Kind::ShiftRightEq)
    } else if a == 0x3E && b == 0x3E && c == 0x3E {
        Some(Kind::ShiftRight3)
    } else if a == 0x3D && b == 0x3D && c == 0x3D {
        Some(Kind::Eq3)
    } else if a == 0x21 && b == 0x3D && c == 0x3D {
        Some(Kind::Neq2)
    } else if a == 0x2A && b == 0x2A && c == 0x3D {
        Some(Kind::Star2Eq)
    } else if a == 0x26 && b == 0x26 && c == 0x3D {
        Some(Kind::Amp2Eq)
    } else if a == 0x7C && b == 0x7C && c == 0x3D {
        Some(Kind::Pipe2Eq)
    } else {
        None
    }
}

/// The punctuator spelled by four bytes, if any.
pub open spec fn punct4(a: u8, b: u8, c: u8, d: u8) -> Option<Kind> {
    if a == 0x3E && b == 0x3E && c == 0x3E && d == 0x3D {
        Some(Kind::ShiftRight3Eq)
    } else {
        None
    }
}

/// The punctuator that the `n` bytes at `pos` spell, if they lie in the text
/// and spell one.
pub open spec fn punct_of(text: Seq<u8>, pos: int, n: int) -> Option<Kind> {
    if pos < 0 || pos + n > text.len() {
        None
    } else if n == 1 {
        punct1(text[pos])
    } else if n == 2 {
        punct2(text[pos], text[pos + 1])
    } else if n == 3 {
        punct3(text[pos], text[pos + 1], text[pos + 2])
    } else if n == 4 {
        punct4(text[pos], text[pos + 1], text[pos + 2], text[pos + 3])
    } else {
        None
    }
}

/// Length of the longest punctuator spelled at `pos`, or 0 where none is.
pub open spec fn punct_len(text: Seq<u8>, pos: int) -> int {
    if punct_of(text, pos, 4) is Some {
        4
    } else if punct_of(text, pos, 3) is Some {
        3
    } else if punct_of(text, pos, 2) is Some {
        2
    } else if punct_of(text, pos, 1) is Some {
        1
    } else {
        0
    }
}

/// Number of bytes in the spelling of a punctuator kind, 0 for other kinds.
pub open spec fn spec_punct_width(kind: Kind) -> int {
    match kind {
        Kind::LParen | Kind::RParen | Kind::LBrack | Kind::RBrack | Kind::LCurly | Kind::RCurly
        | Kind::Semicolon | Kind::Comma | Kind::Colon | Kind::Dot | Kind::Tilde | Kind::At
        | Kind::Hash | Kind::Question | Kind::LAngle | Kind::RAngle | Kind::Eq | Kind::Bang
        | Kind::Plus | Kind::Minus | Kind::Star | Kind::Slash | Kind::Percent | Kind::Amp
        | Kind::Pipe | Kind::Caret => 1,
        Kind::Question2 | Kind::QuestionDot | Kind::LtEq | Kind::ShiftLeft | Kind::GtEq
        | Kind::ShiftRight | Kind::Eq2 | Kind::Arrow | Kind::Neq | Kind::Plus2 | Kind::PlusEq
        | Kind::Minus2 | Kind::MinusEq | Kind::Star2 | Kind::StarEq | Kind::SlashEq
        | Kind::PercentEq | Kind::Amp2 | Kind::AmpEq | Kind::Pipe2 | Kind::PipeEq
        | Kind::CaretEq => 2,
        Kind::Dot3 | Kind::Question2Eq | Kind::ShiftLeftEq | Kind::ShiftRightEq
        | Kind::ShiftRight3 | Kind::Eq3 | Kind::Neq2 | Kind::Star2Eq | Kind::Amp2Eq
        | Kind::Pipe2Eq => 3,
        Kind::ShiftRight3Eq => 4,
        _ => 0,
    }
}

pub fn punct_width(kind: Kind) -> (n: u32)
    ensures
        n == spec_punct_width(kind),
        n <= 4,
{
    match kind {
        Kind::LParen | Kind::RParen | Kind::LBrack | Kind::RBrack | Kind::LCurly | Kind::RCurly
        | Kind::Semicolon | Kind::Comma | Kind::Colon | Kind::Dot | Kind::Tilde | Kind::At
        | Kind::Hash | Kind::Question | Kind::LAngle | Kind::RAngle | Kind::Eq | Kind::Bang
        | Kind::Plus | Kind::Minus | Kind::Star | Kind::Slash | Kind::Percent | Kind::Amp
        | Kind::Pipe | Kind::Caret => 1,
        Kind::Question2 | Kind::QuestionDot | Kind::LtEq | Kind::ShiftLeft | Kind::GtEq
        | Kind::ShiftRight | Kind::Eq2 | Kind::Arrow | Kind::Neq | Kind::Plus2 | Kind::PlusEq
        | Kind::Minus2 | Kind::MinusEq | Kind::Star2 | Kind::StarEq | Kind::SlashEq
        | Kind::PercentEq | Kind::Amp2 | Kind::AmpEq | Kind::Pipe2 | Kind::PipeEq
        | Kind::CaretEq => 2,
        Kind::Dot3 | Kind::Question2Eq | Kind::ShiftLeftEq | Kind::ShiftRightEq
        | Kind::ShiftRight3 | Kind::Eq3 | Kind::Neq2 | Kind::Star2Eq | Kind::Amp2Eq
        | Kind::Pipe2Eq => 3,
        Kind::ShiftRight3Eq => 4,
        _ => 0,
    }
}

/// The punctuator at `pos` under the longest-match rule.
pub open spec fn punct_at(text: Seq<u8>, pos: int) -> Option<Kind> {
    punct_of(text, pos, punct_len(text, pos))
}

/// A punctuator found at `pos` is spelled there in full, as wide as its kind
/// says, and no longer punctuator is spelled at `pos`.
pub proof fn lemma_punct_at(text: Seq<u8>, pos: int)
    requires
        0 <= pos < text.len(),
    ensures
        punct_at(text, pos) matches Some(k) ==> spec_punct_width(k) == punct_len(text, pos)
            && 1 <= punct_len(text, pos) <= 4 && pos + punct_len(text, pos) <= text.len(),
        punct_at(text, pos) is None <==> punct_len(text, pos) == 0,
        forall|n: int| punct_len(text, pos) < n ==> punct_of(text, pos, n) is None,
{
}

/// Byte at `pos + k`, or 0 past the end (0 spells no punctuator).
fn byte_at(text: &[u8], pos: usize, k: usize) -> (b: u8)
    requires
        pos < text@.len(),
        k <= 3,
    ensures
        pos + k < text@.len() ==> b == text@[pos + k],
        pos + k >= text@.len() ==> b == 0,
{
    if k < text.len() - pos {
        text[pos + k]
    } else {
        0
    }
}

/// Finds the longest punctuator spelled at `pos`.
pub fn scan_punct(text: &[u8], pos: usize) -> (r: Option<(Kind, usize)>)
    requires
        pos < text@.len(),
    ensures
        match r {
            Some((k, n)) => punct_at(text@, pos as int) == Some(k) && n == punct_len(
                text@,
                pos as int,
            ),
            None => punct_at(text@, pos as int) is None,
        },
{
    let a = text[pos];
    let b = byte_at(text, pos, 1);
    let c = byte_at(text, pos, 2);
    let d = byte_at(text, pos, 3);
    let eq: u8 = 0x3D;
    match a {
        0x28 => Some((Kind::LParen, 1)),
        0x29 => Some((Kind::RParen, 1)),
        0x5B => Some((Kind::LBrack, 1)),
        0x5D => Some((Kind::RBrack, 1)),
        0x7B => Some((Kind::LCurly, 1)),
        0x7D => Some((Kind::RCurly, 1)),
        0x3B => Some((Kind::Semicolon, 1)),
        0x2C => Some((Kind::Comma, 1)),
        0x3A => Some((Kind::Colon, 1)),
        0x7E => Some((Kind::Tilde, 1)),
        0x40 => Some((Kind::At, 1)),
        0x23 => Some((Kind::Hash, 1)),
        0x2E => if b == a && c == a {
            Some((Kind::Dot3, 3))
        } else {
            Some((Kind::Dot, 1))
        },
        0x3F => if b == a {
            if c == eq {
                Some((Kind::Question2Eq, 3))
            } else {
                Some((Kind::Question2, 2))
            }
        } else if b == 0x2E {
            Some((Kind::QuestionDot, 2))
        } else {
            Some((Kind::Question, 1))
        },
        0x3C => if b == a {
            if c == eq {
                Some((Kind::ShiftLeftEq, 3))
            } else {
                Some((Kind::ShiftLeft, 2))
            }
        } else if b == eq {
            Some((Kind::LtEq, 2))
        } else {
            Some((Kind::LAngle, 1))
        },
        0x3E => if b == a {
            if c == a {
                if d == eq {
                    Some((Kind::ShiftRight3Eq, 4))
                } else {
                    Some((Kind::ShiftRight3, 3))
                }
            } else if c == eq {
                Some((Kind::ShiftRightEq, 3))
            } else {
                Some((Kind::ShiftRight, 2))
            }
        } else if b == eq {
            Some((Kind::GtEq, 2))
        } else {
            Some((Kind::RAngle, 1))
        },
        0x3D => if b == a {
            if c == a {
                Some((Kind::Eq3, 3))
            } else {
                Some((Kind::Eq2, 2))
            }
        } else if b == 0x3E {
            Some((Kind::Arrow, 2))
        } else {
            Some((Kind::Eq, 1))
        },
        0x21 => if b == eq {
            if c == eq {
                Some((Kind::Neq2, 3))
            } else {
                Some((Kind::Neq, 2))
            }
        } else {
            Some((Kind::Bang, 1))
        },
        0x2B => if b == a {
            Some((Kind::Plus2, 2))
        } else if b == eq {
            Some((Kind::PlusEq, 2))
        } else {
            Some((Kind::Plus, 1))
        },
        0x2D => if b == a {
            Some((Kind::Minus2, 2))
        } else if b == eq {
            Some((Kind::MinusEq, 2))
        } else {
            Some((Kind::Minus, 1))
        },
        0x2A => if b == a {
            if c == eq {
                Some((Kind::Star2Eq, 3))
            } else {
                Some((Kind::Star2, 2))
            }
        } else if b == eq {
            Some((Kind::StarEq, 2))
        } else {
            Some((Kind::Star, 1))
        },
        0x2F => if b == eq {
            Some((Kind::SlashEq, 2))
        } else {
            Some((Kind::Slash, 1))
        },
        0x25 => if b == eq {
            Some((Kind::PercentEq, 2))
        } else {
            Some((Kind::Percent, 1))
        },
        0x26 => if b == a {
            if c == eq {
                Some((Kind::Amp2Eq, 3))
            } else {
                Some((Kind::Amp2, 2))
            }
        } else if b == eq {
            Some((Kind::AmpEq, 2))
        } else {
            Some((Kind::Amp, 1))
        },
        0x7C => if b == a {
            if c == eq {
                Some((Kind::Pipe2Eq, 3))
            } else {
                Some((Kind::Pipe2, 2))
            }
        } else if b == eq {
            Some((Kind::PipeEq, 2))
        } else {
            Some((Kind::Pipe, 1))
        },
        0x5E => if b == eq {
            Some((Kind::CaretEq, 2))
        } else {
            Some((Kind::Caret, 1))
        },
        _ => None,
    }
}

} // verus!
