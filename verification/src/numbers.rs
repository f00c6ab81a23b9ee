//! Numeric literals.
//!
//! By ASCII code: `0x30` is `0`, `0x2E` is `.`, `0x78`/`0x58` are `x`/`X`,
//! `0x65`/`0x45` are `e`/`E`, `0x2B`/`0x2D` are `+`/`-`.

use vstd::prelude::*;
use crate::chars::{is_ident_start, spec_is_ident_start};
use crate::runs::{lemma_run_end, run_end, scan_run, ByteClass};

verus! {

/// Where a numeric literal ends and whether it is well formed.
pub struct Numeric {
    pub end: int,
    pub valid: bool,
}

/// Outcome of `scan_number`.
#[derive(Clone, Copy, Debug, PartialEq, Eq, Structural)]
pub struct NumericScan {
    pub end: usize,
    pub valid: bool,
}

impl View for NumericScan {
    type V = Numeric;

    open spec fn view(&self) -> Numeric {
        Numeric { end: self.end as int, valid: self.valid }
    }
}

/// `pos` holds `0x` or `0X`.
pub open spec fn is_hex_prefix(text: Seq<u8>, pos: int) -> bool {
    0 <= pos && pos + 1 < text.len() && text[pos] == 0x30 && (text[pos + 1] == 0x78 || text[pos + 1]
        == 0x58)
}

/// End of the digits and the optional fraction of a decimal literal at `pos`.
pub open spec fn mantissa_end(text: Seq<u8>, pos: int) -> int {
    let int_end = run_end(text, pos, ByteClass::Digit);
    if 0 <= int_end < text.len() && text[int_end] == 0x2E {
        run_end(text, int_end + 1, ByteClass::Digit)
    } else {
        int_end
    }
}

/// `at` holds the `e` or `E` of an exponent.
pub open spec fn is_exponent_mark(text: Seq<u8>, at: int) -> bool {
    0 <= at < text.len() && (text[at] == 0x65 || text[at] == 0x45)
}

/// Where the digits of an exponent start whose mark is at `at`: behind the
/// mark and an optional sign.
pub open spec fn exponent_digits_start(text: Seq<u8>, at: int) -> int {
    if at + 1 < text.len() && (text[at + 1] == 0x2B || text[at + 1] == 0x2D) {
        at + 2
    } else {
        at + 1
    }
}

/// The literal up to the point where a number may end: hex digits behind
/// `0x`, or digits, fraction and exponent. It is invalid where `0x` or an
/// exponent mark is followed by no digit.
pub open spec fn number_core(text: Seq<u8>, pos: int) -> Numeric {
    if is_hex_prefix(text, pos) {
        let end = run_end(text, pos + 2, ByteClass::HexDigit);
        Numeric { end, valid: end > pos + 2 }
    } else {
        let m = mantissa_end(text, pos);
        if is_exponent_mark(text, m) {
            let s = exponent_digits_start(text, m);
            let end = run_end(text, s, ByteClass::Digit);
            Numeric { end, valid: end > s }
        } else {
            Numeric { end: m, valid: true }
        }
    }
}

/// The numeric literal at `pos`. Identifier bytes that follow the number
/// without a break are swept into it and make it invalid.
pub open spec fn number_literal(text: Seq<u8>, pos: int) -> Numeric {
    let core = number_core(text, pos);
    if 0 <= core.end < text.len() && spec_is_ident_start(text[core.end]) {
        Numeric { end: run_end(text, core.end, ByteClass::IdentPart), valid: false }
    } else {
        core
    }
}

/// A numeric literal that starts on a digit, or on a `.` before a digit, is
/// not empty and ends inside the text.
pub proof fn lemma_number_literal(text: Seq<u8>, pos: int)
    requires
        0 <= pos < text.len(),
        ByteClass::Digit.spec_holds(text[pos]) || (text[pos] == 0x2E && pos + 1 < text.len()
            && ByteClass::Digit.spec_holds(text[pos + 1])),
    ensures
        pos < number_core(text, pos).end <= number_literal(text, pos).end <= text.len(),
{
    lemma_run_end(text, pos, ByteClass::Digit);
    lemma_run_end(text, pos + 1, ByteClass::Digit);
    if pos + 2 <= text.len() {
        lemma_run_end(text, pos + 2, ByteClass::HexDigit);
        lemma_run_end(text, pos + 2, ByteClass::Digit);
    }
    let int_end = run_end(text, pos, ByteClass::Digit);
    if int_end < text.len() {
        lemma_run_end(text, int_end + 1, ByteClass::Digit);
    }
    let m = mantissa_end(text, pos);
    if !is_hex_prefix(text, pos) && is_exponent_mark(text, m) {
        lemma_run_end(text, exponent_digits_start(text, m), ByteClass::Digit);
    }
    let core = number_core(text, pos);
    lemma_run_end(text, core.end, ByteClass::IdentPart);
}

/// Scans the numeric literal at `pos`.
pub fn scan_number(text: &[u8], pos: usize) -> (r: NumericScan)
    requires
        pos < text@.len(),
    ensures
        r@ == number_literal(text@, pos as int),
        pos <= r.end <= text@.len(),
        ByteClass::Digit.spec_holds(text@[pos as int]) || (text@[pos as int] == 0x2E && pos + 1
            < text@.len() && ByteClass::Digit.spec_holds(text@[pos + 1])) ==> pos < r.end,
{
    let n: usize = text.len();
    proof {
        if ByteClass::Digit.spec_holds(text@[pos as int]) || (text@[pos as int] == 0x2E && pos + 1
            < text@.len() && ByteClass::Digit.spec_holds(text@[pos + 1])) {
            lemma_number_literal(text@, pos as int);
        }
    }
    let mut end: usize;
    let mut valid: bool;
    if text[pos] == 0x30 && n - pos > 1 && (text[pos + 1] == 0x78 || text[pos + 1] == 0x58) {
        end = scan_run(text, pos + 2, ByteClass::HexDigit);
        valid = end > pos + 2;
    } else {
        let int_end = scan_run(text, pos, ByteClass::Digit);
        let m = if int_end < n && text[int_end] == 0x2E {
            scan_run(text, int_end + 1, ByteClass::Digit)
        } else {
            int_end
        };
        if m < n && (text[m] == 0x65 || text[m] == 0x45) {
            let s: usize = if n - m > 1 && (text[m + 1] == 0x2B || text[m + 1] == 0x2D) {
                m + 2
            } else {
                m + 1
            };
            end = scan_run(text, s, ByteClass::Digit);
            valid = end > s;
        } else {
            end = m;
            valid = true;
        }
    }
    if end < n && is_ident_start(text[end]) {
        end = scan_run(text, end, ByteClass::IdentPart);
        valid = false;
    }
    NumericScan { end, valid }
}

} // verus!
