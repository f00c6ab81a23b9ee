//! Identifiers and the reserved words among them.

use vstd::prelude::*;
use crate::token::Kind;

verus! {

/// The kind of the word that fills `text[start..end)`: one of the reserved
/// words `return`, `let`, `const`, `var`, `true`, `false`, `null`, or an
/// identifier.
pub open spec fn word_kind(text: Seq<u8>, start: int, end: int) -> Kind {
    let w = text.subrange(start, end);
    if w =~= seq![0x72u8, 0x65, 0x74, 0x75, 0x72, 0x6E] {
        Kind::Return
    } else if w =~= seq![0x6Cu8, 0x65, 0x74] {
        Kind::Let
    } else if w =~= seq![0x63u8, 0x6F, 0x6E, 0x73, 0x74] {
        Kind::Const
    } else if w =~= seq![0x76u8, 0x61, 0x72] {
        Kind::Var
    } else if w =~= seq![0x74u8, 0x72, 0x75, 0x65] {
        Kind::True
    } else if w =~= seq![0x66u8, 0x61, 0x6C, 0x73, 0x65] {
        Kind::False
    } else if w =~= seq![0x6Eu8, 0x75, 0x6C, 0x6C] {
        Kind::Null
    } else {
        Kind::Ident
    }
}

/// Classifies the word that fills `text[start..end)`.
pub fn classify_word(text: &[u8], start: usize, end: usize) -> (k: Kind)
    requires
        start <= end <= text@.len(),
    ensures
        k == word_kind(text@, start as int, end as int),
{
    let len: usize = end - start;
    let ghost w = text@.subrange(start as int, end as int);
    proof {
        assert(forall|j: int| 0 <= j < len ==> w[j] == text@[start + j]);
    }
    if len == 0 {
        return Kind::Ident;
    }
    let a = text[start];
    if len == 6 {
        if a == 0x72 && text[start + 1] == 0x65 && text[start + 2] == 0x74 && text[start + 3]
            == 0x75 && text[start + 4] == 0x72 && text[start + 5] == 0x6E {
            return Kind::Return;
        }
        assert(w[0] == a && w[1] == text@[start + 1] && w[2] == text@[start + 2] && w[3] == text@[start + 3]
            && w[4] == text@[start + 4] && w[5] == text@[start + 5]);
        Kind::Ident
    } else if len == 5 {
        let b = text[start + 1];
        let c = text[start + 2];
        let d = text[start + 3];
        let e = text[start + 4];
        assert(w[0] == a && w[1] == b && w[2] == c && w[3] == d && w[4] == e);
        if a == 0x63 && b == 0x6F && c == 0x6E && d == 0x73 && e == 0x74 {
            Kind::Const
        } else if a == 0x66 && b == 0x61 && c == 0x6C && d == 0x73 && e == 0x65 {
            Kind::False
        } else {
            Kind::Ident
        }
    } else if len == 4 {
        let b = text[start + 1];
        let c = text[start + 2];
        let d = text[start + 3];
        assert(w[0] == a && w[1] == b && w[2] == c && w[3] == d);
        if a == 0x74 && b == 0x72 && c == 0x75 && d == 0x65 {
            Kind::True
        } else if a == 0x6E && b == 0x75 && c == 0x6C && d == 0x6C {
            Kind::Null
        } else {
            Kind::Ident
        }
    } else if len == 3 {
        let b = text[start + 1];
        let c = text[start + 2];
        assert(w[0] == a && w[1] == b && w[2] == c);
        if a == 0x6C && b == 0x65 && c == 0x74 {
            Kind::Let
        } else if a == 0x76 && b == 0x61 && c == 0x72 {
            Kind::Var
        } else {
            Kind::Ident
        }
    } else {
        Kind::Ident
    }
}

} // verus!
