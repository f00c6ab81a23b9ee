//! The cursor: a position in the source text that always rests on a
//! code-point boundary.

use vstd::prelude::*;
use vstd::string::StringSliceAdditionalSpecFns;
use vstd::utf8::{
    decode_first_scalar, is_char_boundary, is_char_boundary_iff_not_is_continuation_byte,
    is_char_boundary_start_end_of_seq, is_scalar, length_of_first_scalar,
    pop_first_scalar, valid_first_scalar, valid_utf8, valid_utf8_split,
};

verus! {

/// `index` touches an ASCII byte or the end of the text.
pub open spec fn ascii_adjacent(text: Seq<u8>, index: int) -> bool {
    0 <= index <= text.len() && (index == text.len() || text[index] < 0x80 || (index > 0
        && text[index - 1] < 0x80))
}

/// In well-formed text a code point starts right behind every ASCII byte.
pub proof fn lemma_boundary_after_ascii(text: Seq<u8>, i: int)
    requires
        valid_utf8(text),
        0 <= i < text.len(),
        text[i] < 0x80,
    ensures
        is_char_boundary(text, i + 1),
    decreases text.len(),
{
    reveal_with_fuel(valid_utf8, 2);
    reveal_with_fuel(is_char_boundary, 2);
    let width = length_of_first_scalar(text);
    if i < width {
        assert(i == 0);
        assert(width == 1);
        is_char_boundary_start_end_of_seq(pop_first_scalar(text));
    } else {
        let rest = pop_first_scalar(text);
        assert(rest[i - width] == text[i]);
        lemma_boundary_after_ascii(rest, i - width);
    }
}

/// In well-formed text every index that touches an ASCII byte, and the end of
/// the text, is a code-point boundary.
pub proof fn lemma_ascii_adjacent_is_boundary(text: Seq<u8>, index: int)
    requires
        valid_utf8(text),
        ascii_adjacent(text, index),
    ensures
        is_char_boundary(text, index),
{
    if index == text.len() {
        is_char_boundary_start_end_of_seq(text);
    } else if text[index] < 0x80 {
        is_char_boundary_iff_not_is_continuation_byte(text, index);
    } else {
        lemma_boundary_after_ascii(text, index - 1);
    }
}

/// Number of bytes of the code point whose first byte is `lead`.
pub open spec fn spec_width_of(lead: u8) -> int {
    if lead < 0x80 {
        1
    } else if lead < 0xE0 {
        2
    } else if lead < 0xF0 {
        3
    } else {
        4
    }
}

/// In well-formed text the code point that starts on a boundary ends on the
/// next one, inside the text.
pub proof fn lemma_next_boundary(text: Seq<u8>, index: int)
    requires
        valid_utf8(text),
        0 <= index < text.len(),
        is_char_boundary(text, index),
    ensures
        index + spec_width_of(text[index]) <= text.len(),
        is_char_boundary(text, index + spec_width_of(text[index])),
    decreases text.len(),
{
    reveal_with_fuel(valid_utf8, 2);
    reveal_with_fuel(is_char_boundary, 2);
    let width = length_of_first_scalar(text);
    let rest = pop_first_scalar(text);
    if index == 0 {
        is_char_boundary_start_end_of_seq(rest);
    } else {
        assert(index >= width) by {
            if index < width {
                is_char_boundary_iff_not_is_continuation_byte(text, index);
            }
        }
        assert(rest[index - width] == text[index]);
        lemma_next_boundary(rest, index - width);
    }
}

/// Calls `char::from_u32`. Trusted: a scalar value comes back as the `char`
/// it is, any other number as `None`.
#[verifier::external_body]
fn char_from_scalar(u: u32) -> (r: Option<char>)
    ensures
        r == (if is_scalar(u) {
            Some(u as char)
        } else {
            None::<char>
        }),
{
    char::from_u32(u)
}

/// A read position in a source text.
pub struct Cursor<'a> {
    text: &'a [u8],
    offset: usize,
}

impl<'a> Cursor<'a> {
    /// The bytes under the cursor's text.
    pub closed spec fn text(&self) -> Seq<u8> {
        self.text@
    }

    /// The byte offset the cursor rests on.
    pub closed spec fn offset(&self) -> int {
        self.offset as int
    }

    /// The text is well-formed and the cursor rests on one of its code-point
    /// boundaries.
    pub open spec fn wf(&self) -> bool {
        &&& valid_utf8(self.text())
        &&& 0 <= self.offset() <= self.text().len()
        &&& is_char_boundary(self.text(), self.offset())
    }

    /// A cursor at the start of `source`.
    pub fn new(source: &'a str) -> (c: Cursor<'a>)
        ensures
            c.wf(),
            c.text() == source.spec_bytes(),
            c.offset() == 0,
    {
        let text = source.as_bytes();
        proof {
            vstd::utf8::encode_utf8_valid_utf8(source@);
            is_char_boundary_start_end_of_seq(text@);
        }
        Cursor { text, offset: 0 }
    }

    /// The bytes of the text.
    pub fn bytes(&self) -> (b: &'a [u8])
        ensures
            b@ == self.text(),
    {
        self.text
    }

    /// The byte offset the cursor rests on.
    pub fn position(&self) -> (p: usize)
        ensures
            p == self.offset(),
    {
        self.offset
    }

    /// The rest of the text from the cursor on.
    pub open spec fn rest(&self) -> Seq<u8> {
        self.text().subrange(self.offset(), self.text().len() as int)
    }

    /// What `peek` reads: the code point that starts at the cursor, if any.
    pub open spec fn spec_peek(&self) -> Option<char> {
        if self.offset() < self.text().len() && is_scalar(decode_first_scalar(self.rest())) {
            Some(decode_first_scalar(self.rest()) as char)
        } else {
            None
        }
    }

    /// Decodes the code point that starts at the cursor.
    fn decode(&self) -> (u: u32)
        requires
            self.wf(),
            self.offset() < self.text().len(),
        ensures
            u == decode_first_scalar(self.rest()),
            is_scalar(u),
            self.offset() + spec_width_of(self.text()[self.offset()]) <= self.text().len(),
    {
        let i: usize = self.offset;
        let b0: u8 = self.text[i];
        proof {
            reveal_with_fuel(valid_utf8, 2);
            valid_utf8_split(self.text@, i as int);
            lemma_next_boundary(self.text@, i as int);
            assert(valid_first_scalar(self.rest()));
            assert(self.rest()[0] == b0);
        }
        if b0 < 0x80 {
            assert(b0 & 0x7F <= 0x7F) by (bit_vector);
            (b0 & 0x7F) as u32
        } else if b0 < 0xE0 {
            let b1: u8 = self.text[i + 1];
            assert(self.rest()[1] == b1);
            let hi: u32 = (b0 & 0x1F) as u32;
            let lo: u32 = (b1 & 0x3F) as u32;
            assert(b0 & 0x1F <= 0x1F) by (bit_vector);
            assert(b1 & 0x3F <= 0x3F) by (bit_vector);
            assert((hi << 6) | lo <= 0x7FF) by (bit_vector)
                requires
                    hi <= 0x1F,
                    lo <= 0x3F,
            ;
            (hi << 6) | lo
        } else if b0 < 0xF0 {
            let b1: u8 = self.text[i + 1];
            let b2: u8 = self.text[i + 2];
            assert(self.rest()[1] == b1 && self.rest()[2] == b2);
            let hi: u32 = (b0 & 0x0F) as u32;
            let mid: u32 = (b1 & 0x3F) as u32;
            let lo: u32 = (b2 & 0x3F) as u32;
            assert(b0 & 0x0F <= 0x0F) by (bit_vector);
            assert(b1 & 0x3F <= 0x3F) by (bit_vector);
            assert(b2 & 0x3F <= 0x3F) by (bit_vector);
            assert((hi << 12) | (mid << 6) | lo <= 0xFFFF) by (bit_vector)
                requires
                    hi <= 0x0F,
                    mid <= 0x3F,
                    lo <= 0x3F,
            ;
            (hi << 12) | (mid << 6) | lo
        } else {
            let b1: u8 = self.text[i + 1];
            let b2: u8 = self.text[i + 2];
            let b3: u8 = self.text[i + 3];
            assert(self.rest()[1] == b1 && self.rest()[2] == b2 && self.rest()[3] == b3);
            let top: u32 = (b0 & 0x07) as u32;
            let hi: u32 = (b1 & 0x3F) as u32;
            let mid: u32 = (b2 & 0x3F) as u32;
            let lo: u32 = (b3 & 0x3F) as u32;
            (top << 18) | (hi << 12) | (mid << 6) | lo
        }
    }

    /// The code point at the cursor, or `None` at the end of the text.
    pub fn peek(&self) -> (c: Option<char>)
        requires
            self.wf(),
        ensures
            c == self.spec_peek(),
            c is Some <==> self.offset() < self.text().len(),
    {
        if self.offset < self.text.len() {
            char_from_scalar(self.decode())
        } else {
            None
        }
    }

    /// Steps over the code point at the cursor and returns it; at the end of
    /// the text the cursor stays and `None` comes back.
    pub fn advance(&mut self) -> (c: Option<char>)
        requires
            old(self).wf(),
        ensures
            final(self).wf(),
            final(self).text() == old(self).text(),
            c == old(self).spec_peek(),
            c is Some <==> old(self).offset() < old(self).text().len(),
            final(self).offset() == (if c is Some {
                old(self).offset() + spec_width_of(old(self).text()[old(self).offset()])
            } else {
                old(self).offset()
            }),
    {
        if self.offset < self.text.len() {
            let lead = self.text[self.offset];
            let c = char_from_scalar(self.decode());
            proof {
                lemma_next_boundary(self.text@, self.offset as int);
            }
            let width: usize = if lead < 0x80 {
                1
            } else if lead < 0xE0 {
                2
            } else if lead < 0xF0 {
                3
            } else {
                4
            };
            self.offset = self.offset + width;
            c
        } else {
            None
        }
    }

    /// Moves the cursor to `offset`, forward or back. Only a code-point
    /// boundary of the text may be sought.
    pub fn seek(&mut self, offset: usize)
        requires
            old(self).wf(),
            is_char_boundary(old(self).text(), offset as int),
            offset <= old(self).text().len(),
        ensures
            final(self).wf(),
            final(self).text() == old(self).text(),
            final(self).offset() == offset,
    {
        self.offset = offset;
    }
}

} // verus!
