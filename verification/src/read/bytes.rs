//! Spans, and the cursor that walks the bytes of a text.

use crate::lexeme::{byte_is_whitespace, lemma_run_end_from_inside, run_end, ByteClass};
use core::ops::Range;
use crate::utf8::lemma_boundary_in_prefix;
use vstd::prelude::*;
use vstd::string::*;
use vstd::utf8::*;

verus! {

/// An offset into the text that a value was read from.
pub type Index = u32;

/// A value together with the half-open range of the text it was read from.
#[derive(Debug, PartialEq)]
pub struct Span<T> {
    pub value: T,
    pub range: Range<Index>,
}

impl<T: Clone> Clone for Span<T> {
    fn clone(&self) -> (r: Self)
        ensures
            r.range == self.range,
            cloned::<T>(self.value, r.value),
    {
        Span {
            value: self.value.clone(),
            range: Range { start: self.range.start, end: self.range.end },
        }
    }
}

/// The offset that stands for the place `pos`: `pos` itself while it fits,
/// its low 32 bits beyond that.
pub open spec fn to_index(pos: int) -> Index {
    (pos % 0x1_0000_0000) as u32
}

/// The offset that stands for `pos`.
pub fn index_of(pos: usize) -> (r: Index)
    ensures
        r == to_index(pos as int),
{
    let wide: u64 = pos as u64;
    assert(wide & 0xffff_ffff == wide % 0x1_0000_0000) by (bit_vector);
    (wide & 0xffff_ffff) as u32
}

/// A place in a text, from which the bytes are read one by one.
pub struct Cursor<'a> {
    text: &'a str,
    next: usize,
}

impl<'a> Cursor<'a> {
    /// The text that the cursor walks.
    pub closed spec fn source(&self) -> &'a str {
        self.text
    }

    /// The bytes of the text that the cursor walks.
    pub open spec fn text(&self) -> Seq<u8> {
        self.source().spec_bytes()
    }

    /// The number of bytes that the cursor has passed.
    pub closed spec fn position(&self) -> int {
        self.next as int
    }

    /// The cursor stands inside its text or at its end.
    pub closed spec fn wf(&self) -> bool {
        self.next <= self.text.spec_bytes().len()
    }

    /// In a well-formed cursor the position lies inside the text or at its
    /// end.
    pub proof fn lemma_wf(&self)
        requires
            self.wf(),
        ensures
            0 <= self.position() <= self.text().len(),
    {
    }

    /// A cursor at the start of `slice`.
    #[inline]
    pub fn new(slice: &'a str) -> (r: Self)
        ensures
            r.wf(),
            r.source() == slice,
            r.position() == 0,
    {
        Self { text: slice, next: 0 }
    }

    /// The next byte, or `None` at the end of the text. The cursor stays
    /// where it is.
    #[inline]
    pub fn peek(&self) -> (r: Option<u8>)
        requires
            self.wf(),
        ensures
            r == if self.position() < self.text().len() {
                Some(self.text()[self.position()])
            } else {
                None::<u8>
            },
    {
        let bytes = self.text.as_bytes();
        if self.next == bytes.len() {
            None
        } else {
            Some(bytes[self.next])
        }
    }

    /// Passes one byte; at the end of the text the cursor stays.
    #[inline]
    pub fn advance(&mut self)
        requires
            old(self).wf(),
        ensures
            final(self).wf(),
            final(self).source() == old(self).source(),
            final(self).position() == if old(self).position() < old(self).text().len() {
                old(self).position() + 1
            } else {
                old(self).position()
            },
    {
        if self.next != self.text.as_bytes().len() {
            self.next += 1;
        }
    }

    /// Passes the ASCII whitespace that follows, up to the first byte that is
    /// none.
    pub fn skip_whitespace(&mut self)
        requires
            old(self).wf(),
        ensures
            final(self).wf(),
            final(self).source() == old(self).source(),
            final(self).position() == run_end(
                old(self).text(),
                old(self).position(),
                ByteClass::Whitespace,
            ),
    {
        let ghost start = self.position();
        loop
            invariant
                self.wf(),
                self.source() == old(self).source(),
                start == old(self).position(),
                start <= self.position() <= self.text().len(),
                forall|i: int|
                    start <= i < self.position() ==> ByteClass::Whitespace.holds(
                        #[trigger] self.text()[i],
                    ),
            ensures
                self.wf(),
                self.source() == old(self).source(),
                self.position() == run_end(self.text(), start, ByteClass::Whitespace),
            decreases self.text().len() - self.position(),
        {
            proof {
                lemma_run_end_from_inside(
                    self.text(),
                    start,
                    self.position(),
                    ByteClass::Whitespace,
                );
            }
            match self.peek() {
                Some(byte) => {
                    if !byte_is_whitespace(byte) {
                        break ;
                    }
                    self.advance();
                },
                None => {
                    break ;
                },
            }
        }
    }

    /// The text between two places that `pointer` gave, or `None` if they
    /// are not in order, do not lie inside the text, or cut a character in
    /// two.
    pub fn slice(&self, start: usize, end: usize) -> (r: Option<&'a str>)
        requires
            self.wf(),
        ensures
            r is Some <==> start <= end && is_char_boundary(self.text(), start as int)
                && is_char_boundary(self.text(), end as int),
            r matches Some(piece) ==> piece.spec_bytes() == self.text().subrange(
                start as int,
                end as int,
            ),
    {
        if start > end || !self.text.is_char_boundary(start) || !self.text.is_char_boundary(end) {
            return None;
        }
        proof {
            encode_utf8_valid_utf8(self.text@);
            lemma_boundary_in_prefix(self.text(), start as int, end as int);
        }
        let (head, _) = self.text.split_at(end);
        let (_, piece) = head.split_at(start);
        proof {
            assert(piece.spec_bytes() =~= self.text().subrange(start as int, end as int));
        }
        Some(piece)
    }

    /// The offset of the next byte.
    #[inline]
    pub fn index(&self) -> (r: Index)
        requires
            self.wf(),
        ensures
            r == to_index(self.position()),
    {
        index_of(self.next)
    }

    /// The number of bytes passed so far, by which the text can be sliced.
    #[inline]
    pub fn pointer(&self) -> (r: usize)
        requires
            self.wf(),
        ensures
            r == self.position(),
    {
        self.next
    }
}

} // verus!
