//! The cursor that walks two segments of text as if they were one.

use crate::lexeme::{byte_is_whitespace, lemma_run_end_from_inside, run_end, ByteClass};
use crate::read::bytes::to_index;
use crate::utf8::lemma_encode_concat;
use vstd::arithmetic::div_mod::lemma_add_mod_noop;
use vstd::prelude::*;
use vstd::string::*;

pub use crate::read::bytes::{Index, Span};

verus! {

/// A place in the text that two segments make up together. It stands either
/// in the left segment, before one of its bytes, or in the right segment,
/// before one of its bytes or at its end.
pub struct Cursor<'a> {
    left: &'a str,
    right: &'a str,
    in_right: bool,
    offset: usize,
}

/// Two segments hold the bytes of the text that they make up together, so
/// that a cursor over them reads what a cursor over the joined text reads.
pub proof fn lemma_segments_join(left: &str, right: &str, joined: &str)
    requires
        joined@ == left@ + right@,
    ensures
        joined.spec_bytes() == left.spec_bytes() + right.spec_bytes(),
{
    lemma_encode_concat(left@, right@);
}

impl<'a> Cursor<'a> {
    /// The two segments that the cursor walks.
    pub closed spec fn segments(&self) -> (&'a str, &'a str) {
        (self.left, self.right)
    }

    /// The bytes of the whole text: those of the left segment, then those of
    /// the right one.
    pub open spec fn text(&self) -> Seq<u8> {
        self.segments().0.spec_bytes() + self.segments().1.spec_bytes()
    }

    /// The number of bytes that the cursor has passed, in both segments
    /// together.
    pub closed spec fn position(&self) -> int {
        if self.in_right {
            self.left.spec_bytes().len() + self.offset
        } else {
            self.offset as int
        }
    }

    /// The cursor stands before a byte of the left segment, or in the right
    /// segment or at its end.
    pub closed spec fn wf(&self) -> bool {
        if self.in_right {
            self.offset <= self.right.spec_bytes().len()
        } else {
            self.offset < self.left.spec_bytes().len()
        }
    }

    /// In a well-formed cursor the position lies inside the text or at its
    /// end.
    pub proof fn lemma_wf(&self)
        requires
            self.wf(),
        ensures
            0 <= self.position() <= self.text().len(),
    {
    }

    /// A cursor at the start of the text that `partition.0` and
    /// `partition.1` make up.
    #[inline]
    pub fn new(partition: (&'a str, &'a str)) -> (r: Self)
        ensures
            r.wf(),
            r.segments() == partition,
            r.position() == 0,
    {
        let (left, right) = partition;
        Cursor { left, right, in_right: left.as_bytes().len() == 0, offset: 0 }
    }

    /// The next byte, or `None` at the end of the text. Behind the last byte
    /// of the left segment comes the first byte of the right one.
    #[inline]
    pub fn peek(&self) -> (r: Option<u8>)
        requires
            self.wf(),
        ensures
            r == if self.position() < self.text().len() {
                Some(self.text()[self.position()])
            } else {
                None::<u8>
            },
    {
        if self.in_right {
            let bytes = self.right.as_bytes();
            if self.offset == bytes.len() {
                None
            } else {
                Some(bytes[self.offset])
            }
        } else {
            Some(self.left.as_bytes()[self.offset])
        }
    }

    /// Passes one byte, stepping from the end of the left segment to the
    /// start of the right one; at the end of the text the cursor stays.
    #[inline]
    pub fn advance(&mut self)
        requires
            old(self).wf(),
        ensures
            final(self).wf(),
            final(self).segments() == old(self).segments(),
            final(self).position() == if old(self).position() < old(self).text().len() {
                old(self).position() + 1
            } else {
                old(self).position()
            },
    {
        if self.in_right {
            if self.offset != self.right.as_bytes().len() {
                self.offset += 1;
            }
        } else {
            let size = self.left.as_bytes().len();
            if self.offset == size - 1 {
                self.in_right = true;
                self.offset = 0;
            } else {
                self.offset += 1;
            }
        }
    }

    /// Passes the ASCII whitespace that follows, up to the first byte that is
    /// none.
    #[inline]
    pub fn skip_whitespace(&mut self)
        requires
            old(self).wf(),
        ensures
            final(self).wf(),
            final(self).segments() == old(self).segments(),
            final(self).position() == run_end(
                old(self).text(),
                old(self).position(),
                ByteClass::Whitespace,
            ),
    {
        let ghost start = self.position();
        loop
            invariant
                self.wf(),
                self.segments() == old(self).segments(),
                start == old(self).position(),
                0 <= start <= self.position() <= self.text().len(),
                forall|i: int|
                    start <= i < self.position() ==> ByteClass::Whitespace.holds(
                        #[trigger] self.text()[i],
                    ),
            ensures
                self.wf(),
                self.segments() == old(self).segments(),
                self.position() == run_end(self.text(), start, ByteClass::Whitespace),
            decreases self.text().len() - self.position(),
        {
            proof {
                lemma_run_end_from_inside(
                    self.text(),
                    start,
                    self.position(),
                    ByteClass::Whitespace,
                );
            }
            match self.peek() {
                Some(byte) => {
                    if !byte_is_whitespace(byte) {
                        break ;
                    }
                    self.advance();
                },
                None => {
                    break ;
                },
            }
        }
    }

    /// The offset of the next byte in the whole text.
    #[inline]
    pub fn index(&self) -> (r: Index)
        requires
            self.wf(),
        ensures
            r == to_index(self.position()),
    {
        let passed: u64 = if self.in_right {
            self.left.as_bytes().len() as u64
        } else {
            0
        };
        let here: u64 = self.offset as u64;
        let low_passed: u64 = passed & 0xffff_ffff;
        let low_here: u64 = here & 0xffff_ffff;
        assert(low_passed == passed % 0x1_0000_0000 && low_passed <= 0xffff_ffff) by (bit_vector)
            requires
                low_passed == passed & 0xffff_ffff,
        ;
        assert(low_here == here % 0x1_0000_0000 && low_here <= 0xffff_ffff) by (bit_vector)
            requires
                low_here == here & 0xffff_ffff,
        ;
        let sum: u64 = low_passed + low_here;
        assert(sum & 0xffff_ffff == sum % 0x1_0000_0000) by (bit_vector);
        proof {
            lemma_add_mod_noop(passed as int, here as int, 0x1_0000_0000);
        }
        (sum & 0xffff_ffff) as u32
    }
}

} // verus!
