//! The gap buffer that holds the command line while it is edited.
//!
//! The text lives in one fixed byte array. What is left of the edit cursor
//! sits at the front, what is right of it at the back, and the unused gap lies
//! between the two. Both live parts are UTF-8 at all times.

pub mod edits;

use crate::utf8::{
    is_continuation, lemma_encode_concat, lemma_encode_push, lemma_encode_split, lemma_first_scalar,
    lemma_last_scalar, lemma_utf8_len_bounds, utf8_len, width_of_leading,
};
use core::ops::Range;
use vstd::prelude::*;
use vstd::slice::slice_subrange;
use vstd::string::*;
use vstd::utf8::*;

verus! {

/// What a text box holds: the characters on either side of the cursor and the
/// number of bytes it has room for.
pub struct TextBoxView {
    pub left: Seq<char>,
    pub right: Seq<char>,
    pub capacity: nat,
}

impl TextBoxView {
    /// The whole text, as a buffer without a gap would hold it.
    pub open spec fn text(self) -> Seq<char> {
        self.left + self.right
    }

    /// The cursor's place in the text, counted in characters.
    pub open spec fn cursor(self) -> nat {
        self.left.len()
    }

    /// The number of unused bytes between the two parts.
    pub open spec fn gap(self) -> int {
        self.capacity - utf8_len(self.left) - utf8_len(self.right)
    }

    /// The bytes of the whole text.
    pub open spec fn bytes(self) -> Seq<u8> {
        encode_utf8(self.text())
    }

    /// The bytes of `[start, end)` that lie in front of the cursor.
    pub open spec fn range_left(self, start: int, end: int) -> Seq<u8> {
        let cut = utf8_len(self.left) as int;
        self.bytes().subrange(
            if start < cut {
                start
            } else {
                cut
            },
            if end < cut {
                end
            } else {
                cut
            },
        )
    }

    /// The bytes of `[start, end)` that lie behind the cursor.
    pub open spec fn range_right(self, start: int, end: int) -> Seq<u8> {
        let cut = utf8_len(self.left) as int;
        self.bytes().subrange(
            if start < cut {
                cut
            } else {
                start
            },
            if end < cut {
                cut
            } else {
                end
            },
        )
    }

    /// Whether `[start, end)` lies inside the text and cuts no character in
    /// two.
    pub open spec fn range_is_text(self, start: int, end: int) -> bool {
        &&& 0 <= start <= end <= self.bytes().len()
        &&& valid_utf8(self.range_left(start, end))
        &&& valid_utf8(self.range_right(start, end))
    }

    /// An empty box of the same capacity.
    pub open spec fn clear(self) -> Self {
        TextBoxView { left: Seq::empty(), right: Seq::empty(), capacity: self.capacity }
    }

    /// The box after `c` is typed at the cursor.
    pub open spec fn insert_char(self, c: char) -> Self {
        TextBoxView { left: self.left.push(c), ..self }
    }

    /// The box after `text` is typed at the cursor.
    pub open spec fn insert_str(self, text: Seq<char>) -> Self {
        TextBoxView { left: self.left + text, ..self }
    }

    /// The box after the character before the cursor is deleted, if there is
    /// one.
    pub open spec fn remove_char_left(self) -> Self {
        if self.left.len() == 0 {
            self
        } else {
            TextBoxView { left: self.left.drop_last(), ..self }
        }
    }

    /// The box after the cursor moves `n` characters towards the start,
    /// stopping at the start.
    pub open spec fn move_left(self, n: nat) -> Self {
        let keep = if n >= self.left.len() {
            0
        } else {
            self.left.len() - n
        };
        TextBoxView {
            left: self.left.take(keep),
            right: self.left.skip(keep) + self.right,
            capacity: self.capacity,
        }
    }

    /// The box after the cursor moves `n` characters towards the end, stopping
    /// at the end.
    pub open spec fn move_right(self, n: nat) -> Self {
        let pass = if n >= self.right.len() {
            self.right.len() as int
        } else {
            n as int
        };
        TextBoxView {
            left: self.left + self.right.take(pass),
            right: self.right.skip(pass),
            capacity: self.capacity,
        }
    }

    /// The box after the cursor jumps to the end of the text.
    pub open spec fn move_to_end(self) -> Self {
        TextBoxView { left: self.left + self.right, right: Seq::empty(), capacity: self.capacity }
    }
}

/// Returned when an insertion needs more bytes than the gap has left.
#[derive(Debug, Clone, Copy, PartialEq, Eq)]
pub struct CapacityExceeded;

/// A fixed-capacity gap buffer of UTF-8 text with an edit cursor.
#[derive(Clone, Debug)]
pub struct TextBox {
    buffer: Vec<u8>,
    gap_start: usize,
    gap_end: usize,
    /// The number of chars left from the cursor.
    chars_left_from_cursor: usize,
    /// The number of chars right from the cursor.
    chars_right_from_cursor: usize,
}

impl View for TextBox {
    type V = TextBoxView;

    closed spec fn view(&self) -> TextBoxView {
        TextBoxView {
            left: decode_utf8(self.left_bytes()),
            right: decode_utf8(self.right_bytes()),
            capacity: self.buffer@.len(),
        }
    }
}

/// The UTF-8 encoding of `c` in the first bytes of an array, and its length.
fn encode_char(c: char) -> (r: ([u8; 4], usize))
    ensures
        r.1 == encode_scalar(c as u32).len(),
        1 <= r.1 <= 4,
        r.0@.subrange(0, r.1 as int) == encode_scalar(c as u32),
{
    let code: u32 = c as u32;
    proof {
        char_is_scalar(c);
    }
    if code <= 0x7F {
        let bytes: [u8; 4] = [(code & 0x7F) as u8, 0, 0, 0];
        assert(bytes@.subrange(0, 1) =~= encode_scalar(code));
        (bytes, 1)
    } else if code <= 0x7FF {
        let bytes: [u8; 4] = [
            0xC0 | ((code >> 6) & 0x1F) as u8,
            0x80 | (code & 0x3F) as u8,
            0,
            0,
        ];
        assert(bytes@.subrange(0, 2) =~= encode_scalar(code));
        (bytes, 2)
    } else if code <= 0xFFFF {
        let bytes: [u8; 4] = [
            0xE0 | ((code >> 12) & 0x0F) as u8,
            0x80 | ((code >> 6) & 0x3F) as u8,
            0x80 | (code & 0x3F) as u8,
            0,
        ];
        assert(bytes@.subrange(0, 3) =~= encode_scalar(code));
        (bytes, 3)
    } else {
        let bytes: [u8; 4] = [
            0xF0 | ((code >> 18) & 0x7) as u8,
            0x80 | ((code >> 12) & 0x3F) as u8,
            0x80 | ((code >> 6) & 0x3F) as u8,
            0x80 | (code & 0x3F) as u8,
        ];
        assert(bytes@.subrange(0, 4) =~= encode_scalar(code));
        (bytes, 4)
    }
}

/// Copies `len` bytes of `buffer` from index `from` to index `to`; the two
/// ranges may overlap. Bytes outside the target range keep their value.
fn move_block(buffer: &mut Vec<u8>, from: usize, to: usize, len: usize)
    requires
        from + len <= old(buffer)@.len(),
        to + len <= old(buffer)@.len(),
    ensures
        final(buffer)@.len() == old(buffer)@.len(),
        forall|k: int|
            0 <= k < old(buffer)@.len() ==> #[trigger] final(buffer)@[k] == if to <= k < to + len {
                old(buffer)@[k - to + from]
            } else {
                old(buffer)@[k]
            },
{
    let ghost before = buffer@;
    let size = buffer.len();
    if to < from {
        let mut i: usize = 0;
        while i < len
            invariant
                i <= len,
                to < from,
                from + len <= size,
                to + len <= size,
                size == before.len(),
                buffer@.len() == before.len(),
                forall|k: int|
                    0 <= k < before.len() ==> #[trigger] buffer@[k] == if to <= k < to + i {
                        before[k - to + from]
                    } else {
                        before[k]
                    },
            decreases len - i,
        {
            let byte = buffer[from + i];
            buffer.set(to + i, byte);
            i += 1;
        }
    } else if to > from {
        let mut i: usize = len;
        while i > 0
            invariant
                i <= len,
                to > from,
                from + len <= size,
                to + len <= size,
                size == before.len(),
                buffer@.len() == before.len(),
                forall|k: int|
                    0 <= k < before.len() ==> #[trigger] buffer@[k] == if to + i <= k < to + len {
                        before[k - to + from]
                    } else {
                        before[k]
                    },
            decreases i,
        {
            i -= 1;
            let byte = buffer[from + i];
            buffer.set(to + i, byte);
        }
    }
}

/// The width in bytes of the last character of the text that ends at index
/// `end` of `buffer`.
fn last_char_width(buffer: &Vec<u8>, end: usize, Ghost(chars): Ghost<Seq<char>>) -> (width: usize)
    requires
        end <= buffer@.len(),
        buffer@.subrange(0, end as int) == encode_utf8(chars),
        chars.len() > 0,
    ensures
        width == encode_scalar(chars.last() as u32).len(),
        1 <= width <= end,
        buffer@.subrange(0, end - width) == encode_utf8(chars.drop_last()),
{
    proof {
        lemma_last_scalar(chars);
    }
    let ghost bytes = buffer@.subrange(0, end as int);
    let ghost target = encode_scalar(chars.last() as u32).len();
    let mut width: usize = 1;
    while is_continuation(buffer[end - width])
        invariant
            1 <= width <= target <= end <= buffer@.len(),
            target <= 4,
            bytes == buffer@.subrange(0, end as int),
            !is_continuation_byte(bytes[end - target]),
            forall|i: int| end - target < i < end ==> is_continuation_byte(#[trigger] bytes[i]),
        decreases target - width,
    {
        assert(bytes[end - width] == buffer@[end - width]);
        width += 1;
    }
    proof {
        assert(bytes[end - width] == buffer@[end - width]);
        assert(width == target);
        assert(buffer@.subrange(0, end - width) =~= bytes.subrange(0, end - width));
    }
    width
}

/// The width in bytes of the first character of the text that begins at
/// index `start` of `buffer` and ends at index `end`.
fn first_char_width(
    buffer: &Vec<u8>,
    start: usize,
    Ghost(end): Ghost<int>,
    Ghost(chars): Ghost<Seq<char>>,
) -> (width: usize)
    requires
        start <= end <= buffer@.len(),
        buffer@.subrange(start as int, end) == encode_utf8(chars),
        chars.len() > 0,
    ensures
        width == encode_scalar(chars[0] as u32).len(),
        1 <= width <= end - start,
        buffer@.subrange(start + width, end) == encode_utf8(chars.drop_first()),
{
    proof {
        lemma_first_scalar(chars);
        let bytes = buffer@.subrange(start as int, end);
        assert(bytes[0] == buffer@[start as int]);
        let width = encode_scalar(chars[0] as u32).len() as int;
        assert(buffer@.subrange(start + width, end) =~= bytes.subrange(width, bytes.len() as int));
    }
    width_of_leading(buffer[start])
}

impl TextBox {
    /// The bytes in front of the gap.
    pub closed spec fn left_bytes(&self) -> Seq<u8> {
        self.buffer@.subrange(0, self.gap_start as int)
    }

    /// The bytes behind the gap.
    pub closed spec fn right_bytes(&self) -> Seq<u8> {
        self.buffer@.subrange(self.gap_end as int, self.buffer@.len() as int)
    }

    /// The invariant of the buffer: the gap lies inside the array, both live
    /// parts are UTF-8, and the two counters hold their character counts.
    pub closed spec fn wf(&self) -> bool {
        &&& self.gap_start <= self.gap_end <= self.buffer@.len()
        &&& valid_utf8(self.left_bytes())
        &&& valid_utf8(self.right_bytes())
        &&& self.chars_left_from_cursor == decode_utf8(self.left_bytes()).len()
        &&& self.chars_right_from_cursor == decode_utf8(self.right_bytes()).len()
    }

    /// In a well-formed box the two parts leave a gap that is not negative,
    /// and the live bytes are the encodings of the two parts.
    pub proof fn lemma_wf(&self)
        requires
            self.wf(),
        ensures
            self@.gap() >= 0,
            self.left_bytes() == encode_utf8(self@.left),
            self.right_bytes() == encode_utf8(self@.right),
            self.left_bytes().len() + self@.gap() + self.right_bytes().len() == self@.capacity,
    {
        decode_utf8_encode_utf8(self.left_bytes());
        decode_utf8_encode_utf8(self.right_bytes());
    }

    /// Establishes the invariant from a description of the two live parts.
    proof fn lemma_establish(&self, left: Seq<char>, right: Seq<char>)
        requires
            self.gap_start <= self.gap_end <= self.buffer@.len(),
            self.left_bytes() == encode_utf8(left),
            self.right_bytes() == encode_utf8(right),
            self.chars_left_from_cursor == left.len(),
            self.chars_right_from_cursor == right.len(),
        ensures
            self.wf(),
            self@.left == left,
            self@.right == right,
            self@.capacity == self.buffer@.len(),
    {
        encode_utf8_valid_utf8(left);
        encode_utf8_valid_utf8(right);
        encode_utf8_decode_utf8(left);
        encode_utf8_decode_utf8(right);
    }

    /// An empty box with room for 1024 bytes.
    #[inline]
    pub fn new() -> (r: Self)
        ensures
            r.wf(),
            r@ == (TextBoxView { left: Seq::empty(), right: Seq::empty(), capacity: 1024 }),
    {
        Self::with_capacity(1024)
    }

    /// An empty box with room for `capacity` bytes.
    #[inline]
    pub fn with_capacity(capacity: usize) -> (r: Self)
        ensures
            r.wf(),
            r@ == (TextBoxView { left: Seq::empty(), right: Seq::empty(), capacity: capacity as nat }),
    {
        let r = Self {
            buffer: vec![0u8; capacity],
            gap_start: 0,
            gap_end: capacity,
            chars_left_from_cursor: 0,
            chars_right_from_cursor: 0,
        };
        proof {
            assert(r.left_bytes() =~= encode_utf8(Seq::empty()));
            assert(r.right_bytes() =~= encode_utf8(Seq::empty()));
            r.lemma_establish(Seq::empty(), Seq::empty());
        }
        r
    }

    /// Empties the box; the gap then spans the whole array.
    pub fn clear(&mut self)
        requires
            old(self).wf(),
        ensures
            final(self).wf(),
            final(self)@ == old(self)@.clear(),
    {
        self.gap_start = 0;
        self.gap_end = self.buffer.len();
        self.chars_left_from_cursor = 0;
        self.chars_right_from_cursor = 0;
        proof {
            assert(self.left_bytes() =~= encode_utf8(Seq::empty()));
            assert(self.right_bytes() =~= encode_utf8(Seq::empty()));
            self.lemma_establish(Seq::empty(), Seq::empty());
        }
    }

    /// The number of unused bytes between the two parts.
    #[inline]
    pub fn gap_size(&self) -> (r: usize)
        requires
            self.wf(),
        ensures
            r == self@.gap(),
    {
        proof {
            self.lemma_wf();
        }
        self.gap_end - self.gap_start
    }

    /// The number of characters in front of the cursor.
    #[inline]
    pub fn chars_left_from_cursor(&self) -> (r: usize)
        requires
            self.wf(),
        ensures
            r == self@.left.len(),
    {
        self.chars_left_from_cursor
    }

    /// The number of characters behind the cursor.
    #[inline]
    pub fn chars_right_from_cursor(&self) -> (r: usize)
        requires
            self.wf(),
        ensures
            r == self@.right.len(),
    {
        self.chars_right_from_cursor
    }

    /// The index of the first byte of the gap: the number of bytes in front of
    /// the cursor.
    #[inline]
    pub fn gap_start(&self) -> (r: usize)
        requires
            self.wf(),
        ensures
            r == utf8_len(self@.left),
    {
        proof {
            self.lemma_wf();
        }
        self.gap_start
    }

    /// The index of the first byte behind the gap.
    #[inline]
    pub fn gap_end(&self) -> (r: usize)
        requires
            self.wf(),
        ensures
            r == self@.capacity - utf8_len(self@.right),
    {
        proof {
            self.lemma_wf();
        }
        self.gap_end
    }

    /// Types `c` at the cursor. Fails, and changes nothing, when the gap has
    /// fewer bytes left than the encoding of `c` needs.
    #[inline]
    pub fn insert_char(&mut self, c: char) -> (r: Result<(), CapacityExceeded>)
        requires
            old(self).wf(),
        ensures
            final(self).wf(),
            r is Err <==> encode_scalar(c as u32).len() > old(self)@.gap(),
            r is Ok ==> final(self)@ == old(self)@.insert_char(c),
            r is Err ==> final(self)@ == old(self)@,
    {
        proof {
            self.lemma_wf();
        }
        let (encoded, width) = encode_char(c);
        if width > self.gap_end - self.gap_start {
            return Err(CapacityExceeded);
        }
        let ghost before = *self;
        let start = self.gap_start;
        let mut i: usize = 0;
        while i < width
            invariant
                i <= width <= 4,
                start + width <= self.gap_end <= self.buffer@.len(),
                self.gap_start == start == before.gap_start,
                self.gap_end == before.gap_end,
                self.chars_left_from_cursor == before.chars_left_from_cursor,
                self.chars_right_from_cursor == before.chars_right_from_cursor,
                self.buffer@.len() == before.buffer@.len(),
                forall|j: int|
                    0 <= j < self.buffer@.len() && !(start <= j < start + i) ==> self.buffer@[j]
                        == before.buffer@[j],
                forall|j: int| 0 <= j < i ==> self.buffer@[start + j] == encoded@[j],
            decreases width - i,
        {
            self.buffer.set(start + i, encoded[i]);
            i += 1;
        }
        self.gap_start = start + width;
        proof {
            let scalar = encode_scalar(c as u32);
            assert(self.left_bytes() =~= before.left_bytes() + scalar) by {
                assert forall|j: int| 0 <= j < width implies self.buffer@[start + j]
                    == scalar[j] by {
                    assert(encoded@.subrange(0, width as int)[j] == encoded@[j]);
                }
            }
            assert(self.right_bytes() =~= before.right_bytes());
            lemma_encode_push(before@.left, c);
            lemma_utf8_len_bounds(before@.left.push(c));
        }
        self.chars_left_from_cursor += 1;
        proof {
            self.lemma_establish(before@.left.push(c), before@.right);
        }
        Ok(())
    }

    /// Types `s` at the cursor. Fails, and changes nothing, when the gap has
    /// fewer bytes left than `s` is long.
    #[inline]
    pub fn insert_str(&mut self, s: &str) -> (r: Result<(), CapacityExceeded>)
        requires
            old(self).wf(),
        ensures
            final(self).wf(),
            r is Err <==> utf8_len(s@) > old(self)@.gap(),
            r is Ok ==> final(self)@ == old(self)@.insert_str(s@),
            r is Err ==> final(self)@ == old(self)@,
    {
        let char_count = s.unicode_len();
        self.insert_str_with_cached_char_count(s, char_count)
    }

    /// Types `s` at the cursor, given the number of characters in `s`, so that
    /// a text whose length is known is not scanned again. Fails, and changes
    /// nothing, when the gap has fewer bytes left than `s` is long.
    pub fn insert_str_with_cached_char_count(&mut self, s: &str, char_count: usize) -> (r: Result<
        (),
        CapacityExceeded,
    >)
        requires
            old(self).wf(),
            char_count == s@.len(),
        ensures
            final(self).wf(),
            r is Err <==> utf8_len(s@) > old(self)@.gap(),
            r is Ok ==> final(self)@ == old(self)@.insert_str(s@),
            r is Err ==> final(self)@ == old(self)@,
    {
        proof {
            self.lemma_wf();
        }
        let bytes = s.as_bytes();
        let size = bytes.len();
        if size > self.gap_end - self.gap_start {
            return Err(CapacityExceeded);
        }
        let ghost before = *self;
        let start = self.gap_start;
        let mut i: usize = 0;
        while i < size
            invariant
                i <= size == bytes@.len(),
                start + size <= self.gap_end <= self.buffer@.len(),
                self.gap_start == start == before.gap_start,
                self.gap_end == before.gap_end,
                self.chars_left_from_cursor == before.chars_left_from_cursor,
                self.chars_right_from_cursor == before.chars_right_from_cursor,
                self.buffer@.len() == before.buffer@.len(),
                forall|j: int|
                    0 <= j < self.buffer@.len() ==> #[trigger] self.buffer@[j] == if start <= j
                        < start + i {
                        bytes@[j - start]
                    } else {
                        before.buffer@[j]
                    },
            decreases size - i,
        {
            self.buffer.set(start + i, bytes[i]);
            i += 1;
        }
        self.gap_start = start + size;
        proof {
            assert(self.left_bytes() =~= before.left_bytes() + bytes@);
            assert(self.right_bytes() =~= before.right_bytes());
            lemma_encode_concat(before@.left, s@);
            lemma_utf8_len_bounds(before@.left + s@);
        }
        self.chars_left_from_cursor += char_count;
        proof {
            self.lemma_establish(before@.left + s@, before@.right);
        }
        Ok(())
    }

    /// Deletes the character before the cursor. Does nothing at the start of
    /// the text.
    #[inline]
    pub fn remove_char_left(&mut self)
        requires
            old(self).wf(),
        ensures
            final(self).wf(),
            final(self)@ == old(self)@.remove_char_left(),
    {
        if self.chars_left_from_cursor == 0 {
            return ;
        }
        proof {
            self.lemma_wf();
        }
        let ghost before = *self;
        let width = last_char_width(&self.buffer, self.gap_start, Ghost(self@.left));
        self.gap_start -= width;
        self.chars_left_from_cursor -= 1;
        proof {
            assert(self.right_bytes() =~= before.right_bytes());
            self.lemma_establish(before@.left.drop_last(), before@.right);
        }
    }

    /// The number of bytes that the last `count` characters before the cursor
    /// occupy.
    fn bytes_before_cursor(&self, count: usize) -> (bytes: usize)
        requires
            self.wf(),
            count <= self@.left.len(),
        ensures
            bytes == utf8_len(self@.left.skip(self@.left.len() - count)),
            bytes + utf8_len(self@.left.take(self@.left.len() - count)) == self.gap_start,
    {
        proof {
            self.lemma_wf();
        }
        let ghost left = self@.left;
        let mut bytes: usize = 0;
        let mut chars_to_pass = count;
        proof {
            assert(left.take(left.len() as int) =~= left);
            assert(self.buffer@.subrange(0, self.gap_start as int) == self.left_bytes());
        }
        while chars_to_pass > 0
            invariant
                chars_to_pass <= count <= left.len(),
                bytes <= self.gap_start <= self.buffer@.len(),
                self.buffer@.subrange(0, self.gap_start - bytes) == encode_utf8(
                    left.take(left.len() - count + chars_to_pass),
                ),
            decreases chars_to_pass,
        {
            let ghost front = left.take(left.len() - count + chars_to_pass);
            let width = last_char_width(&self.buffer, self.gap_start - bytes, Ghost(front));
            proof {
                assert(front.drop_last() =~= left.take(left.len() - count + chars_to_pass - 1));
            }
            bytes += width;
            chars_to_pass -= 1;
        }
        proof {
            lemma_encode_split(left, left.len() - count);
        }
        bytes
    }

    /// The number of bytes that the first `count` characters behind the cursor
    /// occupy.
    fn bytes_after_cursor(&self, count: usize) -> (bytes: usize)
        requires
            self.wf(),
            count <= self@.right.len(),
        ensures
            bytes == utf8_len(self@.right.take(count as int)),
            self.gap_end + bytes + utf8_len(self@.right.skip(count as int)) == self.buffer@.len(),
    {
        proof {
            self.lemma_wf();
        }
        let ghost right = self@.right;
        let size = self.buffer.len();
        let mut bytes: usize = 0;
        let mut chars_to_pass = count;
        proof {
            assert(right.skip(0) =~= right);
            assert(self.buffer@.subrange(self.gap_end as int, size as int) == self.right_bytes());
        }
        while chars_to_pass > 0
            invariant
                chars_to_pass <= count <= right.len(),
                self.gap_end + bytes <= size == self.buffer@.len(),
                self.buffer@.subrange(self.gap_end + bytes, size as int) == encode_utf8(
                    right.skip(count - chars_to_pass),
                ),
            decreases chars_to_pass,
        {
            let ghost rest = right.skip(count - chars_to_pass);
            let width = first_char_width(
                &self.buffer,
                self.gap_end + bytes,
                Ghost(size as int),
                Ghost(rest),
            );
            proof {
                assert(rest.drop_first() =~= right.skip(count - chars_to_pass + 1));
            }
            bytes += width;
            chars_to_pass -= 1;
        }
        proof {
            lemma_encode_split(right, count as int);
        }
        bytes
    }

    /// Carries the last `count` characters before the cursor, `bytes` bytes
    /// long, over the gap to the front of the right part.
    fn carry_to_right(&mut self, count: usize, bytes: usize)
        requires
            old(self).wf(),
            count <= old(self)@.left.len(),
            bytes == utf8_len(old(self)@.left.skip(old(self)@.left.len() - count)),
        ensures
            final(self).wf(),
            final(self)@ == (TextBoxView {
                left: old(self)@.left.take(old(self)@.left.len() - count),
                right: old(self)@.left.skip(old(self)@.left.len() - count) + old(self)@.right,
                capacity: old(self)@.capacity,
            }),
    {
        let ghost before = *self;
        let ghost left = self@.left;
        let ghost right = self@.right;
        let ghost keep = left.len() - count;
        proof {
            self.lemma_wf();
            lemma_utf8_len_bounds(left);
            lemma_utf8_len_bounds(right);
            lemma_encode_split(left, keep);
            assert(self.chars_right_from_cursor + count <= self.buffer.len());
        }
        let new_gap_start = self.gap_start - bytes;
        let new_gap_end = self.gap_end - bytes;
        move_block(&mut self.buffer, new_gap_start, new_gap_end, bytes);
        self.gap_start = new_gap_start;
        self.gap_end = new_gap_end;
        self.chars_left_from_cursor -= count;
        self.chars_right_from_cursor += count;
        proof {
            let moved = encode_utf8(left.skip(keep));
            assert(before.buffer@.subrange(new_gap_start as int, before.gap_start as int)
                =~= before.left_bytes().subrange(
                utf8_len(left.take(keep)) as int,
                utf8_len(left) as int,
            ));
            assert(self.left_bytes() =~= before.left_bytes().subrange(
                0,
                utf8_len(left.take(keep)) as int,
            ));
            assert(self.right_bytes() =~= moved + before.right_bytes());
            lemma_encode_concat(left.skip(keep), right);
            self.lemma_establish(left.take(keep), left.skip(keep) + right);
        }
    }

    /// Carries the first `count` characters behind the cursor, `bytes` bytes
    /// long, over the gap to the end of the left part.
    fn carry_to_left(&mut self, count: usize, bytes: usize)
        requires
            old(self).wf(),
            count <= old(self)@.right.len(),
            bytes == utf8_len(old(self)@.right.take(count as int)),
        ensures
            final(self).wf(),
            final(self)@ == (TextBoxView {
                left: old(self)@.left + old(self)@.right.take(count as int),
                right: old(self)@.right.skip(count as int),
                capacity: old(self)@.capacity,
            }),
    {
        let ghost before = *self;
        let ghost left = self@.left;
        let ghost right = self@.right;
        let size = self.buffer.len();
        proof {
            self.lemma_wf();
            lemma_utf8_len_bounds(left);
            lemma_utf8_len_bounds(right);
            lemma_encode_split(right, count as int);
        }
        let new_gap_start = self.gap_start + bytes;
        let new_gap_end = self.gap_end + bytes;
        move_block(&mut self.buffer, self.gap_end, self.gap_start, bytes);
        self.gap_start = new_gap_start;
        self.gap_end = new_gap_end;
        self.chars_left_from_cursor += count;
        self.chars_right_from_cursor -= count;
        proof {
            let moved = encode_utf8(right.take(count as int));
            assert(before.buffer@.subrange(before.gap_end as int, new_gap_end as int)
                =~= before.right_bytes().subrange(0, utf8_len(right.take(count as int)) as int));
            assert(self.left_bytes() =~= before.left_bytes() + moved);
            assert(self.right_bytes() =~= before.right_bytes().subrange(
                utf8_len(right.take(count as int)) as int,
                utf8_len(right) as int,
            ));
            lemma_encode_concat(left, right.take(count as int));
            self.lemma_establish(left + right.take(count as int), right.skip(count as int));
        }
    }

    /// Moves the cursor `n` characters towards the start of the text, or to
    /// the start if fewer than `n` characters lie before it.
    #[inline]
    pub fn move_cursor_n_chars_left(&mut self, n: usize)
        requires
            old(self).wf(),
        ensures
            final(self).wf(),
            final(self)@ == old(self)@.move_left(n as nat),
    {
        if n >= self.chars_left_from_cursor {
            proof {
                self.lemma_wf();
                assert(self@.left.skip(0) =~= self@.left);
            }
            self.carry_to_right(self.chars_left_from_cursor, self.gap_start);
        } else {
            let bytes = self.bytes_before_cursor(n);
            self.carry_to_right(n, bytes);
        }
    }

    /// Moves the cursor `n` characters towards the end of the text, or to the
    /// end if fewer than `n` characters lie behind it.
    pub fn move_cursor_n_chars_right(&mut self, n: usize)
        requires
            old(self).wf(),
        ensures
            final(self).wf(),
            final(self)@ == old(self)@.move_right(n as nat),
    {
        if n >= self.chars_right_from_cursor {
            proof {
                self.lemma_wf();
                assert(self@.right.take(self@.right.len() as int) =~= self@.right);
            }
            self.carry_to_left(self.chars_right_from_cursor, self.buffer.len() - self.gap_end);
        } else {
            let bytes = self.bytes_after_cursor(n);
            self.carry_to_left(n, bytes);
        }
    }

    /// Moves the cursor behind the last character of the text.
    #[inline]
    pub fn move_cursor_to_end(&mut self)
        requires
            old(self).wf(),
        ensures
            final(self).wf(),
            final(self)@ == old(self)@.move_to_end(),
    {
        proof {
            self.lemma_wf();
            assert(self@.right.take(self@.right.len() as int) =~= self@.right);
            assert(self@.right.skip(self@.right.len() as int) =~= Seq::<char>::empty());
        }
        self.carry_to_left(self.chars_right_from_cursor, self.buffer.len() - self.gap_end);
    }

    /// The text in front of the cursor and the text behind it.
    #[inline]
    pub fn parts(&self) -> (r: (&str, &str))
        requires
            self.wf(),
        ensures
            r.0@ == self@.left,
            r.1@ == self@.right,
    {
        let left = slice_subrange(self.buffer.as_slice(), 0, self.gap_start);
        let right = slice_subrange(self.buffer.as_slice(), self.gap_end, self.buffer.len());
        let left_text = match core::str::from_utf8(left) {
            Ok(text) => text,
            Err(_) => "",
        };
        let right_text = match core::str::from_utf8(right) {
            Ok(text) => text,
            Err(_) => "",
        };
        proof {
            encode_utf8_decode_utf8(left_text@);
            encode_utf8_decode_utf8(right_text@);
        }
        (left_text, right_text)
    }

    /// The text that the byte range `[range.start, range.end)` of the whole
    /// text denotes, as the piece in front of the cursor and the piece behind
    /// it. `None` when the range does not lie inside the text or cuts a
    /// character in two.
    pub fn range(&self, range: &Range<u32>) -> (r: Option<(&str, &str)>)
        requires
            self.wf(),
        ensures
            r is Some <==> self@.range_is_text(range.start as int, range.end as int),
            r matches Some(pieces) ==> {
                &&& pieces.0.spec_bytes() == self@.range_left(range.start as int, range.end as int)
                &&& pieces.1.spec_bytes() == self@.range_right(
                    range.start as int,
                    range.end as int,
                )
                &&& pieces.0.spec_bytes() + pieces.1.spec_bytes() == self@.bytes().subrange(
                    range.start as int,
                    range.end as int,
                )
            },
    {
        proof {
            self.lemma_wf();
            lemma_encode_concat(self@.left, self@.right);
        }
        let start = range.start as usize;
        let end = range.end as usize;
        let size = self.buffer.len();
        let right_len = size - self.gap_end;
        let cut = self.gap_start;
        if start > end || (end > cut && end - cut > right_len) {
            return None;
        }
        let left_start = if start < cut {
            start
        } else {
            cut
        };
        let left_end = if end < cut {
            end
        } else {
            cut
        };
        let right_start = if start < cut {
            0
        } else {
            start - cut
        };
        let right_end = if end < cut {
            0
        } else {
            end - cut
        };
        let left = slice_subrange(self.buffer.as_slice(), left_start, left_end);
        let right = slice_subrange(
            self.buffer.as_slice(),
            self.gap_end + right_start,
            self.gap_end + right_end,
        );
        proof {
            let bytes = self@.bytes();
            assert(bytes == self.left_bytes() + self.right_bytes());
            assert(left@ =~= self@.range_left(start as int, end as int));
            assert(right@ =~= self@.range_right(start as int, end as int));
            assert(left@ + right@ =~= bytes.subrange(start as int, end as int));
        }
        match core::str::from_utf8(left) {
            Ok(left_text) => match core::str::from_utf8(right) {
                Ok(right_text) => {
                    proof {
                        encode_utf8_valid_utf8(left_text@);
                        encode_utf8_valid_utf8(right_text@);
                    }
                    Some((left_text, right_text))
                },
                Err(_) => None,
            },
            Err(_) => None,
        }
    }
}

} // verus!
