//! Facts about UTF-8 text that the gap buffer and the lexers rely on, and the
//! few executable helpers that read or write encoded characters.

use vstd::prelude::*;
use vstd::string::*;
use vstd::utf8::*;

verus! {

/// What `core::str::from_utf8` reports when the bytes are not UTF-8.
#[verifier::external_type_specification]
#[verifier::external_body]
pub struct ExUtf8Error(core::str::Utf8Error);

/// `core::str::from_utf8` accepts well-formed UTF-8, and the text it returns
/// has exactly the bytes it was given.
pub assume_specification[ core::str::from_utf8 ](v: &[u8]) -> (r: Result<
    &str,
    core::str::Utf8Error,
>)
    ensures
        valid_utf8(v@) ==> r is Ok,
        r matches Ok(text) ==> text.spec_bytes() == v@,
;

/// The number of bytes that `chars` occupies once encoded.
pub open spec fn utf8_len(chars: Seq<char>) -> nat {
    encode_utf8(chars).len()
}

/// The characters of an all-ASCII byte string, one per byte.
pub open spec fn ascii_text(bytes: Seq<u8>) -> Seq<char> {
    Seq::new(bytes.len(), |i: int| bytes[i] as char)
}

/// Whether every byte of `bytes` is below 0x80.
pub open spec fn all_ascii(bytes: Seq<u8>) -> bool {
    forall|i: int| 0 <= i < bytes.len() ==> #[trigger] bytes[i] < 0x80
}

/// The encoding of one character is one leading byte followed by up to three
/// continuation bytes.
pub proof fn lemma_encode_scalar_shape(c: char)
    ensures
        1 <= encode_scalar(c as u32).len() <= 4,
        !is_continuation_byte(encode_scalar(c as u32)[0]),
        forall|i: int|
            1 <= i < encode_scalar(c as u32).len() ==> is_continuation_byte(
                #[trigger] encode_scalar(c as u32)[i],
            ),
        length_of_first_codepoint(encode_scalar(c as u32)) == encode_scalar(c as u32).len(),
        encode_utf8(seq![c]) == encode_scalar(c as u32),
{
    let one = seq![c];
    let e = encode_scalar(c as u32);
    assert(one.drop_first() =~= Seq::<char>::empty());
    assert(encode_utf8(one.drop_first()) =~= Seq::<u8>::empty()) by {
        reveal_with_fuel(encode_utf8, 1);
    }
    assert(encode_utf8(one) =~= e) by {
        reveal_with_fuel(encode_utf8, 2);
    }
    encode_utf8_first_scalar(one);
    char_is_scalar(c);
}

/// Encoding distributes over concatenation.
pub proof fn lemma_encode_concat(a: Seq<char>, b: Seq<char>)
    ensures
        encode_utf8(a + b) == encode_utf8(a) + encode_utf8(b),
    decreases a.len(),
{
    if a.len() == 0 {
        assert(a + b =~= b);
        assert(encode_utf8(a) + encode_utf8(b) =~= encode_utf8(b));
    } else {
        lemma_encode_concat(a.drop_first(), b);
        assert((a + b).drop_first() =~= a.drop_first() + b);
        assert((a + b)[0] == a[0]);
        assert(encode_utf8(a + b) =~= encode_utf8(a) + encode_utf8(b));
    }
}

/// Appending one character appends its encoding.
pub proof fn lemma_encode_push(a: Seq<char>, c: char)
    ensures
        encode_utf8(a.push(c)) == encode_utf8(a) + encode_scalar(c as u32),
{
    lemma_encode_concat(a, seq![c]);
    lemma_encode_scalar_shape(c);
    assert(a.push(c) =~= a + seq![c]);
}

/// Two character strings with the same encoding are the same string.
pub proof fn lemma_encode_injective(a: Seq<char>, b: Seq<char>)
    requires
        encode_utf8(a) == encode_utf8(b),
    ensures
        a == b,
{
    encode_utf8_decode_utf8(a);
    encode_utf8_decode_utf8(b);
}

/// The encoding of a prefix of `chars` is a prefix of the encoding of `chars`,
/// and what follows it is the encoding of the rest.
pub proof fn lemma_encode_split(chars: Seq<char>, n: int)
    requires
        0 <= n <= chars.len(),
    ensures
        utf8_len(chars.take(n)) + utf8_len(chars.skip(n)) == utf8_len(chars),
        encode_utf8(chars).subrange(0, utf8_len(chars.take(n)) as int) == encode_utf8(
            chars.take(n),
        ),
        encode_utf8(chars).subrange(utf8_len(chars.take(n)) as int, utf8_len(chars) as int)
            == encode_utf8(chars.skip(n)),
{
    lemma_encode_concat(chars.take(n), chars.skip(n));
    assert(chars.take(n) + chars.skip(n) =~= chars);
    let whole = encode_utf8(chars);
    let head = encode_utf8(chars.take(n));
    let tail = encode_utf8(chars.skip(n));
    assert(whole.subrange(0, head.len() as int) =~= head);
    assert(whole.subrange(head.len() as int, whole.len() as int) =~= tail);
}

/// Every character occupies at least one byte.
pub proof fn lemma_utf8_len_bounds(chars: Seq<char>)
    ensures
        chars.len() <= utf8_len(chars) <= 4 * chars.len(),
    decreases chars.len(),
{
    if chars.len() > 0 {
        lemma_utf8_len_bounds(chars.drop_first());
        lemma_encode_scalar_shape(chars[0]);
    }
}

/// An all-ASCII byte string is well formed and decodes to one character per
/// byte.
pub proof fn lemma_ascii_decode(bytes: Seq<u8>)
    requires
        all_ascii(bytes),
    ensures
        valid_utf8(bytes),
        decode_utf8(bytes) == ascii_text(bytes),
        encode_utf8(ascii_text(bytes)) == bytes,
{
    let chars = ascii_text(bytes);
    assert(is_ascii_chars(chars)) by {
        assert forall|i: int| 0 <= i < chars.len() implies '\0' <= #[trigger] chars[i]
            <= '\u{7f}' by {
            assert(bytes[i] < 0x80);
        }
    }
    is_ascii_chars_encode_utf8(chars);
    assert(encode_utf8(chars) =~= bytes) by {
        assert forall|i: int| 0 <= i < bytes.len() implies encode_utf8(chars)[i] == bytes[i] by {
            assert(bytes[i] < 0x80);
            assert(chars[i] as u8 == bytes[i]);
        }
    }
    encode_utf8_valid_utf8(chars);
    encode_utf8_decode_utf8(chars);
}

/// The place behind an ASCII byte that begins at a character boundary is a
/// character boundary too.
pub proof fn lemma_boundary_after_ascii(bytes: Seq<u8>, pos: int)
    requires
        valid_utf8(bytes),
        0 <= pos < bytes.len(),
        is_char_boundary(bytes, pos),
        bytes[pos] < 0x80,
    ensures
        is_char_boundary(bytes, pos + 1),
{
    if pos + 1 == bytes.len() {
        is_char_boundary_start_end_of_seq(bytes);
    } else {
        valid_utf8_split(bytes, pos);
        let tail = bytes.subrange(pos, bytes.len() as int);
        assert(tail[0] == bytes[pos]);
        let rest = pop_first_scalar(tail);
        assert(valid_utf8(rest));
        assert(rest.len() > 0);
        assert(rest[0] == bytes[pos + 1]);
        assert(valid_first_scalar(rest));
        assert(!is_continuation_byte(rest[0]));
        is_char_boundary_iff_not_is_continuation_byte(bytes, pos + 1);
    }
}

/// The end of a run of ASCII bytes that begins at a character boundary is a
/// character boundary.
pub proof fn lemma_boundary_after_ascii_run(bytes: Seq<u8>, start: int, end: int)
    requires
        valid_utf8(bytes),
        0 <= start <= end <= bytes.len(),
        is_char_boundary(bytes, start),
        forall|i: int| start <= i < end ==> #[trigger] bytes[i] < 0x80,
    ensures
        is_char_boundary(bytes, end),
    decreases end - start,
{
    if start < end {
        lemma_boundary_after_ascii_run(bytes, start, end - 1);
        lemma_boundary_after_ascii(bytes, end - 1);
    }
}

/// A place that is a character boundary of a text is one of every prefix of
/// the text that ends at a character boundary behind it.
pub proof fn lemma_boundary_in_prefix(bytes: Seq<u8>, pos: int, end: int)
    requires
        valid_utf8(bytes),
        0 <= pos <= end <= bytes.len(),
        is_char_boundary(bytes, pos),
        is_char_boundary(bytes, end),
    ensures
        valid_utf8(bytes.subrange(0, end)),
        is_char_boundary(bytes.subrange(0, end), pos),
{
    valid_utf8_split(bytes, end);
    let prefix = bytes.subrange(0, end);
    if pos == end {
        is_char_boundary_start_end_of_seq(prefix);
    } else {
        is_char_boundary_iff_not_is_continuation_byte(bytes, pos);
        is_char_boundary_iff_not_is_continuation_byte(prefix, pos);
    }
}

/// Walking back from the end of a non-empty string over continuation bytes
/// stops at the leading byte of the last character.
pub proof fn lemma_last_scalar(chars: Seq<char>)
    requires
        chars.len() > 0,
    ensures
        ({
            let bytes = encode_utf8(chars);
            let width = encode_scalar(chars.last() as u32).len() as int;
            &&& 1 <= width <= 4
            &&& width <= bytes.len()
            &&& bytes.subrange(0, bytes.len() - width) == encode_utf8(chars.drop_last())
            &&& !is_continuation_byte(bytes[bytes.len() - width])
            &&& forall|i: int|
                bytes.len() - width < i < bytes.len() ==> is_continuation_byte(#[trigger] bytes[i])
        }),
{
    let bytes = encode_utf8(chars);
    let last = encode_scalar(chars.last() as u32);
    let front = encode_utf8(chars.drop_last());
    lemma_encode_push(chars.drop_last(), chars.last());
    assert(chars.drop_last().push(chars.last()) =~= chars);
    lemma_encode_scalar_shape(chars.last());
    assert(bytes == front + last);
    assert(bytes.subrange(0, bytes.len() - last.len()) =~= front);
    assert(bytes[bytes.len() - last.len()] == last[0]);
    assert forall|i: int| bytes.len() - last.len() < i < bytes.len() implies is_continuation_byte(
        #[trigger] bytes[i],
    ) by {
        assert(bytes[i] == last[i - front.len()]);
    }
}

/// The first byte of a non-empty string tells how many bytes its first
/// character occupies.
pub proof fn lemma_first_scalar(chars: Seq<char>)
    requires
        chars.len() > 0,
    ensures
        ({
            let bytes = encode_utf8(chars);
            let width = encode_scalar(chars[0] as u32).len() as int;
            &&& 1 <= width <= 4
            &&& width <= bytes.len()
            &&& width == leading_width(bytes[0])
            &&& bytes.subrange(width, bytes.len() as int) == encode_utf8(chars.drop_first())
        }),
{
    let bytes = encode_utf8(chars);
    let first = encode_scalar(chars[0] as u32);
    lemma_encode_scalar_shape(chars[0]);
    assert(bytes == first + encode_utf8(chars.drop_first()));
    assert(bytes.subrange(first.len() as int, bytes.len() as int) =~= encode_utf8(
        chars.drop_first(),
    ));
    assert(bytes[0] == first[0]);
    encode_utf8_first_scalar(chars);
}

/// The width of the character that `lead` begins: 1 for ASCII, 2 to 4 by the
/// number of leading one bits.
pub open spec fn leading_width(lead: u8) -> int {
    if is_leading_byte_width_1(lead) {
        1
    } else if is_leading_byte_width_2(lead) {
        2
    } else if is_leading_byte_width_3(lead) {
        3
    } else {
        4
    }
}

/// Whether two texts hold the same characters.
pub fn same_text(a: &str, b: &str) -> (r: bool)
    ensures
        r == (a@ == b@),
{
    let left = a.as_bytes();
    let right = b.as_bytes();
    if left.len() != right.len() {
        proof {
            assert(a.spec_bytes().len() != b.spec_bytes().len());
        }
        return false;
    }
    let mut i: usize = 0;
    while i < left.len()
        invariant
            i <= left@.len() == right@.len(),
            left@ == a.spec_bytes(),
            right@ == b.spec_bytes(),
            forall|j: int| 0 <= j < i ==> left@[j] == right@[j],
        decreases left@.len() - i,
    {
        if left[i] != right[i] {
            return false;
        }
        i += 1;
    }
    proof {
        assert(left@ =~= right@);
        lemma_encode_injective(a@, b@);
    }
    true
}

/// Whether `byte` is a UTF-8 continuation byte, decided by its top two bits.
pub fn is_continuation(byte: u8) -> (r: bool)
    ensures
        r == is_continuation_byte(byte),
{
    proof {
        utf8_byte_ranges_bitwise(byte);
    }
    byte & 0b1100_0000 == 0b1000_0000
}

/// The width of the character that the leading byte `lead` begins.
pub fn width_of_leading(lead: u8) -> (r: usize)
    ensures
        r == leading_width(lead),
        1 <= r <= 4,
{
    if lead < 0x80 {
        1
    } else if 0xc0 <= lead && lead <= 0xdf {
        2
    } else if 0xe0 <= lead && lead <= 0xef {
        3
    } else {
        4
    }
}

} // verus!
