//! The parts of a program search that need no file system: the directories
//! that a search path names, and the entry of a directory that has the name
//! looked for.

use crate::read::bytes::Cursor;
use crate::utf8::{lemma_boundary_after_ascii, same_text};
use vstd::prelude::*;
use vstd::string::*;
use vstd::utf8::*;

verus! {

/// The byte that separates the directories of a search path: `;`.
pub const SEPARATOR: u8 = 0x3B;

/// Where the entry that begins at `pos` ends: at the next separator, or at
/// the end of the text.
pub open spec fn entry_end(text: Seq<u8>, pos: int) -> int
    decreases text.len() - pos,
{
    if 0 <= pos < text.len() && text[pos] != SEPARATOR {
        entry_end(text, pos + 1)
    } else {
        pos
    }
}

/// The entries of a search path from `pos` on: the pieces between
/// separators, in order, without the empty ones.
pub open spec fn entries(text: Seq<u8>, pos: int) -> Seq<Seq<u8>>
    decreases text.len() - pos,
{
    if !(0 <= pos <= text.len()) {
        Seq::empty()
    } else {
        let end = entry_end(text, pos);
        let rest = if pos <= end < text.len() {
            entries(text, end + 1)
        } else {
            Seq::empty()
        };
        if end > pos {
            seq![text.subrange(pos, end)] + rest
        } else {
            rest
        }
    }
}

/// An entry ends inside the text, holds no separator, and ends at one or at
/// the end of the text.
pub proof fn lemma_entry_end(text: Seq<u8>, pos: int)
    requires
        0 <= pos <= text.len(),
    ensures
        pos <= entry_end(text, pos) <= text.len(),
        forall|i: int| pos <= i < entry_end(text, pos) ==> #[trigger] text[i] != SEPARATOR,
        entry_end(text, pos) < text.len() ==> text[entry_end(text, pos)] == SEPARATOR,
    decreases text.len() - pos,
{
    if pos < text.len() && text[pos] != SEPARATOR {
        lemma_entry_end(text, pos + 1);
    }
}

/// An entry that is entered in its middle ends where the whole entry ends.
proof fn lemma_entry_end_from_inside(text: Seq<u8>, pos: int, mid: int)
    requires
        0 <= pos <= mid <= text.len(),
        forall|i: int| pos <= i < mid ==> #[trigger] text[i] != SEPARATOR,
    ensures
        entry_end(text, pos) == entry_end(text, mid),
    decreases mid - pos,
{
    if pos < mid {
        lemma_entry_end_from_inside(text, pos + 1, mid);
    }
}

/// The texts of a list of slices, as bytes.
pub open spec fn bytes_of(pieces: Seq<&str>) -> Seq<Seq<u8>> {
    Seq::new(pieces.len(), |i: int| pieces[i].spec_bytes())
}

/// The directories that a search path names: the pieces of `path_text`
/// between `;`, in order, without the empty ones.
pub fn search_directories<'a>(path_text: &'a str) -> (r: Vec<&'a str>)
    ensures
        bytes_of(r@) == entries(path_text.spec_bytes(), 0),
{
    let ghost text = path_text.spec_bytes();
    let mut cursor = Cursor::new(path_text);
    let mut found: Vec<&'a str> = Vec::new();
    proof {
        cursor.lemma_wf();
        encode_utf8_valid_utf8(path_text@);
        is_char_boundary_start_end_of_seq(text);
        assert(bytes_of(found@) =~= Seq::<Seq<u8>>::empty());
    }
    loop
        invariant
            cursor.wf(),
            cursor.source() == path_text,
            text == path_text.spec_bytes(),
            valid_utf8(text),
            0 <= cursor.position() <= text.len(),
            is_char_boundary(text, cursor.position()),
            entries(text, 0) == bytes_of(found@) + entries(text, cursor.position()),
        ensures
            bytes_of(found@) == entries(text, 0),
        decreases text.len() - cursor.position(),
    {
        let start = cursor.pointer();
        let ghost origin = cursor.position();
        loop
            invariant
                cursor.wf(),
                cursor.source() == path_text,
                text == path_text.spec_bytes(),
                0 <= origin <= cursor.position() <= text.len(),
                forall|i: int| origin <= i < cursor.position() ==> #[trigger] text[i] != SEPARATOR,
            ensures
                cursor.wf(),
                cursor.source() == path_text,
                cursor.position() == entry_end(text, origin),
            decreases text.len() - cursor.position(),
        {
            proof {
                lemma_entry_end_from_inside(text, origin, cursor.position());
            }
            match cursor.peek() {
                Some(byte) => {
                    if byte == SEPARATOR {
                        break ;
                    }
                    cursor.advance();
                },
                None => {
                    break ;
                },
            }
        }
        let end = cursor.pointer();
        let ghost before = found@;
        proof {
            lemma_entry_end(text, origin);
            if end < text.len() {
                is_char_boundary_iff_not_is_continuation_byte(text, end as int);
            } else {
                is_char_boundary_start_end_of_seq(text);
            }
        }
        if end > start {
            match cursor.slice(start, end) {
                Some(piece) => {
                    found.push(piece);
                },
                None => {},
            }
        }
        proof {
            if end > start {
                assert(bytes_of(found@) =~= bytes_of(before) + seq![text.subrange(origin, end as int)]);
            }
        }
        match cursor.peek() {
            Some(_) => {
                proof {
                    lemma_boundary_after_ascii(text, end as int);
                    assert(entries(text, 0) =~= bytes_of(found@) + entries(text, end + 1));
                }
                cursor.advance();
            },
            None => {
                proof {
                    assert(entries(text, 0) =~= bytes_of(found@));
                }
                break ;
            },
        }
    }
    found
}

/// The first of `names` that is `file_name`, if there is one.
pub fn find_entry(names: &Vec<String>, file_name: &str) -> (r: Option<usize>)
    ensures
        match r {
            Some(index) => {
                &&& index < names@.len()
                &&& names@[index as int]@ == file_name@
                &&& forall|i: int| 0 <= i < index ==> (#[trigger] names@[i])@ != file_name@
            },
            None => forall|i: int| 0 <= i < names@.len() ==> (#[trigger] names@[i])@ != file_name@,
        },
{
    let mut index: usize = 0;
    while index < names.len()
        invariant
            index <= names@.len(),
            forall|i: int| 0 <= i < index ==> (#[trigger] names@[i])@ != file_name@,
        decreases names@.len() - index,
    {
        if same_text(names[index].as_str(), file_name) {
            return Some(index);
        }
        index += 1;
    }
    None
}

} // verus!
