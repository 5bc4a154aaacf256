//! The editing steps of a text box as steps on its view, a plain text buffer
//! without a gap to hold them against, and what holds of every sequence of
//! steps.

use crate::text_box::{TextBox, TextBoxView};
use crate::utf8::{lemma_encode_concat, lemma_encode_push, utf8_len};
use vstd::prelude::*;
use vstd::utf8::*;

verus! {

/// One editing step.
pub enum Edit {
    /// Type a character at the cursor.
    InsertChar(char),
    /// Type a text at the cursor.
    InsertStr(Seq<char>),
    /// Delete the character before the cursor.
    RemoveCharLeft,
    /// Move the cursor towards the start by so many characters.
    MoveLeft(nat),
    /// Move the cursor towards the end by so many characters.
    MoveRight(nat),
    /// Move the cursor behind the last character.
    MoveToEnd,
    /// Empty the box.
    Clear,
}

/// A text buffer without a gap: the whole text in one piece, the cursor as an
/// index into it, and the number of bytes the text may occupy.
pub struct PlainText {
    pub text: Seq<char>,
    pub cursor: int,
    pub capacity: nat,
}

impl PlainText {
    /// Whether the cursor lies inside the text and the text within the
    /// capacity.
    pub open spec fn wf(self) -> bool {
        &&& 0 <= self.cursor <= self.text.len()
        &&& utf8_len(self.text) <= self.capacity
    }

    /// The buffer after one editing step. A text that would not fit is not
    /// inserted.
    pub open spec fn apply(self, edit: Edit) -> Self {
        match edit {
            Edit::InsertChar(c) => if utf8_len(self.text) + encode_scalar(c as u32).len()
                <= self.capacity {
                PlainText {
                    text: self.text.insert(self.cursor, c),
                    cursor: self.cursor + 1,
                    capacity: self.capacity,
                }
            } else {
                self
            },
            Edit::InsertStr(s) => if utf8_len(self.text) + utf8_len(s) <= self.capacity {
                PlainText {
                    text: self.text.take(self.cursor) + s + self.text.skip(self.cursor),
                    cursor: self.cursor + s.len(),
                    capacity: self.capacity,
                }
            } else {
                self
            },
            Edit::RemoveCharLeft => if self.cursor == 0 {
                self
            } else {
                PlainText {
                    text: self.text.remove(self.cursor - 1),
                    cursor: self.cursor - 1,
                    capacity: self.capacity,
                }
            },
            Edit::MoveLeft(n) => PlainText {
                cursor: if n >= self.cursor {
                    0
                } else {
                    self.cursor - n
                },
                ..self
            },
            Edit::MoveRight(n) => PlainText {
                cursor: if self.cursor + n >= self.text.len() {
                    self.text.len() as int
                } else {
                    self.cursor + n
                },
                ..self
            },
            Edit::MoveToEnd => PlainText { cursor: self.text.len() as int, ..self },
            Edit::Clear => PlainText { text: Seq::empty(), cursor: 0, capacity: self.capacity },
        }
    }

    /// The buffer after a sequence of editing steps, first to last.
    pub open spec fn apply_all(self, edits: Seq<Edit>) -> Self
        decreases edits.len(),
    {
        if edits.len() == 0 {
            self
        } else {
            self.apply_all(edits.drop_last()).apply(edits.last())
        }
    }
}

impl TextBoxView {
    /// Whether the two parts fit into the capacity, so that the gap is not
    /// negative.
    pub open spec fn wf(self) -> bool {
        self.gap() >= 0
    }

    /// The same text in a buffer without a gap.
    pub open spec fn plain(self) -> PlainText {
        PlainText { text: self.text(), cursor: self.left.len() as int, capacity: self.capacity }
    }

    /// The box after one editing step. A text that would not fit into the gap
    /// is not inserted.
    pub open spec fn apply(self, edit: Edit) -> Self {
        match edit {
            Edit::InsertChar(c) => if encode_scalar(c as u32).len() <= self.gap() {
                self.insert_char(c)
            } else {
                self
            },
            Edit::InsertStr(s) => if utf8_len(s) <= self.gap() {
                self.insert_str(s)
            } else {
                self
            },
            Edit::RemoveCharLeft => self.remove_char_left(),
            Edit::MoveLeft(n) => self.move_left(n),
            Edit::MoveRight(n) => self.move_right(n),
            Edit::MoveToEnd => self.move_to_end(),
            Edit::Clear => self.clear(),
        }
    }

    /// The box after a sequence of editing steps, first to last.
    pub open spec fn apply_all(self, edits: Seq<Edit>) -> Self
        decreases edits.len(),
    {
        if edits.len() == 0 {
            self
        } else {
            self.apply_all(edits.drop_last()).apply(edits.last())
        }
    }
}

/// The view of a well-formed text box fits into its capacity.
pub proof fn lemma_view_wf(text_box: &TextBox)
    requires
        text_box.wf(),
    ensures
        text_box@.wf(),
{
    text_box.lemma_wf();
}

/// The number of bytes of a text is the sum over its two parts.
pub proof fn lemma_text_len(view: TextBoxView)
    ensures
        utf8_len(view.text()) == utf8_len(view.left) + utf8_len(view.right),
{
    lemma_encode_concat(view.left, view.right);
}

/// One editing step keeps the gap from becoming negative, and changes the
/// text and the cursor exactly as the same step changes a buffer without a
/// gap.
pub proof fn lemma_apply_refines(view: TextBoxView, edit: Edit)
    requires
        view.wf(),
    ensures
        view.apply(edit).wf(),
        view.plain().wf(),
        view.apply(edit).plain() == view.plain().apply(edit),
{
    lemma_text_len(view);
    lemma_text_len(view.apply(edit));
    let plain = view.plain();
    match edit {
        Edit::InsertChar(c) => {
            lemma_encode_push(view.left, c);
            assert(view.left.push(c) + view.right =~= view.text().insert(plain.cursor, c));
        },
        Edit::InsertStr(s) => {
            lemma_encode_concat(view.left, s);
            assert(view.text().take(plain.cursor) =~= view.left);
            assert(view.text().skip(plain.cursor) =~= view.right);
            assert((view.left + s) + view.right =~= view.left + s + view.right);
        },
        Edit::RemoveCharLeft => {
            if view.left.len() > 0 {
                lemma_encode_push(view.left.drop_last(), view.left.last());
                assert(view.left.drop_last().push(view.left.last()) =~= view.left);
                assert(view.left.drop_last() + view.right =~= view.text().remove(
                    plain.cursor - 1,
                ));
            }
        },
        Edit::MoveLeft(n) => {
            let after = view.move_left(n);
            assert(after.text() =~= view.text());
        },
        Edit::MoveRight(n) => {
            let after = view.move_right(n);
            assert(after.text() =~= view.text());
        },
        Edit::MoveToEnd => {
            let after = view.move_to_end();
            assert(after.text() =~= view.text());
        },
        Edit::Clear => {
            assert(view.clear().text() =~= Seq::<char>::empty());
        },
    }
}

/// After any sequence of editing steps the gap is not
/// negative, so its start does not lie behind its end, and the two parts
/// together hold exactly the text that a buffer without a gap holds after the
/// same steps, with the cursor at the same place.
pub proof fn lemma_gap_invariant(view: TextBoxView, edits: Seq<Edit>)
    requires
        view.wf(),
    ensures
        view.apply_all(edits).wf(),
        utf8_len(view.apply_all(edits).left) <= view.apply_all(edits).capacity - utf8_len(
            view.apply_all(edits).right,
        ),
        view.apply_all(edits).plain() == view.plain().apply_all(edits),
        view.apply_all(edits).text() == view.plain().apply_all(edits).text,
    decreases edits.len(),
{
    if edits.len() > 0 {
        lemma_gap_invariant(view, edits.drop_last());
        lemma_apply_refines(view.apply_all(edits.drop_last()), edits.last());
    }
}

/// After any sequence of editing steps the characters
/// before the cursor and those behind it add up to the length of the text.
pub proof fn lemma_character_accounting(view: TextBoxView, edits: Seq<Edit>)
    requires
        view.wf(),
    ensures
        view.apply_all(edits).left.len() + view.apply_all(edits).right.len() == view.apply_all(
            edits,
        ).text().len(),
        view.apply_all(edits).text().len() == view.plain().apply_all(edits).text.len(),
{
    lemma_gap_invariant(view, edits);
}

/// Typing a character and deleting it again gives back the box as it was:
/// the same two parts, and with them the same live bytes and the same gap.
pub proof fn lemma_insert_then_remove(view: TextBoxView, c: char)
    ensures
        view.insert_char(c).remove_char_left() == view,
        encode_utf8(view.insert_char(c).remove_char_left().left) == encode_utf8(view.left),
        view.insert_char(c).remove_char_left().gap() == view.gap(),
{
    assert(view.left.push(c).drop_last() =~= view.left);
}

/// Moving the cursor left by `n` characters and then right by `n`, with at
/// least `n` characters before the cursor, gives back the box as it was.
pub proof fn lemma_move_left_then_right(view: TextBoxView, n: nat)
    requires
        n <= view.left.len(),
    ensures
        view.move_left(n).move_right(n) == view,
{
    let keep = view.left.len() - n;
    let mid = view.move_left(n);
    assert(mid.right.take(n as int) =~= view.left.skip(keep));
    assert(mid.right.skip(n as int) =~= view.right);
    assert(mid.left + mid.right.take(n as int) =~= view.left);
}

/// Moving the cursor right by `n` characters and then left by `n`, with at
/// least `n` characters behind the cursor, gives back the box as it was.
pub proof fn lemma_move_right_then_left(view: TextBoxView, n: nat)
    requires
        n <= view.right.len(),
    ensures
        view.move_right(n).move_left(n) == view,
{
    let mid = view.move_right(n);
    let keep = mid.left.len() - n;
    assert(mid.left.take(keep) =~= view.left);
    assert(mid.left.skip(keep) =~= view.right.take(n as int));
    assert(mid.left.skip(keep) + mid.right =~= view.right);
}

} // verus!
