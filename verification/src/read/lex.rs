//! The lexer over a text that lies in one piece. Names are slices of the
//! text.

use crate::decimal::Decimal;
use crate::lexeme::{
    byte_is_alphanumeric, byte_is_digit, digit_values, is_alphanumeric, lemma_run_end,
    lemma_run_end_from_inside, lemma_scan, run_end, scan, ByteClass, CARET, DOT,
    LEFT_PARENTHESIS, MINUS, PLUS, RIGHT_PARENTHESIS, SLASH, STAR, ZERO,
};
use crate::read::bytes::{to_index, Cursor, Span};
use crate::read::tokens::Token;
use crate::utf8::{
    all_ascii, ascii_text, lemma_ascii_decode, lemma_boundary_after_ascii_run,
    lemma_encode_injective,
};
use core::ops::Range;
use vstd::prelude::*;
use vstd::string::*;
use vstd::utf8::*;

verus! {

/// Reads the tokens of a text one after the other.
pub struct Lexer<'a> {
    cursor: Cursor<'a>,
}

/// Passes the run of digits that follows and returns their values.
fn read_digits<'a>(cursor: &mut Cursor<'a>) -> (digits: Vec<u8>)
    requires
        old(cursor).wf(),
    ensures
        final(cursor).wf(),
        final(cursor).source() == old(cursor).source(),
        final(cursor).position() == run_end(
            old(cursor).text(),
            old(cursor).position(),
            ByteClass::Digit,
        ),
        digits@ == digit_values(
            old(cursor).text().subrange(old(cursor).position(), final(cursor).position()),
        ),
{
    let ghost start = cursor.position();
    let ghost text = cursor.text();
    let mut digits: Vec<u8> = Vec::new();
    proof {
        cursor.lemma_wf();
    }
    loop
        invariant
            cursor.wf(),
            cursor.source() == old(cursor).source(),
            text == cursor.text(),
            start == old(cursor).position(),
            0 <= start <= cursor.position() <= text.len(),
            forall|i: int| start <= i < cursor.position() ==> ByteClass::Digit.holds(#[trigger] text[i]),
            digits@ == digit_values(text.subrange(start, cursor.position())),
        ensures
            cursor.wf(),
            cursor.source() == old(cursor).source(),
            cursor.position() == run_end(text, start, ByteClass::Digit),
            digits@ == digit_values(text.subrange(start, cursor.position())),
        decreases text.len() - cursor.position(),
    {
        proof {
            lemma_run_end_from_inside(text, start, cursor.position(), ByteClass::Digit);
        }
        let ghost here = cursor.position();
        match cursor.peek() {
            Some(byte) => {
                if !byte_is_digit(byte) {
                    break ;
                }
                digits.push(byte - ZERO);
                cursor.advance();
                proof {
                    assert(digits@ =~= digit_values(text.subrange(start, here + 1)));
                }
            },
            None => {
                break ;
            },
        }
    }
    digits
}

/// Passes the run of ASCII letters and digits that follows.
fn skip_alphanumeric<'a>(cursor: &mut Cursor<'a>)
    requires
        old(cursor).wf(),
    ensures
        final(cursor).wf(),
        final(cursor).source() == old(cursor).source(),
        final(cursor).position() == run_end(
            old(cursor).text(),
            old(cursor).position(),
            ByteClass::Alphanumeric,
        ),
{
    let ghost start = cursor.position();
    let ghost text = cursor.text();
    proof {
        cursor.lemma_wf();
    }
    loop
        invariant
            cursor.wf(),
            cursor.source() == old(cursor).source(),
            text == cursor.text(),
            start == old(cursor).position(),
            0 <= start <= cursor.position() <= text.len(),
            forall|i: int|
                start <= i < cursor.position() ==> ByteClass::Alphanumeric.holds(#[trigger] text[i]),
        ensures
            cursor.wf(),
            cursor.source() == old(cursor).source(),
            cursor.position() == run_end(text, start, ByteClass::Alphanumeric),
        decreases text.len() - cursor.position(),
    {
        proof {
            lemma_run_end_from_inside(text, start, cursor.position(), ByteClass::Alphanumeric);
        }
        match cursor.peek() {
            Some(byte) => {
                if !byte_is_alphanumeric(byte) {
                    break ;
                }
                cursor.advance();
            },
            None => {
                break ;
            },
        }
    }
}

/// A name that has the bytes of a run of ASCII letters and digits is the text
/// of those bytes.
proof fn lemma_name_of_run(name: Seq<char>, text: Seq<u8>, start: int, end: int)
    requires
        0 <= start <= end <= text.len(),
        encode_utf8(name) == text.subrange(start, end),
        forall|i: int| start <= i < end ==> is_alphanumeric(#[trigger] text[i]),
    ensures
        name == ascii_text(text.subrange(start, end)),
{
    let run = text.subrange(start, end);
    assert(all_ascii(run)) by {
        assert forall|i: int| 0 <= i < run.len() implies #[trigger] run[i] < 0x80 by {
            assert(is_alphanumeric(text[start + i]));
        }
    }
    lemma_ascii_decode(run);
    lemma_encode_injective(name, ascii_text(run));
}

impl<'a> Lexer<'a> {
    /// The cursor that the lexer reads from.
    pub closed spec fn cursor(&self) -> Cursor<'a> {
        self.cursor
    }

    /// The bytes of the text that is read.
    pub open spec fn text(&self) -> Seq<u8> {
        self.cursor().text()
    }

    /// The number of bytes read so far.
    pub open spec fn position(&self) -> int {
        self.cursor().position()
    }

    /// The lexer stands inside its text or at its end.
    pub open spec fn wf(&self) -> bool {
        self.cursor().wf()
    }

    /// A lexer that reads on from where `cursor` stands.
    #[inline]
    pub fn new(cursor: Cursor<'a>) -> (r: Self)
        ensures
            r.cursor() == cursor,
    {
        Self { cursor }
    }

    /// Reads the next token: the one that `scan` finds from where the lexer
    /// stands, with the offsets of its first byte and of the byte behind it.
    /// The lexer then stands behind the token. At the end of the text this is
    /// the end-of-input token, again and again.
    ///
    /// It fails only for an identifier that would begin inside a character,
    /// which cannot happen to a lexer that started on a character boundary.
    pub fn next(&mut self) -> (r: Result<Span<Token<'a>>, ()>)
        requires
            old(self).wf(),
        ensures
            final(self).wf(),
            final(self).cursor().source() == old(self).cursor().source(),
            final(self).position() == scan(old(self).text(), old(self).position()).end,
            r is Err <==> scan(old(self).text(), old(self).position()).lexeme is Identifier
                && !is_char_boundary(
                old(self).text(),
                scan(old(self).text(), old(self).position()).start,
            ),
            r matches Ok(span) ==> {
                &&& span.value@ == scan(old(self).text(), old(self).position()).lexeme
                &&& span.range.start == to_index(
                    scan(old(self).text(), old(self).position()).start,
                )
                &&& span.range.end == to_index(scan(old(self).text(), old(self).position()).end)
            },
    {
        let ghost text = self.text();
        let ghost origin = self.position();
        proof {
            self.cursor.lemma_wf();
            lemma_scan(text, origin);
        }
        self.cursor.skip_whitespace();
        let ghost start = self.position();
        let start_index = self.cursor.index();
        let token = match self.cursor.peek() {
            Some(first) => {
                if byte_is_digit(first) {
                    let whole = read_digits(&mut self.cursor);
                    let ghost whole_end = self.position();
                    let mut fraction: Vec<u8> = Vec::new();
                    let dot = match self.cursor.peek() {
                        Some(byte) => byte == DOT,
                        None => false,
                    };
                    if dot {
                        self.cursor.advance();
                        fraction = read_digits(&mut self.cursor);
                    }
                    Token::Number(Decimal { whole, fraction })
                } else if first == PLUS {
                    self.cursor.advance();
                    Token::Plus
                } else if first == MINUS {
                    self.cursor.advance();
                    Token::Minus
                } else if first == STAR {
                    self.cursor.advance();
                    Token::Star
                } else if first == SLASH {
                    self.cursor.advance();
                    Token::Slash
                } else if first == CARET {
                    self.cursor.advance();
                    Token::Caret
                } else if first == LEFT_PARENTHESIS {
                    self.cursor.advance();
                    Token::LeftParenthesis
                } else if first == RIGHT_PARENTHESIS {
                    self.cursor.advance();
                    Token::RightParenthesis
                } else {
                    let current = self.cursor.pointer();
                    skip_alphanumeric(&mut self.cursor);
                    proof {
                        lemma_run_end(text, start, ByteClass::Alphanumeric);
                        encode_utf8_valid_utf8(self.cursor.source()@);
                        if is_char_boundary(text, start) {
                            lemma_boundary_after_ascii_run(text, start, self.position());
                        }
                    }
                    match self.cursor.slice(current, self.cursor.pointer()) {
                        Some(name) => {
                            proof {
                                lemma_name_of_run(name@, text, start, self.position());
                            }
                            Token::Identifier(name)
                        },
                        None => {
                            return Err(());
                        },
                    }
                }
            },
            None => Token::EndOfInput,
        };
        Ok(Span { value: token, range: Range { start: start_index, end: self.cursor.index() } })
    }
}

} // verus!
