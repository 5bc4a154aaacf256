//! The lexer over the two parts of a gap buffer. Names are copied out of the
//! text, since a name may lie on both sides of the gap.

use crate::decimal::Decimal;
use crate::eval::bytes::{Cursor, Span};
use crate::eval::tokens::Token;
use crate::lexeme::{
    byte_is_alphanumeric, byte_is_digit, digit_values, lemma_run_end_from_inside, lemma_scan,
    run_end, scan, ByteClass, CARET, DOT, LEFT_PARENTHESIS, MINUS, PLUS,
    RIGHT_PARENTHESIS, SLASH, STAR, ZERO,
};
use crate::read::bytes::to_index;
use crate::utf8::ascii_text;
use core::ops::Range;
use vstd::prelude::*;
use vstd::string::*;

verus! {

/// `std::string::String::push` appends one character to the end of the string.
pub assume_specification[ std::string::String::push ](text: &mut std::string::String, ch: char)
    ensures
        final(text)@ == old(text)@.push(ch),
;

/// Reads the tokens of a text that lies in two segments, one after the
/// other.
pub struct TokenIterator<'a> {
    cursor: Cursor<'a>,
}

/// Passes the run of digits that follows and returns their values.
fn read_digits<'a>(cursor: &mut Cursor<'a>) -> (digits: Vec<u8>)
    requires
        old(cursor).wf(),
    ensures
        final(cursor).wf(),
        final(cursor).segments() == old(cursor).segments(),
        final(cursor).position() == run_end(
            old(cursor).text(),
            old(cursor).position(),
            ByteClass::Digit,
        ),
        digits@ == digit_values(
            old(cursor).text().subrange(old(cursor).position(), final(cursor).position()),
        ),
{
    let ghost start = cursor.position();
    let ghost text = cursor.text();
    let mut digits: Vec<u8> = Vec::new();
    proof {
        cursor.lemma_wf();
    }
    loop
        invariant
            cursor.wf(),
            cursor.segments() == old(cursor).segments(),
            text == cursor.text(),
            start == old(cursor).position(),
            0 <= start <= cursor.position() <= text.len(),
            forall|i: int| start <= i < cursor.position() ==> ByteClass::Digit.holds(#[trigger] text[i]),
            digits@ == digit_values(text.subrange(start, cursor.position())),
        ensures
            cursor.wf(),
            cursor.segments() == old(cursor).segments(),
            cursor.position() == run_end(text, start, ByteClass::Digit),
            digits@ == digit_values(text.subrange(start, cursor.position())),
        decreases text.len() - cursor.position(),
    {
        proof {
            lemma_run_end_from_inside(text, start, cursor.position(), ByteClass::Digit);
        }
        let ghost here = cursor.position();
        match cursor.peek() {
            Some(byte) => {
                if !byte_is_digit(byte) {
                    break ;
                }
                digits.push(byte - ZERO);
                cursor.advance();
                proof {
                    assert(digits@ =~= digit_values(text.subrange(start, here + 1)));
                }
            },
            None => {
                break ;
            },
        }
    }
    digits
}

/// Passes the run of ASCII letters and digits that follows and returns it as
/// a text.
fn read_name<'a>(cursor: &mut Cursor<'a>) -> (name: String)
    requires
        old(cursor).wf(),
    ensures
        final(cursor).wf(),
        final(cursor).segments() == old(cursor).segments(),
        final(cursor).position() == run_end(
            old(cursor).text(),
            old(cursor).position(),
            ByteClass::Alphanumeric,
        ),
        name@ == ascii_text(
            old(cursor).text().subrange(old(cursor).position(), final(cursor).position()),
        ),
{
    let ghost start = cursor.position();
    let ghost text = cursor.text();
    let mut name = String::new();
    proof {
        cursor.lemma_wf();
        assert(name@ =~= ascii_text(text.subrange(start, start)));
    }
    loop
        invariant
            cursor.wf(),
            cursor.segments() == old(cursor).segments(),
            text == cursor.text(),
            start == old(cursor).position(),
            0 <= start <= cursor.position() <= text.len(),
            forall|i: int|
                start <= i < cursor.position() ==> ByteClass::Alphanumeric.holds(#[trigger] text[i]),
            name@ == ascii_text(text.subrange(start, cursor.position())),
        ensures
            cursor.wf(),
            cursor.segments() == old(cursor).segments(),
            cursor.position() == run_end(text, start, ByteClass::Alphanumeric),
            name@ == ascii_text(text.subrange(start, cursor.position())),
        decreases text.len() - cursor.position(),
    {
        proof {
            lemma_run_end_from_inside(text, start, cursor.position(), ByteClass::Alphanumeric);
        }
        let ghost here = cursor.position();
        match cursor.peek() {
            Some(byte) => {
                if !byte_is_alphanumeric(byte) {
                    break ;
                }
                name.push(byte as char);
                cursor.advance();
                proof {
                    assert(name@ =~= ascii_text(text.subrange(start, here + 1)));
                }
            },
            None => {
                break ;
            },
        }
    }
    name
}

impl<'a> TokenIterator<'a> {
    /// The cursor that the lexer reads from.
    pub closed spec fn cursor(&self) -> Cursor<'a> {
        self.cursor
    }

    /// The bytes of the text that is read.
    pub open spec fn text(&self) -> Seq<u8> {
        self.cursor().text()
    }

    /// The number of bytes read so far.
    pub open spec fn position(&self) -> int {
        self.cursor().position()
    }

    /// The lexer stands inside its text or at its end.
    pub open spec fn wf(&self) -> bool {
        self.cursor().wf()
    }

    /// A lexer at the start of the text that the two segments make up.
    #[inline]
    pub fn new(partition: (&'a str, &'a str)) -> (r: Self)
        ensures
            r.wf(),
            r.cursor().segments() == partition,
            r.position() == 0,
    {
        TokenIterator { cursor: Cursor::new(partition) }
    }

    /// Reads the next token: the one that `scan` finds from where the lexer
    /// stands, with the offsets of its first byte and of the byte behind it.
    /// The lexer then stands behind the token. At the end of the text this is
    /// the end-of-input token, again and again. It never fails.
    pub fn next(&mut self) -> (r: Result<Span<Token>, ()>)
        requires
            old(self).wf(),
        ensures
            final(self).wf(),
            final(self).cursor().segments() == old(self).cursor().segments(),
            final(self).position() == scan(old(self).text(), old(self).position()).end,
            r matches Ok(span) && {
                &&& span.value@ == scan(old(self).text(), old(self).position()).lexeme
                &&& span.range.start == to_index(
                    scan(old(self).text(), old(self).position()).start,
                )
                &&& span.range.end == to_index(scan(old(self).text(), old(self).position()).end)
            },
    {
        let ghost text = self.text();
        let ghost origin = self.position();
        proof {
            self.cursor.lemma_wf();
            lemma_scan(text, origin);
        }
        self.cursor.skip_whitespace();
        let start_index = self.cursor.index();
        let token = match self.cursor.peek() {
            Some(first) => {
                if byte_is_digit(first) {
                    let whole = read_digits(&mut self.cursor);
                    let mut fraction: Vec<u8> = Vec::new();
                    let dot = match self.cursor.peek() {
                        Some(byte) => byte == DOT,
                        None => false,
                    };
                    if dot {
                        self.cursor.advance();
                        fraction = read_digits(&mut self.cursor);
                    }
                    Token::Number(Decimal { whole, fraction })
                } else if first == PLUS {
                    self.cursor.advance();
                    Token::Plus
                } else if first == MINUS {
                    self.cursor.advance();
                    Token::Minus
                } else if first == STAR {
                    self.cursor.advance();
                    Token::Star
                } else if first == SLASH {
                    self.cursor.advance();
                    Token::Slash
                } else if first == CARET {
                    self.cursor.advance();
                    Token::Caret
                } else if first == LEFT_PARENTHESIS {
                    self.cursor.advance();
                    Token::LeftParenthesis
                } else if first == RIGHT_PARENTHESIS {
                    self.cursor.advance();
                    Token::RightParenthesis
                } else {
                    Token::Identifier(read_name(&mut self.cursor))
                }
            },
            None => Token::EndOfInput,
        };
        Ok(Span { value: token, range: Range { start: start_index, end: self.cursor.index() } })
    }
}

} // verus!
