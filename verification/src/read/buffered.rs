//! One token of lookahead over the lexer.

use crate::lexeme::{lemma_scan, scan, Scan};
use crate::read::bytes::{to_index, Span};
use crate::read::lex::Lexer;
use crate::read::tokens::Token;
use vstd::prelude::*;
use vstd::utf8::*;

verus! {

/// Whether the token that begins at or after `pos` cannot be read: it is an
/// identifier that would begin inside a character.
pub open spec fn unreadable(text: Seq<u8>, pos: int) -> bool {
    scan(text, pos).lexeme is Identifier && !is_char_boundary(text, scan(text, pos).start)
}

/// Whether `span` is the token `found`, with the offsets of its bytes.
pub open spec fn spans<'a>(span: Span<Token<'a>>, found: Scan) -> bool {
    &&& span.value@ == found.lexeme
    &&& span.range.start == to_index(found.start)
    &&& span.range.end == to_index(found.end)
}

/// A lexer with a slot for the one token that was looked at and not yet
/// taken.
pub struct Buffered<'a> {
    lexer: Lexer<'a>,
    force_take: Option<Span<Token<'a>>>,
    /// Where the token in the slot was read from.
    origin: Ghost<int>,
}

impl<'a> Buffered<'a> {
    /// The bytes of the text that is read.
    pub closed spec fn text(&self) -> Seq<u8> {
        self.lexer.text()
    }

    /// The place from which the next token will be read: where the lexer
    /// stands, or where it stood before it read the token in the slot.
    pub closed spec fn position(&self) -> int {
        if self.force_take is Some {
            self.origin@
        } else {
            self.lexer.position()
        }
    }

    /// The lexer is well formed, and a token in the slot is the one that was
    /// read from the place the buffer stands at.
    pub closed spec fn wf(&self) -> bool {
        &&& self.lexer.wf()
        &&& 0 <= self.lexer.position() <= self.lexer.text().len()
        &&& self.force_take matches Some(span) ==> {
            &&& 0 <= self.origin@ <= self.lexer.text().len()
            &&& !unreadable(self.lexer.text(), self.origin@)
            &&& spans(span, scan(self.lexer.text(), self.origin@))
            &&& self.lexer.position() == scan(self.lexer.text(), self.origin@).end
        }
    }

    /// A well-formed buffer stands inside its text or at its end.
    pub proof fn lemma_wf(&self)
        requires
            self.wf(),
        ensures
            0 <= self.position() <= self.text().len(),
    {
    }

    /// A buffer with an empty slot over `lexer`.
    #[inline]
    pub fn new(lexer: Lexer<'a>) -> (r: Self)
        requires
            lexer.wf(),
        ensures
            r.wf(),
            r.text() == lexer.text(),
            r.position() == lexer.position(),
    {
        proof {
            lexer.cursor().lemma_wf();
        }
        Self { lexer, force_take: None, origin: Ghost(0) }
    }

    /// Looks at the next token without taking it: a second look, or `next`,
    /// gives the same token. Fails where the lexer fails; the buffer then
    /// stands behind what could not be read.
    #[inline]
    pub fn peek(&mut self) -> (r: Result<&Span<Token<'a>>, ()>)
        requires
            old(self).wf(),
        ensures
            final(self).wf(),
            final(self).text() == old(self).text(),
            r is Err <==> unreadable(old(self).text(), old(self).position()),
            r is Err ==> final(self).position() == scan(
                old(self).text(),
                old(self).position(),
            ).end,
            r matches Ok(span) ==> {
                &&& final(self).position() == old(self).position()
                &&& spans(*span, scan(old(self).text(), old(self).position()))
            },
    {
        if self.force_take.is_none() {
            let ghost here = self.lexer.position();
            proof {
                lemma_scan(self.lexer.text(), here);
            }
            match self.lexer.next() {
                Ok(token) => {
                    self.force_take = Some(token);
                    self.origin = Ghost(here);
                },
                Err(_) => {
                    return Err(());
                },
            }
        }
        match &self.force_take {
            Some(token) => Ok(token),
            None => Err(()),
        }
    }

    /// Takes the next token: the one in the slot if there is one, else the
    /// one that the lexer reads. Fails where the lexer fails.
    #[inline]
    pub fn next(&mut self) -> (r: Result<Span<Token<'a>>, ()>)
        requires
            old(self).wf(),
        ensures
            final(self).wf(),
            final(self).text() == old(self).text(),
            final(self).position() == scan(old(self).text(), old(self).position()).end,
            r is Err <==> unreadable(old(self).text(), old(self).position()),
            r matches Ok(span) ==> spans(span, scan(old(self).text(), old(self).position())),
    {
        proof {
            lemma_scan(self.lexer.text(), self.position());
        }
        match self.force_take.take() {
            Some(token) => Ok(token),
            None => self.lexer.next(),
        }
    }
}

} // verus!
