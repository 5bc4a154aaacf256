//! The token grammar, as a function from the bytes of a text and a place in it
//! to the token that begins there.

use crate::decimal::DecimalView;
use crate::read::tokens::Keyword;
use crate::utf8::ascii_text;
use vstd::prelude::*;

verus! {

/// A token as the grammar sees it: its kind and, for names and numbers, what
/// was written.
pub enum Lexeme {
    Plus,
    PlusPlus,
    PlusEquals,
    Minus,
    MinusMinus,
    MinusEquals,
    Star,
    StarEquals,
    StarStar,
    StarStarEquals,
    Slash,
    SlashEquals,
    Percent,
    PercentEquals,
    Caret,
    CaretEquals,
    Ampersand,
    AmpersandEquals,
    AmpersandAmpersand,
    AmpersandAmpersandEquals,
    Pipe,
    PipeEquals,
    PipePipe,
    PipePipeEquals,
    ExclamationMark,
    ExclamationMarkEquals,
    Comma,
    Dot,
    LeftAngle,
    LeftAngleEquals,
    LeftAngleLeftAngle,
    LeftAngleLeftAngleEquals,
    RightAngle,
    RightAngleEquals,
    RightAngleRightAngle,
    RightAngleRightAngleEquals,
    Equals,
    EqualsEquals,
    Number(DecimalView),
    Identifier(Seq<char>),
    Keyword(Keyword),
    String(Seq<char>),
    LeftParenthesis,
    RightParenthesis,
    LeftBracket,
    RightBracket,
    LeftBrace,
    RightBrace,
    EndOfInput,
}

/// The byte `0`.
pub const ZERO: u8 = 0x30;

/// The byte `.`.
pub const DOT: u8 = 0x2E;

/// The byte `+`.
pub const PLUS: u8 = 0x2B;

/// The byte `-`.
pub const MINUS: u8 = 0x2D;

/// The byte `*`.
pub const STAR: u8 = 0x2A;

/// The byte `/`.
pub const SLASH: u8 = 0x2F;

/// The byte `^`.
pub const CARET: u8 = 0x5E;

/// The byte `(`.
pub const LEFT_PARENTHESIS: u8 = 0x28;

/// The byte `)`.
pub const RIGHT_PARENTHESIS: u8 = 0x29;

/// The classes of bytes that the lexer reads in runs.
pub enum ByteClass {
    Whitespace,
    Digit,
    Alphanumeric,
}

/// ASCII whitespace: space, tab, line feed, form feed, carriage return.
pub open spec fn is_whitespace(byte: u8) -> bool {
    byte == 0x20 || byte == 0x09 || byte == 0x0A || byte == 0x0C || byte == 0x0D
}

/// An ASCII digit.
pub open spec fn is_digit(byte: u8) -> bool {
    0x30 <= byte <= 0x39
}

/// An ASCII letter or digit.
pub open spec fn is_alphanumeric(byte: u8) -> bool {
    is_digit(byte) || 0x41 <= byte <= 0x5A || 0x61 <= byte <= 0x7A
}

impl ByteClass {
    /// Whether `byte` belongs to the class.
    pub open spec fn holds(self, byte: u8) -> bool {
        match self {
            ByteClass::Whitespace => is_whitespace(byte),
            ByteClass::Digit => is_digit(byte),
            ByteClass::Alphanumeric => is_alphanumeric(byte),
        }
    }
}

/// Where the run of bytes of `class` that begins at `pos` ends: the first
/// place from `pos` on that holds no byte of the class.
pub open spec fn run_end(text: Seq<u8>, pos: int, class: ByteClass) -> int
    decreases text.len() - pos,
{
    if 0 <= pos < text.len() && class.holds(text[pos]) {
        run_end(text, pos + 1, class)
    } else {
        pos
    }
}

/// A run ends inside the text, holds only bytes of its class, and cannot be
/// made longer.
pub proof fn lemma_run_end(text: Seq<u8>, pos: int, class: ByteClass)
    requires
        0 <= pos <= text.len(),
    ensures
        pos <= run_end(text, pos, class) <= text.len(),
        forall|i: int| pos <= i < run_end(text, pos, class) ==> class.holds(#[trigger] text[i]),
        run_end(text, pos, class) < text.len() ==> !class.holds(text[run_end(text, pos, class)]),
    decreases text.len() - pos,
{
    if pos < text.len() && class.holds(text[pos]) {
        lemma_run_end(text, pos + 1, class);
    }
}

/// A run that is entered in its middle ends where the whole run ends.
pub proof fn lemma_run_end_from_inside(text: Seq<u8>, pos: int, mid: int, class: ByteClass)
    requires
        0 <= pos <= mid <= text.len(),
        forall|i: int| pos <= i < mid ==> class.holds(#[trigger] text[i]),
    ensures
        run_end(text, pos, class) == run_end(text, mid, class),
    decreases mid - pos,
{
    if pos < mid {
        lemma_run_end_from_inside(text, pos + 1, mid, class);
    }
}

/// The values of a run of ASCII digits.
pub open spec fn digit_values(digits: Seq<u8>) -> Seq<u8> {
    Seq::new(digits.len(), |i: int| (digits[i] - ZERO) as u8)
}

/// The token that one byte spells by itself, if it spells one.
pub open spec fn operator(byte: u8) -> Option<Lexeme> {
    if byte == PLUS {
        Some(Lexeme::Plus)
    } else if byte == MINUS {
        Some(Lexeme::Minus)
    } else if byte == STAR {
        Some(Lexeme::Star)
    } else if byte == SLASH {
        Some(Lexeme::Slash)
    } else if byte == CARET {
        Some(Lexeme::Caret)
    } else if byte == LEFT_PARENTHESIS {
        Some(Lexeme::LeftParenthesis)
    } else if byte == RIGHT_PARENTHESIS {
        Some(Lexeme::RightParenthesis)
    } else {
        None
    }
}

/// A token together with the bytes it was read from: `[start, end)`.
pub struct Scan {
    pub lexeme: Lexeme,
    pub start: int,
    pub end: int,
}

/// The token that begins at or after `pos`, once whitespace is skipped.
///
/// At the end of the text it is the end-of-input token, of no width. A digit
/// begins a number: a run of digits and, if a `.` follows, the `.` and
/// another run of digits, which may be empty. One of `+ - * / ^ ( )` is a
/// token by itself. Any other byte begins an identifier, the run of ASCII
/// letters and digits from there on, which is empty if the byte is neither.
pub open spec fn scan(text: Seq<u8>, pos: int) -> Scan {
    let start = run_end(text, pos, ByteClass::Whitespace);
    if !(0 <= start < text.len()) {
        Scan { lexeme: Lexeme::EndOfInput, start, end: start }
    } else if is_digit(text[start]) {
        let whole_end = run_end(text, start, ByteClass::Digit);
        let whole = digit_values(text.subrange(start, whole_end));
        if whole_end < text.len() && text[whole_end] == DOT {
            let end = run_end(text, whole_end + 1, ByteClass::Digit);
            let fraction = digit_values(text.subrange(whole_end + 1, end));
            Scan { lexeme: Lexeme::Number(DecimalView { whole, fraction }), start, end }
        } else {
            Scan {
                lexeme: Lexeme::Number(DecimalView { whole, fraction: Seq::empty() }),
                start,
                end: whole_end,
            }
        }
    } else if operator(text[start]) is Some {
        Scan { lexeme: operator(text[start])->0, start, end: start + 1 }
    } else {
        let end = run_end(text, start, ByteClass::Alphanumeric);
        Scan { lexeme: Lexeme::Identifier(ascii_text(text.subrange(start, end))), start, end }
    }
}

/// A token lies inside the text, behind the place it was asked for; a number
/// has at least one digit and only digits; the end of input is met at the end
/// of the text alone, and an operator is one byte wide.
pub proof fn lemma_scan(text: Seq<u8>, pos: int)
    requires
        0 <= pos <= text.len(),
    ensures
        pos <= scan(text, pos).start <= scan(text, pos).end <= text.len(),
        scan(text, pos).lexeme is EndOfInput <==> scan(text, pos).start == text.len(),
        scan(text, pos).lexeme matches Lexeme::Number(n) ==> n.wf() && n.whole.len() >= 1,
        !(scan(text, pos).lexeme is Identifier) && !(scan(text, pos).lexeme is EndOfInput)
            ==> scan(text, pos).end > scan(text, pos).start,
        scan(text, scan(text, pos).start) == scan(text, pos),
{
    let start = run_end(text, pos, ByteClass::Whitespace);
    lemma_run_end(text, pos, ByteClass::Whitespace);
    lemma_run_end(text, start, ByteClass::Whitespace);
    if start < text.len() {
        if is_digit(text[start]) {
            let whole_end = run_end(text, start, ByteClass::Digit);
            lemma_run_end(text, start, ByteClass::Digit);
            let part = text.subrange(start, whole_end);
            assert forall|i: int| 0 <= i < part.len() implies #[trigger] digit_values(part)[i]
                <= 9 by {
                assert(ByteClass::Digit.holds(text[start + i]));
            }
            if whole_end < text.len() && text[whole_end] == DOT {
                let end = run_end(text, whole_end + 1, ByteClass::Digit);
                lemma_run_end(text, whole_end + 1, ByteClass::Digit);
                let rest = text.subrange(whole_end + 1, end);
                assert forall|i: int| 0 <= i < rest.len() implies #[trigger] digit_values(
                    rest,
                )[i] <= 9 by {
                    assert(ByteClass::Digit.holds(text[whole_end + 1 + i]));
                }
            }
        } else if operator(text[start]) is Some {
        } else {
            lemma_run_end(text, start, ByteClass::Alphanumeric);
        }
    }
}

/// Once the end of the input is met, it is met again from where the lexer
/// then stands, with the same empty span at the end of the text.
pub proof fn lemma_end_of_input_repeats(text: Seq<u8>, pos: int)
    requires
        0 <= pos <= text.len(),
        scan(text, pos).lexeme is EndOfInput,
    ensures
        scan(text, pos).start == text.len(),
        scan(text, pos).end == text.len(),
        scan(text, scan(text, pos).end) == scan(text, pos),
{
    lemma_scan(text, pos);
}

/// Whether `byte` is ASCII whitespace.
pub fn byte_is_whitespace(byte: u8) -> (r: bool)
    ensures
        r == is_whitespace(byte),
{
    byte == 0x20 || byte == 0x09 || byte == 0x0A || byte == 0x0C || byte == 0x0D
}

/// Whether `byte` is an ASCII digit.
pub fn byte_is_digit(byte: u8) -> (r: bool)
    ensures
        r == is_digit(byte),
{
    0x30 <= byte && byte <= 0x39
}

/// Whether `byte` is an ASCII letter or digit.
pub fn byte_is_alphanumeric(byte: u8) -> (r: bool)
    ensures
        r == is_alphanumeric(byte),
{
    (0x30 <= byte && byte <= 0x39) || (0x41 <= byte && byte <= 0x5A) || (0x61 <= byte && byte
        <= 0x7A)
}

} // verus!
