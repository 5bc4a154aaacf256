//! The tokens of the command language.

use crate::decimal::Decimal;
use crate::lexeme::Lexeme;
use crate::utf8::same_text;
use vstd::prelude::*;

verus! {

/// A token whose names and strings are slices of the text it was read from.
#[derive(Debug, PartialEq)]
pub enum Token<'a> {
    Plus,
    PlusPlus,
    PlusEquals,
    Minus,
    MinusMinus,
    MinusEquals,
    Star,
    StarEquals,
    StarStar,
    StarStarEquals,
    Slash,
    SlashEquals,
    Percent,
    PercentEquals,
    Caret,
    CaretEquals,
    Ampersand,
    AmpersandEquals,
    AmpersandAmpersand,
    AmpersandAmpersandEquals,
    Pipe,
    PipeEquals,
    PipePipe,
    PipePipeEquals,
    ExclamationMark,
    ExclamationMarkEquals,
    Comma,
    Dot,
    LeftAngle,
    LeftAngleEquals,
    LeftAngleLeftAngle,
    LeftAngleLeftAngleEquals,
    RightAngle,
    RightAngleEquals,
    RightAngleRightAngle,
    RightAngleRightAngleEquals,
    Equals,
    EqualsEquals,
    Number(Decimal),
    Identifier(&'a str),
    Keyword(Keyword),
    String(&'a str),
    LeftParenthesis,
    RightParenthesis,
    LeftBracket,
    RightBracket,
    LeftBrace,
    RightBrace,
    EndOfInput,
}

/// The reserved words.
#[derive(Debug, Clone, Copy, PartialEq, Eq, Structural)]
pub enum Keyword {
    Nil,
    True,
    False,
    If,
    Else,
    While,
}

/// The reserved word that `name` spells, if it spells one: `nil`, `true`,
/// `false`, `if`, `else` or `while`.
pub open spec fn keyword_of(name: Seq<char>) -> Option<Keyword> {
    if name == "nil"@ {
        Some(Keyword::Nil)
    } else if name == "true"@ {
        Some(Keyword::True)
    } else if name == "false"@ {
        Some(Keyword::False)
    } else if name == "if"@ {
        Some(Keyword::If)
    } else if name == "else"@ {
        Some(Keyword::Else)
    } else if name == "while"@ {
        Some(Keyword::While)
    } else {
        None
    }
}

impl Keyword {
    /// Looks `name` up among the reserved words.
    pub fn lookup(name: &str) -> (r: Option<Keyword>)
        ensures
            r == keyword_of(name@),
    {
        if same_text(name, "nil") {
            Some(Keyword::Nil)
        } else if same_text(name, "true") {
            Some(Keyword::True)
        } else if same_text(name, "false") {
            Some(Keyword::False)
        } else if same_text(name, "if") {
            Some(Keyword::If)
        } else if same_text(name, "else") {
            Some(Keyword::Else)
        } else if same_text(name, "while") {
            Some(Keyword::While)
        } else {
            None
        }
    }
}

impl<'a> View for Token<'a> {
    type V = Lexeme;

    open spec fn view(&self) -> Lexeme {
        match *self {
            Token::Plus => Lexeme::Plus,
            Token::PlusPlus => Lexeme::PlusPlus,
            Token::PlusEquals => Lexeme::PlusEquals,
            Token::Minus => Lexeme::Minus,
            Token::MinusMinus => Lexeme::MinusMinus,
            Token::MinusEquals => Lexeme::MinusEquals,
            Token::Star => Lexeme::Star,
            Token::StarEquals => Lexeme::StarEquals,
            Token::StarStar => Lexeme::StarStar,
            Token::StarStarEquals => Lexeme::StarStarEquals,
            Token::Slash => Lexeme::Slash,
            Token::SlashEquals => Lexeme::SlashEquals,
            Token::Percent => Lexeme::Percent,
            Token::PercentEquals => Lexeme::PercentEquals,
            Token::Caret => Lexeme::Caret,
            Token::CaretEquals => Lexeme::CaretEquals,
            Token::Ampersand => Lexeme::Ampersand,
            Token::AmpersandEquals => Lexeme::AmpersandEquals,
            Token::AmpersandAmpersand => Lexeme::AmpersandAmpersand,
            Token::AmpersandAmpersandEquals => Lexeme::AmpersandAmpersandEquals,
            Token::Pipe => Lexeme::Pipe,
            Token::PipeEquals => Lexeme::PipeEquals,
            Token::PipePipe => Lexeme::PipePipe,
            Token::PipePipeEquals => Lexeme::PipePipeEquals,
            Token::ExclamationMark => Lexeme::ExclamationMark,
            Token::ExclamationMarkEquals => Lexeme::ExclamationMarkEquals,
            Token::Comma => Lexeme::Comma,
            Token::Dot => Lexeme::Dot,
            Token::LeftAngle => Lexeme::LeftAngle,
            Token::LeftAngleEquals => Lexeme::LeftAngleEquals,
            Token::LeftAngleLeftAngle => Lexeme::LeftAngleLeftAngle,
            Token::LeftAngleLeftAngleEquals => Lexeme::LeftAngleLeftAngleEquals,
            Token::RightAngle => Lexeme::RightAngle,
            Token::RightAngleEquals => Lexeme::RightAngleEquals,
            Token::RightAngleRightAngle => Lexeme::RightAngleRightAngle,
            Token::RightAngleRightAngleEquals => Lexeme::RightAngleRightAngleEquals,
            Token::Equals => Lexeme::Equals,
            Token::EqualsEquals => Lexeme::EqualsEquals,
            Token::Number(number) => Lexeme::Number(number@),
            Token::Identifier(name) => Lexeme::Identifier(name@),
            Token::Keyword(keyword) => Lexeme::Keyword(keyword),
            Token::String(text) => Lexeme::String(text@),
            Token::LeftParenthesis => Lexeme::LeftParenthesis,
            Token::RightParenthesis => Lexeme::RightParenthesis,
            Token::LeftBracket => Lexeme::LeftBracket,
            Token::RightBracket => Lexeme::RightBracket,
            Token::LeftBrace => Lexeme::LeftBrace,
            Token::RightBrace => Lexeme::RightBrace,
            Token::EndOfInput => Lexeme::EndOfInput,
        }
    }
}

} // verus!
