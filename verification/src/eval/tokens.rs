//! The tokens that the lexer over two segments yields. A name may straddle
//! the gap, so these tokens own their text.

use crate::decimal::Decimal;
use crate::lexeme::Lexeme;
use vstd::prelude::*;

pub use crate::read::tokens::Keyword;

verus! {

/// A token that owns the name it holds.
#[derive(Debug, PartialEq)]
pub enum Token {
    Number(Decimal),
    Plus,
    Minus,
    Star,
    Slash,
    Caret,
    LeftParenthesis,
    RightParenthesis,
    LeftBracket,
    RightBracket,
    LeftBrace,
    RightBrace,
    Comma,
    Identifier(String),
    LeftAngle,
    RightAngle,
    EndOfInput,
}

impl View for Token {
    type V = Lexeme;

    open spec fn view(&self) -> Lexeme {
        match *self {
            Token::Number(number) => Lexeme::Number(number@),
            Token::Plus => Lexeme::Plus,
            Token::Minus => Lexeme::Minus,
            Token::Star => Lexeme::Star,
            Token::Slash => Lexeme::Slash,
            Token::Caret => Lexeme::Caret,
            Token::LeftParenthesis => Lexeme::LeftParenthesis,
            Token::RightParenthesis => Lexeme::RightParenthesis,
            Token::LeftBracket => Lexeme::LeftBracket,
            Token::RightBracket => Lexeme::RightBracket,
            Token::LeftBrace => Lexeme::LeftBrace,
            Token::RightBrace => Lexeme::RightBrace,
            Token::Comma => Lexeme::Comma,
            Token::Identifier(name) => Lexeme::Identifier(name@),
            Token::LeftAngle => Lexeme::LeftAngle,
            Token::RightAngle => Lexeme::RightAngle,
            Token::EndOfInput => Lexeme::EndOfInput,
        }
    }
}

} // verus!
