use shell_core::decimal::Decimal;
use shell_core::eval::lex::TokenIterator;
use shell_core::eval::tokens::Token as OwnedToken;
use shell_core::read::bytes::{Cursor, Span};
use shell_core::read::lex::Lexer;
use shell_core::read::tokens::Token;
use shell_core::text_box::TextBox;

fn number(whole: &[u8], fraction: &[u8]) -> Decimal {
    Decimal { whole: whole.to_vec(), fraction: fraction.to_vec() }
}

fn fold(digits: &Decimal) -> f64 {
    let mut value = 0.0;
    for digit in &digits.whole {
        value = value * 10.0 + *digit as f64;
    }
    let mut decimal = 0.1;
    for digit in &digits.fraction {
        value += *digit as f64 * decimal;
        decimal *= 0.1;
    }
    value
}

#[test]
fn cursor_walks_the_bytes() {
    let mut cursor = Cursor::new("a b");
    assert_eq!(cursor.index(), 0);
    assert_eq!(cursor.pointer(), 0);
    assert_eq!(cursor.peek(), Some(b'a'));
    assert_eq!(cursor.peek(), Some(b'a'));
    cursor.advance();
    assert_eq!(cursor.peek(), Some(b' '));
    assert_eq!(cursor.index(), 1);
    cursor.advance();
    cursor.advance();
    assert_eq!(cursor.peek(), None);
    assert_eq!(cursor.index(), 3);
    cursor.advance();
    assert_eq!(cursor.index(), 3);
    assert_eq!(cursor.pointer(), 3);
}

#[test]
fn cursor_skips_ascii_whitespace_only() {
    let mut cursor = Cursor::new(" \t\n\x0c\r\x0bx");
    cursor.skip_whitespace();
    assert_eq!(cursor.index(), 5);
    assert_eq!(cursor.peek(), Some(0x0b));
    cursor.skip_whitespace();
    assert_eq!(cursor.index(), 5);
    let mut blank = Cursor::new("   ");
    blank.skip_whitespace();
    assert_eq!(blank.peek(), None);
    assert_eq!(blank.index(), 3);
}

#[test]
fn cursor_slices_on_character_boundaries() {
    let cursor = Cursor::new("a€b");
    assert_eq!(cursor.slice(0, 1), Some("a"));
    assert_eq!(cursor.slice(1, 4), Some("€"));
    assert_eq!(cursor.slice(1, 5), Some("€b"));
    assert_eq!(cursor.slice(5, 5), Some(""));
    assert_eq!(cursor.slice(1, 2), None);
    assert_eq!(cursor.slice(2, 4), None);
    assert_eq!(cursor.slice(4, 1), None);
    assert_eq!(cursor.slice(0, 6), None);
}

#[test]
fn test_lex() {
    let mut lexer = Lexer::new(Cursor::new(" + - * / ** % 789.012"));

    assert_eq!(lexer.next(), Ok(Span { value: Token::Plus, range: 1..2 }));
    assert_eq!(lexer.next(), Ok(Span { value: Token::Minus, range: 3..4 }));
    assert_eq!(lexer.next(), Ok(Span { value: Token::Star, range: 5..6 }));
    assert_eq!(lexer.next(), Ok(Span { value: Token::Slash, range: 7..8 }));
    assert_eq!(lexer.next(), Ok(Span { value: Token::Star, range: 9..10 }));
    assert_eq!(lexer.next(), Ok(Span { value: Token::Star, range: 10..11 }));
    assert_eq!(lexer.next(), Ok(Span { value: Token::Identifier(""), range: 12..12 }));
    assert_eq!(lexer.next(), Ok(Span { value: Token::Identifier(""), range: 12..12 }));
}

#[test]
fn lexes_operators_with_their_spans() {
    let mut lexer = Lexer::new(Cursor::new(" + - * / ** %"));
    assert_eq!(lexer.next(), Ok(Span { value: Token::Plus, range: 1..2 }));
    assert_eq!(lexer.next(), Ok(Span { value: Token::Minus, range: 3..4 }));
    assert_eq!(lexer.next(), Ok(Span { value: Token::Star, range: 5..6 }));
    assert_eq!(lexer.next(), Ok(Span { value: Token::Slash, range: 7..8 }));
    assert_eq!(lexer.next(), Ok(Span { value: Token::Star, range: 9..10 }));
    assert_eq!(lexer.next(), Ok(Span { value: Token::Star, range: 10..11 }));
}

#[test]
fn lexes_the_other_punctuation() {
    let mut lexer = Lexer::new(Cursor::new("^()"));
    assert_eq!(lexer.next(), Ok(Span { value: Token::Caret, range: 0..1 }));
    assert_eq!(lexer.next(), Ok(Span { value: Token::LeftParenthesis, range: 1..2 }));
    assert_eq!(lexer.next(), Ok(Span { value: Token::RightParenthesis, range: 2..3 }));
    assert_eq!(lexer.next(), Ok(Span { value: Token::EndOfInput, range: 3..3 }));
}

#[test]
fn lexes_a_literal_and_then_the_end_again_and_again() {
    let mut lexer = Lexer::new(Cursor::new("42.5"));
    let token = lexer.next().unwrap();
    assert_eq!(token, Span { value: Token::Number(number(&[4, 2], &[5])), range: 0..4 });
    match &token.value {
        Token::Number(digits) => assert_eq!(fold(digits), 42.5),
        _ => unreachable!(),
    }
    assert_eq!(lexer.next(), Ok(Span { value: Token::EndOfInput, range: 4..4 }));
    assert_eq!(lexer.next(), Ok(Span { value: Token::EndOfInput, range: 4..4 }));
}

#[test]
fn lexes_numbers_in_all_their_shapes() {
    let mut lexer = Lexer::new(Cursor::new("789.012 7 12. 0.5.6"));
    let first = lexer.next().unwrap();
    assert_eq!(first, Span { value: Token::Number(number(&[7, 8, 9], &[0, 1, 2])), range: 0..7 });
    match &first.value {
        Token::Number(digits) => assert!((fold(digits) - 789.012).abs() < 1e-9),
        _ => unreachable!(),
    }
    assert_eq!(lexer.next(), Ok(Span { value: Token::Number(number(&[7], &[])), range: 8..9 }));
    assert_eq!(lexer.next(), Ok(Span { value: Token::Number(number(&[1, 2], &[])), range: 10..13 }));
    assert_eq!(lexer.next(), Ok(Span { value: Token::Number(number(&[0], &[5])), range: 14..17 }));
    assert_eq!(lexer.next(), Ok(Span { value: Token::Identifier(""), range: 17..17 }));
}

#[test]
fn lexes_identifiers_as_slices() {
    let mut lexer = Lexer::new(Cursor::new("  ls2 a1+b"));
    assert_eq!(lexer.next(), Ok(Span { value: Token::Identifier("ls2"), range: 2..5 }));
    assert_eq!(lexer.next(), Ok(Span { value: Token::Identifier("a1"), range: 6..8 }));
    assert_eq!(lexer.next(), Ok(Span { value: Token::Plus, range: 8..9 }));
    assert_eq!(lexer.next(), Ok(Span { value: Token::Identifier("b"), range: 9..10 }));
    assert_eq!(lexer.next(), Ok(Span { value: Token::EndOfInput, range: 10..10 }));
}

#[test]
fn an_identifier_stops_at_a_byte_that_is_no_letter_or_digit() {
    let mut lexer = Lexer::new(Cursor::new("ab€"));
    assert_eq!(lexer.next(), Ok(Span { value: Token::Identifier("ab"), range: 0..2 }));
    assert_eq!(lexer.next(), Ok(Span { value: Token::Identifier(""), range: 2..2 }));
}

#[test]
fn lexing_fails_inside_a_character() {
    let mut cursor = Cursor::new("€a");
    cursor.advance();
    let mut lexer = Lexer::new(cursor);
    assert_eq!(lexer.next(), Err(()));
}

#[test]
fn empty_text_is_the_end_of_input() {
    let mut lexer = Lexer::new(Cursor::new(""));
    assert_eq!(lexer.next(), Ok(Span { value: Token::EndOfInput, range: 0..0 }));
    let mut blank = Lexer::new(Cursor::new("  "));
    assert_eq!(blank.next(), Ok(Span { value: Token::EndOfInput, range: 2..2 }));
}

#[test]
fn two_segments_read_as_one_text() {
    let mut tokens = TokenIterator::new(("12", "3.4 + na"));
    assert_eq!(
        tokens.next(),
        Ok(Span { value: OwnedToken::Number(number(&[1, 2, 3], &[4])), range: 0..5 })
    );
    assert_eq!(tokens.next(), Ok(Span { value: OwnedToken::Plus, range: 6..7 }));
    assert_eq!(
        tokens.next(),
        Ok(Span { value: OwnedToken::Identifier("na".to_string()), range: 8..10 })
    );
    assert_eq!(tokens.next(), Ok(Span { value: OwnedToken::EndOfInput, range: 10..10 }));
    assert_eq!(tokens.next(), Ok(Span { value: OwnedToken::EndOfInput, range: 10..10 }));
}

#[test]
fn a_name_may_straddle_the_two_segments() {
    let mut tokens = TokenIterator::new((" ech", "o1 *"));
    assert_eq!(
        tokens.next(),
        Ok(Span { value: OwnedToken::Identifier("echo1".to_string()), range: 1..6 })
    );
    assert_eq!(tokens.next(), Ok(Span { value: OwnedToken::Star, range: 7..8 }));
    assert_eq!(tokens.next(), Ok(Span { value: OwnedToken::EndOfInput, range: 8..8 }));
}

#[test]
fn an_empty_segment_is_passed_over() {
    let mut left_empty = TokenIterator::new(("", "7"));
    assert_eq!(
        left_empty.next(),
        Ok(Span { value: OwnedToken::Number(number(&[7], &[])), range: 0..1 })
    );
    let mut right_empty = TokenIterator::new(("7", ""));
    assert_eq!(
        right_empty.next(),
        Ok(Span { value: OwnedToken::Number(number(&[7], &[])), range: 0..1 })
    );
    assert_eq!(right_empty.next(), Ok(Span { value: OwnedToken::EndOfInput, range: 1..1 }));
    let mut both_empty = TokenIterator::new(("", ""));
    assert_eq!(both_empty.next(), Ok(Span { value: OwnedToken::EndOfInput, range: 0..0 }));
}

#[test]
fn the_parts_of_a_text_box_lex_like_the_joined_text() {
    let mut text_box = TextBox::new();
    assert_eq!(text_box.insert_str("12 + abc / 3.5"), Ok(()));
    for left in 0..=14 {
        text_box.move_cursor_to_end();
        text_box.move_cursor_n_chars_left(14 - left);
        let mut split = TokenIterator::new(text_box.parts());
        let mut joined = TokenIterator::new(("12 + abc / 3.5", ""));
        for _ in 0..6 {
            assert_eq!(split.next(), joined.next());
        }
    }
}
