//! The parser: precedence climbing over the tokens of a text.

use crate::lexeme::{lemma_scan, scan, Lexeme};
use crate::read::ast::{tree_of, BinaryOperation, Expression, SpannedTree, Tree};
use crate::read::bp::{ADDITIVE, MULTIPLICATIVE};
use crate::read::buffered::{spans, unreadable, Buffered};
use crate::read::bytes::{to_index, Span};
use crate::read::tokens::Token;
use core::ops::Range;
use vstd::prelude::*;

verus! {

/// The expression that a token is by itself, if it can begin an expression:
/// an identifier invokes a command, a number and a string stand for
/// themselves.
pub open spec fn term(lexeme: Lexeme) -> Option<Tree> {
    match lexeme {
        Lexeme::Identifier(name) => Some(Tree::CommandInvocation(name)),
        Lexeme::Number(number) => Some(Tree::Number(number)),
        Lexeme::String(text) => Some(Tree::String(text)),
        _ => None,
    }
}

/// The operation that a token stands for between two operands, with its left
/// and its right binding power, if it stands for one.
pub open spec fn infix(lexeme: Lexeme) -> Option<(BinaryOperation, u8, u8)> {
    match lexeme {
        Lexeme::Plus => Some((BinaryOperation::Add, ADDITIVE.0, ADDITIVE.1)),
        Lexeme::Star => Some((BinaryOperation::Multiply, MULTIPLICATIVE.0, MULTIPLICATIVE.1)),
        Lexeme::Slash => Some((BinaryOperation::Divide, MULTIPLICATIVE.0, MULTIPLICATIVE.1)),
        _ => None,
    }
}

/// The operation applied to two operands: it spans from the start of the
/// left operand to the end of the right one.
pub open spec fn combine(
    left: SpannedTree,
    operation: BinaryOperation,
    right: SpannedTree,
) -> SpannedTree {
    SpannedTree {
        value: Tree::Binary { left: Box::new(left), operation, right: Box::new(right) },
        start: left.start,
        end: right.end,
    }
}

/// How parsing ends: with an expression, or without one. Either way `next`
/// is the place from which the next token would be read.
pub enum Parsed {
    Done { tree: SpannedTree, next: int },
    Failed { next: int },
}

/// The expression that begins at or after `pos` and binds at least as
/// tightly as `min_bp`, with the place behind it; or the place at which
/// parsing gives up.
///
/// The first token must be a term; any other token is taken and refused.
/// Then operators follow: one whose left binding power is below `min_bp`
/// ends the expression and is left in place, as does the end of the input;
/// any other operator takes as its right operand the expression that follows
/// it and binds at least as tightly as the operator's right binding power.
/// Any other token is refused and left in place. A token that cannot be
/// read is passed over and refused.
pub open spec fn parse_expression(text: Seq<u8>, pos: int, min_bp: u8) -> Parsed
    decreases text.len() - pos, 1int,
{
    let first = scan(text, pos);
    if unreadable(text, pos) || !(0 <= pos <= first.end <= text.len()) {
        Parsed::Failed { next: first.end }
    } else {
        match term(first.lexeme) {
            None => Parsed::Failed { next: first.end },
            Some(value) => parse_operators(
                text,
                first.end,
                min_bp,
                SpannedTree { value, start: to_index(first.start), end: to_index(first.end) },
            ),
        }
    }
}

/// The expression that `left` grows into by the operators that follow at
/// `pos`, with the place behind it; or the place at which parsing gives up.
pub open spec fn parse_operators(text: Seq<u8>, pos: int, min_bp: u8, left: SpannedTree) -> Parsed
    decreases text.len() - pos, 0int,
{
    let token = scan(text, pos);
    if unreadable(text, pos) {
        Parsed::Failed { next: token.end }
    } else if token.lexeme is EndOfInput {
        Parsed::Done { tree: left, next: pos }
    } else {
        match infix(token.lexeme) {
            None => Parsed::Failed { next: pos },
            Some((operation, left_bp, right_bp)) => if left_bp < min_bp {
                Parsed::Done { tree: left, next: pos }
            } else if !(0 <= pos < token.end <= text.len()) {
                Parsed::Failed { next: pos }
            } else {
                match parse_expression(text, token.end, right_bp) {
                    Parsed::Failed { next } => Parsed::Failed { next },
                    Parsed::Done { tree: right, next } => if !(token.end <= next <= text.len()) {
                        Parsed::Failed { next }
                    } else {
                        parse_operators(text, next, min_bp, combine(left, operation, right))
                    },
                }
            },
        }
    }
}

/// What the parser does with the token it looks at after an operand.
enum Follow {
    Stop,
    Operator(BinaryOperation, u8, u8),
    Unexpected,
}

/// Parses the expression that begins where `iter` stands and binds at least
/// as tightly as `min_bp`: the expression that `parse_expression` describes,
/// or a failure where it describes none. The buffer then stands behind the
/// expression, with the token that ended it still to be taken, or where
/// parsing gave up.
pub fn parse<'a>(iter: &mut Buffered<'a>, min_bp: u8) -> (r: Result<Span<Expression<'a>>, ()>)
    requires
        old(iter).wf(),
    ensures
        final(iter).wf(),
        final(iter).text() == old(iter).text(),
        match r {
            Ok(expression) => {
                &&& parse_expression(old(iter).text(), old(iter).position(), min_bp) == (
                Parsed::Done { tree: tree_of(expression), next: final(iter).position() })
                &&& old(iter).position() <= final(iter).position()
            },
            Err(_) => parse_expression(old(iter).text(), old(iter).position(), min_bp) == (
            Parsed::Failed { next: final(iter).position() }),
        },
    decreases old(iter).text().len() - old(iter).position(),
{
    let ghost text = iter.text();
    let ghost origin = iter.position();
    let ghost goal = parse_expression(text, origin, min_bp);
    proof {
        iter.lemma_wf();
        lemma_scan(text, origin);
    }
    let first = match iter.next() {
        Ok(token) => token,
        Err(_) => {
            return Err(());
        },
    };
    let start_index = first.range.start;
    let end_index = first.range.end;
    let value = match first.value {
        Token::Identifier(id) => Expression::CommandInvocation(id),
        Token::Number(num) => Expression::Number(num),
        Token::String(string) => Expression::String(string),
        _ => {
            return Err(());
        },
    };
    let mut first_term = Span { value, range: Range { start: start_index, end: end_index } };
    loop
        invariant
            iter.wf(),
            iter.text() == text,
            origin <= iter.position() <= text.len(),
            0 <= origin,
            first_term.range.start == start_index,
            goal == parse_operators(text, iter.position(), min_bp, tree_of(first_term)),
            goal == parse_expression(text, origin, min_bp),
            origin == old(iter).position(),
            text == old(iter).text(),
        decreases text.len() - iter.position(),
    {
        let ghost here = iter.position();
        let ghost left = tree_of(first_term);
        proof {
            lemma_scan(text, here);
        }
        let follow = match iter.peek() {
            Ok(token) => match &token.value {
                Token::Plus => Follow::Operator(BinaryOperation::Add, ADDITIVE.0, ADDITIVE.1),
                Token::Star => Follow::Operator(
                    BinaryOperation::Multiply,
                    MULTIPLICATIVE.0,
                    MULTIPLICATIVE.1,
                ),
                Token::Slash => Follow::Operator(
                    BinaryOperation::Divide,
                    MULTIPLICATIVE.0,
                    MULTIPLICATIVE.1,
                ),
                Token::EndOfInput => Follow::Stop,
                _ => Follow::Unexpected,
            },
            Err(_) => {
                return Err(());
            },
        };
        match follow {
            Follow::Stop => {
                return Ok(first_term);
            },
            Follow::Unexpected => {
                return Err(());
            },
            Follow::Operator(operation, left_bp, right_bp) => {
                if left_bp < min_bp {
                    return Ok(first_term);
                }
                match iter.next() {
                    Ok(_) => {},
                    Err(_) => {
                        return Err(());
                    },
                }
                proof {
                    iter.lemma_wf();
                }
                let right = match parse(iter, right_bp) {
                    Ok(right) => right,
                    Err(_) => {
                        return Err(());
                    },
                };
                proof {
                    iter.lemma_wf();
                }
                let end = right.range.end;
                first_term = Span {
                    value: Expression::Binary {
                        left: Box::new(first_term),
                        operation,
                        right: Box::new(right),
                    },
                    range: Range { start: start_index, end },
                };
            },
        }
    }
}

} // verus!
