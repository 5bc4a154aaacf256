//! The expression tree.

use crate::decimal::{Decimal, DecimalView};
use crate::read::bytes::{Index, Span};
use vstd::prelude::*;

verus! {

/// The operators that take two operands.
#[derive(Debug, Clone, Copy, PartialEq, Eq, Structural)]
pub enum BinaryOperation {
    Add,
    Subtract,
    Multiply,
    Divide,
    Modulo,
    Exponentiate,
    BitwiseAnd,
    BitwiseOr,
    BitwiseXor,
    BitwiseShiftLeft,
    BitwiseShiftRight,
    LogicalAnd,
    LogicalOr,
    LogicalXor,
    Equal,
    NotEqual,
    LessThan,
    GreaterThan,
    LessThanOrEqual,
    GreaterThanOrEqual,
}

/// An expression whose names and strings are slices of the text it was parsed
/// from.
#[derive(Debug, PartialEq)]
pub enum Expression<'a> {
    Binary { left: Box<Span<Expression<'a>>>, operation: BinaryOperation, right: Box<Span<Expression<'a>>> },
    CommandInvocation(&'a str),
    Number(Decimal),
    String(&'a str),
}

/// An expression as a value: what an `Expression` holds, with the texts it
/// borrows written out.
pub enum Tree {
    Binary { left: Box<SpannedTree>, operation: BinaryOperation, right: Box<SpannedTree> },
    CommandInvocation(Seq<char>),
    Number(DecimalView),
    String(Seq<char>),
}

/// An expression with the offsets of the text it was parsed from.
pub struct SpannedTree {
    pub value: Tree,
    pub start: Index,
    pub end: Index,
}

impl<'a> View for Expression<'a> {
    type V = Tree;

    open spec fn view(&self) -> Tree
        decreases self,
    {
        match self {
            Expression::Binary { left, operation, right } => Tree::Binary {
                left: Box::new(tree_of(**left)),
                operation: *operation,
                right: Box::new(tree_of(**right)),
            },
            Expression::CommandInvocation(name) => Tree::CommandInvocation(name@),
            Expression::Number(number) => Tree::Number(number@),
            Expression::String(text) => Tree::String(text@),
        }
    }
}

/// The value of a spanned expression.
pub open spec fn tree_of<'a>(span: Span<Expression<'a>>) -> SpannedTree
    decreases span,
{
    SpannedTree { value: span.value@, start: span.range.start, end: span.range.end }
}

} // verus!
