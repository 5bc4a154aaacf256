//! Values, variables and errors of the evaluator.

pub mod eval;
pub mod resolve;
pub mod scope;
pub mod show;

use crate::decimal::{Decimal, DecimalView};
use vstd::prelude::*;

verus! {

/// A number as the arithmetic that yields it. The library decides which
/// operations are applied to which operands; the floating-point value of the
/// term is computed where floating point is at hand.
#[derive(Debug, PartialEq)]
pub enum Number {
    /// A literal, as its digits.
    Literal(Decimal),
    /// The exit code of a process.
    ExitCode(i32),
    /// The sum of two numbers.
    Sum(Box<Number>, Box<Number>),
    /// The product of two numbers.
    Product(Box<Number>, Box<Number>),
    /// The first number divided by the second.
    Quotient(Box<Number>, Box<Number>),
}

/// A number as a value.
pub enum NumberView {
    Literal(DecimalView),
    ExitCode(i32),
    Sum(Box<NumberView>, Box<NumberView>),
    Product(Box<NumberView>, Box<NumberView>),
    Quotient(Box<NumberView>, Box<NumberView>),
}

impl View for Number {
    type V = NumberView;

    open spec fn view(&self) -> NumberView
        decreases self,
    {
        match self {
            Number::Literal(digits) => NumberView::Literal(digits@),
            Number::ExitCode(code) => NumberView::ExitCode(*code),
            Number::Sum(left, right) => NumberView::Sum(Box::new((**left)@), Box::new((**right)@)),
            Number::Product(left, right) => NumberView::Product(
                Box::new((**left)@),
                Box::new((**right)@),
            ),
            Number::Quotient(left, right) => NumberView::Quotient(
                Box::new((**left)@),
                Box::new((**right)@),
            ),
        }
    }
}

impl Number {
    /// A copy of the number.
    pub fn duplicate(&self) -> (r: Self)
        ensures
            r@ == self@,
        decreases self,
    {
        match self {
            Number::Literal(digits) => Number::Literal(digits.duplicate()),
            Number::ExitCode(code) => Number::ExitCode(*code),
            Number::Sum(left, right) => Number::Sum(
                Box::new(left.duplicate()),
                Box::new(right.duplicate()),
            ),
            Number::Product(left, right) => Number::Product(
                Box::new(left.duplicate()),
                Box::new(right.duplicate()),
            ),
            Number::Quotient(left, right) => Number::Quotient(
                Box::new(left.duplicate()),
                Box::new(right.duplicate()),
            ),
        }
    }
}

/// The functions that the shell provides by itself.
#[derive(Debug, Clone, Copy, PartialEq, Eq, Structural)]
pub enum Builtin {
    /// Clears the screen.
    Clear,
    /// Ends the shell.
    Exit,
    /// Prints the working directory.
    Pwd,
    /// Lists the working directory.
    Ls,
    /// Prints every variable in scope.
    DebugPrintScope,
}

/// What an expression evaluates to.
#[derive(Debug, PartialEq)]
pub enum Value {
    Number(Number),
    Nil,
    Function(Builtin),
    String(String),
}

/// A value as a value.
pub enum ValueView {
    Number(NumberView),
    Nil,
    Function(Builtin),
    String(Seq<char>),
}

impl View for Value {
    type V = ValueView;

    open spec fn view(&self) -> ValueView {
        match self {
            Value::Number(number) => ValueView::Number(number@),
            Value::Nil => ValueView::Nil,
            Value::Function(builtin) => ValueView::Function(*builtin),
            Value::String(text) => ValueView::String(text@),
        }
    }
}

impl Value {
    /// A copy of the value.
    pub fn duplicate(&self) -> (r: Self)
        ensures
            r@ == self@,
    {
        match self {
            Value::Number(number) => Value::Number(number.duplicate()),
            Value::Nil => Value::Nil,
            Value::Function(builtin) => Value::Function(*builtin),
            Value::String(text) => Value::String(text.clone()),
        }
    }
}

/// An entry of the scope: a value, and whether it may be assigned to.
#[derive(Debug, PartialEq)]
pub struct Variable {
    pub mutable: bool,
    pub value: Value,
}

/// A variable as a value.
pub struct VariableView {
    pub mutable: bool,
    pub value: ValueView,
}

impl View for Variable {
    type V = VariableView;

    open spec fn view(&self) -> VariableView {
        VariableView { mutable: self.mutable, value: self.value@ }
    }
}

/// Why an expression has no value.
#[derive(Debug, Clone, Copy, PartialEq, Eq, Structural)]
pub enum RuntimeError {
    /// A name is neither a program that can be run nor bound in the scope.
    UndefinedVariable,
    /// The expression is well formed but has no evaluation rule: an operator
    /// other than `+ * /`, or an operand that is no number.
    UnimplementedFeature,
    /// Kept for errors that are yet to be told apart.
    UnimplementedError,
}

} // verus!
