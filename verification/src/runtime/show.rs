//! Values as the shell prints them: a label in a colour.

use crate::runtime::{Value, ValueView};
use crossterm::style::{Color, SetForegroundColor};
use vstd::prelude::*;
use vstd::string::*;

verus! {

/// The colours that values are shown in, and the one that ends a colour.
#[derive(Debug, Clone, Copy, PartialEq, Eq, Structural)]
pub enum Tint {
    Blue,
    Grey,
    Yellow,
    DarkGreen,
    Reset,
}

/// The text by which `crossterm::style::SetForegroundColor` selects a
/// colour when it is formatted. Nothing is claimed of it: it is an escape
/// sequence, or empty where the environment has colours switched off.
#[verifier::external_body]
fn foreground(tint: Tint) -> (r: String) {
    let color = match tint {
        Tint::Blue => Color::Blue,
        Tint::Grey => Color::Grey,
        Tint::Yellow => Color::Yellow,
        Tint::DarkGreen => Color::DarkGreen,
        Tint::Reset => Color::Reset,
    };
    format!("{}", SetForegroundColor(color))
}

/// The colour of a value: numbers are blue, nil is grey, functions are
/// yellow and strings dark green.
pub open spec fn tint_of(value: ValueView) -> Tint {
    match value {
        ValueView::Number(_) => Tint::Blue,
        ValueView::Nil => Tint::Grey,
        ValueView::Function(_) => Tint::Yellow,
        ValueView::String(_) => Tint::DarkGreen,
    }
}

/// The label of a value: a number is shown by its text, which the caller
/// provides; nil and functions by a fixed word; a string between quotes.
pub open spec fn label_of(value: ValueView, number: Seq<char>) -> Seq<char> {
    match value {
        ValueView::Number(_) => number,
        ValueView::Nil => "Nil"@,
        ValueView::Function(_) => "[function]"@,
        ValueView::String(text) => "\""@ + text + "\""@,
    }
}

/// `body` between the text that selects a colour and the text that ends it.
pub fn paint(start: &str, body: &str, reset: &str) -> (r: String)
    ensures
        r@ == start@ + body@ + reset@,
{
    let mut painted = String::from_str(start);
    painted.append(body);
    painted.append(reset);
    painted
}

impl Value {
    /// The colour that the value is shown in.
    pub fn tint(&self) -> (r: Tint)
        ensures
            r == tint_of(self@),
    {
        match self {
            Value::Number(_) => Tint::Blue,
            Value::Nil => Tint::Grey,
            Value::Function(_) => Tint::Yellow,
            Value::String(_) => Tint::DarkGreen,
        }
    }

    /// The label of the value, where `number` is the text of the number if
    /// the value is one.
    pub fn label(&self, number: &str) -> (r: String)
        ensures
            r@ == label_of(self@, number@),
    {
        match self {
            Value::Number(_) => String::from_str(number),
            Value::Nil => String::from_str("Nil"),
            Value::Function(_) => String::from_str("[function]"),
            Value::String(text) => paint("\"", text.as_str(), "\""),
        }
    }

    /// The value as the shell prints it, where `number` is the text of the
    /// number if the value is one: its label, between the text that selects
    /// its colour and the text that ends the colour.
    pub fn shown(&self, number: &str) -> (r: String)
        ensures
            exists|start: Seq<char>, reset: Seq<char>|
                r@ == start + label_of(self@, number@) + reset,
    {
        let start = foreground(self.tint());
        let reset = foreground(Tint::Reset);
        let label = self.label(number);
        paint(start.as_str(), label.as_str(), reset.as_str())
    }
}

} // verus!
