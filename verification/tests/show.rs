use shell_core::decimal::Decimal;
use shell_core::runtime::show::{paint, Tint};
use shell_core::runtime::{Builtin, Number, Value};

fn one() -> Value {
    Value::Number(Number::Literal(Decimal { whole: vec![1], fraction: Vec::new() }))
}

#[test]
fn values_have_their_colours() {
    assert_eq!(one().tint(), Tint::Blue);
    assert_eq!(Value::Nil.tint(), Tint::Grey);
    assert_eq!(Value::Function(Builtin::Ls).tint(), Tint::Yellow);
    assert_eq!(Value::String("x".to_string()).tint(), Tint::DarkGreen);
}

#[test]
fn values_have_their_labels() {
    assert_eq!(one().label("1"), "1");
    assert_eq!(one().label("1.5e3"), "1.5e3");
    assert_eq!(Value::Nil.label("7"), "Nil");
    assert_eq!(Value::Function(Builtin::Pwd).label("7"), "[function]");
    assert_eq!(Value::String("a \"b\" é".to_string()).label("7"), "\"a \"b\" é\"");
    assert_eq!(Value::String(String::new()).label(""), "\"\"");
}

#[test]
fn paint_puts_the_body_between_the_two() {
    assert_eq!(paint("<", "body", ">"), "<body>");
    assert_eq!(paint("", "é", ""), "é");
}

#[test]
fn a_shown_value_is_its_label_in_its_colour() {
    for (value, number, label, colour) in [
        (one(), "14", "14", "\u{1b}[38;5;12m"),
        (Value::Nil, "", "Nil", "\u{1b}[38;5;7m"),
        (Value::Function(Builtin::Clear), "", "[function]", "\u{1b}[38;5;11m"),
        (Value::String("hi".to_string()), "", "\"hi\"", "\u{1b}[38;5;2m"),
    ] {
        let shown = value.shown(number);
        let coloured = format!("{}{}\u{1b}[39m", colour, label);
        let plain = format!("\u{1b}[m{}\u{1b}[m", label);
        assert!(shown == coloured || shown == plain, "{:?}", shown);
    }
}
