use shell_core::decimal::Decimal;
use shell_core::read::ast::{BinaryOperation, Expression};
use shell_core::read::buffered::Buffered;
use shell_core::read::bytes::{Cursor, Span};
use shell_core::read::lex::Lexer;
use shell_core::read::parse::parse;
use shell_core::read::tokens::Keyword;
use shell_core::runtime::eval::{eval, Progress, Request, Spawned};
use shell_core::runtime::resolve::{find_entry, search_directories};
use shell_core::runtime::scope::{new_root_scope, Scope};
use shell_core::runtime::{Builtin, Number, RuntimeError, Value, Variable};

fn parsed(text: &str) -> Span<Expression<'_>> {
    let mut tokens = Buffered::new(Lexer::new(Cursor::new(text)));
    parse(&mut tokens, 0).unwrap()
}

fn fold(digits: &Decimal) -> f64 {
    let mut value = 0.0;
    for digit in &digits.whole {
        value = value * 10.0 + *digit as f64;
    }
    let mut decimal = 0.1;
    for digit in &digits.fraction {
        value += *digit as f64 * decimal;
        decimal *= 0.1;
    }
    value
}

fn floating(number: &Number) -> f64 {
    match number {
        Number::Literal(digits) => fold(digits),
        Number::ExitCode(code) => *code as f64,
        Number::Sum(left, right) => floating(left) + floating(right),
        Number::Product(left, right) => floating(left) * floating(right),
        Number::Quotient(left, right) => floating(left) / floating(right),
    }
}

fn number_of(progress: Progress<'_>) -> f64 {
    match progress {
        Progress::Done(Ok(Value::Number(number))) => floating(&number),
        other => panic!("no number: {:?}", other),
    }
}

fn environment(pairs: &[(&str, &str)]) -> Vec<(String, String)> {
    pairs.iter().map(|(name, value)| (name.to_string(), value.to_string())).collect()
}

fn string_variable(value: &str) -> Variable {
    Variable { mutable: false, value: Value::String(value.to_string()) }
}

#[test]
fn precedence_shows_in_the_value() {
    let scope = Scope::new();
    let expression = parsed("2 + 3 * 4");
    assert_eq!(number_of(eval(&scope, &expression, &Vec::new(), &Vec::new())), 14.0);
}

#[test]
fn arithmetic_on_literals() {
    let scope = Scope::new();
    assert_eq!(number_of(eval(&scope, &parsed("1 + 2 + 3"), &Vec::new(), &Vec::new())), 6.0);
    assert_eq!(number_of(eval(&scope, &parsed("8 / 4 / 2"), &Vec::new(), &Vec::new())), 1.0);
    assert_eq!(number_of(eval(&scope, &parsed("1.5 * 4"), &Vec::new(), &Vec::new())), 6.0);
    assert_eq!(number_of(eval(&scope, &parsed("42.5"), &Vec::new(), &Vec::new())), 42.5);
    assert!(number_of(eval(&scope, &parsed("1 / 0"), &Vec::new(), &Vec::new())).is_infinite());
}

#[test]
fn the_sum_is_the_term_of_its_operands() {
    let scope = Scope::new();
    let two = Decimal { whole: vec![2], fraction: Vec::new() };
    let three = Decimal { whole: vec![3], fraction: Vec::new() };
    assert_eq!(
        eval(&scope, &parsed("2 + 3"), &Vec::new(), &Vec::new()),
        Progress::Done(Ok(Value::Number(Number::Sum(
            Box::new(Number::Literal(two)),
            Box::new(Number::Literal(three)),
        ))))
    );
}

#[test]
fn a_string_literal_is_its_own_value() {
    let scope = Scope::new();
    let expression = Span { value: Expression::String("hi"), range: 0..4 };
    assert_eq!(
        eval(&scope, &expression, &Vec::new(), &Vec::new()),
        Progress::Done(Ok(Value::String("hi".to_string())))
    );
}

#[test]
fn operators_without_a_rule_are_unimplemented() {
    let scope = Scope::new();
    let one = || Span {
        value: Expression::Number(Decimal { whole: vec![1], fraction: Vec::new() }),
        range: 0..1,
    };
    for operation in [
        BinaryOperation::Subtract,
        BinaryOperation::Modulo,
        BinaryOperation::Exponentiate,
        BinaryOperation::Equal,
        BinaryOperation::LogicalAnd,
    ] {
        let expression = Span {
            value: Expression::Binary { left: Box::new(one()), operation, right: Box::new(one()) },
            range: 0..1,
        };
        assert_eq!(
            eval(&scope, &expression, &Vec::new(), &Vec::new()),
            Progress::Done(Err(RuntimeError::UnimplementedFeature))
        );
    }
}

#[test]
fn operands_that_are_no_numbers_are_unimplemented() {
    let scope = Scope::new();
    let expression = Span {
        value: Expression::Binary {
            left: Box::new(Span { value: Expression::String("a"), range: 0..3 }),
            operation: BinaryOperation::Add,
            right: Box::new(Span {
                value: Expression::Number(Decimal { whole: vec![1], fraction: Vec::new() }),
                range: 6..7,
            }),
        },
        range: 0..7,
    };
    assert_eq!(
        eval(&scope, &expression, &Vec::new(), &Vec::new()),
        Progress::Done(Err(RuntimeError::UnimplementedFeature))
    );
    assert_eq!(
        eval(&scope, &parsed("true + 1"), &vec![Spawned::Succeeded], &Vec::new()),
        Progress::Done(Err(RuntimeError::UnimplementedFeature))
    );
}

#[test]
fn a_command_is_first_tried_as_a_program() {
    let scope = new_root_scope(Vec::new());
    let expression = parsed("ls");
    assert_eq!(
        eval(&scope, &expression, &Vec::new(), &Vec::new()),
        Progress::Need(Request::Spawn("ls"))
    );
    assert_eq!(
        eval(&scope, &expression, &vec![Spawned::Succeeded], &Vec::new()),
        Progress::Done(Ok(Value::Nil))
    );
    assert_eq!(
        eval(&scope, &expression, &vec![Spawned::Failed(Some(3))], &Vec::new()),
        Progress::Done(Ok(Value::Number(Number::ExitCode(3))))
    );
    assert_eq!(
        eval(&scope, &expression, &vec![Spawned::Failed(None)], &Vec::new()),
        Progress::Done(Ok(Value::Number(Number::ExitCode(0))))
    );
}

#[test]
fn a_name_that_is_no_program_is_looked_up() {
    let scope = new_root_scope(environment(&[("HOME", "/root")]));
    assert_eq!(
        eval(&scope, &parsed("HOME"), &vec![Spawned::NotStarted], &Vec::new()),
        Progress::Done(Ok(Value::String("/root".to_string())))
    );
    assert_eq!(
        eval(&scope, &parsed("pwd"), &vec![Spawned::NotStarted], &Vec::new()),
        Progress::Need(Request::Invoke(Builtin::Pwd))
    );
    assert_eq!(
        eval(&scope, &parsed("pwd"), &vec![Spawned::NotStarted], &vec![Ok(Value::Nil)]),
        Progress::Done(Ok(Value::Nil))
    );
    assert_eq!(
        eval(
            &scope,
            &parsed("pwd"),
            &vec![Spawned::NotStarted],
            &vec![Err(RuntimeError::UnimplementedError)]
        ),
        Progress::Done(Err(RuntimeError::UnimplementedError))
    );
}

#[test]
fn an_unknown_name_is_undefined() {
    let scope = new_root_scope(environment(&[("HOME", "/root")]));
    assert_eq!(
        eval(&scope, &parsed("nosuchthing"), &vec![Spawned::NotStarted], &Vec::new()),
        Progress::Done(Err(RuntimeError::UndefinedVariable))
    );
    let mut scope = Scope::new();
    scope.insert("n".to_string(), Variable { mutable: true, value: Value::Nil });
    assert_eq!(
        eval(&scope, &parsed("n"), &vec![Spawned::NotStarted], &Vec::new()),
        Progress::Done(Err(RuntimeError::UndefinedVariable))
    );
}

#[test]
fn the_left_operand_comes_first_and_an_error_ends_the_evaluation() {
    let scope = new_root_scope(environment(&[("A", "a")]));
    let expression = parsed("x + y * z");
    let mut spawned = Vec::new();
    assert_eq!(eval(&scope, &expression, &spawned, &Vec::new()), Progress::Need(Request::Spawn("x")));
    spawned.push(Spawned::Failed(Some(2)));
    assert_eq!(eval(&scope, &expression, &spawned, &Vec::new()), Progress::Need(Request::Spawn("y")));
    spawned.push(Spawned::Failed(Some(3)));
    assert_eq!(eval(&scope, &expression, &spawned, &Vec::new()), Progress::Need(Request::Spawn("z")));
    spawned.push(Spawned::Failed(Some(4)));
    assert_eq!(number_of(eval(&scope, &expression, &spawned, &Vec::new())), 14.0);

    let failing = vec![Spawned::NotStarted];
    assert_eq!(
        eval(&scope, &expression, &failing, &Vec::new()),
        Progress::Done(Err(RuntimeError::UndefinedVariable))
    );
}

#[test]
fn builtins_are_called_in_order() {
    let scope = new_root_scope(Vec::new());
    let expression = parsed("clear + ls");
    let spawned = vec![Spawned::NotStarted, Spawned::NotStarted];
    let mut invoked = Vec::new();
    assert_eq!(
        eval(&scope, &expression, &spawned, &invoked),
        Progress::Need(Request::Invoke(Builtin::Clear))
    );
    invoked.push(Ok(Value::Number(Number::ExitCode(1))));
    assert_eq!(
        eval(&scope, &expression, &spawned, &invoked),
        Progress::Need(Request::Invoke(Builtin::Ls))
    );
    invoked.push(Ok(Value::Number(Number::ExitCode(2))));
    assert_eq!(number_of(eval(&scope, &expression, &spawned, &invoked)), 3.0);
}

#[test]
fn the_root_scope_holds_the_environment() {
    let scope = new_root_scope(environment(&[("HOME", "/root"), ("LANG", "C"), ("EMPTY", "")]));
    assert_eq!(scope.get("HOME"), Some(&string_variable("/root")));
    assert_eq!(scope.get("LANG"), Some(&string_variable("C")));
    assert_eq!(scope.get("EMPTY"), Some(&string_variable("")));
    assert_eq!(scope.get("home"), None);
}

#[test]
fn the_root_scope_holds_the_builtins() {
    let scope = new_root_scope(Vec::new());
    for (name, builtin) in [
        ("clear", Builtin::Clear),
        ("exit", Builtin::Exit),
        ("pwd", Builtin::Pwd),
        ("ls", Builtin::Ls),
        ("debug_print_scope", Builtin::DebugPrintScope),
    ] {
        assert_eq!(
            scope.get(name),
            Some(&Variable { mutable: false, value: Value::Function(builtin) })
        );
    }
    assert_eq!(scope.names().len(), 5);
}

#[test]
fn a_later_binding_replaces_an_earlier_one() {
    let scope = new_root_scope(environment(&[("A", "1"), ("pwd", "here"), ("A", "2")]));
    assert_eq!(scope.get("A"), Some(&string_variable("2")));
    assert_eq!(
        scope.get("pwd"),
        Some(&Variable { mutable: false, value: Value::Function(Builtin::Pwd) })
    );
    let names: Vec<&str> = scope.names().iter().map(|name| name.as_str()).collect();
    assert_eq!(names, vec!["A", "pwd", "clear", "exit", "debug_print_scope", "ls"]);
}

#[test]
fn scope_insert_and_get() {
    let mut scope = Scope::new();
    assert_eq!(scope.get("x"), None);
    scope.insert("x".to_string(), string_variable("1"));
    scope.insert("y".to_string(), string_variable("2"));
    scope.insert("x".to_string(), string_variable("3"));
    assert_eq!(scope.get("x"), Some(&string_variable("3")));
    assert_eq!(scope.get("y"), Some(&string_variable("2")));
    assert_eq!(scope.names().len(), 2);
}

#[test]
fn copies_are_equal() {
    let value = Value::Number(Number::Quotient(
        Box::new(Number::Literal(Decimal { whole: vec![1], fraction: vec![5] })),
        Box::new(Number::ExitCode(-2)),
    ));
    assert_eq!(value.duplicate(), value);
    assert_eq!(Value::String("é".to_string()).duplicate(), Value::String("é".to_string()));
    assert_eq!(Value::Function(Builtin::Ls).duplicate(), Value::Function(Builtin::Ls));
    assert_eq!(Value::Nil.duplicate(), Value::Nil);
}

#[test]
fn a_search_path_names_its_directories() {
    assert_eq!(search_directories("/bin;/usr/bin"), vec!["/bin", "/usr/bin"]);
    assert_eq!(search_directories(";;/bin;;/ü/x;"), vec!["/bin", "/ü/x"]);
    assert_eq!(search_directories("/bin:/usr/bin"), vec!["/bin:/usr/bin"]);
    assert_eq!(search_directories(""), Vec::<&str>::new());
    assert_eq!(search_directories(";"), Vec::<&str>::new());
    assert_eq!(search_directories("a"), vec!["a"]);
}

#[test]
fn the_first_entry_of_that_name_is_found() {
    let names = vec!["a".to_string(), "ls".to_string(), "é".to_string(), "ls".to_string()];
    assert_eq!(find_entry(&names, "ls"), Some(1));
    assert_eq!(find_entry(&names, "é"), Some(2));
    assert_eq!(find_entry(&names, "l"), None);
    assert_eq!(find_entry(&names, "lss"), None);
    assert_eq!(find_entry(&Vec::new(), "ls"), None);
}

#[test]
fn reserved_words_are_recognised() {
    assert_eq!(Keyword::lookup("nil"), Some(Keyword::Nil));
    assert_eq!(Keyword::lookup("true"), Some(Keyword::True));
    assert_eq!(Keyword::lookup("false"), Some(Keyword::False));
    assert_eq!(Keyword::lookup("if"), Some(Keyword::If));
    assert_eq!(Keyword::lookup("else"), Some(Keyword::Else));
    assert_eq!(Keyword::lookup("while"), Some(Keyword::While));
    assert_eq!(Keyword::lookup("While"), None);
    assert_eq!(Keyword::lookup("whil"), None);
    assert_eq!(Keyword::lookup(""), None);
}
