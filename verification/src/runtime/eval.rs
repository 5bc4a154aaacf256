//! The evaluator: a walk over the expression tree.
//!
//! Running a program and calling a builtin are the caller's work. The
//! evaluator is handed what those have answered so far, in the order in
//! which they were asked, and either finishes or says what it needs next.
//! The caller does that, adds the answer, and asks again.

use crate::read::ast::{BinaryOperation, Expression, Tree};
use crate::read::bytes::Span;
use crate::runtime::scope::Scope;
use crate::runtime::{Builtin, Number, NumberView, RuntimeError, Value, ValueView, VariableView};
use vstd::prelude::*;
use vstd::string::*;

verus! {

/// How the attempt to run a program ended.
#[derive(Debug, Clone, Copy, PartialEq, Eq)]
pub enum Spawned {
    /// The program ran and reported success.
    Succeeded,
    /// The program ran and reported failure, with its exit code if it has
    /// one.
    Failed(Option<i32>),
    /// The program could not be started.
    NotStarted,
}

/// What the evaluator needs done before it can go on.
#[derive(Debug, PartialEq)]
pub enum Request<'a> {
    /// Run the program of this name and wait for it.
    Spawn(&'a str),
    /// Call this builtin.
    Invoke(Builtin),
}

/// Where an evaluation stands.
#[derive(Debug, PartialEq)]
pub enum Progress<'a> {
    /// The expression has this value, or has none for this reason.
    Done(Result<Value, RuntimeError>),
    /// The answer to this request is needed.
    Need(Request<'a>),
}

/// A request as a value.
pub enum RequestView {
    Spawn(Seq<char>),
    Invoke(Builtin),
}

/// The state of an evaluation as a value.
pub enum ProgressView {
    Done(Result<ValueView, RuntimeError>),
    Need(RequestView),
}

impl<'a> View for Progress<'a> {
    type V = ProgressView;

    open spec fn view(&self) -> ProgressView {
        match self {
            Progress::Done(Ok(value)) => ProgressView::Done(Ok(value@)),
            Progress::Done(Err(error)) => ProgressView::Done(Err(*error)),
            Progress::Need(Request::Spawn(name)) => ProgressView::Need(RequestView::Spawn(name@)),
            Progress::Need(Request::Invoke(builtin)) => ProgressView::Need(
                RequestView::Invoke(*builtin),
            ),
        }
    }
}

/// What builtins have answered, as values.
pub open spec fn invoked_view(invoked: Seq<Result<Value, RuntimeError>>) -> Seq<
    Result<ValueView, RuntimeError>,
> {
    Seq::new(
        invoked.len(),
        |i: int|
            match invoked[i] {
                Ok(value) => Ok(value@),
                Err(error) => Err(error),
            },
    )
}

/// Where an evaluation stands, and how many answers of either kind it has
/// used.
pub struct Outcome {
    pub progress: ProgressView,
    pub spawned: int,
    pub invoked: int,
}

/// The value of an operation on two values: the sum, product or quotient of
/// two numbers; every other operation, and every operand that is no number,
/// has no evaluation rule.
pub open spec fn apply(operation: BinaryOperation, left: ValueView, right: ValueView) -> Result<
    ValueView,
    RuntimeError,
> {
    match (left, right) {
        (ValueView::Number(a), ValueView::Number(b)) => match operation {
            BinaryOperation::Add => Ok(ValueView::Number(NumberView::Sum(Box::new(a), Box::new(b)))),
            BinaryOperation::Multiply => Ok(
                ValueView::Number(NumberView::Product(Box::new(a), Box::new(b))),
            ),
            BinaryOperation::Divide => Ok(
                ValueView::Number(NumberView::Quotient(Box::new(a), Box::new(b))),
            ),
            _ => Err(RuntimeError::UnimplementedFeature),
        },
        _ => Err(RuntimeError::UnimplementedFeature),
    }
}

/// What a name that is no program stands for: a builtin is to be called, a
/// string is its own value, and anything else counts as undefined.
pub open spec fn resolve(
    scope: Map<Seq<char>, VariableView>,
    name: Seq<char>,
    invoked: Seq<Result<ValueView, RuntimeError>>,
    i: int,
) -> (ProgressView, int) {
    if !scope.contains_key(name) {
        (ProgressView::Done(Err(RuntimeError::UndefinedVariable)), i)
    } else {
        match scope[name].value {
            ValueView::Function(builtin) => if 0 <= i < invoked.len() {
                (ProgressView::Done(invoked[i]), i + 1)
            } else {
                (ProgressView::Need(RequestView::Invoke(builtin)), i)
            },
            ValueView::String(text) => (ProgressView::Done(Ok(ValueView::String(text))), i),
            _ => (ProgressView::Done(Err(RuntimeError::UndefinedVariable)), i),
        }
    }
}

/// The invocation of a command. The name is first tried as a program: one
/// that succeeds yields nil, one that fails yields its exit code, or 0 if it
/// has none. A name that cannot be started as a program is looked up in the
/// scope.
pub open spec fn invoke(
    scope: Map<Seq<char>, VariableView>,
    name: Seq<char>,
    spawned: Seq<Spawned>,
    invoked: Seq<Result<ValueView, RuntimeError>>,
    s: int,
    i: int,
) -> Outcome {
    if !(0 <= s < spawned.len()) {
        Outcome { progress: ProgressView::Need(RequestView::Spawn(name)), spawned: s, invoked: i }
    } else {
        match spawned[s] {
            Spawned::Succeeded => Outcome {
                progress: ProgressView::Done(Ok(ValueView::Nil)),
                spawned: s + 1,
                invoked: i,
            },
            Spawned::Failed(code) => Outcome {
                progress: ProgressView::Done(
                    Ok(
                        ValueView::Number(
                            NumberView::ExitCode(
                                match code {
                                    Some(code) => code,
                                    None => 0,
                                },
                            ),
                        ),
                    ),
                ),
                spawned: s + 1,
                invoked: i,
            },
            Spawned::NotStarted => Outcome {
                progress: resolve(scope, name, invoked, i).0,
                spawned: s + 1,
                invoked: resolve(scope, name, invoked, i).1,
            },
        }
    }
}

/// The evaluation of `tree` in `scope`, given what the attempts to run
/// programs and the calls of builtins have answered from the `s`-th and the
/// `i`-th answer on.
///
/// A literal is its own value. A command is invoked. Of an operation the
/// left operand is evaluated first, then the right one; the first of them
/// that has no value, or needs an answer that is not there yet, decides the
/// outcome, and the other is not evaluated further.
pub open spec fn evaluate(
    scope: Map<Seq<char>, VariableView>,
    tree: Tree,
    spawned: Seq<Spawned>,
    invoked: Seq<Result<ValueView, RuntimeError>>,
    s: int,
    i: int,
) -> Outcome
    decreases tree,
{
    match tree {
        Tree::Number(digits) => Outcome {
            progress: ProgressView::Done(Ok(ValueView::Number(NumberView::Literal(digits)))),
            spawned: s,
            invoked: i,
        },
        Tree::String(text) => Outcome {
            progress: ProgressView::Done(Ok(ValueView::String(text))),
            spawned: s,
            invoked: i,
        },
        Tree::CommandInvocation(name) => invoke(scope, name, spawned, invoked, s, i),
        Tree::Binary { left, operation, right } => {
            let first = evaluate(scope, left.value, spawned, invoked, s, i);
            match first.progress {
                ProgressView::Done(Ok(left_value)) => {
                    let second = evaluate(
                        scope,
                        right.value,
                        spawned,
                        invoked,
                        first.spawned,
                        first.invoked,
                    );
                    match second.progress {
                        ProgressView::Done(Ok(right_value)) => Outcome {
                            progress: ProgressView::Done(apply(operation, left_value, right_value)),
                            spawned: second.spawned,
                            invoked: second.invoked,
                        },
                        _ => second,
                    }
                },
                _ => first,
            }
        },
    }
}

/// A name that cannot be started as a program and is not
/// bound in the scope has no value, for the reason that it is undefined,
/// whatever else was answered.
pub proof fn lemma_undefined_command(
    scope: Map<Seq<char>, VariableView>,
    name: Seq<char>,
    spawned: Seq<Spawned>,
    invoked: Seq<Result<ValueView, RuntimeError>>,
)
    requires
        spawned.len() > 0,
        spawned[0] == Spawned::NotStarted,
        !scope.contains_key(name),
    ensures
        evaluate(scope, Tree::CommandInvocation(name), spawned, invoked, 0, 0).progress
            == ProgressView::Done(Err::<ValueView, RuntimeError>(RuntimeError::UndefinedVariable)),
{
}

/// The values of two operands under an operation.
fn apply_operation(operation: BinaryOperation, left: Value, right: Value) -> (r: Result<
    Value,
    RuntimeError,
>)
    ensures
        match r {
            Ok(value) => apply(operation, left@, right@) == Ok::<ValueView, RuntimeError>(value@),
            Err(error) => apply(operation, left@, right@) == Err::<ValueView, RuntimeError>(error),
        },
{
    match (left, right) {
        (Value::Number(a), Value::Number(b)) => match operation {
            BinaryOperation::Add => Ok(Value::Number(Number::Sum(Box::new(a), Box::new(b)))),
            BinaryOperation::Multiply => Ok(
                Value::Number(Number::Product(Box::new(a), Box::new(b))),
            ),
            BinaryOperation::Divide => Ok(
                Value::Number(Number::Quotient(Box::new(a), Box::new(b))),
            ),
            _ => Err(RuntimeError::UnimplementedFeature),
        },
        _ => Err(RuntimeError::UnimplementedFeature),
    }
}

/// Evaluates `expression` from the `s`-th and the `i`-th answer on, and says
/// which answers come next.
fn eval_from<'a>(
    scope: &Scope,
    expression: &Expression<'a>,
    spawned: &Vec<Spawned>,
    invoked: &Vec<Result<Value, RuntimeError>>,
    s: usize,
    i: usize,
) -> (r: (Progress<'a>, usize, usize))
    requires
        s <= spawned@.len(),
        i <= invoked@.len(),
    ensures
        r.1 <= spawned@.len(),
        r.2 <= invoked@.len(),
        evaluate(scope@, expression@, spawned@, invoked_view(invoked@), s as int, i as int) == (
        Outcome { progress: r.0@, spawned: r.1 as int, invoked: r.2 as int }),
    decreases expression,
{
    match expression {
        Expression::Number(digits) => (
            Progress::Done(Ok(Value::Number(Number::Literal(digits.duplicate())))),
            s,
            i,
        ),
        Expression::String(text) => {
            let text: &str = text;
            (Progress::Done(Ok(Value::String(text.to_owned()))), s, i)
        },
        Expression::CommandInvocation(name) => {
            if s >= spawned.len() {
                return (Progress::Need(Request::Spawn(name)), s, i);
            }
            match spawned[s] {
                Spawned::Succeeded => (Progress::Done(Ok(Value::Nil)), s + 1, i),
                Spawned::Failed(code) => {
                    let code = match code {
                        Some(code) => code,
                        None => 0,
                    };
                    (Progress::Done(Ok(Value::Number(Number::ExitCode(code)))), s + 1, i)
                },
                Spawned::NotStarted => match scope.get(name) {
                    None => (Progress::Done(Err(RuntimeError::UndefinedVariable)), s + 1, i),
                    Some(variable) => match &variable.value {
                        Value::Function(builtin) => {
                            if i >= invoked.len() {
                                (Progress::Need(Request::Invoke(*builtin)), s + 1, i)
                            } else {
                                let answer = match &invoked[i] {
                                    Ok(value) => Ok(value.duplicate()),
                                    Err(error) => Err(*error),
                                };
                                (Progress::Done(answer), s + 1, i + 1)
                            }
                        },
                        Value::String(text) => (
                            Progress::Done(Ok(Value::String(text.clone()))),
                            s + 1,
                            i,
                        ),
                        _ => (Progress::Done(Err(RuntimeError::UndefinedVariable)), s + 1, i),
                    },
                },
            }
        },
        Expression::Binary { left, operation, right } => {
            let first = eval_from(scope, &left.value, spawned, invoked, s, i);
            match first.0 {
                Progress::Done(Ok(left_value)) => {
                    let second = eval_from(scope, &right.value, spawned, invoked, first.1, first.2);
                    match second.0 {
                        Progress::Done(Ok(right_value)) => (
                            Progress::Done(apply_operation(*operation, left_value, right_value)),
                            second.1,
                            second.2,
                        ),
                        other => (other, second.1, second.2),
                    }
                },
                other => (other, first.1, first.2),
            }
        },
    }
}

/// Evaluates `root_expression` in `scope`, given what the attempts to run
/// programs and the calls of builtins have answered so far, each in the order
/// in which it was asked: the evaluation that `evaluate` describes. It
/// either finishes, or names the one request whose answer is to be added
/// before it is asked again.
pub fn eval<'a>(
    scope: &Scope,
    root_expression: &Span<Expression<'a>>,
    spawned: &Vec<Spawned>,
    invoked: &Vec<Result<Value, RuntimeError>>,
) -> (r: Progress<'a>)
    ensures
        r@ == evaluate(
            scope@,
            root_expression.value@,
            spawned@,
            invoked_view(invoked@),
            0,
            0,
        ).progress,
{
    eval_from(scope, &root_expression.value, spawned, invoked, 0, 0).0
}

} // verus!
