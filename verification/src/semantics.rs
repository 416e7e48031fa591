//! What a program means: the function from the state before a piece of
//! program runs, and the answers of the host, to the state after it and its
//! result.
//!
//! `answers` is everything the host will have answered, in order; the machine
//! keeps in `asked` what it was asked, and counts in `cursor` how many
//! answers were taken. `fuel` bounds the chain of
//! nested calls and loop rounds that leads to any one step.

use crate::environment::{
    assign_at_spec, assignable, define_spec, enclose_spec, get_at_spec, get_spec, FrameModel,
};
use crate::error::{failure, InterpreterError, InterpreterErrorType, NativeError};
use crate::expression::Expression;
use crate::host::{Answer, Question};
use crate::machine::Machine;
use crate::operators::{binary_operation_spec, unary_operation_spec, Operation};
use crate::statement::{Function, Statement};
use crate::token::Token;
use crate::value::{
    find_method_spec, CallableModel, Class, ClassLayer, ControlFlow, Field, LoxFunction, LoxValue,
    NativeFunction,
};
use std::rc::Rc;
use vstd::prelude::*;

verus! {

/// The state after an expression, and its value or error.
pub type Evaluated = (Machine, Result<LoxValue, InterpreterError>);

/// The state after a statement, and its signal or error.
pub type Executed = (Machine, Result<ControlFlow, InterpreterError>);

/// The token that an error about the whole expression is reported at.
pub open spec fn anchor_spec(expression: Expression, marker: Token) -> Token {
    match expression {
        Expression::Binary { operator, .. } => operator,
        Expression::Unary(operator, _) => operator,
        Expression::Var { token, .. } => token,
        Expression::Assignment { token, .. } => token,
        Expression::Call { paren, .. } => paren,
        Expression::Get { token, .. } => token,
        Expression::SetField { name, .. } => name,
        Expression::This { keyword, .. } => keyword,
        _ => marker,
    }
}

/// The display form of a value. That of a number is asked from the host.
pub open spec fn display(answers: Seq<Answer>, m: Machine, value: LoxValue) -> (Machine, Seq<char>) {
    match value {
        LoxValue::Nil => (m, "nil"@),
        LoxValue::Boolean(b) => (
            m,
            if b {
                "true"@
            } else {
                "false"@
            },
        ),
        LoxValue::Number(number) => (m.ask(Question::Format(number)), m.next(answers).text()),
        LoxValue::String(text) => (m, m.strings[text as int]),
        LoxValue::Callable(callable) => (
            m,
            match m.callables[callable as int] {
                CallableModel::Native { .. } => "<native fun>"@,
                CallableModel::LoxFunction(function) => "<fun "@ + function.declaration.name@
                    + ">"@,
                CallableModel::Constructor { class, .. } => "<constructor "@ + class[0].name@
                    + ">"@,
            },
        ),
        LoxValue::Instance(instance) => (
            m,
            "instanceof("@ + m.instances[instance as int].class[0].name@ + ")"@,
        ),
    }
}

/// A value as an error report shows it: its display form, and the name of
/// its kind where it refers to nothing that exists.
pub open spec fn shown(answers: Seq<Answer>, m: Machine, value: LoxValue) -> (Machine, Seq<char>) {
    if m.holds(value) {
        display(answers, m, value)
    } else {
        (m, value.kind_spec())
    }
}

/// What a runtime error says, with the operands that an operator was given
/// shown as values.
pub open spec fn message(answers: Seq<Answer>, m: Machine, error: InterpreterError) -> (
    Machine,
    Seq<char>,
) {
    match error.error_type {
        InterpreterErrorType::WrongUnaryOperands(operator, operand) => {
            let (after, text) = shown(answers, m, operand);
            (
                after,
                "The unary operation "@ + operator.name_spec()
                    + " is not valid over token of type: "@ + text,
            )
        },
        InterpreterErrorType::WrongBinaryOperands(left, operator, right) => {
            let (between, first) = shown(answers, m, left);
            let (after, second) = shown(answers, between, right);
            (
                after,
                "Operation of type: "@ + operator.name_spec()
                    + " cannot be applied over operands of types "@ + first + " and "@ + second,
            )
        },
        _ => (m, error.message_spec()),
    }
}

/// The report of a runtime error: what it says, a line break, and the line
/// of its token in brackets.
pub open spec fn report(answers: Seq<Answer>, m: Machine, error: InterpreterError) -> (
    Machine,
    Seq<char>,
) {
    let (after, text) = message(answers, m, error);
    (after, text + "\n[line "@ + crate::text::decimal_spec(error.token.line as nat) + "]"@)
}

/// What a variable occurrence reads: by its resolved distance where the
/// resolver recorded one, else by name in the global frame.
pub open spec fn lookup(m: Machine, env: usize, name: Seq<char>, id: usize) -> Option<LoxValue> {
    if m.locals.contains_key(id) {
        get_at_spec(m.frames, env, name, m.locals[id] as nat)
    } else {
        get_spec(m.frames, 0, name)
    }
}

/// Whether an assignment through this occurrence finds its variable.
pub open spec fn can_assign(m: Machine, env: usize, name: Seq<char>, id: usize) -> bool {
    if m.locals.contains_key(id) {
        assignable(m.frames, env, name, m.locals[id] as nat)
    } else {
        assignable(m.frames, 0, name, 0)
    }
}

/// The state after an assignment through this occurrence.
pub open spec fn assign(m: Machine, env: usize, name: Seq<char>, id: usize, value: LoxValue) -> Machine {
    if m.locals.contains_key(id) {
        m.with_frames(assign_at_spec(m.frames, env, name, value, m.locals[id] as nat))
    } else {
        m.with_frames(assign_at_spec(m.frames, 0, name, value, 0))
    }
}

/// A fresh frame around the method's closure that binds `this` to the
/// instance, and the method closed over that frame.
pub open spec fn bind(m: Machine, method: LoxFunction, instance: LoxValue) -> (Machine, LoxFunction) {
    (
        m.with_frames(
            define_spec(enclose_spec(m.frames, method.closure), m.next_frame(), "this"@, instance),
        ),
        m.bound(method),
    )
}

/// The frames after the first `count` parameters were bound to their arguments in `frame`.
pub open spec fn bind_parameters(
    frames: Seq<FrameModel>,
    frame: usize,
    parameters: Seq<Token>,
    arguments: Seq<LoxValue>,
    count: nat,
) -> Seq<FrameModel>
    decreases count,
{
    if count == 0 {
        frames
    } else {
        define_spec(
            bind_parameters(frames, frame, parameters, arguments, (count - 1) as nat),
            frame,
            parameters[count - 1].lexeme@,
            arguments[count - 1],
        )
    }
}

/// The closure that a method declaration becomes in the frame `env`.
pub open spec fn method_closure(method: Rc<Function>, env: usize) -> CallableModel {
    CallableModel::LoxFunction(
        LoxFunction { closure: env, declaration: method, is_initializer: method.name@ == "init"@ },
    )
}

/// The state after the first `count` methods of a class declaration were
/// put into the callable store.
pub open spec fn methods_added(m: Machine, methods: Seq<Rc<Function>>, env: usize, count: nat) -> Machine
    decreases count,
{
    if count == 0 {
        m
    } else {
        methods_added(m, methods, env, (count - 1) as nat).add_callable(
            method_closure(methods[count - 1], env),
        )
    }
}

/// The method table of a class after its first `count` methods: each name
/// with the index of the last method declared under it, where the methods
/// stand in the callable store from `base` on.
pub open spec fn method_table(methods: Seq<Rc<Function>>, base: nat, count: nat) -> Map<
    Seq<char>,
    usize,
>
    decreases count,
{
    if count == 0 {
        Map::empty()
    } else {
        method_table(methods, base, (count - 1) as nat).insert(
            methods[count - 1].name@,
            (base + count - 1) as usize,
        )
    }
}

/// The chain of a superclass; empty where there is none.
pub open spec fn inherited(parent: Option<Rc<Class>>) -> Seq<ClassLayer> {
    match parent {
        Some(class) => class.chain(),
        None => Seq::empty(),
    }
}

/// The class that a value denotes, if it is a class.
pub open spec fn class_of(m: Machine, value: LoxValue) -> Option<Seq<ClassLayer>> {
    match value {
        LoxValue::Callable(callable) => match m.callables[callable as int] {
            CallableModel::Constructor { class, .. } => Some(class),
            _ => None,
        },
        _ => None,
    }
}

/// The number of arguments that the constructor of a class takes: as many as
/// its `init`, and none where it has no `init`.
pub open spec fn constructor_arity(m: Machine, class: Seq<ClassLayer>) -> usize {
    match find_method_spec(class, "init"@) {
        Some(init) => m.callables[init as int].arity(),
        None => 0,
    }
}

/// The state after a class declaration, given the chain of its superclass
/// (empty where it has none): the name is bound in `env`, first to `nil`; the
/// methods become closures over `env`; the name is then bound to the
/// constructor.
pub open spec fn declare_class(
    m: Machine,
    name: String,
    methods: Seq<Rc<Function>>,
    parent: Seq<ClassLayer>,
    env: usize,
) -> Machine {
    let declared = m.with_frames(define_spec(m.frames, env, name@, LoxValue::Nil));
    let with_methods = methods_added(declared, methods, env, methods.len());
    let class = seq![
        ClassLayer { name, methods: method_table(methods, m.callables.len(), methods.len()) },
    ] + parent;
    let constructor = CallableModel::Constructor {
        class,
        arity: constructor_arity(with_methods, class),
    };
    let with_constructor = with_methods.add_callable(constructor);
    with_constructor.with_frames(
        assign_at_spec(with_constructor.frames, env, name@, with_methods.next_callable(), 0),
    )
}

/// A line without the line feed at its end, if it has one.
pub open spec fn without_line_end(line: Seq<char>) -> Seq<char> {
    if line.len() > 0 && line.last() == '\n' {
        line.drop_last()
    } else {
        line
    }
}

/// Whether a character is white space, as Unicode defines it (the property
/// White_Space).
pub open spec fn is_white_space(c: char) -> bool {
    let code = c as u32;
    ||| 0x9 <= code <= 0xD
    ||| code == 0x20
    ||| code == 0x85
    ||| code == 0xA0
    ||| code == 0x1680
    ||| 0x2000 <= code <= 0x200A
    ||| code == 0x2028
    ||| code == 0x2029
    ||| code == 0x202F
    ||| code == 0x205F
    ||| code == 0x3000
}

/// Where a text begins behind the white space at or behind `from`.
pub open spec fn leading(text: Seq<char>, from: int) -> int
    decreases text.len() - from,
{
    if 0 <= from < text.len() && is_white_space(text[from]) {
        leading(text, from + 1)
    } else {
        from
    }
}

/// Where a text that begins at `start` ends before the white space in front of `end`.
pub open spec fn trailing(text: Seq<char>, start: int, end: int) -> int
    decreases end,
{
    if 0 <= start < end <= text.len() && is_white_space(text[end - 1]) {
        trailing(text, start, end - 1)
    } else {
        end
    }
}

/// A text without the white space at its beginning and at its end.
pub open spec fn trimmed(text: Seq<char>) -> Seq<char> {
    let start = leading(text, 0);
    text.subrange(start, trailing(text, start, text.len() as int))
}

/// The argument of a call at a position; `nil` where the call has none there.
pub open spec fn argument(arguments: Seq<LoxValue>, position: int) -> LoxValue {
    if 0 <= position < arguments.len() {
        arguments[position]
    } else {
        LoxValue::Nil
    }
}

/// What a host function does with its arguments.
///
/// `clock()` is the host's clock. `read_line()` is the host's next line
/// without the line feed at its end, as a new string. `string_to_number(text)`
/// is what the host makes of a string without the white space around it, and
/// `nil`, with a notice, for what is no string. `random(a, b)` has the host
/// give the integer parts of two numbers, draws an integer between them, and
/// has the host turn it into a number; it is `nil` where the integer parts
/// are equal, and `nil`, with a notice, for what are no numbers.
pub open spec fn native(
    answers: Seq<Answer>,
    m: Machine,
    func: NativeFunction,
    arguments: Seq<LoxValue>,
) -> (Machine, Result<LoxValue, NativeError>) {
    match func {
        NativeFunction::Clock => (
            m.ask(Question::Clock),
            match m.next(answers).number_or_failure() {
                Ok(number) => Ok(LoxValue::Number(number)),
                Err(error) => Err(error),
            },
        ),
        NativeFunction::ReadLine => match m.next(answers).text_or_failure() {
            Ok(line) => (
                m.ask(Question::ReadLine).intern(without_line_end(line)),
                Ok(m.next_string()),
            ),
            Err(error) => (m.ask(Question::ReadLine), Err(error)),
        },
        NativeFunction::StringToNumber => match argument(arguments, 0) {
            LoxValue::String(text) => (
                m.ask(Question::Parse(trimmed(m.strings[text as int]))),
                match m.next(answers).number_or_failure() {
                    Ok(number) => Ok(LoxValue::Number(number)),
                    Err(error) => Err(error),
                },
            ),
            _ => (m.warn("Argument is not a number"@), Ok(LoxValue::Nil)),
        },
        NativeFunction::Random => match (argument(arguments, 0), argument(arguments, 1)) {
            (LoxValue::Number(a), LoxValue::Number(b)) => {
                let first = m.next(answers).integer();
                let one = m.ask(Question::ToInteger(a));
                let second = one.next(answers).integer();
                let two = one.ask(Question::ToInteger(b));
                if first != second {
                    let drawn = two.next(answers).integer();
                    let three = two.ask(Question::Draw(first, second));
                    (
                        three.ask(Question::FromInteger(drawn)),
                        if between(drawn, first, second) {
                            Ok(LoxValue::Number(three.next(answers).number()))
                        } else {
                            Ok(LoxValue::Nil)
                        },
                    )
                } else {
                    (two, Ok(LoxValue::Nil))
                }
            },
            _ => (m.warn("Parameters in random must be numbers"@), Ok(LoxValue::Nil)),
        },
    }
}

/// A call of a host function that is registered with `arity`: with another
/// number of arguments it fails with `WrongArity` and the host is not asked;
/// else the host function is called, and a failure of it becomes the error
/// `Native`. Every error is reported at the token of the call.
pub open spec fn call_native(
    answers: Seq<Answer>,
    m: Machine,
    func: NativeFunction,
    arity: usize,
    arguments: Seq<LoxValue>,
    paren: Token,
) -> Evaluated {
    if arity != arguments.len() {
        (
            m,
            failure(
                InterpreterErrorType::WrongArity { original: arity, user: arguments.len() as usize },
                paren,
            ),
        )
    } else {
        let (after, result) = native(answers, m, func, arguments);
        match result {
            Ok(value) => (after, Ok(value)),
            Err(error) => (after, failure(InterpreterErrorType::Native(error), paren)),
        }
    }
}

/// Whether an integer lies between two bounds, in whichever order they are
/// given: not below the smaller, and below the larger.
pub open spec fn between(integer: i64, first: i64, second: i64) -> bool {
    if first <= second {
        first <= integer < second
    } else {
        second <= integer < first
    }
}

/// The result of a binary operator on two values.
pub open spec fn binary(
    answers: Seq<Answer>,
    m: Machine,
    left: LoxValue,
    operator: Token,
    right: LoxValue,
) -> Evaluated {
    match binary_operation_spec(left, operator.token_type, right) {
        Operation::Done(Ok(value)) => (m, Ok(value)),
        Operation::Done(Err(error)) => (m, failure(error, operator)),
        Operation::Compute(operation, a, b) => (
            m.ask(Question::Arithmetic(operation, a, b)),
            Ok(LoxValue::Number(m.next(answers).number())),
        ),
        Operation::Concatenate(text, value) => {
            let (shown, tail) = display(answers, m, value);
            (shown.intern(m.strings[text as int] + tail), Ok(shown.next_string()))
        },
    }
}

pub open spec fn evaluate(
    answers: Seq<Answer>,
    m: Machine,
    expression: Expression,
    env: usize,
    fuel: nat,
) -> Evaluated
    decreases fuel, 2int, expression, 1int,
{
    match expression {
        Expression::True => (m, Ok(LoxValue::Boolean(true))),
        Expression::False => (m, Ok(LoxValue::Boolean(false))),
        Expression::Nil => (m, Ok(LoxValue::Nil)),
        Expression::Number(number) => (m, Ok(LoxValue::Number(number))),
        Expression::String(text) => (m.intern(text@), Ok(m.next_string())),
        Expression::Grouping(inner) => evaluate(answers, m, *inner, env, fuel),
        Expression::Var { name, token, id } => match lookup(m, env, name@, id) {
            Some(value) => (m, Ok(value)),
            None => (m, failure(InterpreterErrorType::UndefinedVariable(name), token)),
        },
        Expression::This { keyword, id } => match lookup(m, env, keyword.lexeme@, id) {
            Some(value) => (m, Ok(value)),
            None => (m, failure(InterpreterErrorType::UndefinedVariable(keyword.lexeme), keyword)),
        },
        Expression::Unary(_, _) => evaluate_unary(answers, m, expression, env, fuel),
        Expression::Binary { .. } => evaluate_binary(answers, m, expression, env, fuel),
        Expression::Assignment { .. } => evaluate_assignment(answers, m, expression, env, fuel),
        Expression::Or { .. } => evaluate_logical(answers, m, expression, env, fuel),
        Expression::And { .. } => evaluate_logical(answers, m, expression, env, fuel),
        Expression::Call { .. } => evaluate_call(answers, m, expression, env, fuel),
        Expression::Get { .. } => evaluate_get(answers, m, expression, env, fuel),
        Expression::SetField { .. } => evaluate_set(answers, m, expression, env, fuel),
    }
}

pub open spec fn evaluate_unary(
    answers: Seq<Answer>,
    m: Machine,
    expression: Expression,
    env: usize,
    fuel: nat,
) -> Evaluated
    decreases fuel, 2int, expression, 0int,
{
    match expression {
        Expression::Unary(operator, operand) => {
            let (after, result) = evaluate(answers, m, *operand, env, fuel);
            match result {
                Err(error) => (after, Err(error)),
                Ok(value) => match unary_operation_spec(operator.token_type, value) {
                    Ok(value) => (after, Ok(value)),
                    Err(error) => (after, failure(error, operator)),
                },
            }
        },
        _ => (m, Ok(LoxValue::Nil)),
    }
}

pub open spec fn evaluate_binary(
    answers: Seq<Answer>,
    m: Machine,
    expression: Expression,
    env: usize,
    fuel: nat,
) -> Evaluated
    decreases fuel, 2int, expression, 0int,
{
    match expression {
        Expression::Binary { left, operator, right } => {
            let (after_left, first) = evaluate(answers, m, *left, env, fuel);
            match first {
                Err(error) => (after_left, Err(error)),
                Ok(first) => {
                    let (after_right, second) = evaluate(answers, after_left, *right, env, fuel);
                    match second {
                        Err(error) => (after_right, Err(error)),
                        Ok(second) => binary(answers, after_right, first, operator, second),
                    }
                },
            }
        },
        _ => (m, Ok(LoxValue::Nil)),
    }
}

/// The value is evaluated first; the variable must exist already.
pub open spec fn evaluate_assignment(
    answers: Seq<Answer>,
    m: Machine,
    expression: Expression,
    env: usize,
    fuel: nat,
) -> Evaluated
    decreases fuel, 2int, expression, 0int,
{
    match expression {
        Expression::Assignment { name, value, token, id } => {
            let (after, result) = evaluate(answers, m, *value, env, fuel);
            match result {
                Err(error) => (after, Err(error)),
                Ok(value) => if can_assign(after, env, name@, id) {
                    (assign(after, env, name@, id, value), Ok(value))
                } else {
                    (after, failure(InterpreterErrorType::UndefinedVariable(name), token))
                },
            }
        },
        _ => (m, Ok(LoxValue::Nil)),
    }
}

/// `or` yields its left operand where that is truthy, `and` where it is
/// falsy; otherwise the right operand is evaluated and is the result, as it is.
pub open spec fn evaluate_logical(
    answers: Seq<Answer>,
    m: Machine,
    expression: Expression,
    env: usize,
    fuel: nat,
) -> Evaluated
    decreases fuel, 2int, expression, 0int,
{
    match expression {
        Expression::Or { left, right } => {
            let (after, result) = evaluate(answers, m, *left, env, fuel);
            match result {
                Err(error) => (after, Err(error)),
                Ok(value) => if value.is_truthy_spec() {
                    (after, Ok(value))
                } else {
                    evaluate(answers, after, *right, env, fuel)
                },
            }
        },
        Expression::And { left, right } => {
            let (after, result) = evaluate(answers, m, *left, env, fuel);
            match result {
                Err(error) => (after, Err(error)),
                Ok(value) => if !value.is_truthy_spec() {
                    (after, Ok(value))
                } else {
                    evaluate(answers, after, *right, env, fuel)
                },
            }
        },
        _ => (m, Ok(LoxValue::Nil)),
    }
}

/// The arguments from index `from` on, evaluated left to right and put behind `done`.
pub open spec fn evaluate_arguments(
    answers: Seq<Answer>,
    m: Machine,
    arguments: Seq<Expression>,
    from: nat,
    env: usize,
    fuel: nat,
    done: Seq<LoxValue>,
) -> (Machine, Result<Seq<LoxValue>, InterpreterError>)
    decreases fuel, 2int, arguments, arguments.len() - from,
{
    if from >= arguments.len() {
        (m, Ok(done))
    } else {
        let (after, result) = evaluate(answers, m, arguments[from as int], env, fuel);
        match result {
            Err(error) => (after, Err(error)),
            Ok(value) => evaluate_arguments(
                answers,
                after,
                arguments,
                from + 1,
                env,
                fuel,
                done.push(value),
            ),
        }
    }
}

/// The callee is evaluated and must be callable; then the arguments are
/// evaluated; then the call is made.
pub open spec fn evaluate_call(
    answers: Seq<Answer>,
    m: Machine,
    expression: Expression,
    env: usize,
    fuel: nat,
) -> Evaluated
    decreases fuel, 2int, expression, 0int,
{
    match expression {
        Expression::Call { callee, paren, args } => {
            let (after_callee, result) = evaluate(answers, m, *callee, env, fuel);
            match result {
                Err(error) => (after_callee, Err(error)),
                Ok(LoxValue::Callable(function)) => {
                    let (after_arguments, values) = evaluate_arguments(
                        answers,
                        after_callee,
                        args@,
                        0,
                        env,
                        fuel,
                        Seq::empty(),
                    );
                    match values {
                        Err(error) => (after_arguments, Err(error)),
                        Ok(values) => call(answers, after_arguments, function, values, paren, fuel),
                    }
                },
                Ok(_) => (after_callee, failure(InterpreterErrorType::NotACallable, paren)),
            }
        },
        _ => (m, Ok(LoxValue::Nil)),
    }
}

/// A field is read as it is; a method is bound to the instance, afresh each time.
pub open spec fn evaluate_get(
    answers: Seq<Answer>,
    m: Machine,
    expression: Expression,
    env: usize,
    fuel: nat,
) -> Evaluated
    decreases fuel, 2int, expression, 0int,
{
    match expression {
        Expression::Get { expression: object, token } => {
            let (after, result) = evaluate(answers, m, *object, env, fuel);
            match result {
                Err(error) => (after, Err(error)),
                Ok(LoxValue::Instance(instance)) => get_property(after, instance, token),
                Ok(_) => (after, failure(InterpreterErrorType::InvalidInstance(token.lexeme), token)),
            }
        },
        _ => (m, Ok(LoxValue::Nil)),
    }
}

/// The property of the instance that `token` names.
pub open spec fn get_property(m: Machine, instance: usize, token: Token) -> Evaluated {
    match m.instances[instance as int].get(token.lexeme@) {
        Field::Value(value) => (m, Ok(value)),
        Field::Method(method) => match m.callables[method as int] {
            CallableModel::LoxFunction(function) => {
                let (with_frame, bound) = bind(m, function, LoxValue::Instance(instance));
                (
                    with_frame.add_callable(CallableModel::LoxFunction(bound)),
                    Ok(with_frame.next_callable()),
                )
            },
            _ => (m, Ok(LoxValue::Callable(method))),
        },
        Field::Undefined => (
            m,
            failure(
                InterpreterErrorType::NotAProperty {
                    class_name: m.instances[instance as int].class[0].name,
                    field: token.lexeme,
                },
                token,
            ),
        ),
    }
}

/// The object is evaluated first and must be an instance; then the value;
/// then the instance's own field is written.
pub open spec fn evaluate_set(
    answers: Seq<Answer>,
    m: Machine,
    expression: Expression,
    env: usize,
    fuel: nat,
) -> Evaluated
    decreases fuel, 2int, expression, 0int,
{
    match expression {
        Expression::SetField { name, object, value } => {
            let (after_object, target) = evaluate(answers, m, *object, env, fuel);
            match target {
                Err(error) => (after_object, Err(error)),
                Ok(LoxValue::Instance(instance)) => {
                    let (after_value, result) = evaluate(answers, after_object, *value, env, fuel);
                    match result {
                        Err(error) => (after_value, Err(error)),
                        Ok(value) => (
                            after_value.set_field(instance, name.lexeme@, value),
                            Ok(value),
                        ),
                    }
                },
                Ok(_) => (
                    after_object,
                    failure(InterpreterErrorType::InvalidInstance(name.lexeme), name),
                ),
            }
        },
        _ => (m, Ok(LoxValue::Nil)),
    }
}

/// A call of the callable with index `callee`.
pub open spec fn call(
    answers: Seq<Answer>,
    m: Machine,
    callee: usize,
    arguments: Seq<LoxValue>,
    paren: Token,
    fuel: nat,
) -> Evaluated
    decreases fuel, 1int, paren, 0int,
{
    let callable = m.callables[callee as int];
    if callable.arity() != arguments.len() {
        (
            m,
            failure(
                InterpreterErrorType::WrongArity {
                    original: callable.arity(),
                    user: arguments.len() as usize,
                },
                paren,
            ),
        )
    } else {
        match callable {
            CallableModel::Native { func, arity } => call_native(
                answers,
                m,
                func,
                arity,
                arguments,
                paren,
            ),
            CallableModel::LoxFunction(function) => call_function(
                answers,
                m,
                function,
                arguments,
                paren,
                fuel,
            ),
            CallableModel::Constructor { class, .. } => {
                let instance = m.next_instance();
                let created = m.add_instance(class);
                match find_method_spec(class, "init"@) {
                    Some(init) => match created.callables[init as int] {
                        CallableModel::LoxFunction(method) => {
                            let (with_frame, initializer) = bind(created, method, instance);
                            let (after, result) = call_function(
                                answers,
                                with_frame,
                                initializer,
                                arguments,
                                paren,
                                fuel,
                            );
                            match result {
                                Err(error) => (after, Err(error)),
                                Ok(_) => (after, Ok(instance)),
                            }
                        },
                        _ => (created, Ok(instance)),
                    },
                    None => (created, Ok(instance)),
                }
            },
        }
    }
}

/// A call of a function of the program: a fresh frame around the closure
/// binds the parameters; the body runs in it; the result is what it
/// returned, or `nil`. An initializer yields `this`, whatever it returned.
pub open spec fn call_function(
    answers: Seq<Answer>,
    m: Machine,
    function: LoxFunction,
    arguments: Seq<LoxValue>,
    paren: Token,
    fuel: nat,
) -> Evaluated
    decreases fuel, 0int, paren, 0int,
{
    let parameters = function.declaration.parameters@;
    if parameters.len() != arguments.len() {
        (
            m,
            failure(
                InterpreterErrorType::WrongArity {
                    original: parameters.len() as usize,
                    user: arguments.len() as usize,
                },
                paren,
            ),
        )
    } else if fuel == 0 {
        (m, failure(InterpreterErrorType::Exhausted, paren))
    } else {
        let frame = m.next_frame();
        let entered = m.with_frames(
            bind_parameters(
                enclose_spec(m.frames, function.closure),
                frame,
                parameters,
                arguments,
                parameters.len(),
            ),
        );
        let (after, result) = execute_block(
            answers,
            entered,
            function.declaration.body@,
            0,
            frame,
            false,
            (fuel - 1) as nat,
        );
        match result {
            Err(error) => (after, Err(error)),
            Ok(flow) => (
                after,
                Ok(
                    if function.is_initializer {
                        match get_at_spec(after.frames, function.closure, "this"@, 0) {
                            Some(this) => this,
                            None => LoxValue::Nil,
                        }
                    } else {
                        flow.returned_spec()
                    },
                ),
            ),
        }
    }
}

/// The statements from index `from` on, in the frame `env`, up to the first
/// that does not end normally.
pub open spec fn execute_block(
    answers: Seq<Answer>,
    m: Machine,
    statements: Seq<Statement>,
    from: nat,
    env: usize,
    inside_loop: bool,
    fuel: nat,
) -> Executed
    decreases fuel, 3int, statements, statements.len() - from,
{
    if from >= statements.len() {
        (m, Ok(ControlFlow::Normal))
    } else {
        let (after, result) = execute_statement(
            answers,
            m,
            statements[from as int],
            env,
            inside_loop,
            fuel,
        );
        match result {
            Ok(ControlFlow::Normal) => execute_block(
                answers,
                after,
                statements,
                from + 1,
                env,
                inside_loop,
                fuel,
            ),
            _ => (after, result),
        }
    }
}

pub open spec fn execute_statement(
    answers: Seq<Answer>,
    m: Machine,
    statement: Statement,
    env: usize,
    inside_loop: bool,
    fuel: nat,
) -> Executed
    decreases fuel, 3int, statement, 1int,
{
    match statement {
        Statement::Expression(expression) => {
            let (after, result) = evaluate(answers, m, expression, env, fuel);
            match result {
                Err(error) => (after, Err(error)),
                Ok(_) => (after, Ok(ControlFlow::Normal)),
            }
        },
        Statement::Print(expression) => {
            let (after, result) = evaluate(answers, m, expression, env, fuel);
            match result {
                Err(error) => (after, Err(error)),
                Ok(value) => {
                    let (shown, text) = display(answers, after, value);
                    (shown.print(text), Ok(ControlFlow::Normal))
                },
            }
        },
        Statement::VariableDeclaration { name, initializer } => match initializer {
            Some(initializer) => {
                let (after, result) = evaluate(answers, m, initializer, env, fuel);
                match result {
                    Err(error) => (after, Err(error)),
                    Ok(value) => (
                        after.with_frames(define_spec(after.frames, env, name@, value)),
                        Ok(ControlFlow::Normal),
                    ),
                }
            },
            None => (
                m.with_frames(define_spec(m.frames, env, name@, LoxValue::Nil)),
                Ok(ControlFlow::Normal),
            ),
        },
        Statement::FunctionDeclaration(function) => {
            let closure = CallableModel::LoxFunction(
                LoxFunction { closure: env, declaration: function, is_initializer: false },
            );
            (
                m.add_callable(closure).with_frames(
                    define_spec(m.frames, env, function.name@, m.next_callable()),
                ),
                Ok(ControlFlow::Normal),
            )
        },
        Statement::Block(statements) => execute_block(
            answers,
            m.with_frames(enclose_spec(m.frames, env)),
            statements@,
            0,
            m.next_frame(),
            inside_loop,
            fuel,
        ),
        Statement::If { condition, then_branch, else_branch } => {
            let (after, result) = evaluate(answers, m, condition, env, fuel);
            match result {
                Err(error) => (after, Err(error)),
                Ok(value) => if value.is_truthy_spec() {
                    execute_statement(answers, after, *then_branch, env, inside_loop, fuel)
                } else {
                    match else_branch {
                        Some(else_branch) => execute_statement(
                            answers,
                            after,
                            *else_branch,
                            env,
                            inside_loop,
                            fuel,
                        ),
                        None => (after, Ok(ControlFlow::Normal)),
                    }
                },
            }
        },
        Statement::While { .. } => execute_loop(answers, m, statement, env, fuel),
        Statement::For { initializer, .. } => match initializer {
            Some(initializer) => {
                let (after, result) = execute_statement(
                    answers,
                    m,
                    *initializer,
                    env,
                    false,
                    fuel,
                );
                match result {
                    Err(error) => (after, Err(error)),
                    Ok(_) => execute_loop(answers, after, statement, env, fuel),
                }
            },
            None => execute_loop(answers, m, statement, env, fuel),
        },
        Statement::ClassDeclaration { name, methods, super_class } => match super_class {
            Some(super_class) => {
                let (after, result) = evaluate(answers, m, super_class, env, fuel);
                match result {
                    Err(error) => (after, Err(error)),
                    Ok(value) => match class_of(after, value) {
                        Some(parent) => (
                            declare_class(after, name, methods@, parent, env),
                            Ok(ControlFlow::Normal),
                        ),
                        None => (
                            after,
                            failure(
                                InterpreterErrorType::InvalidSuperclass,
                                anchor_spec(super_class, m.marker),
                            ),
                        ),
                    },
                }
            },
            None => (
                declare_class(m, name, methods@, Seq::empty(), env),
                Ok(ControlFlow::Normal),
            ),
        },
        Statement::Return { expression, .. } => match expression {
            Some(expression) => {
                let (after, result) = evaluate(answers, m, expression, env, fuel);
                match result {
                    Err(error) => (after, Err(error)),
                    Ok(value) => (after, Ok(ControlFlow::Return(value))),
                }
            },
            None => (m, Ok(ControlFlow::Return(LoxValue::Nil))),
        },
        Statement::Break { keyword } => if inside_loop {
            (m, Ok(ControlFlow::BreakLoop))
        } else {
            (m, failure(InterpreterErrorType::NotInLoop, keyword))
        },
        Statement::Continue { keyword } => if inside_loop {
            (m, Ok(ControlFlow::ContinueLoop))
        } else {
            (m, failure(InterpreterErrorType::NotInLoop, keyword))
        },
    }
}

/// What the body's signal means to the loop around it.
pub enum LoopStep {
    /// The loop goes on: with the increment, where it has one, then the condition.
    Next,
    /// The loop ends, and the statement with this signal.
    Leave(ControlFlow),
}

/// `break` ends the innermost loop, which then ends normally; `return`
/// ends it and is passed on; after `continue`, as after a normal end of the
/// body, the loop goes on.
pub open spec fn loop_step_spec(flow: ControlFlow) -> LoopStep {
    match flow {
        ControlFlow::Normal => LoopStep::Next,
        ControlFlow::ContinueLoop => LoopStep::Next,
        ControlFlow::BreakLoop => LoopStep::Leave(ControlFlow::Normal),
        ControlFlow::Return(value) => LoopStep::Leave(ControlFlow::Return(value)),
    }
}

/// The rounds of a `while` or `for` statement (the initializer of a `for`
/// has run): test the condition, run the body, evaluate the increment, again.
pub open spec fn execute_loop(
    answers: Seq<Answer>,
    m: Machine,
    statement: Statement,
    env: usize,
    fuel: nat,
) -> Executed
    decreases fuel, 3int, statement, 0int,
{
    if fuel == 0 {
        (m, failure(InterpreterErrorType::Exhausted, m.marker))
    } else {
        match statement {
            Statement::While { condition, body } => {
                let (tested, result) = evaluate(answers, m, condition, env, fuel);
                match result {
                    Err(error) => (tested, Err(error)),
                    Ok(value) => if !value.is_truthy_spec() {
                        (tested, Ok(ControlFlow::Normal))
                    } else {
                        let (after, result) = execute_statement(
                            answers,
                            tested,
                            *body,
                            env,
                            true,
                            fuel,
                        );
                        match result {
                            Err(error) => (after, Err(error)),
                            Ok(flow) => match loop_step_spec(flow) {
                                LoopStep::Leave(flow) => (after, Ok(flow)),
                                LoopStep::Next => execute_loop(
                                    answers,
                                    after,
                                    statement,
                                    env,
                                    (fuel - 1) as nat,
                                ),
                            },
                        }
                    },
                }
            },
            Statement::For { condition, increment, body, .. } => {
                let (tested, result) = match condition {
                    Some(condition) => evaluate(answers, m, condition, env, fuel),
                    None => (m, Ok(LoxValue::Boolean(true))),
                };
                match result {
                    Err(error) => (tested, Err(error)),
                    Ok(value) => if !value.is_truthy_spec() {
                        (tested, Ok(ControlFlow::Normal))
                    } else {
                        let (after, result) = execute_statement(
                            answers,
                            tested,
                            *body,
                            env,
                            true,
                            fuel,
                        );
                        match result {
                            Err(error) => (after, Err(error)),
                            Ok(flow) => match loop_step_spec(flow) {
                                LoopStep::Leave(flow) => (after, Ok(flow)),
                                LoopStep::Next => {
                                    let (stepped, result) = match increment {
                                        Some(increment) => evaluate(
                                            answers,
                                            after,
                                            increment,
                                            env,
                                            fuel,
                                        ),
                                        None => (after, Ok(LoxValue::Nil)),
                                    };
                                    match result {
                                        Err(error) => (stepped, Err(error)),
                                        Ok(_) => execute_loop(
                                            answers,
                                            stepped,
                                            statement,
                                            env,
                                            (fuel - 1) as nat,
                                        ),
                                    }
                                },
                            },
                        }
                    },
                }
            },
            _ => (m, Ok(ControlFlow::Normal)),
        }
    }
}

/// The callable that a host function is.
pub open spec fn native_callable(func: NativeFunction) -> CallableModel {
    CallableModel::Native { func, arity: func.arity_spec() }
}

/// What the global frame binds before any program has run: the host functions.
pub open spec fn native_bindings() -> Map<Seq<char>, LoxValue> {
    Map::<Seq<char>, LoxValue>::empty().insert("clock"@, LoxValue::Callable(0)).insert(
        "read_line"@,
        LoxValue::Callable(1),
    ).insert("random"@, LoxValue::Callable(2)).insert("string_to_number"@, LoxValue::Callable(3))
}

/// The state before any program has run.
pub open spec fn initial(marker: Token) -> Machine {
    Machine {
        frames: seq![FrameModel { values: native_bindings(), enclosing: None }],
        strings: Seq::empty(),
        callables: seq![
            native_callable(NativeFunction::Clock),
            native_callable(NativeFunction::ReadLine),
            native_callable(NativeFunction::Random),
            native_callable(NativeFunction::StringToNumber),
        ],
        instances: Seq::empty(),
        locals: Map::empty(),
        printed: Seq::empty(),
        warned: Seq::empty(),
        asked: Seq::empty(),
        cursor: 0,
        marker,
    }
}

/// A program: its statements from index `from` on, in the global frame, up
/// to the first error. What a top-level statement signals is dropped.
pub open spec fn interpret(
    answers: Seq<Answer>,
    m: Machine,
    statements: Seq<Statement>,
    from: nat,
    fuel: nat,
) -> (Machine, Result<(), InterpreterError>)
    decreases statements.len() - from,
{
    if from >= statements.len() {
        (m, Ok(()))
    } else {
        let (after, result) = execute_statement(answers, m, statements[from as int], 0, false, fuel);
        match result {
            Err(error) => (after, Err(error)),
            Ok(_) => interpret(answers, after, statements, from + 1, fuel),
        }
    }
}

} // verus!
