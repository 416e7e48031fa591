use lox::environment::Environment;
use lox::error::{InterpreterError, InterpreterErrorType, NativeError};
use lox::expression::Expression;
use lox::grammar::ParserError;
use lox::host::Host;
use lox::interpreter::Interpreter;
use lox::natives::{random_between, strip_line_end, trim, white_space};
use lox::number::{Arithmetic, Number};
use lox::once_cell::OnceCell;
use lox::operators::{binary_operation, unary_operation, Operation};
use lox::parser::Parser;
use lox::resolver::Resolver;
use lox::scanner::Scanner;
use lox::statement::{Function, Statement};
use lox::text::decimal;
use lox::token::{Token, TokenType};
use lox::utf8::{convert_byte_slice_into_utf8, try_convert_byte_slice_into_utf8};
use lox::value::{Callable, Class, ControlFlow, Field, Instance, LoxFunction, LoxValue, NativeFunction};
use std::rc::Rc;
use vstd::hash_map::StringHashMap;

struct TestHost {
    printed: Vec<String>,
    warned: Vec<String>,
    input: Vec<String>,
    now: f64,
}

impl TestHost {
    fn new() -> Self {
        TestHost { printed: Vec::new(), warned: Vec::new(), input: Vec::new(), now: 1234.5 }
    }
}

fn to_number(value: f64) -> Number {
    Number::from_bits(value.to_bits())
}

fn to_float(number: Number) -> f64 {
    f64::from_bits(number.to_bits())
}

impl Host for TestHost {
    fn arithmetic(&mut self, operation: Arithmetic, left: Number, right: Number) -> Number {
        let a = to_float(left);
        let b = to_float(right);
        to_number(match operation {
            Arithmetic::Add => a + b,
            Arithmetic::Subtract => a - b,
            Arithmetic::Multiply => a * b,
            Arithmetic::Divide => a / b,
        })
    }

    fn format_number(&mut self, number: Number) -> String {
        format!("{}", to_float(number))
    }

    fn power(&mut self, base: Number, exponent: i32) -> Number {
        to_number(to_float(base).powi(exponent))
    }

    fn parse_number(&mut self, text: &str) -> Result<Number, NativeError> {
        match text.parse::<f64>() {
            Ok(value) => Ok(to_number(value)),
            Err(error) => Err(NativeError::NumParse(error.to_string())),
        }
    }

    fn to_integer(&mut self, number: Number) -> i64 {
        to_float(number) as i64
    }

    fn from_integer(&mut self, integer: i64) -> Number {
        to_number(integer as f64)
    }

    fn clock(&mut self) -> Result<Number, NativeError> {
        Ok(to_number(self.now))
    }

    fn read_line(&mut self) -> Result<String, NativeError> {
        if self.input.is_empty() {
            Err(NativeError::Io(String::from("end of input")))
        } else {
            Ok(self.input.remove(0))
        }
    }

    fn print(&mut self, text: &str) {
        self.printed.push(String::from(text));
    }

    fn warn(&mut self, text: &str) {
        self.warned.push(String::from(text));
    }
}

fn token(token_type: TokenType, lexeme: &str, line: usize) -> Token {
    Token::new(token_type, String::from(lexeme), line)
}

fn parse(source: &str) -> Result<Vec<Statement>, ParserError> {
    let mut host = TestHost::new();
    let tokens = Scanner::new(source.as_bytes().to_vec()).scan_tokens(&mut host).unwrap();
    let mut parser = Parser::new(&tokens);
    parser.statements()
}

fn literal(value: f64) -> Expression {
    Expression::Number(to_number(value))
}

fn variable(name: &str, line: usize, id: usize) -> Expression {
    Expression::Var {
        name: String::from(name),
        token: token(TokenType::Identifier(String::from(name)), name, line),
        id,
    }
}

fn binary(left: Expression, operator: Token, right: Expression) -> Expression {
    Expression::Binary { left: Box::new(left), operator, right: Box::new(right) }
}

// Numbers.

#[test]
fn zero_of_either_sign_is_zero() {
    assert!(to_number(0.0).is_zero());
    assert!(to_number(-0.0).is_zero());
    assert!(!to_number(1.0).is_zero());
    assert!(!to_number(f64::MIN_POSITIVE).is_zero());
    assert!(!to_number(5e-324).is_zero());
    assert!(!to_number(f64::NAN).is_zero());
}

#[test]
fn not_a_number_is_recognised() {
    assert!(to_number(f64::NAN).is_nan());
    assert!(to_number(-f64::NAN).is_nan());
    assert!(!to_number(f64::INFINITY).is_nan());
    assert!(!to_number(f64::NEG_INFINITY).is_nan());
    assert!(!to_number(0.0).is_nan());
    assert!(!to_number(f64::MAX).is_nan());
}

#[test]
fn numbers_are_ordered_as_doubles_are() {
    let values = [
        f64::NEG_INFINITY, f64::MIN, -1e10, -2.5, -1.0, -f64::MIN_POSITIVE, -5e-324, -0.0, 0.0,
        5e-324, f64::MIN_POSITIVE, 0.1, 1.0, 1.0000000000000002, 2.5, 1e10, f64::MAX,
        f64::INFINITY, f64::NAN,
    ];
    for a in values {
        for b in values {
            let (x, y) = (to_number(a), to_number(b));
            assert_eq!(x.equals(y), a == b, "{a} == {b}");
            assert_eq!(x.less(y), a < b, "{a} < {b}");
            assert_eq!(x.less_equal(y), a <= b, "{a} <= {b}");
            assert_eq!(x.greater(y), a > b, "{a} > {b}");
            assert_eq!(x.greater_equal(y), a >= b, "{a} >= {b}");
        }
    }
}

#[test]
fn negation_flips_the_sign_only() {
    for a in [0.0, -0.0, 1.5, -1.5, f64::INFINITY, f64::MAX, 5e-324] {
        assert_eq!(to_number(a).negate(), to_number(-a));
        assert_eq!(to_number(a).negate().negate(), to_number(a));
    }
    assert!(to_number(f64::NAN).negate().is_nan());
    assert_eq!(Number::from_bits(7).to_bits(), 7);
    assert_eq!(Number::from_bits(0).negate().to_bits(), 0x8000_0000_0000_0000);
}

// Values.

#[test]
fn truthiness() {
    assert!(!LoxValue::Nil.is_truthy());
    assert!(!LoxValue::Boolean(false).is_truthy());
    assert!(LoxValue::Boolean(true).is_truthy());
    assert!(!LoxValue::Number(to_number(0.0)).is_truthy());
    assert!(!LoxValue::Number(to_number(-0.0)).is_truthy());
    assert!(LoxValue::Number(to_number(1.0)).is_truthy());
    assert!(LoxValue::Number(to_number(-1.0)).is_truthy());
    assert!(LoxValue::Number(to_number(f64::NAN)).is_truthy());
    assert!(LoxValue::String(0).is_truthy());
    assert!(LoxValue::Callable(0).is_truthy());
    assert!(LoxValue::Instance(0).is_truthy());
}

#[test]
fn kinds_of_values() {
    assert_eq!(LoxValue::Nil.kind(), "nil");
    assert_eq!(LoxValue::Boolean(true).kind(), "boolean");
    assert_eq!(LoxValue::Number(to_number(1.0)).kind(), "number");
    assert_eq!(LoxValue::String(3).kind(), "string");
    assert_eq!(LoxValue::Callable(3).kind(), "callable");
    assert_eq!(LoxValue::Instance(3).kind(), "instance");
}

#[test]
fn what_a_call_yields() {
    assert_eq!(ControlFlow::Normal.returned(), LoxValue::Nil);
    assert_eq!(ControlFlow::BreakLoop.returned(), LoxValue::Nil);
    assert_eq!(ControlFlow::ContinueLoop.returned(), LoxValue::Nil);
    assert_eq!(ControlFlow::Return(LoxValue::Boolean(true)).returned(), LoxValue::Boolean(true));
}

#[test]
fn arity_of_callables() {
    assert_eq!(NativeFunction::Clock.arity(), 0);
    assert_eq!(NativeFunction::ReadLine.arity(), 0);
    assert_eq!(NativeFunction::Random.arity(), 2);
    assert_eq!(NativeFunction::StringToNumber.arity(), 1);
    assert_eq!(Callable::Native { func: NativeFunction::Random, arity: 2 }.arity(), 2);
    let declaration = Rc::new(Function {
        name: String::from("f"),
        parameters: vec![
            token(TokenType::Identifier(String::from("a")), "a", 1),
            token(TokenType::Identifier(String::from("b")), "b", 1),
            token(TokenType::Identifier(String::from("c")), "c", 1),
        ],
        body: Vec::new(),
    });
    let function = LoxFunction { closure: 0, declaration, is_initializer: false };
    assert_eq!(Callable::LoxFunction(function.duplicate()).arity(), 3);
    let class = Rc::new(Class::new(String::from("C"), StringHashMap::new(), None));
    assert_eq!(Callable::Constructor { class, arity: 4 }.arity(), 4);
}

fn class(name: &str, methods: &[(&str, usize)], parent: Option<Rc<Class>>) -> Rc<Class> {
    let mut table = StringHashMap::new();
    for (method, index) in methods {
        table.insert(String::from(*method), *index);
    }
    Rc::new(Class::new(String::from(name), table, parent))
}

#[test]
fn method_lookup_goes_up_the_chain() {
    let c = class("C", &[("deep", 1), ("who", 2)], None);
    let b = class("B", &[("who", 3), ("greet", 4)], Some(c.clone()));
    let a = class("A", &[("greet", 5)], Some(b.clone()));
    assert_eq!(a.find_method("greet"), Some(5));
    assert_eq!(a.find_method("who"), Some(3));
    assert_eq!(a.find_method("deep"), Some(1));
    assert_eq!(a.find_method("missing"), None);
    assert_eq!(b.find_method("greet"), Some(4));
    assert_eq!(c.find_method("who"), Some(2));
    assert_eq!(c.find_method("greet"), None);
}

#[test]
fn instance_fields_shadow_methods() {
    let b = class("B", &[("greet", 7)], None);
    let a = class("A", &[], Some(b));
    let mut instance = Instance::new(a);
    assert_eq!(instance.class_name(), "A");
    assert_eq!(instance.get("greet"), Field::Method(7));
    assert_eq!(instance.get("x"), Field::Undefined);
    instance.set("x", LoxValue::Boolean(true));
    assert_eq!(instance.get("x"), Field::Value(LoxValue::Boolean(true)));
    instance.set("x", LoxValue::Nil);
    assert_eq!(instance.get("x"), Field::Value(LoxValue::Nil));
    instance.set("greet", LoxValue::String(2));
    assert_eq!(instance.get("greet"), Field::Value(LoxValue::String(2)));
}

#[test]
fn binding_makes_a_frame_of_its_own_each_time() {
    let mut environment = Environment::new();
    let outer = environment.new_enclosed(0);
    let declaration = Rc::new(Function { name: String::from("m"), parameters: Vec::new(), body: Vec::new() });
    let method = LoxFunction { closure: outer, declaration, is_initializer: true };
    let first = method.bind(&mut environment, LoxValue::Instance(0));
    let second = method.bind(&mut environment, LoxValue::Instance(1));
    assert_eq!(first.closure, 2);
    assert_eq!(second.closure, 3);
    assert!(first.is_initializer && second.is_initializer);
    assert_eq!(environment.get_at(first.closure, "this", 0), Some(LoxValue::Instance(0)));
    assert_eq!(environment.get_at(second.closure, "this", 0), Some(LoxValue::Instance(1)));
    assert_eq!(environment.ancestor(first.closure, 1), Some(outer));
    assert_eq!(environment.ancestor(second.closure, 1), Some(outer));
    assert_eq!(environment.get_at(outer, "this", 0), None);
    assert_eq!(environment.len(), 4);
}

// The environment.

#[test]
fn environment_reads_at_a_distance() {
    let mut environment = Environment::new();
    assert_eq!(environment.len(), 1);
    let block = environment.new_enclosed(0);
    let inner = environment.new_enclosed(block);
    assert_eq!((block, inner), (1, 2));
    environment.define(0, String::from("g"), LoxValue::Boolean(true));
    environment.define(block, String::from("a"), LoxValue::Number(to_number(1.0)));
    environment.define(inner, String::from("a"), LoxValue::Number(to_number(2.0)));
    assert_eq!(environment.get_at(inner, "a", 0), Some(LoxValue::Number(to_number(2.0))));
    assert_eq!(environment.get_at(inner, "a", 1), Some(LoxValue::Number(to_number(1.0))));
    assert_eq!(environment.get_at(inner, "a", 2), None);
    assert_eq!(environment.get_at(inner, "g", 2), Some(LoxValue::Boolean(true)));
    assert_eq!(environment.get_at(inner, "g", 0), None);
    assert_eq!(environment.get_at(inner, "g", 3), None);
    assert_eq!(environment.get_at(block, "a", 0), Some(LoxValue::Number(to_number(1.0))));
    assert_eq!(environment.get_at(0, "g", 1), None);
    assert_eq!(environment.ancestor(inner, 0), Some(inner));
    assert_eq!(environment.ancestor(inner, 1), Some(block));
    assert_eq!(environment.ancestor(inner, 2), Some(0));
    assert_eq!(environment.ancestor(inner, 3), None);
}

#[test]
fn environment_reads_outwards_by_name() {
    let mut environment = Environment::new();
    let block = environment.new_enclosed(0);
    let inner = environment.new_enclosed(block);
    let other = environment.new_enclosed(0);
    environment.define(0, String::from("g"), LoxValue::Nil);
    environment.define(block, String::from("a"), LoxValue::Boolean(false));
    environment.define(inner, String::from("a"), LoxValue::Boolean(true));
    assert_eq!(environment.get(inner, "a"), Some(LoxValue::Boolean(true)));
    assert_eq!(environment.get(block, "a"), Some(LoxValue::Boolean(false)));
    assert_eq!(environment.get(inner, "g"), Some(LoxValue::Nil));
    assert_eq!(environment.get(other, "a"), None);
    assert_eq!(environment.get(0, "a"), None);
    assert_eq!(environment.get(inner, "missing"), None);
}

#[test]
fn define_overwrites_and_assign_never_creates() {
    let mut environment = Environment::new();
    let block = environment.new_enclosed(0);
    environment.define(0, String::from("a"), LoxValue::Nil);
    environment.define(0, String::from("a"), LoxValue::Boolean(true));
    assert_eq!(environment.get_at(0, "a", 0), Some(LoxValue::Boolean(true)));
    assert!(!environment.assign_at(block, "a", LoxValue::Nil, 0));
    assert_eq!(environment.get_at(block, "a", 0), None);
    assert_eq!(environment.get_at(0, "a", 0), Some(LoxValue::Boolean(true)));
    assert!(environment.assign_at(block, "a", LoxValue::Nil, 1));
    assert_eq!(environment.get_at(0, "a", 0), Some(LoxValue::Nil));
    assert!(!environment.assign_at(block, "a", LoxValue::Nil, 2));
    assert!(!environment.assign_at(0, "b", LoxValue::Nil, 0));
}

// Operators.

#[test]
fn unary_operators() {
    assert_eq!(unary_operation(&TokenType::Minus, LoxValue::Number(to_number(2.0))), Ok(LoxValue::Number(to_number(-2.0))));
    assert_eq!(unary_operation(&TokenType::Bang, LoxValue::Number(to_number(0.0))), Ok(LoxValue::Boolean(true)));
    assert_eq!(unary_operation(&TokenType::Bang, LoxValue::Number(to_number(1.0))), Ok(LoxValue::Boolean(false)));
    assert_eq!(unary_operation(&TokenType::Bang, LoxValue::Number(to_number(-1.0))), Ok(LoxValue::Boolean(false)));
    assert_eq!(unary_operation(&TokenType::Bang, LoxValue::Nil), Ok(LoxValue::Boolean(true)));
    assert_eq!(unary_operation(&TokenType::Bang, LoxValue::Boolean(true)), Ok(LoxValue::Boolean(false)));
    assert_eq!(
        unary_operation(&TokenType::Bang, LoxValue::Instance(1)),
        Err(InterpreterErrorType::WrongUnaryOperands(TokenType::Bang, LoxValue::Instance(1)))
    );
    assert_eq!(
        unary_operation(&TokenType::Minus, LoxValue::Nil),
        Err(InterpreterErrorType::WrongUnaryOperands(TokenType::Minus, LoxValue::Nil))
    );
    assert_eq!(
        unary_operation(&TokenType::Plus, LoxValue::Number(to_number(1.0))),
        Err(InterpreterErrorType::WrongUnaryOperands(TokenType::Plus, LoxValue::Number(to_number(1.0))))
    );
}

#[test]
fn binary_operators() {
    let one = LoxValue::Number(to_number(1.0));
    let two = LoxValue::Number(to_number(2.0));
    let zero = LoxValue::Number(to_number(0.0));
    assert_eq!(binary_operation(one, &TokenType::Plus, two), Operation::Compute(Arithmetic::Add, to_number(1.0), to_number(2.0)));
    assert_eq!(binary_operation(one, &TokenType::Minus, two), Operation::Compute(Arithmetic::Subtract, to_number(1.0), to_number(2.0)));
    assert_eq!(binary_operation(one, &TokenType::Star, two), Operation::Compute(Arithmetic::Multiply, to_number(1.0), to_number(2.0)));
    assert_eq!(binary_operation(one, &TokenType::Slash, two), Operation::Compute(Arithmetic::Divide, to_number(1.0), to_number(2.0)));
    assert_eq!(binary_operation(one, &TokenType::Slash, zero), Operation::Done(Err(InterpreterErrorType::DivisionByZero)));
    assert_eq!(
        binary_operation(one, &TokenType::Slash, LoxValue::Number(to_number(-0.0))),
        Operation::Done(Err(InterpreterErrorType::DivisionByZero))
    );
    assert_eq!(binary_operation(one, &TokenType::Less, two), Operation::Done(Ok(LoxValue::Boolean(true))));
    assert_eq!(binary_operation(one, &TokenType::GreaterEqual, two), Operation::Done(Ok(LoxValue::Boolean(false))));
    assert_eq!(binary_operation(one, &TokenType::EqualEqual, one), Operation::Done(Ok(LoxValue::Boolean(true))));
    let nan = LoxValue::Number(to_number(f64::NAN));
    assert_eq!(binary_operation(nan, &TokenType::EqualEqual, nan), Operation::Done(Ok(LoxValue::Boolean(false))));
    assert_eq!(binary_operation(LoxValue::String(4), &TokenType::Plus, LoxValue::Nil), Operation::Concatenate(4, LoxValue::Nil));
    assert_eq!(
        binary_operation(LoxValue::String(4), &TokenType::Star, one),
        Operation::Done(Err(InterpreterErrorType::WrongBinaryOperands(LoxValue::String(4), TokenType::Star, one)))
    );
    assert_eq!(
        binary_operation(LoxValue::Nil, &TokenType::Plus, one),
        Operation::Done(Err(InterpreterErrorType::WrongBinaryOperands(LoxValue::Nil, TokenType::Plus, one)))
    );
    assert_eq!(
        binary_operation(one, &TokenType::BangEqual, two),
        Operation::Done(Err(InterpreterErrorType::WrongBinaryOperands(one, TokenType::BangEqual, two)))
    );
}

// Small parts.

#[test]
fn once_cell_holds_at_most_one_value() {
    let mut cell: OnceCell<String> = OnceCell::new_empty();
    assert!(!cell.is_full());
    cell.replace(String::from("a"));
    assert!(cell.is_full());
    cell.replace(String::from("b"));
    assert_eq!(cell.take(), "b");
    assert!(!cell.is_full());
    let mut cell = OnceCell::new(5u8);
    assert!(cell.is_full());
    assert_eq!(cell.take(), 5);
    assert!(!cell.is_full());
}

#[test]
fn bytes_become_text() {
    assert_eq!(convert_byte_slice_into_utf8(b"hello"), "hello");
    assert_eq!(convert_byte_slice_into_utf8("añb€".as_bytes()), "añb€");
    assert_eq!(convert_byte_slice_into_utf8(b""), "");
    assert_eq!(try_convert_byte_slice_into_utf8(b"abc"), Some(String::from("abc")));
    assert_eq!(try_convert_byte_slice_into_utf8(&[0x61, 0xff]), None);
    assert_eq!(try_convert_byte_slice_into_utf8(&[0xc3]), None);
}

#[test]
fn decimal_numerals() {
    assert_eq!(decimal(0), "0");
    assert_eq!(decimal(7), "7");
    assert_eq!(decimal(10), "10");
    assert_eq!(decimal(1234567890), "1234567890");
    assert_eq!(decimal(usize::MAX), usize::MAX.to_string());
}

#[test]
fn line_feed_is_taken_off_the_end() {
    assert_eq!(strip_line_end(String::from("abc\n")), "abc");
    assert_eq!(strip_line_end(String::from("abc")), "abc");
    assert_eq!(strip_line_end(String::from("")), "");
    assert_eq!(strip_line_end(String::from("\n")), "");
    assert_eq!(strip_line_end(String::from("a\nb\n\n")), "a\nb\n");
    assert_eq!(strip_line_end(String::from("añ€\n")), "añ€");
    assert_eq!(strip_line_end(String::from("abc\r\n")), "abc\r");
}

#[test]
fn white_space_is_taken_off_both_ends() {
    let texts = [
        "", " ", "abc", "  abc", "abc  ", " \t\r\n abc \u{000B}\u{000C} ", " a b ", "\u{00A0}x\u{3000}",
        "\u{2003}añ€\u{2028}\u{2029}", "\u{0085}\u{1680}12.5\u{202F}\u{205F}", "\u{200B}x\u{200B}",
        "   ", "x", "\u{FEFF}x", " \u{180E} ",
    ];
    for text in texts {
        assert_eq!(trim(text), text.trim(), "{text:?}");
    }
    for code in 0..0x11_0000u32 {
        if let Some(c) = char::from_u32(code) {
            assert_eq!(white_space(c), c.is_whitespace(), "{code:#x}");
        }
    }
}

#[test]
fn digits_and_ten_are_the_doubles() {
    for value in 0..10u8 {
        assert_eq!(Number::digit(value), to_number(value as f64));
    }
    assert_eq!(Number::digit(200), to_number(9.0));
    assert_eq!(Number::ten(), to_number(10.0));
}

#[test]
fn random_integers_lie_between_the_bounds() {
    assert_eq!(random_between(3, 3), None);
    assert_eq!(random_between(3, 4), Some(3));
    assert_eq!(random_between(4, 3), Some(3));
    assert_eq!(random_between(i64::MIN, i64::MIN + 1), Some(i64::MIN));
    let mut seen_other = false;
    for _ in 0..200 {
        let drawn = random_between(1_000_000, 0).unwrap();
        assert!((0..1_000_000).contains(&drawn));
        if drawn != 0 && drawn != 1_000_000 {
            seen_other = true;
        }
    }
    assert!(seen_other);
    assert!(random_between(i64::MIN, i64::MAX).is_some());
}

#[test]
fn token_getters() {
    let token = token(TokenType::Identifier(String::from("abc")), "abc", 9);
    assert_eq!(token.lexeme(), "abc");
    assert_eq!(token.token_type(), &TokenType::Identifier(String::from("abc")));
    assert_eq!(token.line(), 9);
    assert_eq!(token.clone(), token);
    assert_eq!(TokenType::GreaterEqual.name(), "GreaterEqual");
    assert_eq!(TokenType::Identifier(String::from("x")).name(), "Identifier");
    assert_eq!(TokenType::Number(to_number(1.0)).clone(), TokenType::Number(to_number(1.0)));
    assert_eq!(TokenType::String(String::from("s")).clone(), TokenType::String(String::from("s")));
}

// Errors.

fn error(error_type: InterpreterErrorType, lexeme: &str, line: usize) -> InterpreterError {
    InterpreterError { error_type, token: token(TokenType::Identifier(String::from(lexeme)), lexeme, line) }
}

#[test]
fn error_reports() {
    assert_eq!(error(InterpreterErrorType::DivisionByZero, "/", 3).report(), "Division by zero\n[line 3]");
    assert_eq!(
        error(InterpreterErrorType::UndefinedVariable(String::from("abc")), "abc", 12).report(),
        "Variable abc is undefined\n[line 12]"
    );
    assert_eq!(
        error(InterpreterErrorType::NotACallable, "f", 40).report(),
        "Value f at line 40 is not a callable\n[line 40]"
    );
    assert_eq!(
        error(InterpreterErrorType::WrongArity { original: 2, user: 13 }, ")", 1).report(),
        "Function ) called with 13 arguments, but required 2\n[line 1]"
    );
    assert_eq!(
        error(InterpreterErrorType::Native(NativeError::Io(String::from("closed"))), ")", 1).report(),
        "Native Error - IO Error: closed\n[line 1]"
    );
    assert_eq!(
        error(InterpreterErrorType::Native(NativeError::NumParse(String::from("bad"))), ")", 1).message(),
        "Native Error - Error parsing number: bad"
    );
    assert_eq!(
        error(InterpreterErrorType::Native(NativeError::SystemTime(String::from("early"))), ")", 1).message(),
        "Native Error - System Time Error: early"
    );
    assert_eq!(error(InterpreterErrorType::NotInLoop, "break", 2).report(), "Used break statement outside a loop\n[line 2]");
    assert_eq!(
        error(InterpreterErrorType::WrongUnaryOperands(TokenType::Minus, LoxValue::Nil), "-", 2).message(),
        "The unary operation Minus is not valid over a value of type: nil"
    );
    assert_eq!(
        error(
            InterpreterErrorType::WrongBinaryOperands(LoxValue::Number(to_number(1.0)), TokenType::Plus, LoxValue::String(0)),
            "+",
            2
        )
        .message(),
        "Operation of type: Plus cannot be applied over operands of types number and string"
    );
    assert_eq!(
        error(
            InterpreterErrorType::NotAProperty { class_name: String::from("C"), field: String::from("x") },
            "x",
            2
        )
        .message(),
        "Class C has no property x"
    );
    assert_eq!(
        error(InterpreterErrorType::InvalidInstance(String::from("x")), "x", 2).message(),
        "Property x does not belong to an instance"
    );
    assert_eq!(error(InterpreterErrorType::InvalidSuperclass, "x", 2).message(), "Super class must be a class");
    assert_eq!(error(InterpreterErrorType::Exhausted, "x", 2).message(), "Calls and loops are nested too deep");
}

// The interpreter's table of distances.

#[test]
fn resolve_records_variable_occurrences_only() {
    let mut interpreter = Interpreter::new(TestHost::new());
    interpreter.resolve(&variable("a", 1, 5), 2);
    interpreter.resolve(&literal(1.0), 7);
    interpreter.resolve(&Expression::This { keyword: token(TokenType::This, "this", 1), id: 6 }, 1);
    interpreter.resolve(
        &Expression::Assignment {
            name: String::from("a"),
            value: Box::new(literal(1.0)),
            token: token(TokenType::Equal, "=", 1),
            id: 9,
        },
        0,
    );
    assert_eq!(interpreter.locals.len(), 3);
    assert_eq!(interpreter.locals.get(&5), Some(&2));
    assert_eq!(interpreter.locals.get(&6), Some(&1));
    assert_eq!(interpreter.locals.get(&9), Some(&0));
    interpreter.resolve(&variable("a", 1, 5), 0);
    assert_eq!(interpreter.locals.get(&5), Some(&0));
    assert_eq!(variable("a", 1, 5).identity(), Some(5));
    assert_eq!(literal(1.0).identity(), None);
}

#[test]
fn resolver_records_distances() {
    let statements = parse("var g = 0; { var a = 1; { var b = a; { print a + b + g; a = b; } } }").unwrap();
    let mut interpreter = Interpreter::new(TestHost::new());
    Resolver::new().resolve_statements(&mut interpreter, &statements).unwrap();
    // Identities in the order they are given: a (0), a (1), b (2), g (3), the
    // target a (4, dropped with it), b (5), the assignment (6).
    assert_eq!(interpreter.locals.get(&0), Some(&1));
    assert_eq!(interpreter.locals.get(&1), Some(&2));
    assert_eq!(interpreter.locals.get(&2), Some(&1));
    assert_eq!(interpreter.locals.get(&3), None);
    assert_eq!(interpreter.locals.get(&4), None);
    assert_eq!(interpreter.locals.get(&5), Some(&1));
    assert_eq!(interpreter.locals.get(&6), Some(&2));
    assert_eq!(interpreter.locals.len(), 5);
}

#[test]
fn resolver_counts_the_scope_of_this() {
    let statements = parse("{ var a = 1; class C { m(p) { print a; print this; print p; } } }").unwrap();
    let mut interpreter = Interpreter::new(TestHost::new());
    let mut resolver = Resolver::new();
    resolver.resolve_statements(&mut interpreter, &statements).unwrap();
    assert_eq!(interpreter.locals.get(&0), Some(&2));
    assert_eq!(interpreter.locals.get(&1), Some(&1));
    assert_eq!(interpreter.locals.get(&2), Some(&0));
    assert_eq!(resolver.scopes.len(), 0);
}

#[test]
fn new_interpreter_knows_the_host_functions() {
    let interpreter = Interpreter::new(TestHost::new());
    assert_eq!(interpreter.global("clock"), Some(LoxValue::Callable(0)));
    assert_eq!(interpreter.global("read_line"), Some(LoxValue::Callable(1)));
    assert_eq!(interpreter.global("random"), Some(LoxValue::Callable(2)));
    assert_eq!(interpreter.global("string_to_number"), Some(LoxValue::Callable(3)));
    assert_eq!(interpreter.callables.len(), 4);
    assert_eq!(interpreter.environment.len(), 1);
    assert_eq!(interpreter.budget, u64::MAX);
    assert_eq!(interpreter.marker, Token::new(TokenType::Eof, String::new(), 0));
}

#[test]
fn evaluate_and_execute_without_a_program_text() {
    let mut interpreter = Interpreter::new(TestHost::new());
    let sum = binary(literal(1.0), token(TokenType::Plus, "+", 1), literal(2.0));
    assert_eq!(interpreter.evaluate(&sum, 0, 10), Ok(LoxValue::Number(to_number(3.0))));
    let quotient = binary(literal(1.0), token(TokenType::Slash, "/", 4), literal(0.0));
    assert_eq!(
        interpreter.evaluate(&quotient, 0, 10),
        Err(InterpreterError { error_type: InterpreterErrorType::DivisionByZero, token: token(TokenType::Slash, "/", 4) })
    );
    let text = Expression::String(String::from("abc"));
    let value = interpreter.evaluate(&text, 0, 0).unwrap();
    assert_eq!(interpreter.text(value).map(|text| text.as_str()), Some("abc"));
    let returns = Statement::Return { keyword: token(TokenType::Return, "return", 1), expression: Some(sum) };
    assert_eq!(
        interpreter.execute_statement(&returns, 0, false, 10),
        Ok(ControlFlow::Return(LoxValue::Number(to_number(3.0))))
    );
    let stops = Statement::Break { keyword: token(TokenType::Break, "break", 1) };
    assert_eq!(interpreter.execute_statement(&stops, 0, true, 10), Ok(ControlFlow::BreakLoop));
    let goes_on = Statement::Continue { keyword: token(TokenType::Continue, "continue", 1) };
    assert_eq!(interpreter.execute_statement(&goes_on, 0, true, 10), Ok(ControlFlow::ContinueLoop));
}

// The parser.

#[test]
fn precedence_and_grouping() {
    let plus = token(TokenType::Plus, "+", 1);
    let star = token(TokenType::Star, "*", 1);
    assert_eq!(
        parse("1 + 2 * 3;").unwrap(),
        [Statement::Expression(binary(literal(1.0), plus.clone(), binary(literal(2.0), star.clone(), literal(3.0))))]
    );
    assert_eq!(
        parse("(1 + 2) * 3;").unwrap(),
        [Statement::Expression(binary(
            Expression::Grouping(Box::new(binary(literal(1.0), plus.clone(), literal(2.0)))),
            star,
            literal(3.0)
        ))]
    );
    let minus = token(TokenType::Minus, "-", 1);
    assert_eq!(
        parse("1 - 2 - 3;").unwrap(),
        [Statement::Expression(binary(binary(literal(1.0), minus.clone(), literal(2.0)), minus.clone(), literal(3.0)))]
    );
    let less = token(TokenType::Less, "<", 1);
    let equal = token(TokenType::EqualEqual, "==", 1);
    assert_eq!(
        parse("1 < 2 == 3 < 1 + 2;").unwrap(),
        [Statement::Expression(binary(
            binary(literal(1.0), less.clone(), literal(2.0)),
            equal,
            binary(literal(3.0), less, binary(literal(1.0), plus, literal(2.0)))
        ))]
    );
    assert_eq!(
        parse("- -1;").unwrap(),
        [Statement::Expression(Expression::Unary(
            minus.clone(),
            Box::new(Expression::Unary(minus, Box::new(literal(1.0))))
        ))]
    );
}

#[test]
fn logical_operators_group_to_the_left_and_and_binds_tighter() {
    assert_eq!(
        parse("a or b and c or d;").unwrap(),
        [Statement::Expression(Expression::Or {
            left: Box::new(Expression::Or {
                left: Box::new(variable("a", 1, 0)),
                right: Box::new(Expression::And {
                    left: Box::new(variable("b", 1, 1)),
                    right: Box::new(variable("c", 1, 2)),
                }),
            }),
            right: Box::new(variable("d", 1, 3)),
        })]
    );
}

#[test]
fn assignment_groups_to_the_right() {
    let equals = token(TokenType::Equal, "=", 1);
    assert_eq!(
        parse("a = b = 1;").unwrap(),
        [Statement::Expression(Expression::Assignment {
            name: String::from("a"),
            value: Box::new(Expression::Assignment {
                name: String::from("b"),
                value: Box::new(literal(1.0)),
                token: equals.clone(),
                id: 2,
            }),
            token: equals,
            id: 3,
        })]
    );
}

#[test]
fn calls_and_properties() {
    let x = token(TokenType::Identifier(String::from("x")), "x", 1);
    assert_eq!(
        parse("f(1, a).x(this);").unwrap(),
        [Statement::Expression(Expression::Call {
            callee: Box::new(Expression::Get {
                expression: Box::new(Expression::Call {
                    callee: Box::new(variable("f", 1, 0)),
                    paren: token(TokenType::RightParen, ")", 1),
                    args: vec![literal(1.0), variable("a", 1, 1)],
                }),
                token: x.clone(),
            }),
            paren: token(TokenType::RightParen, ")", 1),
            args: vec![Expression::This { keyword: token(TokenType::This, "this", 1), id: 2 }],
        })]
    );
    assert_eq!(
        parse("a.x = nil;").unwrap(),
        [Statement::Expression(Expression::SetField {
            name: x,
            object: Box::new(variable("a", 1, 0)),
            value: Box::new(Expression::Nil),
        })]
    );
}

#[test]
fn declarations() {
    assert_eq!(
        parse("var a;\nvar b = true;").unwrap(),
        [
            Statement::VariableDeclaration { name: String::from("a"), initializer: None },
            Statement::VariableDeclaration { name: String::from("b"), initializer: Some(Expression::True) },
        ]
    );
    let p = token(TokenType::Identifier(String::from("p")), "p", 1);
    let q = token(TokenType::Identifier(String::from("q")), "q", 1);
    assert_eq!(
        parse("fun f(p, q) { return; }").unwrap(),
        [Statement::FunctionDeclaration(Rc::new(Function {
            name: String::from("f"),
            parameters: vec![p, q],
            body: vec![Statement::Return { keyword: token(TokenType::Return, "return", 1), expression: None }],
        }))]
    );
    assert_eq!(
        parse("class A < B { m() {} n() { print 1; } }").unwrap(),
        [Statement::ClassDeclaration {
            name: String::from("A"),
            methods: vec![
                Rc::new(Function { name: String::from("m"), parameters: vec![], body: vec![] }),
                Rc::new(Function {
                    name: String::from("n"),
                    parameters: vec![],
                    body: vec![Statement::Print(literal(1.0))],
                }),
            ],
            super_class: Some(variable("B", 1, 0)),
        }]
    );
}

#[test]
fn control_statements() {
    assert_eq!(
        parse("if (a) print 1; else { break; }").unwrap(),
        [Statement::If {
            condition: variable("a", 1, 0),
            then_branch: Box::new(Statement::Print(literal(1.0))),
            else_branch: Some(Box::new(Statement::Block(vec![Statement::Break {
                keyword: token(TokenType::Break, "break", 1)
            }]))),
        }]
    );
    assert_eq!(
        parse("while (false) continue;").unwrap(),
        [Statement::While {
            condition: Expression::False,
            body: Box::new(Statement::Continue { keyword: token(TokenType::Continue, "continue", 1) }),
        }]
    );
    assert_eq!(
        parse("for (;;) {}").unwrap(),
        [Statement::For { initializer: None, condition: None, increment: None, body: Box::new(Statement::Block(vec![])) }]
    );
    assert_eq!(
        parse("for (var i = 0; i; i) 1;").unwrap(),
        [Statement::For {
            initializer: Some(Box::new(Statement::VariableDeclaration {
                name: String::from("i"),
                initializer: Some(literal(0.0)),
            })),
            condition: Some(variable("i", 1, 0)),
            increment: Some(variable("i", 1, 1)),
            body: Box::new(Statement::Expression(literal(1.0))),
        }]
    );
    assert_eq!(
        parse("for (1; ; ) 2;").unwrap(),
        [Statement::For {
            initializer: Some(Box::new(Statement::Expression(literal(1.0)))),
            condition: None,
            increment: None,
            body: Box::new(Statement::Expression(literal(2.0))),
        }]
    );
}

#[test]
fn syntax_errors() {
    assert_eq!(parse("1 + ;"), Err(ParserError::FailedMatch(TokenType::Semicolon)));
    assert_eq!(parse("1 + 2"), Err(ParserError::FailedMatch(TokenType::Semicolon)));
    assert_eq!(parse("(1 + 2;"), Err(ParserError::FailedMatch(TokenType::RightParen)));
    assert_eq!(parse("print"), Err(ParserError::FailedMatch(TokenType::Eof)));
    assert_eq!(parse("f(1, 2;"), Err(ParserError::FailedMatch(TokenType::RightParen)));
    assert_eq!(parse("{ print 1;"), Err(ParserError::FailedMatch(TokenType::RightBrace)));
    assert_eq!(parse("if 1) 2;"), Err(ParserError::FailedMatch(TokenType::LeftParen)));
    assert_eq!(parse("while (1 2;"), Err(ParserError::FailedMatch(TokenType::RightParen)));
    assert_eq!(parse("break"), Err(ParserError::FailedMatch(TokenType::Semicolon)));
    assert_eq!(
        parse("var 1 = 2;"),
        Err(ParserError::FailedMatch(TokenType::Identifier(String::from("undefined"))))
    );
    assert_eq!(
        parse("a.1;"),
        Err(ParserError::FailedMatch(TokenType::Identifier(String::from("undefined"))))
    );
    assert_eq!(
        parse("fun (a) {}"),
        Err(ParserError::FailedMatch(TokenType::Identifier(String::from("undefined"))))
    );
    assert_eq!(parse("fun f(a {}"), Err(ParserError::FailedMatch(TokenType::RightParen)));
    assert_eq!(parse("fun f() 1;"), Err(ParserError::FailedMatch(TokenType::LeftBrace)));
    assert_eq!(parse("class A { 1 }"), Err(ParserError::FailedMatch(TokenType::Identifier(String::from("undefined")))));
    assert_eq!(parse("class A < { }"), Err(ParserError::FailedMatch(TokenType::Identifier(String::from("undefined")))));
    assert_eq!(
        parse("1 = 2;"),
        Err(ParserError::InvalidAssignmentTarget(token(TokenType::Equal, "=", 1)))
    );
    assert_eq!(
        parse("\n(a) = 2;"),
        Err(ParserError::InvalidAssignmentTarget(token(TokenType::Equal, "=", 2)))
    );
}

#[test]
fn parser_position_behind_an_error_in_a_variable_declaration() {
    let mut host = TestHost::new();
    let tokens = Scanner::new("var a = ; print 1; print 2;".as_bytes().to_vec()).scan_tokens(&mut host).unwrap();
    let mut parser = Parser::new(&tokens);
    assert_eq!(parser.statements(), Err(ParserError::FailedMatch(TokenType::Semicolon)));
    assert_eq!(parser.current, 4);
    assert_eq!(parser.statements().map(|statements| statements.len()), Ok(2));
}

#[test]
fn identities_go_on_where_they_are_told_to() {
    let mut host = TestHost::new();
    let tokens = Scanner::new("a; b;".as_bytes().to_vec()).scan_tokens(&mut host).unwrap();
    let mut parser = Parser::resume(&tokens, 40).unwrap();
    assert_eq!(
        parser.statements().unwrap(),
        [Statement::Expression(variable("a", 1, 40)), Statement::Expression(variable("b", 1, 41))]
    );
    assert_eq!(parser.next_id, 42);
    assert!(Parser::resume(&tokens, usize::MAX).is_none());
    assert!(Parser::resume(&tokens, usize::MAX - 5).is_some());
    assert!(Parser::resume(&tokens, usize::MAX - 4).is_none());
}

#[test]
fn at_most_255_arguments_are_read() {
    let arguments = vec!["1"; 255].join(", ");
    assert!(parse(&format!("f({arguments});")).is_ok());
    let arguments = vec!["1"; 256].join(", ");
    assert_eq!(parse(&format!("f({arguments});")), Err(ParserError::FailedMatch(TokenType::RightParen)));
    let parameters = (0..255).map(|i| format!("p{i}")).collect::<Vec<_>>().join(", ");
    assert!(parse(&format!("fun f({parameters}) {{}}")).is_ok());
}
