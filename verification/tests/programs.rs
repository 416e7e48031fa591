use lox::error::{InterpreterErrorType, NativeError};
use lox::grammar::ParserError;
use lox::host::Host;
use lox::interpreter::Interpreter;
use lox::number::{Arithmetic, Number};
use lox::parser::Parser;
use lox::resolver::{Resolver, ResolverError};
use lox::scanner::{Scanner, ScannerError};
use lox::token::TokenType;
use lox::value::LoxValue;

struct TestHost {
    printed: Vec<String>,
    warned: Vec<String>,
    input: Vec<String>,
    now: f64,
}

impl TestHost {
    fn new() -> Self {
        TestHost { printed: Vec::new(), warned: Vec::new(), input: Vec::new(), now: 1234.5 }
    }
}

/// A host whose clock has stopped; the rest is the test host.
struct Stopped(TestHost);

impl Host for Stopped {
    fn arithmetic(&mut self, operation: Arithmetic, left: Number, right: Number) -> Number {
        self.0.arithmetic(operation, left, right)
    }

    fn format_number(&mut self, number: Number) -> String {
        self.0.format_number(number)
    }

    fn power(&mut self, base: Number, exponent: i32) -> Number {
        self.0.power(base, exponent)
    }

    fn parse_number(&mut self, text: &str) -> Result<Number, NativeError> {
        self.0.parse_number(text)
    }

    fn to_integer(&mut self, number: Number) -> i64 {
        self.0.to_integer(number)
    }

    fn from_integer(&mut self, integer: i64) -> Number {
        self.0.from_integer(integer)
    }

    fn clock(&mut self) -> Result<Number, NativeError> {
        Err(NativeError::SystemTime(String::from("the clock has stopped")))
    }

    fn read_line(&mut self) -> Result<String, NativeError> {
        self.0.read_line()
    }

    fn print(&mut self, text: &str) {
        self.0.print(text)
    }

    fn warn(&mut self, text: &str) {
        self.0.warn(text)
    }
}

fn to_number(value: f64) -> Number {
    Number::from_bits(value.to_bits())
}

fn to_float(number: Number) -> f64 {
    f64::from_bits(number.to_bits())
}

impl Host for TestHost {
    fn arithmetic(&mut self, operation: Arithmetic, left: Number, right: Number) -> Number {
        let a = to_float(left);
        let b = to_float(right);
        to_number(match operation {
            Arithmetic::Add => a + b,
            Arithmetic::Subtract => a - b,
            Arithmetic::Multiply => a * b,
            Arithmetic::Divide => a / b,
        })
    }

    fn format_number(&mut self, number: Number) -> String {
        format!("{}", to_float(number))
    }

    fn power(&mut self, base: Number, exponent: i32) -> Number {
        to_number(to_float(base).powi(exponent))
    }

    fn parse_number(&mut self, text: &str) -> Result<Number, NativeError> {
        match text.parse::<f64>() {
            Ok(value) => Ok(to_number(value)),
            Err(error) => Err(NativeError::NumParse(error.to_string())),
        }
    }

    fn to_integer(&mut self, number: Number) -> i64 {
        to_float(number) as i64
    }

    fn from_integer(&mut self, integer: i64) -> Number {
        to_number(integer as f64)
    }

    fn clock(&mut self) -> Result<Number, NativeError> {
        Ok(to_number(self.now))
    }

    fn read_line(&mut self) -> Result<String, NativeError> {
        if self.input.is_empty() {
            Err(NativeError::Io(String::from("end of input")))
        } else {
            Ok(self.input.remove(0))
        }
    }

    fn print(&mut self, text: &str) {
        self.printed.push(String::from(text));
    }

    fn warn(&mut self, text: &str) {
        self.warned.push(String::from(text));
    }
}

/// What went wrong with a program, at whichever stage.
#[derive(Debug, PartialEq)]
enum Failure {
    Scan(ScannerError),
    Parse(ParserError),
    Resolve(ResolverError),
    Run(InterpreterErrorType, usize),
}

/// Runs a program with the given budget and input, and returns what it
/// printed and how it ended.
fn run_with(source: &str, budget: u64, input: &[&str]) -> (Vec<String>, Result<(), Failure>) {
    let mut host = TestHost::new();
    host.input = input.iter().map(|line| String::from(*line)).collect();
    let tokens = match Scanner::new(source.as_bytes().to_vec()).scan_tokens(&mut host) {
        Ok(tokens) => tokens,
        Err(error) => return (host.printed, Err(Failure::Scan(error))),
    };
    let mut parser = Parser::new(&tokens);
    let statements = match parser.statements() {
        Ok(statements) => statements,
        Err(error) => return (host.printed, Err(Failure::Parse(error))),
    };
    let mut interpreter = Interpreter::new(host);
    interpreter.set_budget(budget);
    let mut resolver = Resolver::new();
    if let Err(error) = resolver.resolve_statements(&mut interpreter, &statements) {
        return (interpreter.host.printed, Err(Failure::Resolve(error)));
    }
    let result = interpreter.interpret(&statements);
    let printed = interpreter.host.printed;
    match result {
        Ok(()) => (printed, Ok(())),
        Err(error) => (printed, Err(Failure::Run(error.error_type, error.token.line))),
    }
}

fn run(source: &str) -> (Vec<String>, Result<(), Failure>) {
    run_with(source, u64::MAX, &[])
}

/// What a program prints that ends without error.
fn output(source: &str) -> Vec<String> {
    let (printed, result) = run(source);
    assert_eq!(result, Ok(()));
    printed
}

/// How a program fails.
fn failure(source: &str) -> Failure {
    match run(source).1 {
        Ok(()) => panic!("the program ended without error"),
        Err(failure) => failure,
    }
}

// Scoping.

#[test]
fn shadowed_variable_is_seen_inside_and_restored_outside() {
    assert_eq!(
        output("{ var a = \"outer\"; { var a = \"inner\"; print a; } print a; }"),
        ["inner", "outer"]
    );
}

#[test]
fn global_is_shadowed_by_a_block() {
    assert_eq!(output("var a = 1; { var a = 2; print a; } print a;"), ["2", "1"]);
}

#[test]
fn inner_block_reads_and_writes_the_outer_variable() {
    assert_eq!(
        output("{ var a = 1; { print a; a = a + 1; { a = a * 10; } } print a; }"),
        ["1", "20"]
    );
}

#[test]
fn three_levels_of_shadowing() {
    assert_eq!(
        output("{ var a = 1; { var a = 2; { var a = 3; print a; } print a; } print a; }"),
        ["3", "2", "1"]
    );
}

#[test]
fn global_may_be_declared_again() {
    assert_eq!(output("var a = 1; var a = 2; print a;"), ["2"]);
}

#[test]
fn assignment_to_a_global() {
    assert_eq!(output("var a = 1; a = a + 1; print a;"), ["2"]);
    assert_eq!(output("var a = 1; fun f() { a = 7; } f(); print a;"), ["7"]);
}

#[test]
fn assignment_yields_the_value() {
    assert_eq!(output("var a; var b; a = b = 3; print a; print b;"), ["3", "3"]);
}

#[test]
fn assignment_never_declares() {
    assert_eq!(
        failure("a = 1;"),
        Failure::Run(InterpreterErrorType::UndefinedVariable(String::from("a")), 1)
    );
}

// Closures.

#[test]
fn closure_counts_on_the_captured_frame() {
    let source = "
        fun make() {
            var count = 0;
            fun next() { count = count + 1; return count; }
            return next;
        }
        var first = make();
        var second = make();
        print first();
        print first();
        print first();
        print second();
        print first();
        print second();
    ";
    assert_eq!(output(source), ["1", "2", "3", "1", "4", "2"]);
}

#[test]
fn one_closure_reads_what_another_has_written() {
    let source = "
        {
            var x = true;
            fun set() { x = nil; }
            fun get() { print x; }
            get();
            set();
            get();
        }
    ";
    assert_eq!(output(source), ["true", "nil"]);
}

#[test]
fn closure_sees_later_writes_to_its_frame() {
    let source = "
        {
            var a = 1;
            fun show() { print a; }
            show();
            a = 2;
            show();
        }
    ";
    assert_eq!(output(source), ["1", "2"]);
}

#[test]
fn recursion() {
    let source = "
        fun fib(n) { if (n < 2) return n; return fib(n - 1) + fib(n - 2); }
        print fib(15);
    ";
    assert_eq!(output(source), ["610"]);
}

#[test]
fn function_without_return_yields_nil() {
    assert_eq!(output("fun f() { 1 + 1; } print f();"), ["nil"]);
    assert_eq!(output("fun f() { return; } print f();"), ["nil"]);
}

#[test]
fn parameters_shadow_outer_names() {
    assert_eq!(output("var a = 1; fun f(a) { print a; } f(2); print a;"), ["2", "1"]);
}

// Truthiness.

#[test]
fn not_follows_the_truthiness_table() {
    assert_eq!(
        output("print !0; print !1; print !(-1); print !nil; print !true; print !false;"),
        ["true", "false", "false", "true", "false", "true"]
    );
}

#[test]
fn zero_is_falsy_in_conditions() {
    assert_eq!(
        output("if (0) print \"yes\"; else print \"no\"; if (0.5) print \"yes\"; if (\"\") print \"text\";"),
        ["no", "yes", "text"]
    );
    assert_eq!(output("if (nil) print 1; else print 2; if (-0) print 3; else print 4;"), ["2", "4"]);
}

#[test]
fn not_of_a_string_is_an_error() {
    assert_eq!(
        failure("print !\"a\";"),
        Failure::Run(
            InterpreterErrorType::WrongUnaryOperands(TokenType::Bang, LoxValue::String(0)),
            1
        )
    );
}

#[test]
fn minus_of_a_boolean_is_an_error() {
    assert_eq!(
        failure("\nprint -true;"),
        Failure::Run(
            InterpreterErrorType::WrongUnaryOperands(TokenType::Minus, LoxValue::Boolean(true)),
            2
        )
    );
}

// Operators.

#[test]
fn arithmetic() {
    assert_eq!(
        output("print 1 + 2 * 3; print (1 + 2) * 3; print 7 - 2 - 1; print 8 / 2 / 2; print -3 + 1; print 0.1 + 0.2;"),
        ["7", "9", "4", "2", "-2", "0.30000000000000004"]
    );
}

#[test]
fn division_by_zero_is_an_error() {
    assert_eq!(failure("1 / 0;"), Failure::Run(InterpreterErrorType::DivisionByZero, 1));
    assert_eq!(failure("print 1 / -0;"), Failure::Run(InterpreterErrorType::DivisionByZero, 1));
    assert_eq!(failure("print 0 / 0;"), Failure::Run(InterpreterErrorType::DivisionByZero, 1));
    assert_eq!(
        failure("var a = 2;\nvar b = a - 2;\nprint a / b;"),
        Failure::Run(InterpreterErrorType::DivisionByZero, 3)
    );
}

#[test]
fn division_by_zero_prints_nothing() {
    let (printed, result) = run("print 1; print 1 / 0; print 2;");
    assert_eq!(printed, ["1"]);
    assert_eq!(result, Err(Failure::Run(InterpreterErrorType::DivisionByZero, 1)));
}

#[test]
fn comparisons() {
    assert_eq!(
        output("print 1 < 2; print 2 < 1; print 1 <= 1; print 1 > 2; print 2 >= 2; print 1 == 1; print 1 == 2; print -1 < 1; print -2 < -1; print 0 == -0;"),
        ["true", "false", "true", "false", "true", "true", "false", "true", "true", "true"]
    );
}

#[test]
fn equality_is_defined_on_numbers_only() {
    assert_eq!(
        failure("print nil == nil;"),
        Failure::Run(
            InterpreterErrorType::WrongBinaryOperands(
                LoxValue::Nil,
                TokenType::EqualEqual,
                LoxValue::Nil
            ),
            1
        )
    );
    assert_eq!(
        failure("print 1 != 2;"),
        Failure::Run(
            InterpreterErrorType::WrongBinaryOperands(
                LoxValue::Number(to_number(1.0)),
                TokenType::BangEqual,
                LoxValue::Number(to_number(2.0))
            ),
            1
        )
    );
}

#[test]
fn strings_are_joined() {
    assert_eq!(
        output("print \"a\" + \"b\"; print \"n = \" + 1.5; print \"is \" + true; print \"it is \" + nil; var s = \"x\"; print s + s + s;"),
        ["ab", "n = 1.5", "is true", "it is nil", "xxx"]
    );
}

#[test]
fn number_plus_string_is_an_error() {
    assert!(matches!(
        failure("print 1 + \"a\";"),
        Failure::Run(
            InterpreterErrorType::WrongBinaryOperands(
                LoxValue::Number(_),
                TokenType::Plus,
                LoxValue::String(_)
            ),
            1
        )
    ));
    assert!(matches!(
        failure("print \"a\" - \"b\";"),
        Failure::Run(
            InterpreterErrorType::WrongBinaryOperands(
                LoxValue::String(_),
                TokenType::Minus,
                LoxValue::String(_)
            ),
            1
        )
    ));
}

#[test]
fn operands_are_evaluated_left_to_right() {
    let source = "
        fun left() { print \"left\"; return 1; }
        fun right() { print \"right\"; return 2; }
        print left() + right();
    ";
    assert_eq!(output(source), ["left", "right", "3"]);
}

// `and` and `or`.

#[test]
fn logical_operators_hand_values_on() {
    assert_eq!(
        output("print nil or \"x\"; print 0 or \"x\"; print 1 or \"x\"; print \"\" or \"x\"; print 1 and \"y\"; print 0 and \"y\"; print nil and 1; print false or 0;"),
        ["x", "x", "1", "", "y", "0", "nil", "0"]
    );
}

#[test]
fn logical_operators_short_circuit() {
    let source = "
        fun loud() { print \"called\"; return true; }
        print true or loud();
        print false and loud();
        print false or loud();
        print true and loud();
    ";
    assert_eq!(output(source), ["true", "false", "called", "true", "called", "true"]);
}

// Control flow.

#[test]
fn while_loop() {
    assert_eq!(
        output("var i = 0; while (i < 3) { print i; i = i + 1; } print \"done\";"),
        ["0", "1", "2", "done"]
    );
}

#[test]
fn for_loop_runs_increment_after_continue() {
    assert_eq!(
        output("for (var i = 0; i < 5; i = i + 1) { if (i == 2) continue; print i; }"),
        ["0", "1", "3", "4"]
    );
}

#[test]
fn while_loop_with_continue() {
    assert_eq!(
        output("var i = 0; while (i < 4) { i = i + 1; if (i == 2) continue; print i; }"),
        ["1", "3", "4"]
    );
}

#[test]
fn break_ends_the_innermost_loop_only() {
    let source = "
        for (var i = 0; i < 3; i = i + 1) {
            for (var j = 0; j < 3; j = j + 1) {
                { { if (j == 1) break; } }
                print i * 10 + j;
            }
        }
        print \"end\";
    ";
    assert_eq!(output(source), ["0", "10", "20", "end"]);
}

#[test]
fn for_loop_without_clauses() {
    assert_eq!(
        output("var i = 0; for (;;) { i = i + 1; if (i > 2) break; print i; }"),
        ["1", "2"]
    );
}

#[test]
fn return_leaves_the_loops_of_a_function() {
    let source = "
        fun find() {
            for (var i = 0; i < 10; i = i + 1) {
                while (true) { if (i == 3) return i; break; }
            }
            return -1;
        }
        print find();
    ";
    assert_eq!(output(source), ["3"]);
}

#[test]
fn break_outside_a_loop_is_an_error() {
    assert_eq!(failure("break;"), Failure::Run(InterpreterErrorType::NotInLoop, 1));
    assert_eq!(failure("\n{ continue; }"), Failure::Run(InterpreterErrorType::NotInLoop, 2));
    assert_eq!(
        failure("fun f() { break; } while (true) { f(); }"),
        Failure::Run(InterpreterErrorType::NotInLoop, 1)
    );
}

#[test]
fn if_runs_exactly_one_branch() {
    assert_eq!(output("if (1 < 2) print \"a\"; else print \"b\";"), ["a"]);
    assert_eq!(output("if (2 < 1) print \"a\"; else print \"b\";"), ["b"]);
    assert_eq!(output("if (2 < 1) print \"a\"; print \"c\";"), ["c"]);
}

// Calls.

#[test]
fn wrong_number_of_arguments_is_an_error() {
    assert_eq!(
        failure("fun f(a, b) { return a; } f(1);"),
        Failure::Run(InterpreterErrorType::WrongArity { original: 2, user: 1 }, 1)
    );
    assert_eq!(
        failure("fun f(a, b) { return a; }\nf(1, 2, 3);"),
        Failure::Run(InterpreterErrorType::WrongArity { original: 2, user: 3 }, 2)
    );
    assert_eq!(output("fun f(a, b) { return a + b; } print f(1, 2);"), ["3"]);
}

#[test]
fn wrong_number_of_arguments_runs_nothing() {
    let (printed, result) = run("fun f(a) { print \"in\"; } f(1, 2);");
    assert_eq!(printed.len(), 0);
    assert_eq!(result, Err(Failure::Run(InterpreterErrorType::WrongArity { original: 1, user: 2 }, 1)));
}

#[test]
fn arguments_are_evaluated_before_the_arity_is_checked() {
    let (printed, result) = run("fun f() {} fun loud() { print \"arg\"; return 1; } f(loud());");
    assert_eq!(printed, ["arg"]);
    assert_eq!(result, Err(Failure::Run(InterpreterErrorType::WrongArity { original: 0, user: 1 }, 1)));
}

#[test]
fn calling_what_is_not_callable_is_an_error() {
    assert_eq!(failure("var a = 1; a();"), Failure::Run(InterpreterErrorType::NotACallable, 1));
    assert_eq!(failure("\"text\"(1);"), Failure::Run(InterpreterErrorType::NotACallable, 1));
    assert_eq!(failure("nil();"), Failure::Run(InterpreterErrorType::NotACallable, 1));
}

#[test]
fn not_callable_is_found_before_the_arguments_run() {
    let (printed, result) = run("fun loud() { print \"arg\"; } var a = 1; a(loud());");
    assert_eq!(printed.len(), 0);
    assert_eq!(result, Err(Failure::Run(InterpreterErrorType::NotACallable, 1)));
}

#[test]
fn undefined_variable_is_an_error() {
    assert_eq!(
        failure("print missing;"),
        Failure::Run(InterpreterErrorType::UndefinedVariable(String::from("missing")), 1)
    );
}

// Classes.

#[test]
fn method_is_inherited_and_overridden() {
    let source = "
        class B { greet() { print \"B greets\"; } name() { return \"B\"; } }
        class A < B { name() { return \"A\"; } }
        var a = A();
        a.greet();
        print a.name();
        print B().name();
    ";
    assert_eq!(output(source), ["B greets", "A", "B"]);
}

#[test]
fn inheritance_over_three_classes() {
    let source = "
        class C { who() { return \"C\"; } deep() { return \"deep\"; } }
        class B < C { who() { return \"B\"; } }
        class A < B {}
        print A().who();
        print A().deep();
    ";
    assert_eq!(output(source), ["B", "deep"]);
}

#[test]
fn initializer_sets_fields_and_constructor_yields_the_instance() {
    let source = "
        class C { init(x) { this.x = x; return 99; } }
        print C(5).x;
        print C(5);
        var c = C(7);
        print c.init(8);
        print c.x;
    ";
    assert_eq!(output(source), ["5", "instanceof(C)", "instanceof(C)", "8"]);
}

#[test]
fn constructor_takes_as_many_arguments_as_init() {
    assert_eq!(
        failure("class C { init(x, y) {} } C(1);"),
        Failure::Run(InterpreterErrorType::WrongArity { original: 2, user: 1 }, 1)
    );
    assert_eq!(
        failure("class C {} C(1);"),
        Failure::Run(InterpreterErrorType::WrongArity { original: 0, user: 1 }, 1)
    );
    assert_eq!(output("class C {} print C();"), ["instanceof(C)"]);
}

#[test]
fn inherited_initializer_gives_the_arity() {
    assert_eq!(
        output("class B { init(x) { this.x = x; } } class A < B {} print A(3).x;"),
        ["3"]
    );
    assert_eq!(
        failure("class B { init(x) { this.x = x; } } class A < B {} A();"),
        Failure::Run(InterpreterErrorType::WrongArity { original: 1, user: 0 }, 1)
    );
}

#[test]
fn instances_do_not_share_fields_or_this() {
    let source = "
        class Counter {
            init() { this.count = 0; }
            next() { this.count = this.count + 1; return this.count; }
        }
        var a = Counter();
        var b = Counter();
        a.next();
        a.next();
        print a.next();
        print b.next();
        var step = a.next;
        print step();
        print b.count;
    ";
    assert_eq!(output(source), ["3", "1", "4", "1"]);
}

#[test]
fn fields_shadow_methods() {
    let source = "
        class C { value() { return \"method\"; } }
        var c = C();
        print c.value();
        c.value = \"field\";
        print c.value;
    ";
    assert_eq!(output(source), ["method", "field"]);
}

#[test]
fn fields_are_created_by_assignment() {
    assert_eq!(
        output("class P {} var p = P(); p.x = 1; p.y = p.x + 1; print p.x + p.y; print p.y = 5;"),
        ["3", "5"]
    );
}

#[test]
fn unknown_property_is_an_error() {
    assert_eq!(
        failure("class C {}\nprint C().missing;"),
        Failure::Run(
            InterpreterErrorType::NotAProperty {
                class_name: String::from("C"),
                field: String::from("missing")
            },
            2
        )
    );
}

#[test]
fn property_of_what_is_no_instance_is_an_error() {
    assert_eq!(
        failure("var a = 1; print a.x;"),
        Failure::Run(InterpreterErrorType::InvalidInstance(String::from("x")), 1)
    );
    assert_eq!(
        failure("var a = \"s\"; a.x = 2;"),
        Failure::Run(InterpreterErrorType::InvalidInstance(String::from("x")), 1)
    );
    assert_eq!(
        failure("class C {} C.x;"),
        Failure::Run(InterpreterErrorType::InvalidInstance(String::from("x")), 1)
    );
}

#[test]
fn value_of_a_field_assignment_is_not_evaluated_for_what_is_no_instance() {
    let (printed, result) = run("fun loud() { print \"value\"; return 1; } var a = 1; a.x = loud();");
    assert_eq!(printed.len(), 0);
    assert_eq!(result, Err(Failure::Run(InterpreterErrorType::InvalidInstance(String::from("x")), 1)));
}

#[test]
fn superclass_must_be_a_class() {
    assert_eq!(
        failure("var x = 1;\nclass A < x {}"),
        Failure::Run(InterpreterErrorType::InvalidSuperclass, 2)
    );
    assert_eq!(
        failure("fun f() {} class A < f {}"),
        Failure::Run(InterpreterErrorType::InvalidSuperclass, 1)
    );
}

#[test]
fn methods_close_over_the_frame_of_the_class() {
    let source = "
        {
            var greeting = \"hello\";
            class C { greet() { print greeting; } }
            C().greet();
            greeting = \"bye\";
            C().greet();
        }
    ";
    assert_eq!(output(source), ["hello", "bye"]);
}

// Display forms.

#[test]
fn display_forms() {
    let source = "
        fun f() {}
        class C { m() {} }
        print nil; print true; print false; print 12; print 1.5; print -0.25; print \"text\";
        print f; print clock; print C; print C(); print C().m;
    ";
    assert_eq!(
        output(source),
        [
            "nil", "true", "false", "12", "1.5", "-0.25", "text", "<fun f>", "<native fun>",
            "<constructor C>", "instanceof(C)", "<fun m>"
        ]
    );
}

// Host functions.

#[test]
fn clock_asks_the_host() {
    assert_eq!(output("print clock();"), ["1234.5"]);
}

#[test]
fn clock_failure_is_a_runtime_error() {
    let mut host = Stopped(TestHost::new());
    let tokens = Scanner::new("print 1;\nprint clock();".as_bytes().to_vec()).scan_tokens(&mut host).unwrap();
    let statements = Parser::new(&tokens).statements().unwrap();
    let mut interpreter = Interpreter::new(host);
    Resolver::new().resolve_statements(&mut interpreter, &statements).unwrap();
    let error = interpreter.interpret(&statements).unwrap_err();
    assert_eq!(
        error.error_type,
        InterpreterErrorType::Native(NativeError::SystemTime(String::from("the clock has stopped")))
    );
    assert_eq!(error.report(), "Native Error - System Time Error: the clock has stopped\n[line 2]");
    assert_eq!(interpreter.host.0.printed, ["1"]);
}

#[test]
fn read_line_asks_the_host() {
    let (printed, result) = run_with("print \"> \" + read_line(); print read_line();", u64::MAX, &["one", "two"]);
    assert_eq!(result, Ok(()));
    assert_eq!(printed, ["> one", "two"]);
}

#[test]
fn read_line_takes_the_line_feed_off() {
    let (printed, result) = run_with(
        "print read_line() + \"|\"; print read_line() + \"|\"; print read_line() + \"|\"; print read_line() + \"|\";",
        u64::MAX,
        &["one\n", "two", "\n", "three\n\n"],
    );
    assert_eq!(result, Ok(()));
    assert_eq!(printed, ["one|", "two|", "|", "three\n|"]);
}

#[test]
fn read_line_failure_is_a_runtime_error() {
    assert_eq!(
        failure("\nread_line();"),
        Failure::Run(
            InterpreterErrorType::Native(NativeError::Io(String::from("end of input"))),
            2
        )
    );
}

#[test]
fn string_to_number_asks_the_host() {
    assert_eq!(output("print string_to_number(\" 12.5 \") + 1;"), ["13.5"]);
    assert_eq!(output("print string_to_number(12);"), ["nil"]);
    assert!(matches!(
        failure("string_to_number(\"twelve\");"),
        Failure::Run(InterpreterErrorType::Native(NativeError::NumParse(_)), 1)
    ));
}

#[test]
fn string_to_number_takes_the_white_space_off_itself() {
    assert_eq!(output("print string_to_number(\"\t 7 \n\") + 1;"), ["8"]);
    assert!(matches!(
        failure("string_to_number(\"1 2\");"),
        Failure::Run(InterpreterErrorType::Native(NativeError::NumParse(_)), 1)
    ));
    assert!(matches!(
        failure("string_to_number(\"   \");"),
        Failure::Run(InterpreterErrorType::Native(NativeError::NumParse(_)), 1)
    ));
}

#[test]
fn host_function_is_not_called_with_the_wrong_number_of_arguments() {
    let (printed, result) = run_with("print 1; read_line(2);", u64::MAX, &["line"]);
    assert_eq!(printed, ["1"]);
    assert_eq!(result, Err(Failure::Run(InterpreterErrorType::WrongArity { original: 0, user: 1 }, 1)));
    let (_, result) = run_with("read_line(2); print read_line();", u64::MAX, &["line"]);
    assert_eq!(result, Err(Failure::Run(InterpreterErrorType::WrongArity { original: 0, user: 1 }, 1)));
}

#[test]
fn host_functions_give_notice_of_arguments_of_the_wrong_kind() {
    let mut host = TestHost::new();
    let source = "print string_to_number(1); print random(\"a\", 2); print random(1, 2); print string_to_number(\"3\");";
    let tokens = Scanner::new(source.as_bytes().to_vec()).scan_tokens(&mut host).unwrap();
    let statements = Parser::new(&tokens).statements().unwrap();
    let mut interpreter = Interpreter::new(host);
    Resolver::new().resolve_statements(&mut interpreter, &statements).unwrap();
    interpreter.interpret(&statements).unwrap();
    assert_eq!(interpreter.host.printed, ["nil", "nil", "1", "3"]);
    assert_eq!(
        interpreter.host.warned,
        ["Argument is not a number", "Parameters in random must be numbers"]
    );
}

#[test]
fn literal_is_made_digit_by_digit() {
    assert_eq!(output("print 0.3; print 0.1 * 3; print 0.5; print 100.25;"), ["0.30000000000000004", "0.30000000000000004", "0.5", "100.25"]);
}

#[test]
fn random_draws_between_the_bounds() {
    assert_eq!(output("print random(1, 2); print random(2, 1); print random(-3, -2);"), ["1", "1", "-3"]);
    assert_eq!(output("print random(5, 5); print random(\"a\", 1); print random(1, nil);"), ["nil", "nil", "nil"]);
    let printed = output("for (var i = 0; i < 50; i = i + 1) { var r = random(10, 20); print 10 <= r and r < 20; }");
    assert_eq!(printed.len(), 50);
    assert!(printed.iter().all(|line| line == "true"));
}

#[test]
fn host_functions_check_their_arity() {
    assert_eq!(
        failure("clock(1);"),
        Failure::Run(InterpreterErrorType::WrongArity { original: 0, user: 1 }, 1)
    );
    assert_eq!(
        failure("random(1);"),
        Failure::Run(InterpreterErrorType::WrongArity { original: 2, user: 1 }, 1)
    );
    assert_eq!(
        failure("string_to_number();"),
        Failure::Run(InterpreterErrorType::WrongArity { original: 1, user: 0 }, 1)
    );
}

// The budget.

#[test]
fn endless_loop_exhausts_the_budget() {
    let (printed, result) = run_with("var i = 0; while (true) { i = i + 1; print i; }", 3, &[]);
    assert_eq!(printed, ["1", "2", "3"]);
    assert_eq!(result, Err(Failure::Run(InterpreterErrorType::Exhausted, 0)));
}

#[test]
fn endless_recursion_exhausts_the_budget() {
    let (_, result) = run_with("fun f() {\n f();\n }\n f();", 100, &[]);
    assert_eq!(result, Err(Failure::Run(InterpreterErrorType::Exhausted, 2)));
}

#[test]
fn budget_bounds_nesting_not_the_number_of_steps() {
    let source = "
        var total = 0;
        for (var i = 0; i < 5; i = i + 1) { total = total + 1; }
        for (var i = 0; i < 5; i = i + 1) { total = total + 1; }
        for (var i = 0; i < 5; i = i + 1) { total = total + 1; }
        print total;
    ";
    let (printed, result) = run_with(source, 6, &[]);
    assert_eq!(result, Ok(()));
    assert_eq!(printed, ["15"]);
    let (_, result) = run_with(source, 5, &[]);
    assert_eq!(result, Err(Failure::Run(InterpreterErrorType::Exhausted, 0)));
}

#[test]
fn budget_zero_allows_what_neither_calls_nor_loops() {
    let (printed, result) = run_with("var a = 1; { print a + 1; }", 0, &[]);
    assert_eq!(result, Ok(()));
    assert_eq!(printed, ["2"]);
    let (_, result) = run_with("fun f() {} f();", 0, &[]);
    assert_eq!(result, Err(Failure::Run(InterpreterErrorType::Exhausted, 1)));
}

// Resolution errors.

#[test]
fn variable_in_its_own_initializer_is_an_error() {
    let (printed, result) = run("print 1; { var a = a; }");
    assert_eq!(printed.len(), 0);
    assert_eq!(result, Err(Failure::Resolve(ResolverError::NotInitialized(String::from("a")))));
}

#[test]
fn shadowing_initializer_may_not_read_the_outer_variable() {
    assert_eq!(
        failure("{ var a = 1; { var a = a + 1; } }"),
        Failure::Resolve(ResolverError::NotInitialized(String::from("a")))
    );
}

#[test]
fn assignment_inside_the_own_initializer_finds_no_variable_yet() {
    assert_eq!(
        failure("{ var a = (a = 1); }"),
        Failure::Run(InterpreterErrorType::UndefinedVariable(String::from("a")), 1)
    );
}

#[test]
fn function_declared_later_is_not_seen_by_an_earlier_closure() {
    let source = "
        var a = \"global\";
        {
            fun show() { print a; }
            show();
            var a = \"block\";
            show();
            print a;
        }
    ";
    assert_eq!(output(source), ["global", "global", "block"]);
}

#[test]
fn duplicate_declaration_in_a_scope_is_an_error() {
    assert_eq!(
        failure("{ var a = 1; var a = 2; }"),
        Failure::Resolve(ResolverError::VariableAlreadyExists(String::from("a")))
    );
    assert_eq!(
        failure("fun f(a, a) {}"),
        Failure::Resolve(ResolverError::VariableAlreadyExists(String::from("a")))
    );
    assert_eq!(
        failure("fun f(a) { var a = 1; }"),
        Failure::Resolve(ResolverError::VariableAlreadyExists(String::from("a")))
    );
}

#[test]
fn return_outside_a_function_is_an_error() {
    assert_eq!(failure("return 1;"), Failure::Resolve(ResolverError::ReturnNotInFunction));
    assert_eq!(failure("{ if (true) return; }"), Failure::Resolve(ResolverError::ReturnNotInFunction));
}

#[test]
fn return_is_allowed_behind_a_nested_function() {
    assert_eq!(output("fun outer() { fun inner() { return 1; } return inner() + 1; } print outer();"), ["2"]);
}

#[test]
fn this_outside_a_class_is_an_error() {
    assert_eq!(failure("\n\nprint this;"), Failure::Resolve(ResolverError::InvalidThis(3)));
    assert_eq!(failure("fun f() { return this; }"), Failure::Resolve(ResolverError::InvalidThis(1)));
}

#[test]
fn this_in_a_function_inside_a_method() {
    let source = "
        class C {
            init() { this.name = \"c\"; }
            getter() { fun inner() { return this.name; } return inner; }
        }
        print C().getter()();
    ";
    assert_eq!(output(source), ["c"]);
}

// Reports.

#[test]
fn runtime_error_report() {
    let mut host = TestHost::new();
    let tokens = Scanner::new("var a = 1;\nprint a / 0;".as_bytes().to_vec()).scan_tokens(&mut host).unwrap();
    let statements = Parser::new(&tokens).statements().unwrap();
    let mut interpreter = Interpreter::new(host);
    Resolver::new().resolve_statements(&mut interpreter, &statements).unwrap();
    let error = interpreter.interpret(&statements).unwrap_err();
    assert_eq!(error.report(), "Division by zero\n[line 2]");
    assert_eq!(error.message(), "Division by zero");
}

/// The report that the interpreter makes of the error of a program.
fn reported(source: &str) -> String {
    let mut host = TestHost::new();
    let tokens = Scanner::new(source.as_bytes().to_vec()).scan_tokens(&mut host).unwrap();
    let statements = Parser::new(&tokens).statements().unwrap();
    let mut interpreter = Interpreter::new(host);
    Resolver::new().resolve_statements(&mut interpreter, &statements).unwrap();
    let error = interpreter.interpret(&statements).unwrap_err();
    interpreter.report(&error)
}

#[test]
fn reports_show_the_operands() {
    assert_eq!(
        reported("print -\"abc\";"),
        "The unary operation Minus is not valid over token of type: abc\n[line 1]"
    );
    assert_eq!(
        reported("\nprint 1.5 - \"a\";"),
        "Operation of type: Minus cannot be applied over operands of types 1.5 and a\n[line 2]"
    );
    assert_eq!(
        reported("fun f() {} class C {} print f < C();"),
        "Operation of type: Less cannot be applied over operands of types <fun f> and instanceof(C)\n[line 1]"
    );
    assert_eq!(
        reported("print nil == true;"),
        "Operation of type: EqualEqual cannot be applied over operands of types nil and true\n[line 1]"
    );
    assert_eq!(reported("print 1 / 0;"), "Division by zero\n[line 1]");
    assert_eq!(reported("print a;"), "Variable a is undefined\n[line 1]");
}

#[test]
fn report_of_an_error_from_elsewhere_names_the_kinds() {
    let mut interpreter = Interpreter::new(TestHost::new());
    let error = lox::error::InterpreterError {
        error_type: InterpreterErrorType::WrongUnaryOperands(TokenType::Bang, LoxValue::String(99)),
        token: lox::token::Token::new(TokenType::Bang, String::from("!"), 7),
    };
    assert!(!interpreter.holds(LoxValue::String(99)));
    assert!(interpreter.holds(LoxValue::Callable(3)));
    assert_eq!(
        interpreter.report(&error),
        "The unary operation Bang is not valid over token of type: string\n[line 7]"
    );
}

#[test]
fn interpreter_goes_on_after_an_error() {
    let mut host = TestHost::new();
    let first = Scanner::new("var a = 1; print missing;".as_bytes().to_vec()).scan_tokens(&mut host).unwrap();
    let second = Scanner::new("print a;".as_bytes().to_vec()).scan_tokens(&mut host).unwrap();
    let mut parser = Parser::new(&first);
    let program = parser.statements().unwrap();
    let next_id = parser.next_id;
    let more = Parser::resume(&second, next_id).unwrap().statements().unwrap();
    let mut interpreter = Interpreter::new(host);
    let mut resolver = Resolver::new();
    resolver.resolve_statements(&mut interpreter, &program).unwrap();
    assert!(interpreter.interpret(&program).is_err());
    resolver.resolve_statements(&mut interpreter, &more).unwrap();
    assert!(interpreter.interpret(&more).is_ok());
    assert_eq!(interpreter.host.printed, ["1"]);
}

#[test]
fn global_and_text_read_the_state() {
    let mut host = TestHost::new();
    let tokens = Scanner::new("var a = \"x\" + 1; var n = 2.5;".as_bytes().to_vec()).scan_tokens(&mut host).unwrap();
    let statements = Parser::new(&tokens).statements().unwrap();
    let mut interpreter = Interpreter::new(host);
    Resolver::new().resolve_statements(&mut interpreter, &statements).unwrap();
    interpreter.interpret(&statements).unwrap();
    let a = interpreter.global("a").unwrap();
    assert_eq!(interpreter.text(a).map(|text| text.as_str()), Some("x1"));
    assert_eq!(interpreter.global("n"), Some(LoxValue::Number(to_number(2.5))));
    assert_eq!(interpreter.global("missing"), None);
    assert_eq!(interpreter.text(LoxValue::Nil), None);
    assert_eq!(interpreter.global("clock"), Some(LoxValue::Callable(0)));
}
