use lox::error::NativeError;
use lox::host::Host;
use lox::number::{Arithmetic, Number};
use lox::scanner::{ErrorType, Scanner, ScannerError};
use lox::token::{Token, TokenType};

struct Plain;

impl Host for Plain {
    fn arithmetic(&mut self, operation: Arithmetic, left: Number, right: Number) -> Number {
        let a = f64::from_bits(left.to_bits());
        let b = f64::from_bits(right.to_bits());
        let r = match operation {
            Arithmetic::Add => a + b,
            Arithmetic::Subtract => a - b,
            Arithmetic::Multiply => a * b,
            Arithmetic::Divide => a / b,
        };
        Number::from_bits(r.to_bits())
    }

    fn format_number(&mut self, number: Number) -> String {
        format!("{}", f64::from_bits(number.to_bits()))
    }

    fn power(&mut self, base: Number, exponent: i32) -> Number {
        Number::from_bits(f64::from_bits(base.to_bits()).powi(exponent).to_bits())
    }

    fn parse_number(&mut self, text: &str) -> Result<Number, NativeError> {
        match text.parse::<f64>() {
            Ok(value) => Ok(Number::from_bits(value.to_bits())),
            Err(error) => Err(NativeError::NumParse(error.to_string())),
        }
    }

    fn to_integer(&mut self, number: Number) -> i64 {
        f64::from_bits(number.to_bits()) as i64
    }

    fn from_integer(&mut self, integer: i64) -> Number {
        Number::from_bits((integer as f64).to_bits())
    }

    fn clock(&mut self) -> Result<Number, NativeError> {
        Ok(Number::from_bits(0f64.to_bits()))
    }

    fn read_line(&mut self) -> Result<String, NativeError> {
        Err(NativeError::Io(String::from("no input")))
    }

    fn print(&mut self, _text: &str) {}

    fn warn(&mut self, _text: &str) {}
}

fn scan(source: &str) -> Result<Vec<Token>, ScannerError> {
    Scanner::new(source.as_bytes().to_vec()).scan_tokens(&mut Plain)
}

fn end(line: usize) -> Token {
    Token::new(TokenType::Eof, String::new(), line)
}

fn semicolon_token(line: usize) -> Token {
    Token::new(TokenType::Semicolon, String::from(";"), line)
}

fn identifier(lexeme: &str, line: usize) -> Token {
    Token::new(TokenType::Identifier(String::from(lexeme)), String::from(lexeme), line)
}

fn number(value: f64) -> Number {
    Number::from_bits(value.to_bits())
}

#[test]
fn single_byte_tokens() {
    let source = "   =/+-    (){}   ;   // this is a comment that should be ignored.\n = +";
    let result = scan(source).unwrap();
    assert_eq!(
        result,
        [
            Token::new(TokenType::Equal, String::from("="), 1),
            Token::new(TokenType::Slash, String::from("/"), 1),
            Token::new(TokenType::Plus, String::from("+"), 1),
            Token::new(TokenType::Minus, String::from("-"), 1),
            Token::new(TokenType::LeftParen, String::from("("), 1),
            Token::new(TokenType::RightParen, String::from(")"), 1),
            Token::new(TokenType::LeftBrace, String::from("{"), 1),
            Token::new(TokenType::RightBrace, String::from("}"), 1),
            Token::new(TokenType::Semicolon, String::from(";"), 1),
            Token::new(TokenType::Equal, String::from("="), 2),
            Token::new(TokenType::Plus, String::from("+"), 2),
            end(2),
        ]
    )
}

#[test]
fn single_line_string_literal() {
    let source = "= \"Hello World\"";
    let result: Vec<Token> = scan(source).unwrap();

    assert_eq!(
        result,
        [
            Token::new(TokenType::Equal, String::from("="), 1),
            Token::new(
                TokenType::String(String::from("Hello World"),),
                String::from("\"Hello World\""),
                1
            ),
            end(1),
        ]
    )
}

#[test]
fn multi_line_string_literal() {
    let source = " = \"hello\ncrayon\nlets go\"";
    let result: Vec<Token> = scan(source).unwrap();
    assert_eq!(
        result,
        [
            Token::new(TokenType::Equal, String::from("="), 1),
            Token::new(
                TokenType::String(String::from("hello\ncrayon\nlets go"),),
                String::from("\"hello\ncrayon\nlets go\""),
                3
            ),
            end(3),
        ]
    )
}

#[test]
fn test_number_parsing() {
    let source = "    30.5    ;    ";
    let result: Vec<Token> = scan(source).unwrap();

    assert_eq!(
        result,
        [
            Token::new(TokenType::Number(number(30.5)), String::from("30.5"), 1),
            semicolon_token(1),
            end(1),
        ]
    )
}

#[test]
fn test_identifiers() {
    let source = "print\nfoo\nand or bar // sample\nbreak\nfun\nsuper\ncontinue return while";
    let result = scan(source).unwrap();

    assert_eq!(
        result,
        [
            Token::new(TokenType::Print, String::from("print"), 1),
            Token::new(
                TokenType::Identifier(String::from("foo")),
                String::from("foo"),
                2
            ),
            Token::new(TokenType::And, String::from("and"), 3),
            Token::new(TokenType::Or, String::from("or"), 3),
            Token::new(
                TokenType::Identifier(String::from("bar")),
                String::from("bar"),
                3
            ),
            Token::new(TokenType::Break, String::from("break"), 4),
            Token::new(TokenType::Fun, String::from("fun"), 5),
            Token::new(TokenType::Super, String::from("super"), 6),
            Token::new(TokenType::Continue, String::from("continue"), 7),
            Token::new(TokenType::Return, String::from("return"), 7),
            Token::new(TokenType::While, String::from("while"), 7),
            end(7),
        ]
    )
}

#[test]
fn test_combined_identifiers() {
    let source = "andor\nwhiletrue\nfalsebreak\n oror";
    let result = scan(source).unwrap();

    assert_eq!(
        result,
        [
            Token::new(
                TokenType::Identifier(String::from("andor")),
                String::from("andor"),
                1
            ),
            Token::new(
                TokenType::Identifier(String::from("whiletrue")),
                String::from("whiletrue"),
                2
            ),
            Token::new(
                TokenType::Identifier(String::from("falsebreak")),
                String::from("falsebreak"),
                3
            ),
            Token::new(
                TokenType::Identifier(String::from("oror")),
                String::from("oror"),
                4
            ),
            end(4),
        ]
    )
}

#[test]
fn test_multibyte_tokens() {
    let source = "== >= <= !=";
    let result: Vec<Token> = scan(source).unwrap();
    assert_eq!(
        result,
        [
            Token::new(TokenType::EqualEqual, String::from("=="), 1),
            Token::new(TokenType::GreaterEqual, String::from(">="), 1),
            Token::new(TokenType::LessEqual, String::from("<="), 1),
            Token::new(TokenType::BangEqual, String::from("!="), 1),
            end(1),
        ]
    );
}

#[test]
fn test_whitespace_skipping() {
    let source = "     = hola";
    let result: Vec<Token> = scan(source).unwrap();

    assert_eq!(
        result,
        [
            Token::new(TokenType::Equal, String::from("="), 1,),
            Token::new(
                TokenType::Identifier(String::from("hola")),
                String::from("hola"),
                1
            ),
            end(1),
        ]
    )
}

#[test]
fn test_comment_skip() {
    let source = r#" // C
    print hola; // This is another comment
    print a;"#;
    let result: Vec<Token> = scan(source).unwrap();

    assert_eq![
        result,
        [
            Token::new(TokenType::Print, String::from("print"), 2),
            Token::new(
                TokenType::Identifier(String::from("hola")),
                String::from("hola"),
                2
            ),
            semicolon_token(2),
            Token::new(TokenType::Print, String::from("print"), 3),
            Token::new(
                TokenType::Identifier(String::from("a")),
                String::from("a"),
                3
            ),
            semicolon_token(3),
            end(3),
        ]
    ]
}

#[test]
fn division_expression() {
    let source = "a / b;";
    let result: Vec<Token> = scan(source).unwrap();

    assert_eq!(
        result,
        [
            Token::new(
                TokenType::Identifier(String::from("a")),
                String::from("a"),
                1
            ),
            Token::new(TokenType::Slash, String::from("/"), 1),
            Token::new(
                TokenType::Identifier(String::from("b")),
                String::from("b"),
                1
            ),
            semicolon_token(1),
            end(1),
        ]
    )
}

#[test]
fn function_declaration_syntax() {
    let source = r#"fun function_example(param1) {
            print param1;
            return "param1";
        }"#;
    let result = scan(source).unwrap();

    assert_eq!(
        result,
        [
            Token::new(TokenType::Fun, String::from("fun"), 1),
            identifier("function_example", 1),
            Token::new(TokenType::LeftParen, String::from("("), 1),
            identifier("param1", 1),
            Token::new(TokenType::RightParen, String::from(")"), 1),
            Token::new(TokenType::LeftBrace, String::from("{"), 1),
            Token::new(TokenType::Print, String::from("print"), 2),
            identifier("param1", 2),
            semicolon_token(2),
            Token::new(TokenType::Return, String::from("return"), 3),
            Token::new(
                TokenType::String(String::from("param1")),
                String::from("\"param1\""),
                3
            ),
            semicolon_token(3),
            Token::new(TokenType::RightBrace, String::from("}"), 4),
            end(4),
        ]
    )
}

#[test]
fn empty_source_is_the_end_alone() {
    assert_eq!(scan("").unwrap(), [end(1)]);
    assert_eq!(scan("  \n\t// nothing\n").unwrap(), [end(3)]);
}

#[test]
fn carriage_return_counts_as_a_line() {
    assert_eq!(scan("\r\n;").unwrap(), [semicolon_token(3), end(3)]);
}

#[test]
fn number_takes_one_dot_only() {
    assert_eq!(
        scan("1.2.3").unwrap(),
        [
            Token::new(TokenType::Number(number(1.2)), String::from("1.2"), 1),
            Token::new(TokenType::Dot, String::from("."), 1),
            Token::new(TokenType::Number(number(3.0)), String::from("3"), 1),
            end(1),
        ]
    );
    assert_eq!(
        scan("30.").unwrap(),
        [Token::new(TokenType::Number(number(30.0)), String::from("30."), 1), end(1)]
    );
}

#[test]
fn number_is_made_digit_by_digit() {
    // 3 * 10^-1 is not the double nearest to three tenths.
    assert_eq!(
        scan("0.3").unwrap(),
        [Token::new(TokenType::Number(number(3.0 * 10f64.powi(-1))), String::from("0.3"), 1), end(1)]
    );
    assert_eq!(number(3.0 * 10f64.powi(-1)), number(0.30000000000000004));
    let digits = scan("0 1 2 3 4 5 6 7 8 9 10 907").unwrap();
    let expected = [0.0, 1.0, 2.0, 3.0, 4.0, 5.0, 6.0, 7.0, 8.0, 9.0, 10.0, 907.0];
    for (token, value) in digits.iter().zip(expected) {
        assert_eq!(token.token_type(), &TokenType::Number(number(value)));
    }
    assert_eq!(
        scan("12.75").unwrap()[0].token_type(),
        &TokenType::Number(number(((1.0 * 10.0 + 2.0) + 7.0 * 10f64.powi(-1)) + 5.0 * 10f64.powi(-2)))
    );
    assert_eq!(scan("12.75").unwrap()[0].token_type(), &TokenType::Number(number(12.75)));
}

/// A host that counts what it is asked.
struct Counting {
    products: usize,
    sums: usize,
    powers: Vec<i32>,
}

impl Host for Counting {
    fn arithmetic(&mut self, operation: Arithmetic, left: Number, right: Number) -> Number {
        match operation {
            Arithmetic::Multiply => self.products += 1,
            Arithmetic::Add => self.sums += 1,
            _ => panic!("the scanner neither subtracts nor divides"),
        }
        Plain.arithmetic(operation, left, right)
    }

    fn format_number(&mut self, number: Number) -> String {
        Plain.format_number(number)
    }

    fn power(&mut self, base: Number, exponent: i32) -> Number {
        assert_eq!(base, number(10.0));
        self.powers.push(exponent);
        Plain.power(base, exponent)
    }

    fn parse_number(&mut self, text: &str) -> Result<Number, NativeError> {
        Plain.parse_number(text)
    }

    fn to_integer(&mut self, number: Number) -> i64 {
        Plain.to_integer(number)
    }

    fn from_integer(&mut self, integer: i64) -> Number {
        Plain.from_integer(integer)
    }

    fn clock(&mut self) -> Result<Number, NativeError> {
        Plain.clock()
    }

    fn read_line(&mut self) -> Result<String, NativeError> {
        Plain.read_line()
    }

    fn print(&mut self, _text: &str) {}

    fn warn(&mut self, _text: &str) {}
}

#[test]
fn scanner_asks_the_host_once_for_each_step() {
    let mut host = Counting { products: 0, sums: 0, powers: Vec::new() };
    let tokens = Scanner::new("7 123.45 x".as_bytes().to_vec()).scan_tokens(&mut host).unwrap();
    assert_eq!(tokens.len(), 4);
    assert_eq!(tokens[1].token_type(), &TokenType::Number(number(123.45)));
    // 2 and 3 are put behind 1; 4 and 5 stand behind the dot.
    assert_eq!(host.products, 4);
    assert_eq!(host.sums, 4);
    assert_eq!(host.powers, [-1, -2]);
}

#[test]
fn unterminated_string_is_an_error() {
    assert_eq!(
        scan("var a = \"abc\nd"),
        Err(ScannerError { error_type: ErrorType::UnterminatedStringLiteral, line: 2 })
    );
}

#[test]
fn unknown_byte_is_an_error() {
    assert_eq!(
        scan("a\n#"),
        Err(ScannerError { error_type: ErrorType::UnknownByte(b'#'), line: 2 })
    );
}

#[test]
fn invalid_utf8_in_a_string_is_an_error() {
    let mut host = Plain;
    let source = vec![b'"', 0xff, b'"'];
    assert_eq!(
        Scanner::new(source).scan_tokens(&mut host),
        Err(ScannerError { error_type: ErrorType::NotUtf8, line: 1 })
    );
}

#[test]
fn string_keeps_text_beyond_ascii() {
    assert_eq!(
        scan("\"añb\"").unwrap(),
        [
            Token::new(TokenType::String(String::from("añb")), String::from("\"añb\""), 1),
            end(1),
        ]
    );
}

#[test]
fn scanner_error_message() {
    let error = ScannerError { error_type: ErrorType::UnknownByte(35), line: 12 };
    assert_eq!(error.message(), "[line 12]: Byte 35 is unknown");
    let error = ScannerError { error_type: ErrorType::UnterminatedStringLiteral, line: 3 };
    assert_eq!(error.message(), "[line 3]: Unterminated string literal");
    let error = ScannerError { error_type: ErrorType::NotUtf8, line: 1 };
    assert_eq!(error.message(), "[line 1]: String is not a valid UTF-8 sequence");
}
