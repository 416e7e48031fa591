//! The scanner: from the bytes of a source text to its tokens.

use crate::host::{is_prefix, Answer, Exchange, Host, Question};
use crate::number::{Arithmetic, Number};
use crate::token::{Token, TokenType};
use crate::utf8::decode;
use vstd::prelude::*;
use vstd::string::StringExecFns;
use vstd::utf8::{decode_utf8, valid_utf8};

verus! {

pub const TAB: u8 = 9;

pub const NEWLINE: u8 = 10;

pub const RETURN: u8 = 13;

pub const SPACE: u8 = 32;

pub const BANG: u8 = 33;

pub const QUOTE: u8 = 34;

pub const DOT: u8 = 46;

pub const SLASH: u8 = 47;

pub const EQUAL: u8 = 61;

/// What was wrong with the source.
#[derive(Debug, PartialEq, Eq, Clone, Copy, Structural)]
pub enum ErrorType {
    /// A lexeme is not valid UTF-8.
    NotUtf8,
    /// No token begins with this byte.
    UnknownByte(u8),
    /// The source ends inside a string literal.
    UnterminatedStringLiteral,
}

/// An error of the scanner and the line on which it occurred.
#[derive(Debug, PartialEq, Eq, Clone, Copy, Structural)]
pub struct ScannerError {
    pub error_type: ErrorType,
    pub line: usize,
}

pub type ScannerResult<T> = Result<T, ScannerError>;

impl ScannerError {
    /// What the error says.
    pub open spec fn message_spec(&self) -> Seq<char> {
        "[line "@ + crate::text::decimal_spec(self.line as nat) + "]: "@ + (match self.error_type {
            ErrorType::NotUtf8 => "String is not a valid UTF-8 sequence"@,
            ErrorType::UnknownByte(byte) => "Byte "@ + crate::text::decimal_spec(byte as nat)
                + " is unknown"@,
            ErrorType::UnterminatedStringLiteral => "Unterminated string literal"@,
        })
    }

    pub fn message(&self) -> (r: String)
        ensures
            r@ == self.message_spec(),
    {
        let head = String::from_str("[line ").concat(
            crate::text::decimal(self.line).as_str(),
        ).concat("]: ");
        let tail = match self.error_type {
            ErrorType::NotUtf8 => String::from_str("String is not a valid UTF-8 sequence"),
            ErrorType::UnknownByte(byte) => {
                let value: usize = byte as usize;
                String::from_str("Byte ").concat(crate::text::decimal(value).as_str()).concat(
                    " is unknown",
                )
            },
            ErrorType::UnterminatedStringLiteral => String::from_str("Unterminated string literal"),
        };
        head.concat(tail.as_str())
    }
}

pub open spec fn is_digit(byte: u8) -> bool {
    48 <= byte <= 57
}

/// A letter or an underscore: what an identifier begins with.
pub open spec fn is_alpha(byte: u8) -> bool {
    (65 <= byte <= 90) || (97 <= byte <= 122) || byte == 95
}

/// The token type of a reserved word; `None` for any other identifier.
pub open spec fn keyword_spec(word: Seq<char>) -> Option<TokenType> {
    if word == "and"@ {
        Some(TokenType::And)
    } else if word == "class"@ {
        Some(TokenType::Class)
    } else if word == "else"@ {
        Some(TokenType::Else)
    } else if word == "false"@ {
        Some(TokenType::False)
    } else if word == "for"@ {
        Some(TokenType::For)
    } else if word == "fun"@ {
        Some(TokenType::Fun)
    } else if word == "if"@ {
        Some(TokenType::If)
    } else if word == "nil"@ {
        Some(TokenType::Nil)
    } else if word == "or"@ {
        Some(TokenType::Or)
    } else if word == "print"@ {
        Some(TokenType::Print)
    } else if word == "return"@ {
        Some(TokenType::Return)
    } else if word == "break"@ {
        Some(TokenType::Break)
    } else if word == "continue"@ {
        Some(TokenType::Continue)
    } else if word == "super"@ {
        Some(TokenType::Super)
    } else if word == "this"@ {
        Some(TokenType::This)
    } else if word == "true"@ {
        Some(TokenType::True)
    } else if word == "var"@ {
        Some(TokenType::Var)
    } else if word == "while"@ {
        Some(TokenType::While)
    } else {
        None
    }
}

/// The token type of a token of one byte; `None` where the byte is no such token.
pub open spec fn single_spec(byte: u8) -> Option<TokenType> {
    if byte == 40 {
        Some(TokenType::LeftParen)
    } else if byte == 41 {
        Some(TokenType::RightParen)
    } else if byte == 123 {
        Some(TokenType::LeftBrace)
    } else if byte == 125 {
        Some(TokenType::RightBrace)
    } else if byte == 44 {
        Some(TokenType::Comma)
    } else if byte == DOT {
        Some(TokenType::Dot)
    } else if byte == 45 {
        Some(TokenType::Minus)
    } else if byte == 43 {
        Some(TokenType::Plus)
    } else if byte == 59 {
        Some(TokenType::Semicolon)
    } else if byte == 42 {
        Some(TokenType::Star)
    } else if byte == SLASH {
        Some(TokenType::Slash)
    } else {
        None
    }
}

/// The token types of an operator that `=` may follow: without it, and with it.
pub open spec fn double_spec(byte: u8) -> Option<(TokenType, TokenType)> {
    if byte == BANG {
        Some((TokenType::Bang, TokenType::BangEqual))
    } else if byte == EQUAL {
        Some((TokenType::Equal, TokenType::EqualEqual))
    } else if byte == 60 {
        Some((TokenType::Less, TokenType::LessEqual))
    } else if byte == 62 {
        Some((TokenType::Greater, TokenType::GreaterEqual))
    } else {
        None
    }
}

/// Where the next token begins, and on which line: behind blanks, line
/// ends (each of `\n` and `\r` counts as one) and comments, which run from
/// `//` to the end of the line.
pub open spec fn skip_spec(bytes: Seq<u8>, at: int, line: nat, in_comment: bool) -> (int, nat)
    decreases bytes.len() - at, (if in_comment { 1int } else { 0int }),
{
    if at < 0 || at >= bytes.len() {
        (at, line)
    } else if in_comment {
        if bytes[at] == NEWLINE {
            skip_spec(bytes, at, line, false)
        } else {
            skip_spec(bytes, at + 1, line, true)
        }
    } else if bytes[at] == NEWLINE || bytes[at] == RETURN {
        skip_spec(bytes, at + 1, line + 1, false)
    } else if bytes[at] == SPACE || bytes[at] == TAB {
        skip_spec(bytes, at + 1, line, false)
    } else if bytes[at] == SLASH && at + 1 < bytes.len() && bytes[at + 1] == SLASH {
        skip_spec(bytes, at + 2, line, true)
    } else {
        (at, line)
    }
}

/// Where a string literal ends whose opening quote stands before `at`: the
/// position behind the closing quote, the line there, and whether there is
/// a closing quote at all.
pub open spec fn string_spec(bytes: Seq<u8>, at: int, line: nat) -> (int, nat, bool)
    decreases bytes.len() - at,
{
    if at < 0 || at >= bytes.len() {
        (at, line, false)
    } else if bytes[at] == QUOTE {
        (at + 1, line, true)
    } else if bytes[at] == NEWLINE {
        string_spec(bytes, at + 1, line + 1)
    } else {
        string_spec(bytes, at + 1, line)
    }
}

/// Where a number ends: digits, then at most one dot, then digits.
pub open spec fn number_spec(bytes: Seq<u8>, at: int, fraction: bool) -> int
    decreases bytes.len() - at,
{
    if at < 0 || at >= bytes.len() {
        at
    } else if bytes[at] == DOT {
        if fraction {
            at
        } else {
            number_spec(bytes, at + 1, true)
        }
    } else if is_digit(bytes[at]) {
        number_spec(bytes, at + 1, fraction)
    } else {
        at
    }
}

/// Where an identifier ends: behind its last letter, digit or underscore.
pub open spec fn identifier_spec(bytes: Seq<u8>, at: int) -> int
    decreases bytes.len() - at,
{
    if at < 0 || at >= bytes.len() {
        at
    } else if is_alpha(bytes[at]) || is_digit(bytes[at]) {
        identifier_spec(bytes, at + 1)
    } else {
        at
    }
}

/// The kind of a token.
pub enum Kind {
    /// A token without a value of its own, with its type.
    Plain(TokenType),
    /// An identifier; its name is its lexeme.
    Identifier,
    /// A string literal; its value is its lexeme without the quotes.
    Text,
    /// A number literal; its value is made of its digits by the host's arithmetic.
    Number,
}

/// A token, as the contracts see it: its kind, the bytes it spans, its line.
pub struct Lexeme {
    pub kind: Kind,
    pub start: int,
    pub end: int,
    pub line: nat,
}

impl Lexeme {
    /// The bytes of the lexeme.
    pub open spec fn bytes(self, source: Seq<u8>) -> Seq<u8> {
        source.subrange(self.start, self.end)
    }

    /// The bytes of the lexeme without the first and the last.
    pub open spec fn inner(self, source: Seq<u8>) -> Seq<u8> {
        source.subrange(self.start + 1, self.end - 1)
    }

    /// Whether the lexeme can be a token: its text is valid UTF-8.
    pub open spec fn readable(self, source: Seq<u8>) -> bool {
        valid_utf8(self.bytes(source)) && (self.kind is Text ==> valid_utf8(self.inner(source)))
    }

    /// Whether `token` is the token of this lexeme.
    pub open spec fn is_token(self, source: Seq<u8>, token: Token) -> bool {
        &&& token.line == self.line
        &&& token.lexeme@ == decode_utf8(self.bytes(source))
        &&& match self.kind {
            Kind::Plain(token_type) => token.token_type == token_type,
            Kind::Identifier => token.token_type matches TokenType::Identifier(name) && name@
                == token.lexeme@,
            Kind::Text => token.token_type matches TokenType::String(text) && text@ == decode_utf8(
                self.inner(source),
            ),
            Kind::Number => token.token_type is Number,
        }
    }
}

/// What stands at a position where a token must begin.
pub enum Scanned {
    /// A lexeme, and the position and line behind it.
    Token(Lexeme, int, nat),
    /// An error, and its line.
    Error(ErrorType, nat),
}

/// The lexeme that begins at `at`, a position inside the source where no blank stands.
pub open spec fn scan_token_spec(bytes: Seq<u8>, at: int, line: nat) -> Scanned {
    let byte = bytes[at];
    let found = if let Some((alone, followed)) = double_spec(byte) {
        if at + 1 < bytes.len() && bytes[at + 1] == EQUAL {
            Scanned::Token(
                Lexeme { kind: Kind::Plain(followed), start: at, end: at + 2, line },
                at + 2,
                line,
            )
        } else {
            Scanned::Token(
                Lexeme { kind: Kind::Plain(alone), start: at, end: at + 1, line },
                at + 1,
                line,
            )
        }
    } else if single_spec(byte) is Some {
        Scanned::Token(
            Lexeme { kind: Kind::Plain(single_spec(byte)->0), start: at, end: at + 1, line },
            at + 1,
            line,
        )
    } else if byte == QUOTE {
        let (end, last, closed) = string_spec(bytes, at + 1, line);
        if closed {
            Scanned::Token(Lexeme { kind: Kind::Text, start: at, end, line: last }, end, last)
        } else {
            Scanned::Error(ErrorType::UnterminatedStringLiteral, last)
        }
    } else if is_digit(byte) {
        let end = number_spec(bytes, at + 1, false);
        Scanned::Token(Lexeme { kind: Kind::Number, start: at, end, line }, end, line)
    } else if is_alpha(byte) {
        let end = identifier_spec(bytes, at + 1);
        let word = decode_utf8(bytes.subrange(at, end));
        Scanned::Token(
            Lexeme {
                kind: match keyword_spec(word) {
                    Some(token_type) => Kind::Plain(token_type),
                    None => Kind::Identifier,
                },
                start: at,
                end,
                line,
            },
            end,
            line,
        )
    } else {
        Scanned::Error(ErrorType::UnknownByte(byte), line)
    };
    match found {
        Scanned::Token(lexeme, _, _) => if lexeme.readable(bytes) {
            found
        } else {
            Scanned::Error(ErrorType::NotUtf8, lexeme.line)
        },
        Scanned::Error(_, _) => found,
    }
}

/// The lexemes of the source from `at` on, put behind `done`, and the line
/// on which the source ends; or the first error.
pub open spec fn scan_spec(bytes: Seq<u8>, at: int, line: nat, done: Seq<Lexeme>) -> Result<
    (Seq<Lexeme>, nat),
    ScannerError,
>
    decreases bytes.len() - at,
{
    let (start, first) = skip_spec(bytes, at, line, false);
    if start < 0 || start >= bytes.len() {
        Ok((done, first))
    } else {
        match scan_token_spec(bytes, start, first) {
            Scanned::Error(error_type, line) => Err(
                ScannerError { error_type, line: line as usize },
            ),
            Scanned::Token(lexeme, next, last) => if at < next <= bytes.len() {
                scan_spec(bytes, next, last, done.push(lexeme))
            } else {
                Ok((done.push(lexeme), last))
            },
        }
    }
}

/// The power of ten of the next digit behind the dot: one lower, as far as there are any.
pub open spec fn lower(power: i32) -> i32 {
    if power > i32::MIN {
        (power - 1) as i32
    } else {
        power
    }
}

/// The value of a number literal, made digit by digit from `at` on, where
/// `value` is what the digits before `at` gave. A digit before the dot makes
/// `value * 10 + digit`; a digit behind it makes `value + digit * 10^power`,
/// with a power one lower from digit to digit. Every product, sum and power
/// is asked of the host.
pub open spec fn literal_spec(
    answers: Seq<Answer>,
    x: Exchange,
    bytes: Seq<u8>,
    at: int,
    end: int,
    fraction: bool,
    power: i32,
    value: Number,
) -> (Exchange, Number)
    decreases end - at,
{
    if at < 0 || at >= end || at >= bytes.len() {
        (x, value)
    } else if bytes[at] == DOT {
        literal_spec(answers, x, bytes, at + 1, end, true, power, value)
    } else if !is_digit(bytes[at]) {
        (x, value)
    } else {
        let digit = Number::digit_spec((bytes[at] - 48) as u8);
        if !fraction {
            let scaled = x.next(answers).number();
            let one = x.ask(Question::Arithmetic(Arithmetic::Multiply, value, Number::ten_spec()));
            let sum = one.next(answers).number();
            let two = one.ask(Question::Arithmetic(Arithmetic::Add, scaled, digit));
            literal_spec(answers, two, bytes, at + 1, end, false, power, sum)
        } else {
            let unit = x.next(answers).number();
            let one = x.ask(Question::Power(Number::ten_spec(), lower(power)));
            let part = one.next(answers).number();
            let two = one.ask(Question::Arithmetic(Arithmetic::Multiply, digit, unit));
            let sum = two.next(answers).number();
            let three = two.ask(Question::Arithmetic(Arithmetic::Add, value, part));
            literal_spec(answers, three, bytes, at + 1, end, true, lower(power), sum)
        }
    }
}

/// The value of a lexeme: that of its digits for a number literal, and zero
/// for every other lexeme, of which nothing is asked.
pub open spec fn lexeme_value(answers: Seq<Answer>, x: Exchange, bytes: Seq<u8>, lexeme: Lexeme) -> (
    Exchange,
    Number,
) {
    if lexeme.kind is Number {
        literal_spec(
            answers,
            x,
            bytes,
            lexeme.start + 1,
            lexeme.end,
            false,
            0,
            Number::digit_spec((bytes[lexeme.start] - 48) as u8),
        )
    } else {
        (x, Number { bits: 0 })
    }
}

/// The values of the first `count` lexemes, in order.
pub open spec fn values_spec(
    answers: Seq<Answer>,
    x: Exchange,
    bytes: Seq<u8>,
    lexemes: Seq<Lexeme>,
    count: nat,
) -> (Exchange, Seq<Number>)
    decreases count,
{
    if count == 0 || count > lexemes.len() {
        (x, Seq::empty())
    } else {
        let (before, values) = values_spec(answers, x, bytes, lexemes, (count - 1) as nat);
        let (after, value) = lexeme_value(answers, before, bytes, lexemes[count - 1]);
        (after, values.push(value))
    }
}

/// The number of a number token; zero for every other token.
pub open spec fn token_value(token: Token) -> Number {
    match token.token_type {
        TokenType::Number(number) => number,
        _ => Number { bits: 0 },
    }
}

/// The values of a prefix of some lexemes are those of the same prefix of a
/// longer sequence.
pub proof fn lemma_values_prefix(
    answers: Seq<Answer>,
    x: Exchange,
    bytes: Seq<u8>,
    longer: Seq<Lexeme>,
    shorter: Seq<Lexeme>,
    count: nat,
)
    requires
        count <= shorter.len() <= longer.len(),
        forall|i: int| 0 <= i < shorter.len() ==> shorter[i] == longer[i],
    ensures
        values_spec(answers, x, bytes, longer, count) == values_spec(
            answers,
            x,
            bytes,
            shorter,
            count,
        ),
    decreases count,
{
    if count > 0 {
        lemma_values_prefix(answers, x, bytes, longer, shorter, (count - 1) as nat);
    }
}

/// Skipping moves forward, stays inside the source, and counts at most one line for each byte.
pub proof fn lemma_skip(bytes: Seq<u8>, at: int, line: nat, in_comment: bool)
    requires
        0 <= at <= bytes.len(),
    ensures
        at <= skip_spec(bytes, at, line, in_comment).0 <= bytes.len(),
        line <= skip_spec(bytes, at, line, in_comment).1 <= line + (skip_spec(
            bytes,
            at,
            line,
            in_comment,
        ).0 - at),
    decreases bytes.len() - at, (if in_comment { 1int } else { 0int }),
{
    if at < bytes.len() {
        if in_comment {
            if bytes[at] == NEWLINE {
                lemma_skip(bytes, at, line, false);
            } else {
                lemma_skip(bytes, at + 1, line, true);
            }
        } else if bytes[at] == NEWLINE || bytes[at] == RETURN {
            lemma_skip(bytes, at + 1, line + 1, false);
        } else if bytes[at] == SPACE || bytes[at] == TAB {
            lemma_skip(bytes, at + 1, line, false);
        } else if bytes[at] == SLASH && at + 1 < bytes.len() && bytes[at + 1] == SLASH {
            lemma_skip(bytes, at + 2, line, true);
        }
    }
}

pub struct Scanner {
    pub source: Vec<u8>,
    /// The position of the next byte.
    pub current: usize,
    /// The line of the next byte, counted from 1.
    pub line: usize,
    /// Every question asked of the host so far.
    pub asked: Ghost<Seq<Question>>,
    /// Every answer of the host so far.
    pub answers: Ghost<Seq<Answer>>,
}

/// A copy of a part of the source.
fn copy_range(source: &Vec<u8>, start: usize, end: usize) -> (r: Vec<u8>)
    requires
        start <= end <= source.len(),
    ensures
        r@ == source@.subrange(start as int, end as int),
{
    let mut bytes: Vec<u8> = Vec::new();
    let mut i: usize = start;
    while i < end
        invariant
            start <= i <= end,
            end <= source.len(),
            bytes@ == source@.subrange(start as int, i as int),
        decreases end - i,
    {
        bytes.push(source[i]);
        assert(bytes@ =~= source@.subrange(start as int, i + 1));
        i += 1;
    }
    bytes
}

fn digit(byte: u8) -> (r: bool)
    ensures
        r == is_digit(byte),
{
    48 <= byte && byte <= 57
}

fn alpha(byte: u8) -> (r: bool)
    ensures
        r == is_alpha(byte),
{
    (65 <= byte && byte <= 90) || (97 <= byte && byte <= 122) || byte == 95
}

/// The token type of a reserved word.
pub fn keyword(word: &str) -> (r: Option<TokenType>)
    ensures
        r == keyword_spec(word@),
{
    let word = String::from_str(word);
    if word == String::from_str("and") {
        Some(TokenType::And)
    } else if word == String::from_str("class") {
        Some(TokenType::Class)
    } else if word == String::from_str("else") {
        Some(TokenType::Else)
    } else if word == String::from_str("false") {
        Some(TokenType::False)
    } else if word == String::from_str("for") {
        Some(TokenType::For)
    } else if word == String::from_str("fun") {
        Some(TokenType::Fun)
    } else if word == String::from_str("if") {
        Some(TokenType::If)
    } else if word == String::from_str("nil") {
        Some(TokenType::Nil)
    } else if word == String::from_str("or") {
        Some(TokenType::Or)
    } else if word == String::from_str("print") {
        Some(TokenType::Print)
    } else if word == String::from_str("return") {
        Some(TokenType::Return)
    } else if word == String::from_str("break") {
        Some(TokenType::Break)
    } else if word == String::from_str("continue") {
        Some(TokenType::Continue)
    } else if word == String::from_str("super") {
        Some(TokenType::Super)
    } else if word == String::from_str("this") {
        Some(TokenType::This)
    } else if word == String::from_str("true") {
        Some(TokenType::True)
    } else if word == String::from_str("var") {
        Some(TokenType::Var)
    } else if word == String::from_str("while") {
        Some(TokenType::While)
    } else {
        None
    }
}

fn single(byte: u8) -> (r: Option<TokenType>)
    ensures
        r == single_spec(byte),
{
    if byte == 40 {
        Some(TokenType::LeftParen)
    } else if byte == 41 {
        Some(TokenType::RightParen)
    } else if byte == 123 {
        Some(TokenType::LeftBrace)
    } else if byte == 125 {
        Some(TokenType::RightBrace)
    } else if byte == 44 {
        Some(TokenType::Comma)
    } else if byte == DOT {
        Some(TokenType::Dot)
    } else if byte == 45 {
        Some(TokenType::Minus)
    } else if byte == 43 {
        Some(TokenType::Plus)
    } else if byte == 59 {
        Some(TokenType::Semicolon)
    } else if byte == 42 {
        Some(TokenType::Star)
    } else if byte == SLASH {
        Some(TokenType::Slash)
    } else {
        None
    }
}

fn double(byte: u8) -> (r: Option<(TokenType, TokenType)>)
    ensures
        r == double_spec(byte),
{
    if byte == BANG {
        Some((TokenType::Bang, TokenType::BangEqual))
    } else if byte == EQUAL {
        Some((TokenType::Equal, TokenType::EqualEqual))
    } else if byte == 60 {
        Some((TokenType::Less, TokenType::LessEqual))
    } else if byte == 62 {
        Some((TokenType::Greater, TokenType::GreaterEqual))
    } else {
        None
    }
}

impl Scanner {
    /// The position is inside the source or at its end, and the line is what
    /// it can be there.
    pub open spec fn wf(&self) -> bool {
        &&& self.current <= self.source.len()
        &&& 1 <= self.line <= self.current + 1
        &&& self.source.len() < usize::MAX
    }

    /// A scanner at the beginning of the source, on line 1.
    pub fn new(source: Vec<u8>) -> (r: Self)
        requires
            source.len() < usize::MAX,
        ensures
            r.wf(),
            r.source == source,
            r.current == 0,
            r.line == 1,
            r.asked@ == Seq::<Question>::empty(),
            r.answers@ == Seq::<Answer>::empty(),
    {
        Scanner { source, current: 0, line: 1, asked: Ghost(Seq::empty()), answers: Ghost(Seq::empty()) }
    }

    /// What the scanner has asked of the host.
    pub open spec fn exchange(&self) -> Exchange {
        Exchange { asked: self.asked@, cursor: self.answers@.len() }
    }

    /// Notes a question that was asked and the answer that was given.
    fn note(&mut self, question: Ghost<Question>, answer: Ghost<Answer>)
        requires
            question@.fits(answer@),
        ensures
            final(self).source == old(self).source,
            final(self).current == old(self).current,
            final(self).line == old(self).line,
            final(self).exchange() == old(self).exchange().ask(question@),
            final(self).answers@ == old(self).answers@.push(answer@),
    {
        proof {
            self.asked@ = self.asked@.push(question@);
            self.answers@ = self.answers@.push(answer@);
        }
    }

    /// Makes the value of the number literal that spans the bytes from
    /// `start` up to `end`, digit by digit, with the host's arithmetic.
    fn literal<H: Host>(&mut self, host: &mut H, start: usize, end: usize) -> (r: Number)
        requires
            start < end <= old(self).source.len(),
            is_digit(old(self).source[start as int]),
        ensures
            final(self).source == old(self).source,
            final(self).current == old(self).current,
            final(self).line == old(self).line,
            is_prefix(old(self).answers@, final(self).answers@),
            forall|answers: Seq<Answer>|
                is_prefix(final(self).answers@, answers) ==> #[trigger] literal_spec(
                    answers,
                    old(self).exchange(),
                    old(self).source@,
                    start + 1,
                    end as int,
                    false,
                    0,
                    Number::digit_spec((old(self).source[start as int] - 48) as u8),
                ) == (final(self).exchange(), r),
    {
        let first = Number::digit(self.source[start] - 48);
        let mut value = first;
        let mut fraction = false;
        let mut power: i32 = 0;
        let mut at: usize = start + 1;
        while at < end
            invariant
                start < at <= end <= self.source.len(),
                self.source == old(self).source,
                self.current == old(self).current,
                self.line == old(self).line,
                first == Number::digit_spec((old(self).source[start as int] - 48) as u8),
                is_prefix(old(self).answers@, self.answers@),
                forall|answers: Seq<Answer>|
                    is_prefix(self.answers@, answers) ==> #[trigger] literal_spec(
                        answers,
                        old(self).exchange(),
                        old(self).source@,
                        start + 1,
                        end as int,
                        false,
                        0,
                        first,
                    ) == literal_spec(
                        answers,
                        self.exchange(),
                        self.source@,
                        at as int,
                        end as int,
                        fraction,
                        power,
                        value,
                    ),
            decreases end - at,
        {
            let ghost before = *self;
            let ghost was = value;
            let ghost behind = fraction;
            let ghost exponent = power;
            let byte = self.source[at];
            if byte == DOT {
                fraction = true;
            } else if !digit(byte) {
                assert forall|answers: Seq<Answer>|
                    is_prefix(self.answers@, answers) implies #[trigger] literal_spec(
                    answers,
                    old(self).exchange(),
                    old(self).source@,
                    start + 1,
                    end as int,
                    false,
                    0,
                    first,
                ) == (self.exchange(), value) by {
                    let rest = literal_spec(
                        answers,
                        before.exchange(),
                        self.source@,
                        at as int,
                        end as int,
                        behind,
                        exponent,
                        was,
                    );
                }
                return value;
            } else if !fraction {
                let scaled = host.arithmetic(Arithmetic::Multiply, value, Number::ten());
                self.note(
                    Ghost(Question::Arithmetic(Arithmetic::Multiply, value, Number::ten_spec())),
                    Ghost(Answer::Number(scaled)),
                );
                value = host.arithmetic(Arithmetic::Add, scaled, Number::digit(byte - 48));
                self.note(
                    Ghost(
                        Question::Arithmetic(
                            Arithmetic::Add,
                            scaled,
                            Number::digit_spec((byte - 48) as u8),
                        ),
                    ),
                    Ghost(Answer::Number(value)),
                );
            } else {
                if power > i32::MIN {
                    power -= 1;
                }
                let unit = host.power(Number::ten(), power);
                self.note(Ghost(Question::Power(Number::ten_spec(), power)), Ghost(Answer::Number(unit)));
                let part = host.arithmetic(Arithmetic::Multiply, Number::digit(byte - 48), unit);
                self.note(
                    Ghost(
                        Question::Arithmetic(
                            Arithmetic::Multiply,
                            Number::digit_spec((byte - 48) as u8),
                            unit,
                        ),
                    ),
                    Ghost(Answer::Number(part)),
                );
                value = host.arithmetic(Arithmetic::Add, value, part);
                self.note(
                    Ghost(Question::Arithmetic(Arithmetic::Add, was, part)),
                    Ghost(Answer::Number(value)),
                );
            }
            assert forall|answers: Seq<Answer>|
                is_prefix(self.answers@, answers) implies #[trigger] literal_spec(
                answers,
                old(self).exchange(),
                old(self).source@,
                start + 1,
                end as int,
                false,
                0,
                first,
            ) == literal_spec(
                answers,
                self.exchange(),
                self.source@,
                at + 1,
                end as int,
                fraction,
                power,
                value,
            ) by {
                let rest = literal_spec(
                    answers,
                    before.exchange(),
                    self.source@,
                    at as int,
                    end as int,
                    behind,
                    exponent,
                    was,
                );
                let c = before.answers@.len() as int;
                if c < self.answers@.len() {
                    assert(answers[c] == self.answers@[c]);
                }
                if c + 1 < self.answers@.len() {
                    assert(answers[c + 1] == self.answers@[c + 1]);
                }
                if c + 2 < self.answers@.len() {
                    assert(answers[c + 2] == self.answers@[c + 2]);
                }
            }
            at += 1;
        }
        value
    }

    /// Moves behind blanks, line ends and comments.
    fn consume_whitespace(&mut self)
        requires
            old(self).wf(),
        ensures
            final(self).wf(),
            final(self).source == old(self).source,
            final(self).asked == old(self).asked,
            final(self).answers == old(self).answers,
            (final(self).current as int, final(self).line as nat) == skip_spec(
                old(self).source@,
                old(self).current as int,
                old(self).line as nat,
                false,
            ),
    {
        let mut in_comment = false;
        loop
            invariant
                self.wf(),
                self.source == old(self).source,
                self.asked == old(self).asked,
                self.answers == old(self).answers,
                skip_spec(old(self).source@, old(self).current as int, old(self).line as nat, false)
                    == skip_spec(self.source@, self.current as int, self.line as nat, in_comment),
            decreases self.source.len() - self.current, (if in_comment { 1int } else { 0int }),
        {
            if self.current >= self.source.len() {
                return ;
            }
            let byte = self.source[self.current];
            if in_comment {
                if byte == NEWLINE {
                    in_comment = false;
                } else {
                    self.current += 1;
                }
            } else if byte == NEWLINE || byte == RETURN {
                self.current += 1;
                self.line += 1;
            } else if byte == SPACE || byte == TAB {
                self.current += 1;
            } else if byte == SLASH && self.current + 1 < self.source.len()
                && self.source[self.current + 1] == SLASH {
                self.current += 2;
                in_comment = true;
            } else {
                return ;
            }
        }
    }

    /// Moves behind a string literal whose opening quote was read, and says
    /// whether the literal is closed.
    fn consume_string(&mut self) -> (closed: bool)
        requires
            old(self).wf(),
        ensures
            final(self).wf(),
            final(self).source == old(self).source,
            final(self).asked == old(self).asked,
            final(self).answers == old(self).answers,
            final(self).current >= old(self).current,
            closed ==> final(self).current > old(self).current,
            (final(self).current as int, final(self).line as nat, closed) == string_spec(
                old(self).source@,
                old(self).current as int,
                old(self).line as nat,
            ),
    {
        loop
            invariant
                self.wf(),
                self.source == old(self).source,
                self.asked == old(self).asked,
                self.answers == old(self).answers,
                self.current >= old(self).current,
                string_spec(old(self).source@, old(self).current as int, old(self).line as nat)
                    == string_spec(self.source@, self.current as int, self.line as nat),
            decreases self.source.len() - self.current,
        {
            if self.current >= self.source.len() {
                return false;
            }
            let byte = self.source[self.current];
            self.current += 1;
            if byte == QUOTE {
                return true;
            }
            if byte == NEWLINE {
                self.line += 1;
            }
        }
    }

    /// Moves behind a number whose first digit was read.
    fn consume_number(&mut self)
        requires
            old(self).wf(),
        ensures
            final(self).wf(),
            final(self).source == old(self).source,
            final(self).asked == old(self).asked,
            final(self).answers == old(self).answers,
            final(self).line == old(self).line,
            final(self).current >= old(self).current,
            final(self).current == number_spec(old(self).source@, old(self).current as int, false),
    {
        let mut fraction = false;
        loop
            invariant
                self.wf(),
                self.source == old(self).source,
                self.asked == old(self).asked,
                self.answers == old(self).answers,
                self.line == old(self).line,
                self.current >= old(self).current,
                number_spec(old(self).source@, old(self).current as int, false) == number_spec(
                    self.source@,
                    self.current as int,
                    fraction,
                ),
            decreases self.source.len() - self.current,
        {
            if self.current >= self.source.len() {
                return ;
            }
            let byte = self.source[self.current];
            if byte == DOT {
                if fraction {
                    return ;
                }
                fraction = true;
            } else if !digit(byte) {
                return ;
            }
            self.current += 1;
        }
    }

    /// Moves behind an identifier whose first byte was read.
    fn consume_identifier(&mut self)
        requires
            old(self).wf(),
        ensures
            final(self).wf(),
            final(self).source == old(self).source,
            final(self).asked == old(self).asked,
            final(self).answers == old(self).answers,
            final(self).line == old(self).line,
            final(self).current >= old(self).current,
            final(self).current == identifier_spec(old(self).source@, old(self).current as int),
    {
        loop
            invariant
                self.wf(),
                self.source == old(self).source,
                self.asked == old(self).asked,
                self.answers == old(self).answers,
                self.line == old(self).line,
                self.current >= old(self).current,
                identifier_spec(old(self).source@, old(self).current as int) == identifier_spec(
                    self.source@,
                    self.current as int,
                ),
            decreases self.source.len() - self.current,
        {
            if self.current >= self.source.len() {
                return ;
            }
            let byte = self.source[self.current];
            if !alpha(byte) && !digit(byte) {
                return ;
            }
            self.current += 1;
        }
    }

    /// Reads the token that begins at the position, where no blank stands.
    fn scan_token<H: Host>(&mut self, host: &mut H) -> (r: Result<Token, ScannerError>)
        requires
            old(self).wf(),
            old(self).current < old(self).source.len(),
        ensures
            final(self).wf(),
            final(self).source == old(self).source,
            final(self).current >= old(self).current,
            is_prefix(old(self).answers@, final(self).answers@),
            match scan_token_spec(
                old(self).source@,
                old(self).current as int,
                old(self).line as nat,
            ) {
                Scanned::Token(lexeme, next, last) => r matches Ok(token) && lexeme.is_token(
                    old(self).source@,
                    token,
                ) && final(self).current == next && final(self).line == last && next > old(
                    self,
                ).current && (forall|answers: Seq<Answer>|
                    is_prefix(final(self).answers@, answers) ==> #[trigger] lexeme_value(
                        answers,
                        old(self).exchange(),
                        old(self).source@,
                        lexeme,
                    ) == (final(self).exchange(), token_value(token))),
                Scanned::Error(error_type, line) => r == Err::<Token, ScannerError>(
                    ScannerError { error_type, line: line as usize },
                ),
            },
    {
        let start = self.current;
        let byte = self.source[start];
        self.current += 1;
        // What begins here, read to its end.
        let kind = match double(byte) {
            Some((alone, followed)) => {
                if self.current < self.source.len() && self.source[self.current] == EQUAL {
                    self.current += 1;
                    Kind::Plain(followed)
                } else {
                    Kind::Plain(alone)
                }
            },
            None => match single(byte) {
                Some(token_type) => Kind::Plain(token_type),
                None => {
                    if byte == QUOTE {
                        if !self.consume_string() {
                            return Err(
                                ScannerError {
                                    error_type: ErrorType::UnterminatedStringLiteral,
                                    line: self.line,
                                },
                            );
                        }
                        Kind::Text
                    } else if digit(byte) {
                        self.consume_number();
                        Kind::Number
                    } else if alpha(byte) {
                        self.consume_identifier();
                        Kind::Identifier
                    } else {
                        return Err(
                            ScannerError { error_type: ErrorType::UnknownByte(byte), line: self.line },
                        );
                    }
                },
            },
        };
        let end = self.current;
        let line = self.line;
        let lexeme = match decode(copy_range(&self.source, start, end)) {
            Some(lexeme) => lexeme,
            None => {
                return Err(ScannerError { error_type: ErrorType::NotUtf8, line });
            },
        };
        let token_type = match kind {
            Kind::Plain(token_type) => token_type,
            Kind::Identifier => match keyword(lexeme.as_str()) {
                Some(token_type) => token_type,
                None => TokenType::Identifier(lexeme.clone()),
            },
            Kind::Text => match decode(copy_range(&self.source, start + 1, end - 1)) {
                Some(text) => TokenType::String(text),
                None => {
                    return Err(ScannerError { error_type: ErrorType::NotUtf8, line });
                },
            },
            Kind::Number => {
                let ghost before = *self;
                let value = self.literal(host, start, end);
                proof {
                    assert forall|answers: Seq<Answer>|
                        is_prefix(self.answers@, answers) implies #[trigger] literal_spec(
                        answers,
                        old(self).exchange(),
                        old(self).source@,
                        start + 1,
                        end as int,
                        false,
                        0,
                        Number::digit_spec((old(self).source@[start as int] - 48) as u8),
                    ) == (self.exchange(), value) by {
                        let run = literal_spec(
                            answers,
                            before.exchange(),
                            before.source@,
                            start + 1,
                            end as int,
                            false,
                            0,
                            Number::digit_spec((before.source[start as int] - 48) as u8),
                        );
                    }
                }
                TokenType::Number(value)
            },
        };
        let token = Token::new(token_type, lexeme, line);
        proof {
            let found = scan_token_spec(old(self).source@, start as int, old(self).line as nat)->Token_0;
            assert forall|answers: Seq<Answer>|
                is_prefix(self.answers@, answers) implies #[trigger] lexeme_value(
                answers,
                old(self).exchange(),
                old(self).source@,
                found,
            ) == (self.exchange(), token_value(token)) by {
                if found.kind is Number {
                    let run = literal_spec(
                        answers,
                        old(self).exchange(),
                        old(self).source@,
                        start + 1,
                        end as int,
                        false,
                        0,
                        Number::digit_spec((old(self).source@[start as int] - 48) as u8),
                    );
                }
            }
        }
        Ok(token)
    }

    /// The tokens of the source, in order, and behind them the token that
    /// marks the end of the source; or the first error. The value of every
    /// number token is made of its digits with the host's arithmetic.
    pub fn scan_tokens<H: Host>(&mut self, host: &mut H) -> (r: Result<Vec<Token>, ScannerError>)
        requires
            old(self).wf(),
        ensures
            final(self).source == old(self).source,
            is_prefix(old(self).answers@, final(self).answers@),
            match scan_spec(
                old(self).source@,
                old(self).current as int,
                old(self).line as nat,
                Seq::empty(),
            ) {
                Ok((lexemes, last)) => r matches Ok(tokens) && tokens.len() == lexemes.len() + 1
                    && (forall|i: int|
                    0 <= i < lexemes.len() ==> (#[trigger] lexemes[i]).is_token(
                        old(self).source@,
                        tokens[i],
                    )) && tokens[lexemes.len() as int].token_type == TokenType::Eof
                    && tokens[lexemes.len() as int].lexeme@ == Seq::<char>::empty()
                    && tokens[lexemes.len() as int].line == last && (forall|answers: Seq<Answer>|
                    is_prefix(final(self).answers@, answers) ==> #[trigger] values_spec(
                        answers,
                        old(self).exchange(),
                        old(self).source@,
                        lexemes,
                        lexemes.len(),
                    ) == (
                        final(self).exchange(),
                        Seq::new(lexemes.len(), |i: int| token_value(tokens[i])),
                    )),
                Err(error) => r == Err::<Vec<Token>, ScannerError>(error),
            },
    {
        let mut tokens: Vec<Token> = Vec::new();
        let ghost mut done: Seq<Lexeme> = Seq::empty();
        let ghost mut values: Seq<Number> = Seq::empty();
        loop
            invariant
                self.wf(),
                self.source == old(self).source,
                is_prefix(old(self).answers@, self.answers@),
                tokens.len() == done.len(),
                values.len() == done.len(),
                forall|i: int|
                    0 <= i < done.len() ==> (#[trigger] done[i]).is_token(
                        old(self).source@,
                        tokens[i],
                    ),
                forall|i: int| 0 <= i < done.len() ==> token_value(tokens[i]) == #[trigger] values[i],
                forall|answers: Seq<Answer>|
                    is_prefix(self.answers@, answers) ==> #[trigger] values_spec(
                        answers,
                        old(self).exchange(),
                        old(self).source@,
                        done,
                        done.len(),
                    ) == (self.exchange(), values),
                scan_spec(
                    old(self).source@,
                    old(self).current as int,
                    old(self).line as nat,
                    Seq::empty(),
                ) == scan_spec(self.source@, self.current as int, self.line as nat, done),
            decreases self.source.len() - self.current,
        {
            let ghost at = self.current;
            let ghost line = self.line;
            proof {
                lemma_skip(self.source@, at as int, line as nat, false);
            }
            self.consume_whitespace();
            if self.current >= self.source.len() {
                tokens.push(Token::new(TokenType::Eof, String::new(), self.line));
                assert(Seq::new(done.len(), |i: int| token_value(tokens[i])) =~= values);
                return Ok(tokens);
            }
            let ghost start = self.current;
            let ghost first = self.line;
            let ghost before = *self;
            match self.scan_token(host) {
                Ok(token) => {
                    let ghost lexeme = scan_token_spec(
                        old(self).source@,
                        start as int,
                        first as nat,
                    )->Token_0;
                    let ghost earlier = done;
                    let ghost known = values;
                    proof {
                        done = done.push(lexeme);
                        values = values.push(token_value(token));
                    }
                    tokens.push(token);
                    assert forall|answers: Seq<Answer>|
                        is_prefix(self.answers@, answers) implies #[trigger] values_spec(
                        answers,
                        old(self).exchange(),
                        old(self).source@,
                        done,
                        done.len(),
                    ) == (self.exchange(), values) by {
                        lemma_values_prefix(
                            answers,
                            old(self).exchange(),
                            old(self).source@,
                            done,
                            earlier,
                            earlier.len(),
                        );
                        let so_far = values_spec(
                            answers,
                            old(self).exchange(),
                            old(self).source@,
                            earlier,
                            earlier.len(),
                        );
                        let this = lexeme_value(
                            answers,
                            before.exchange(),
                            old(self).source@,
                            lexeme,
                        );
                    }
                },
                Err(error) => {
                    return Err(error);
                },
            }
        }
    }
}

} // verus!
