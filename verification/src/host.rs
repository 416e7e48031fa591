//! The host: what a running program needs from outside the interpreter.
//!
//! Rounded floating-point arithmetic, the conversion between numbers and
//! text, the clock, the console. The interpreter decides when each of them is
//! asked and what becomes of the answer; it assumes nothing about the answer
//! itself.

use crate::error::NativeError;
use crate::number::{Arithmetic, Number};
use vstd::prelude::*;

verus! {

pub trait Host {
    /// `left operation right`, rounded as IEEE-754 prescribes.
    fn arithmetic(&mut self, operation: Arithmetic, left: Number, right: Number) -> Number;

    /// The display form of a number.
    fn format_number(&mut self, number: Number) -> String;

    /// `base` raised to a whole power, rounded.
    fn power(&mut self, base: Number, exponent: i32) -> Number;

    /// The number that `text` denotes.
    fn parse_number(&mut self, text: &str) -> Result<Number, NativeError>;

    /// The integer part of a number.
    fn to_integer(&mut self, number: Number) -> i64;

    /// The number nearest to an integer.
    fn from_integer(&mut self, integer: i64) -> Number;

    /// Seconds since the epoch.
    fn clock(&mut self) -> Result<Number, NativeError>;

    /// The next line of input, as it was read: with the line feed at its
    /// end, if it has one.
    fn read_line(&mut self) -> Result<String, NativeError>;

    /// Writes `text` and a line end to the output.
    fn print(&mut self, text: &str);

    /// Writes the notice `text` and a line end to the error output.
    fn warn(&mut self, text: &str);
}

/// What the interpreter asks of the host, or of chance.
pub enum Question {
    /// `left operation right`.
    Arithmetic(Arithmetic, Number, Number),
    /// `base` raised to a whole power.
    Power(Number, i32),
    /// The display form of a number.
    Format(Number),
    /// The number that a text denotes.
    Parse(Seq<char>),
    /// The integer part of a number.
    ToInteger(Number),
    /// The number nearest to an integer.
    FromInteger(i64),
    /// The time.
    Clock,
    /// The next line of input.
    ReadLine,
    /// An integer between two bounds.
    Draw(i64, i64),
}

impl Question {
    /// Whether an answer is of the kind that the question asks for.
    pub open spec fn fits(self, answer: Answer) -> bool {
        match self {
            Question::Arithmetic(_, _, _) => answer is Number,
            Question::Power(_, _) => answer is Number,
            Question::FromInteger(_) => answer is Number,
            Question::Format(_) => answer is Text,
            Question::ToInteger(_) => answer is Integer,
            Question::Draw(_, _) => answer is Integer,
            Question::Parse(_) => answer is Number || answer is Failure,
            Question::Clock => answer is Number || answer is Failure,
            Question::ReadLine => answer is Text || answer is Failure,
        }
    }
}

/// What the host, or chance, answered to one question of the interpreter.
pub enum Answer {
    Number(Number),
    Text(String),
    Integer(i64),
    Failure(NativeError),
}

impl Answer {
    /// The integer that was answered; 0 where the answer is no integer.
    pub open spec fn integer(self) -> i64 {
        match self {
            Answer::Integer(integer) => integer,
            _ => 0,
        }
    }

    /// The number that was answered; zero where the answer is no number.
    pub open spec fn number(self) -> Number {
        match self {
            Answer::Number(number) => number,
            _ => Number { bits: 0 },
        }
    }

    /// The text that was answered; the empty text where the answer is no text.
    pub open spec fn text(self) -> Seq<char> {
        match self {
            Answer::Text(text) => text@,
            _ => Seq::empty(),
        }
    }

    /// The number that was answered, or the failure that was.
    pub open spec fn number_or_failure(self) -> Result<Number, NativeError> {
        match self {
            Answer::Failure(error) => Err(error),
            _ => Ok(self.number()),
        }
    }

    /// The text that was answered, or the failure that was.
    pub open spec fn text_or_failure(self) -> Result<Seq<char>, NativeError> {
        match self {
            Answer::Failure(error) => Err(error),
            _ => Ok(self.text()),
        }
    }

    /// The answer that is a number, or the failure to give one.
    pub open spec fn of_number(given: Result<Number, NativeError>) -> Answer {
        match given {
            Ok(number) => Answer::Number(number),
            Err(error) => Answer::Failure(error),
        }
    }

    /// The answer that is a text, or the failure to give one.
    pub open spec fn of_text(given: Result<String, NativeError>) -> Answer {
        match given {
            Ok(text) => Answer::Text(text),
            Err(error) => Answer::Failure(error),
        }
    }
}

/// What has been asked of the host: the questions, and how many answers were taken.
pub struct Exchange {
    pub asked: Seq<Question>,
    pub cursor: nat,
}

impl Exchange {
    /// One more question has been asked, and its answer taken.
    pub open spec fn ask(self, question: Question) -> Exchange {
        Exchange { asked: self.asked.push(question), cursor: self.cursor + 1 }
    }

    /// The answer that the host gives next.
    pub open spec fn next(self, answers: Seq<Answer>) -> Answer {
        answers[self.cursor as int]
    }
}

/// `shorter` is how `longer` begins.
pub open spec fn is_prefix(shorter: Seq<Answer>, longer: Seq<Answer>) -> bool {
    &&& shorter.len() <= longer.len()
    &&& forall|i: int| 0 <= i < shorter.len() ==> shorter[i] == longer[i]
}

} // verus!
