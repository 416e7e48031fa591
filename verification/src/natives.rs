//! The functions that the host provides to every program.

use crate::error::{fail, InterpreterError, InterpreterErrorType, NativeError};
use crate::host::{is_prefix, Answer, Host, Question};
use crate::interpreter::Interpreter;
use crate::number::Number;
use crate::semantics;
use crate::token::Token;
use crate::value::{LoxValue, NativeFunction};
use rand::Rng;
use vstd::prelude::*;
use vstd::string::{StrSliceExecFns, StringExecFns};

verus! {

/// `rand::Rng::random_range` on the thread's generator, `rand::rng()`, with a
/// half-open range of integers: the result lies in the range. An empty
/// range, on which the call panics, is left out.
#[verifier::external_body]
fn draw(low: i64, high: i64) -> (r: i64)
    requires
        low < high,
    ensures
        low <= r < high,
{
    rand::rng().random_range(low..high)
}

/// A random integer between the two bounds, the smaller included and the
/// larger not, in whichever order they are given; `None` where the bounds
/// are equal and there is no such integer.
pub fn random_between(first: i64, second: i64) -> (r: Option<i64>)
    ensures
        first == second <==> r is None,
        r matches Some(drawn) ==> semantics::between(drawn, first, second),
{
    if first < second {
        Some(draw(first, second))
    } else if second < first {
        Some(draw(second, first))
    } else {
        None
    }
}

/// Takes the line feed off the end of a line, if it has one.
pub fn strip_line_end(line: String) -> (r: String)
    ensures
        r@ == semantics::without_line_end(line@),
{
    let length = line.as_str().unicode_len();
    if length > 0 && line.as_str().get_char(length - 1) == '\n' {
        let kept = String::from_str(line.as_str().substring_char(0, length - 1));
        assert(kept@ =~= line@.drop_last());
        kept
    } else {
        line
    }
}

/// Whether a character is white space, as Unicode defines it.
pub fn white_space(c: char) -> (r: bool)
    ensures
        r == semantics::is_white_space(c),
{
    let code: u32 = c as u32;
    (0x9 <= code && code <= 0xD) || code == 0x20 || code == 0x85 || code == 0xA0 || code == 0x1680
        || (0x2000 <= code && code <= 0x200A) || code == 0x2028 || code == 0x2029 || code
        == 0x202F || code == 0x205F || code == 0x3000
}

/// Takes the white space off both ends of a text.
pub fn trim(text: &str) -> (r: String)
    ensures
        r@ == semantics::trimmed(text@),
{
    let length = text.unicode_len();
    let mut start: usize = 0;
    while start < length && white_space(text.get_char(start))
        invariant
            start <= length,
            length == text@.len(),
            semantics::leading(text@, 0) == semantics::leading(text@, start as int),
        decreases length - start,
    {
        start += 1;
    }
    let mut end: usize = length;
    while start < end && white_space(text.get_char(end - 1))
        invariant
            start <= end <= length,
            length == text@.len(),
            semantics::trailing(text@, start as int, length as int) == semantics::trailing(
                text@,
                start as int,
                end as int,
            ),
        decreases end,
    {
        end -= 1;
    }
    String::from_str(text.substring_char(start, end))
}

impl<H: Host> Interpreter<H> {
    /// `clock()`: seconds since the epoch, from the host.
    fn clock(&mut self) -> (r: Result<LoxValue, NativeError>)
        requires
            old(self).wf(),
        ensures
            final(self).follows(old(self)),
            r matches Ok(value) ==> final(self)@.holds(value),
            forall|answers: Seq<Answer>, arguments: Seq<LoxValue>|
                is_prefix(final(self).answers@, answers) ==> #[trigger] semantics::native(
                    answers,
                    old(self)@,
                    NativeFunction::Clock,
                    arguments,
                ) == (final(self)@, r),
    {
        let answer = self.host.clock();
        self.note(Ghost(Question::Clock), Ghost(Answer::of_number(answer)));
        let r = match answer {
            Ok(number) => Ok(LoxValue::Number(number)),
            Err(error) => Err(error),
        };
        assert forall|answers: Seq<Answer>, arguments: Seq<LoxValue>|
            is_prefix(self.answers@, answers) implies #[trigger] semantics::native(
            answers,
            old(self)@,
            NativeFunction::Clock,
            arguments,
        ) == (self@, r) by {
            assert(answers[old(self)@.cursor as int] == self.answers@[old(self)@.cursor as int]);
        }
        r
    }

    /// `read_line()`: the next line of input, from the host, without the line
    /// feed at its end.
    fn read_line(&mut self) -> (r: Result<LoxValue, NativeError>)
        requires
            old(self).wf(),
        ensures
            final(self).follows(old(self)),
            r matches Ok(value) ==> final(self)@.holds(value),
            forall|answers: Seq<Answer>, arguments: Seq<LoxValue>|
                is_prefix(final(self).answers@, answers) ==> #[trigger] semantics::native(
                    answers,
                    old(self)@,
                    NativeFunction::ReadLine,
                    arguments,
                ) == (final(self)@, r),
    {
        let answer = self.host.read_line();
        self.note(Ghost(Question::ReadLine), Ghost(Answer::of_text(answer)));
        let ghost asked = *self;
        let r = match answer {
            Ok(line) => Ok(self.intern(strip_line_end(line))),
            Err(error) => Err(error),
        };
        proof {
            self.lemma_follows(&asked, old(self));
        }
        assert forall|answers: Seq<Answer>, arguments: Seq<LoxValue>|
            is_prefix(self.answers@, answers) implies #[trigger] semantics::native(
            answers,
            old(self)@,
            NativeFunction::ReadLine,
            arguments,
        ) == (self@, r) by {
            assert(answers[old(self)@.cursor as int] == self.answers@[old(self)@.cursor as int]);
        }
        r
    }

    /// `string_to_number(text)`: the number that a string denotes once the
    /// white space around it is taken off, from the host; `nil`, and a notice,
    /// for what is no string.
    fn string_to_number(&mut self, argument: LoxValue) -> (r: Result<LoxValue, NativeError>)
        requires
            old(self).wf(),
            old(self)@.holds(argument),
        ensures
            final(self).follows(old(self)),
            r matches Ok(value) ==> final(self)@.holds(value),
            forall|answers: Seq<Answer>, arguments: Seq<LoxValue>|
                is_prefix(final(self).answers@, answers) && semantics::argument(arguments, 0)
                    == argument ==> #[trigger] semantics::native(
                    answers,
                    old(self)@,
                    NativeFunction::StringToNumber,
                    arguments,
                ) == (final(self)@, r),
    {
        match argument {
            LoxValue::String(text) => {
                let trimmed = trim(self.strings[text].as_str());
                let answer = self.host.parse_number(trimmed.as_str());
                self.note(Ghost(Question::Parse(trimmed@)), Ghost(Answer::of_number(answer)));
                let r = match answer {
                    Ok(number) => Ok(LoxValue::Number(number)),
                    Err(error) => Err(error),
                };
                assert forall|answers: Seq<Answer>, arguments: Seq<LoxValue>|
                    is_prefix(self.answers@, answers) && semantics::argument(arguments, 0)
                        == argument implies #[trigger] semantics::native(
                    answers,
                    old(self)@,
                    NativeFunction::StringToNumber,
                    arguments,
                ) == (self@, r) by {
                    assert(answers[old(self)@.cursor as int] == self.answers@[old(
                        self,
                    )@.cursor as int]);
                }
                r
            },
            _ => {
                self.warn("Argument is not a number");
                Ok(LoxValue::Nil)
            },
        }
    }

    /// `random(a, b)`: a number drawn between the integer parts of two
    /// numbers, the smaller included and the larger not; `nil` where they are
    /// equal, and `nil`, with a notice, for what are no numbers.
    fn random(&mut self, first: LoxValue, second: LoxValue) -> (r: Result<LoxValue, NativeError>)
        requires
            old(self).wf(),
        ensures
            final(self).follows(old(self)),
            r matches Ok(value) ==> final(self)@.holds(value),
            forall|answers: Seq<Answer>, arguments: Seq<LoxValue>|
                is_prefix(final(self).answers@, answers) && semantics::argument(arguments, 0)
                    == first && semantics::argument(arguments, 1) == second
                    ==> #[trigger] semantics::native(
                    answers,
                    old(self)@,
                    NativeFunction::Random,
                    arguments,
                ) == (final(self)@, r),
    {
        match (first, second) {
            (LoxValue::Number(a), LoxValue::Number(b)) => {
                let low = self.host.to_integer(a);
                self.note(Ghost(Question::ToInteger(a)), Ghost(Answer::Integer(low)));
                let ghost one = *self;
                let high = self.host.to_integer(b);
                self.note(Ghost(Question::ToInteger(b)), Ghost(Answer::Integer(high)));
                let ghost two = *self;
                proof {
                    two.lemma_follows(&one, old(self));
                }
                match random_between(low, high) {
                    Some(drawn) => {
                        self.note(Ghost(Question::Draw(low, high)), Ghost(Answer::Integer(drawn)));
                        let ghost three = *self;
                        let number = self.host.from_integer(drawn);
                        self.note(Ghost(Question::FromInteger(drawn)), Ghost(Answer::Number(number)));
                        proof {
                            three.lemma_follows(&two, old(self));
                            self.lemma_follows(&three, old(self));
                        }
                        assert forall|answers: Seq<Answer>, arguments: Seq<LoxValue>|
                            is_prefix(self.answers@, answers) && semantics::argument(arguments, 0)
                                == first && semantics::argument(arguments, 1)
                                == second implies #[trigger] semantics::native(
                            answers,
                            old(self)@,
                            NativeFunction::Random,
                            arguments,
                        ) == (self@, Ok::<LoxValue, NativeError>(LoxValue::Number(number))) by {
                            let c = old(self)@.cursor as int;
                            assert(answers[c] == self.answers@[c]);
                            assert(answers[c + 1] == self.answers@[c + 1]);
                            assert(answers[c + 2] == self.answers@[c + 2]);
                            assert(answers[c + 3] == self.answers@[c + 3]);
                        }
                        Ok(LoxValue::Number(number))
                    },
                    None => {
                        assert forall|answers: Seq<Answer>, arguments: Seq<LoxValue>|
                            is_prefix(self.answers@, answers) && semantics::argument(arguments, 0)
                                == first && semantics::argument(arguments, 1)
                                == second implies #[trigger] semantics::native(
                            answers,
                            old(self)@,
                            NativeFunction::Random,
                            arguments,
                        ) == (self@, Ok::<LoxValue, NativeError>(LoxValue::Nil)) by {
                            let c = old(self)@.cursor as int;
                            assert(answers[c] == self.answers@[c]);
                            assert(answers[c + 1] == self.answers@[c + 1]);
                        }
                        Ok(LoxValue::Nil)
                    },
                }
            },
            _ => {
                self.warn("Parameters in random must be numbers");
                Ok(LoxValue::Nil)
            },
        }
    }

    /// Calls a host function that is registered with `arity`. With another
    /// number of arguments the call fails with `WrongArity` and the host is
    /// not asked; a failure of the host function becomes the error `Native`.
    /// Every error is reported at `paren`, the token of the call.
    pub(crate) fn evaluate_native(
        &mut self,
        func: NativeFunction,
        arity: usize,
        arguments: &Vec<LoxValue>,
        paren: &Token,
    ) -> (r: Result<LoxValue, InterpreterError>)
        requires
            old(self).wf(),
            old(self)@.holds_all(arguments@),
        ensures
            final(self).follows(old(self)),
            r matches Ok(value) ==> final(self)@.holds(value),
            forall|answers: Seq<Answer>|
                is_prefix(final(self).answers@, answers) ==> #[trigger] semantics::call_native(
                    answers,
                    old(self)@,
                    func,
                    arity,
                    arguments@,
                    *paren,
                ) == (final(self)@, r),
    {
        if arity != arguments.len() {
            return fail(
                InterpreterErrorType::WrongArity { original: arity, user: arguments.len() },
                paren,
            );
        }
        let first = if arguments.len() > 0 {
            arguments[0]
        } else {
            LoxValue::Nil
        };
        let second = if arguments.len() > 1 {
            arguments[1]
        } else {
            LoxValue::Nil
        };
        let result = match func {
            NativeFunction::Clock => self.clock(),
            NativeFunction::ReadLine => self.read_line(),
            NativeFunction::StringToNumber => self.string_to_number(first),
            NativeFunction::Random => self.random(first, second),
        };
        let r = match result {
            Ok(value) => Ok(value),
            Err(error) => fail(InterpreterErrorType::Native(error), paren),
        };
        assert forall|answers: Seq<Answer>|
            is_prefix(self.answers@, answers) implies #[trigger] semantics::call_native(
            answers,
            old(self)@,
            func,
            arity,
            arguments@,
            *paren,
        ) == (self@, r) by {
            let run = semantics::native(answers, old(self)@, func, arguments@);
        }
        r
    }
}

} // verus!
