//! What the unary and binary operators do to values.

use crate::error::InterpreterErrorType;
use crate::number::{Arithmetic, Number};
use crate::token::TokenType;
use crate::value::LoxValue;
use vstd::prelude::*;

verus! {

/// What a binary operator asks for, once both operands are known.
#[derive(Debug, PartialEq, Eq)]
pub enum Operation {
    /// The result, or the error, is settled by the operands alone.
    Done(Result<LoxValue, InterpreterErrorType>),
    /// The host computes the result from the two numbers.
    Compute(Arithmetic, Number, Number),
    /// The result is the string with this index followed by the display form
    /// of the value.
    Concatenate(usize, LoxValue),
}

/// `-` negates a number; `!` negates a boolean, is true of `nil` and of zero
/// and false of every other number. Nothing else is defined.
pub open spec fn unary_operation_spec(operator: TokenType, operand: LoxValue) -> Result<
    LoxValue,
    InterpreterErrorType,
> {
    match (operator, operand) {
        (TokenType::Minus, LoxValue::Number(number)) => Ok(LoxValue::Number(number.negated())),
        (TokenType::Bang, LoxValue::Boolean(value)) => Ok(LoxValue::Boolean(!value)),
        (TokenType::Bang, LoxValue::Nil) => Ok(LoxValue::Boolean(true)),
        (TokenType::Bang, LoxValue::Number(number)) => Ok(LoxValue::Boolean(number.is_zero_spec())),
        _ => Err(InterpreterErrorType::WrongUnaryOperands(operator, operand)),
    }
}

pub fn unary_operation(operator: &TokenType, operand: LoxValue) -> (r: Result<
    LoxValue,
    InterpreterErrorType,
>)
    ensures
        r == unary_operation_spec(*operator, operand),
{
    match (operator, operand) {
        (TokenType::Minus, LoxValue::Number(number)) => Ok(LoxValue::Number(number.negate())),
        (TokenType::Bang, LoxValue::Boolean(value)) => Ok(LoxValue::Boolean(!value)),
        (TokenType::Bang, LoxValue::Nil) => Ok(LoxValue::Boolean(true)),
        (TokenType::Bang, LoxValue::Number(number)) => Ok(LoxValue::Boolean(number.is_zero())),
        _ => Err(InterpreterErrorType::WrongUnaryOperands(operator.clone(), operand)),
    }
}

/// Two numbers: `+ - *` and `/` are computed by the host, but `/` by a zero
/// is an error; `== < <= > >=` compare as IEEE-754 says. A string on the left
/// of `+` is joined with the display form of whatever stands on the right.
/// Nothing else is defined.
pub open spec fn binary_operation_spec(
    left: LoxValue,
    operator: TokenType,
    right: LoxValue,
) -> Operation {
    match (left, right) {
        (LoxValue::Number(a), LoxValue::Number(b)) => match operator {
            TokenType::Plus => Operation::Compute(Arithmetic::Add, a, b),
            TokenType::Minus => Operation::Compute(Arithmetic::Subtract, a, b),
            TokenType::Star => Operation::Compute(Arithmetic::Multiply, a, b),
            TokenType::Slash => if b.is_zero_spec() {
                Operation::Done(Err(InterpreterErrorType::DivisionByZero))
            } else {
                Operation::Compute(Arithmetic::Divide, a, b)
            },
            TokenType::EqualEqual => Operation::Done(Ok(LoxValue::Boolean(a.equals_spec(b)))),
            TokenType::GreaterEqual => Operation::Done(
                Ok(LoxValue::Boolean(b.less_equal_spec(a))),
            ),
            TokenType::Greater => Operation::Done(Ok(LoxValue::Boolean(b.less_spec(a)))),
            TokenType::LessEqual => Operation::Done(Ok(LoxValue::Boolean(a.less_equal_spec(b)))),
            TokenType::Less => Operation::Done(Ok(LoxValue::Boolean(a.less_spec(b)))),
            _ => Operation::Done(
                Err(InterpreterErrorType::WrongBinaryOperands(left, operator, right)),
            ),
        },
        (LoxValue::String(text), _) => match operator {
            TokenType::Plus => Operation::Concatenate(text, right),
            _ => Operation::Done(
                Err(InterpreterErrorType::WrongBinaryOperands(left, operator, right)),
            ),
        },
        _ => Operation::Done(Err(InterpreterErrorType::WrongBinaryOperands(left, operator, right))),
    }
}

pub fn binary_operation(left: LoxValue, operator: &TokenType, right: LoxValue) -> (r: Operation)
    ensures
        r == binary_operation_spec(left, *operator, right),
{
    match (left, right) {
        (LoxValue::Number(a), LoxValue::Number(b)) => match operator {
            TokenType::Plus => Operation::Compute(Arithmetic::Add, a, b),
            TokenType::Minus => Operation::Compute(Arithmetic::Subtract, a, b),
            TokenType::Star => Operation::Compute(Arithmetic::Multiply, a, b),
            TokenType::Slash => if b.is_zero() {
                Operation::Done(Err(InterpreterErrorType::DivisionByZero))
            } else {
                Operation::Compute(Arithmetic::Divide, a, b)
            },
            TokenType::EqualEqual => Operation::Done(Ok(LoxValue::Boolean(a.equals(b)))),
            TokenType::GreaterEqual => Operation::Done(Ok(LoxValue::Boolean(a.greater_equal(b)))),
            TokenType::Greater => Operation::Done(Ok(LoxValue::Boolean(a.greater(b)))),
            TokenType::LessEqual => Operation::Done(Ok(LoxValue::Boolean(a.less_equal(b)))),
            TokenType::Less => Operation::Done(Ok(LoxValue::Boolean(a.less(b)))),
            _ => Operation::Done(
                Err(InterpreterErrorType::WrongBinaryOperands(left, operator.clone(), right)),
            ),
        },
        (LoxValue::String(text), _) => match operator {
            TokenType::Plus => Operation::Concatenate(text, right),
            _ => Operation::Done(
                Err(InterpreterErrorType::WrongBinaryOperands(left, operator.clone(), right)),
            ),
        },
        _ => Operation::Done(
            Err(InterpreterErrorType::WrongBinaryOperands(left, operator.clone(), right)),
        ),
    }
}

} // verus!
