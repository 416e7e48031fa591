//! Runtime errors.

use crate::text::{decimal, decimal_spec};
use crate::token::{Token, TokenType};
use crate::value::LoxValue;
use vstd::prelude::*;
use vstd::string::StringExecFns;

verus! {

/// A failure of a host function, with the text of its cause.
#[derive(Debug, PartialEq, Eq)]
pub enum NativeError {
    /// Reading from or writing to the outside failed.
    Io(String),
    /// A text was not a number.
    NumParse(String),
    /// The clock could not be read.
    SystemTime(String),
}

#[derive(Debug, PartialEq, Eq)]
pub enum InterpreterErrorType {
    WrongUnaryOperands(TokenType, LoxValue),
    WrongBinaryOperands(LoxValue, TokenType, LoxValue),
    DivisionByZero,
    UndefinedVariable(String),
    NotACallable,
    WrongArity { original: usize, user: usize },
    Native(NativeError),
    NotInLoop,
    /// The instance has neither a field nor a method of that name.
    NotAProperty { class_name: String, field: String },
    /// A property was read from or written to something that is no instance.
    InvalidInstance(String),
    /// What stands after `<` in a class declaration is not a class.
    InvalidSuperclass,
    /// The chain of nested calls and loop rounds grew past the interpreter's budget.
    Exhausted,
}

/// A runtime error and the token at which it occurred.
#[derive(Debug, PartialEq, Eq)]
pub struct InterpreterError {
    pub error_type: InterpreterErrorType,
    pub token: Token,
}

impl NativeError {
    /// What the error says.
    pub open spec fn message_spec(&self) -> Seq<char> {
        match *self {
            NativeError::Io(cause) => "IO Error: "@ + cause@,
            NativeError::NumParse(cause) => "Error parsing number: "@ + cause@,
            NativeError::SystemTime(cause) => "System Time Error: "@ + cause@,
        }
    }

    pub fn message(&self) -> (r: String)
        ensures
            r@ == self.message_spec(),
    {
        match self {
            NativeError::Io(cause) => String::from_str("IO Error: ").concat(cause.as_str()),
            NativeError::NumParse(cause) => String::from_str("Error parsing number: ").concat(
                cause.as_str(),
            ),
            NativeError::SystemTime(cause) => String::from_str("System Time Error: ").concat(
                cause.as_str(),
            ),
        }
    }
}

impl InterpreterError {
    /// What the error says, without the line. The operands that an operator
    /// was given are named by their kind; the interpreter that raised the
    /// error shows them as values.
    pub open spec fn message_spec(&self) -> Seq<char> {
        match self.error_type {
            InterpreterErrorType::WrongUnaryOperands(operator, operand) => "The unary operation "@
                + operator.name_spec() + " is not valid over a value of type: "@
                + operand.kind_spec(),
            InterpreterErrorType::WrongBinaryOperands(left, operator, right) =>
                "Operation of type: "@ + operator.name_spec()
                + " cannot be applied over operands of types "@ + left.kind_spec() + " and "@
                + right.kind_spec(),
            InterpreterErrorType::DivisionByZero => "Division by zero"@,
            InterpreterErrorType::UndefinedVariable(name) => "Variable "@ + name@
                + " is undefined"@,
            InterpreterErrorType::NotACallable => "Value "@ + self.token.lexeme@ + " at line "@
                + decimal_spec(self.token.line as nat) + " is not a callable"@,
            InterpreterErrorType::WrongArity { original, user } => "Function "@
                + self.token.lexeme@ + " called with "@ + decimal_spec(user as nat)
                + " arguments, but required "@ + decimal_spec(original as nat),
            InterpreterErrorType::Native(error) => "Native Error - "@ + error.message_spec(),
            InterpreterErrorType::NotInLoop => "Used "@ + self.token.lexeme@
                + " statement outside a loop"@,
            InterpreterErrorType::NotAProperty { class_name, field } => "Class "@ + class_name@
                + " has no property "@ + field@,
            InterpreterErrorType::InvalidInstance(name) => "Property "@ + name@
                + " does not belong to an instance"@,
            InterpreterErrorType::InvalidSuperclass => "Super class must be a class"@,
            InterpreterErrorType::Exhausted => "Calls and loops are nested too deep"@,
        }
    }

    /// The report of the error: what it says, a line break, and the line in brackets.
    pub open spec fn report_spec(&self) -> Seq<char> {
        self.message_spec() + "\n[line "@ + decimal_spec(self.token.line as nat) + "]"@
    }

    pub fn message(&self) -> (r: String)
        ensures
            r@ == self.message_spec(),
    {
        match &self.error_type {
            InterpreterErrorType::WrongUnaryOperands(operator, operand) => String::from_str(
                "The unary operation ",
            ).concat(operator.name()).concat(" is not valid over a value of type: ").concat(
                operand.kind(),
            ),
            InterpreterErrorType::WrongBinaryOperands(left, operator, right) => String::from_str(
                "Operation of type: ",
            ).concat(operator.name()).concat(" cannot be applied over operands of types ").concat(
                left.kind(),
            ).concat(" and ").concat(right.kind()),
            InterpreterErrorType::DivisionByZero => String::from_str("Division by zero"),
            InterpreterErrorType::UndefinedVariable(name) => String::from_str("Variable ").concat(
                name.as_str(),
            ).concat(" is undefined"),
            InterpreterErrorType::NotACallable => String::from_str("Value ").concat(
                self.token.lexeme(),
            ).concat(" at line ").concat(decimal(self.token.line()).as_str()).concat(
                " is not a callable",
            ),
            InterpreterErrorType::WrongArity { original, user } => String::from_str(
                "Function ",
            ).concat(self.token.lexeme()).concat(" called with ").concat(
                decimal(*user).as_str(),
            ).concat(" arguments, but required ").concat(decimal(*original).as_str()),
            InterpreterErrorType::Native(error) => String::from_str("Native Error - ").concat(
                error.message().as_str(),
            ),
            InterpreterErrorType::NotInLoop => String::from_str("Used ").concat(
                self.token.lexeme(),
            ).concat(" statement outside a loop"),
            InterpreterErrorType::NotAProperty { class_name, field } => String::from_str(
                "Class ",
            ).concat(class_name.as_str()).concat(" has no property ").concat(field.as_str()),
            InterpreterErrorType::InvalidInstance(name) => String::from_str("Property ").concat(
                name.as_str(),
            ).concat(" does not belong to an instance"),
            InterpreterErrorType::InvalidSuperclass => String::from_str(
                "Super class must be a class",
            ),
            InterpreterErrorType::Exhausted => String::from_str(
                "Calls and loops are nested too deep",
            ),
        }
    }

    /// The report of the error, as a host shows it.
    pub fn report(&self) -> (r: String)
        ensures
            r@ == self.report_spec(),
    {
        self.message().concat("\n[line ").concat(decimal(self.token.line()).as_str()).concat("]")
    }
}

pub type InterpreterResult<T> = Result<T, InterpreterError>;

pub type NativeResult<T> = Result<T, NativeError>;

/// The error of type `error_type` at `token`.
pub open spec fn failure<T>(error_type: InterpreterErrorType, token: Token) -> Result<
    T,
    InterpreterError,
> {
    Err(InterpreterError { error_type, token })
}

/// Builds the error of type `error_type` at `token`.
pub fn fail<T>(error_type: InterpreterErrorType, token: &Token) -> (r: Result<T, InterpreterError>)
    ensures
        r == failure::<T>(error_type, *token),
{
    Err(InterpreterError { error_type, token: token.clone() })
}

} // verus!
