//! The parser: from tokens to the syntax tree, by recursive descent.

use crate::expression::{expression_views, Expression, ExpressionView};
use crate::grammar::{is_operator, ParserError, Source, MAX_ARGS};
use crate::statement::{function_views, optional_view, statement_views, Function, FunctionView, Statement, StatementView};
use crate::token::{Token, TokenType};
use std::rc::Rc;
use vstd::prelude::*;
use vstd::string::StringExecFns;

verus! {

pub struct Parser<'a> {
    pub tokens: &'a Vec<Token>,
    /// The position of the next token.
    pub current: usize,
    /// The identity that the next variable occurrence gets.
    pub next_id: usize,
    /// The name in the error that an identifier was expected.
    pub undefined: String,
}

/// The view of the result of a rule for expressions.
pub open spec fn expression_result(result: Result<Expression, ParserError>) -> Result<
    ExpressionView,
    ParserError,
> {
    match result {
        Ok(expression) => Ok(expression@),
        Err(error) => Err(error),
    }
}

/// The view of the result of a rule for statements.
pub open spec fn statement_result(result: Result<Statement, ParserError>) -> Result<
    StatementView,
    ParserError,
> {
    match result {
        Ok(statement) => Ok(statement@),
        Err(error) => Err(error),
    }
}

/// The view of the result of a rule for sequences of statements.
pub open spec fn statements_result(result: Result<Vec<Statement>, ParserError>) -> Result<
    Seq<StatementView>,
    ParserError,
> {
    match result {
        Ok(statements) => Ok(statement_views(statements@)),
        Err(error) => Err(error),
    }
}

/// The view of the result of the rule for functions.
pub open spec fn function_result(result: Result<Function, ParserError>) -> Result<
    FunctionView,
    ParserError,
> {
    match result {
        Ok(function) => Ok(function@),
        Err(error) => Err(error),
    }
}

/// The views of expressions, one more.
pub proof fn lemma_push_expression(expressions: Seq<Expression>, last: Expression)
    ensures
        expression_views(expressions.push(last)) == expression_views(expressions).push(last@),
        expression_views(Seq::empty()) == Seq::<ExpressionView>::empty(),
{
    assert(expression_views(expressions.push(last)) =~= expression_views(expressions).push(last@));
    assert(expression_views(Seq::empty()) =~= Seq::<ExpressionView>::empty());
}

/// The views of statements, one more.
pub proof fn lemma_push_statement(statements: Seq<Statement>, last: Statement)
    ensures
        statement_views(statements.push(last)) == statement_views(statements).push(last@),
        statement_views(Seq::empty()) == Seq::<StatementView>::empty(),
{
    assert(statement_views(statements.push(last)) =~= statement_views(statements).push(last@));
    assert(statement_views(Seq::empty()) =~= Seq::<StatementView>::empty());
}

/// The views of functions, one more.
pub proof fn lemma_push_function(functions: Seq<Rc<Function>>, last: Rc<Function>)
    ensures
        function_views(functions.push(last)) == function_views(functions).push(last@),
        function_views(Seq::empty()) == Seq::<FunctionView>::empty(),
{
    assert(function_views(functions.push(last)) =~= function_views(functions).push(last@));
    assert(function_views(Seq::empty()) =~= Seq::<FunctionView>::empty());
}

impl<'a> Parser<'a> {
    /// What the parser reads.
    pub open spec fn source(&self) -> Source {
        Source { tokens: self.tokens@, undefined: self.undefined }
    }

    /// The position as the grammar counts it.
    pub open spec fn at(&self) -> int {
        self.current as int
    }

    /// The identities that are left, and the tokens: no rule hands out more
    /// identities than it reads tokens.
    pub open spec fn room(&self) -> int {
        self.next_id + (self.tokens.len() - self.current)
    }

    pub open spec fn wf(&self) -> bool {
        &&& self.current <= self.tokens.len()
        &&& self.room() <= usize::MAX
    }

    /// `self` is the parser `before`, further on in the same tokens.
    pub open spec fn proceeds(&self, before: &Self) -> bool {
        &&& self.wf()
        &&& self.tokens == before.tokens
        &&& self.undefined == before.undefined
        &&& self.current >= before.current
        &&& self.room() <= before.room()
    }

    /// A parser at the first of the tokens, whose first identity is 0.
    pub fn new(tokens: &'a Vec<Token>) -> (r: Self)
        ensures
            r.wf(),
            r.tokens == tokens,
            r.current == 0,
            r.next_id == 0,
            r.undefined@ == "undefined"@,
    {
        Self { tokens, current: 0, next_id: 0, undefined: String::from_str("undefined") }
    }

    /// A parser at the first of the tokens, whose first identity is
    /// `next_id`; `None` where the identities would not suffice.
    pub fn resume(tokens: &'a Vec<Token>, next_id: usize) -> (r: Option<Self>)
        ensures
            r is Some == (next_id + tokens.len() <= usize::MAX),
            r matches Some(parser) ==> parser.wf() && parser.tokens == tokens && parser.current == 0
                && parser.next_id == next_id && parser.undefined@ == "undefined"@,
    {
        if next_id > usize::MAX - tokens.len() {
            None
        } else {
            Some(Self { tokens, current: 0, next_id, undefined: String::from_str("undefined") })
        }
    }

    /// Whether a token of the given kind stands `offset` tokens on.
    fn check(&self, offset: usize, expected: &TokenType) -> (r: bool)
        requires
            self.wf(),
            offset <= 3,
            !(expected is Identifier) && !(expected is String) && !(expected is Number),
        ensures
            r == (self.source().kind(self.at() + offset) == *expected),
    {
        if offset >= self.tokens.len() - self.current {
            matches!(expected, TokenType::Eof)
        } else {
            same_kind(&self.tokens[self.current + offset].token_type, expected)
        }
    }

    /// Whether an identifier stands `offset` tokens on.
    fn check_identifier(&self, offset: usize) -> (r: bool)
        requires
            self.wf(),
            offset <= 3,
        ensures
            r == (self.source().kind(self.at() + offset) is Identifier),
    {
        if offset >= self.tokens.len() - self.current {
            false
        } else {
            matches!(self.tokens[self.current + offset].token_type, TokenType::Identifier(_))
        }
    }

    /// Whether no token of the program stands at the position.
    fn is_at_end(&self) -> (r: bool)
        requires
            self.wf(),
        ensures
            r == self.source().at_end(self.at()),
            !r ==> self.current < self.tokens.len(),
    {
        self.check(0, &TokenType::Eof)
    }

    /// Moves over `count` tokens that are there.
    fn skip(&mut self, count: usize)
        requires
            old(self).wf(),
            old(self).current + count <= old(self).tokens.len(),
        ensures
            final(self).proceeds(old(self)),
            final(self).current == old(self).current + count,
            final(self).next_id == old(self).next_id,
    {
        self.current += count;
    }

    /// Takes the next identity.
    fn identity(&mut self) -> (r: usize)
        requires
            old(self).wf(),
            old(self).room() < usize::MAX,
        ensures
            final(self).wf(),
            final(self).tokens == old(self).tokens,
            final(self).undefined == old(self).undefined,
            final(self).current == old(self).current,
            r == old(self).next_id,
            final(self).next_id == (old(self).next_id + 1) as usize,
            final(self).room() == old(self).room() + 1,
    {
        let r = self.next_id;
        self.next_id += 1;
        r
    }

    /// The error that a token of the given type was expected.
    fn expected<T>(&self, token_type: TokenType) -> (r: Result<T, ParserError>)
        ensures
            r == Err::<T, ParserError>(ParserError::FailedMatch(token_type)),
    {
        Err(ParserError::FailedMatch(token_type))
    }

    /// The error that an identifier was expected.
    fn expected_identifier<T>(&self) -> (r: Result<T, ParserError>)
        ensures
            r == Err::<T, ParserError>(
                ParserError::FailedMatch(TokenType::Identifier(self.undefined)),
            ),
    {
        Err(ParserError::FailedMatch(TokenType::Identifier(self.undefined.clone())))
    }

    fn primary(&mut self) -> (r: Result<Expression, ParserError>)
        requires
            old(self).wf(),
        ensures
            final(self).proceeds(old(self)),
            (expression_result(r), final(self).at(), final(self).next_id) == old(self).source().primary(
                old(self).at(),
                old(self).next_id,
            ),
        decreases old(self).tokens.len() - old(self).current, 22int,
    {
        if self.current >= self.tokens.len() {
            return self.expected(TokenType::Eof);
        }
        let token = &self.tokens[self.current];
        match &token.token_type {
            TokenType::False => {
                self.skip(1);
                Ok(Expression::False)
            },
            TokenType::True => {
                self.skip(1);
                Ok(Expression::True)
            },
            TokenType::Nil => {
                self.skip(1);
                Ok(Expression::Nil)
            },
            TokenType::Number(number) => {
                self.skip(1);
                Ok(Expression::Number(*number))
            },
            TokenType::String(text) => {
                self.skip(1);
                Ok(Expression::String(text.clone()))
            },
            TokenType::Identifier(name) => {
                self.skip(1);
                let id = self.identity();
                Ok(Expression::Var { name: name.clone(), token: token.clone(), id })
            },
            TokenType::This => {
                self.skip(1);
                let id = self.identity();
                Ok(Expression::This { keyword: token.clone(), id })
            },
            TokenType::LeftParen => {
                self.skip(1);
                let inner = match self.expression() {
                    Ok(inner) => inner,
                    Err(error) => {
                        return Err(error);
                    },
                };
                if self.check(0, &TokenType::RightParen) {
                    self.skip(1);
                    Ok(Expression::Grouping(Box::new(inner)))
                } else {
                    self.expected(TokenType::RightParen)
                }
            },
            other => self.expected(other.clone()),
        }
    }

    /// The arguments of a call behind those in `done`.
    fn arguments_rest(&mut self, done: Vec<Expression>) -> (r: Result<Vec<Expression>, ParserError>)
        requires
            old(self).wf(),
        ensures
            final(self).proceeds(old(self)),
            (
                match r {
                    Ok(arguments) => Ok::<Seq<ExpressionView>, ParserError>(
                        expression_views(arguments@),
                    ),
                    Err(error) => Err(error),
                },
                final(self).at(),
                final(self).next_id,
            ) == old(self).source().arguments_rest(
                expression_views(done@),
                old(self).at(),
                old(self).next_id,
            ),
        decreases old(self).tokens.len() - old(self).current, 48int,
    {
        let mut args = done;
        let ghost source = self.source();
        loop
            invariant
                self.proceeds(old(self)),
                source == self.source(),
                source.arguments_rest(expression_views(done@), old(self).at(), old(self).next_id)
                    == source.arguments_rest(expression_views(args@), self.at(), self.next_id),
            decreases self.tokens.len() - self.current,
        {
            if !(self.check(0, &TokenType::Comma) && self.current < self.tokens.len()) {
                return Ok(args);
            }
            self.skip(1);
            let argument = match self.expression() {
                Ok(argument) => argument,
                Err(error) => {
                    return Err(error);
                },
            };
            proof {
                lemma_push_expression(args@, argument);
            }
            args.push(argument);
            if args.len() >= MAX_ARGS {
                return Ok(args);
            }
        }
    }

    #[verifier::rlimit(100)]
    fn finish_call(&mut self, callee: Expression) -> (r: Result<Expression, ParserError>)
        requires
            old(self).wf(),
        ensures
            final(self).proceeds(old(self)),
            (expression_result(r), final(self).at(), final(self).next_id) == old(
                self,
            ).source().finish_call(callee@, old(self).at(), old(self).next_id),
        decreases old(self).tokens.len() - old(self).current, 50int,
    {
        let args = if self.check(0, &TokenType::RightParen) {
            proof {
                lemma_push_expression(Seq::empty(), callee);
            }
            Vec::new()
        } else {
            let first = match self.expression() {
                Ok(first) => first,
                Err(error) => {
                    return Err(error);
                },
            };
            let mut args: Vec<Expression> = Vec::new();
            proof {
                lemma_push_expression(args@, first);
            }
            args.push(first);
            assert(expression_views(args@) =~= seq![first@]);
            match self.arguments_rest(args) {
                Ok(args) => args,
                Err(error) => {
                    return Err(error);
                },
            }
        };
        if self.check(0, &TokenType::RightParen) {
            let paren = self.tokens[self.current].clone();
            self.skip(1);
            Ok(Expression::Call { callee: Box::new(callee), paren, args })
        } else {
            self.expected(TokenType::RightParen)
        }
    }

    #[verifier::loop_isolation(false)]
    fn call(&mut self) -> (r: Result<Expression, ParserError>)
        requires
            old(self).wf(),
        ensures
            final(self).proceeds(old(self)),
            (expression_result(r), final(self).at(), final(self).next_id) == old(self).source().call(
                old(self).at(),
                old(self).next_id,
            ),
        decreases old(self).tokens.len() - old(self).current, 24int,
    {
        let ghost source = self.source();
        let mut expression = match self.primary() {
            Ok(expression) => expression,
            Err(error) => {
                return Err(error);
            },
        };
        let ghost begun = (expression@, self.at(), self.next_id);
        loop
            invariant
                self.proceeds(old(self)),
                source.call_rest(begun.0, begun.1, begun.2) == source.call_rest(
                    expression@,
                    self.at(),
                    self.next_id,
                ),
            decreases self.tokens.len() - self.current,
        {
            if self.current >= self.tokens.len() {
                break ;
            }
            if self.check(0, &TokenType::LeftParen) {
                self.skip(1);
                expression = match self.finish_call(expression) {
                    Ok(called) => called,
                    Err(error) => {
                        return Err(error);
                    },
                };
            } else if self.check(0, &TokenType::Dot) {
                if self.check_identifier(1) {
                    let token = self.tokens[self.current + 1].clone();
                    self.skip(2);
                    expression = Expression::Get { expression: Box::new(expression), token };
                } else {
                    self.skip(1);
                    return self.expected_identifier();
                }
            } else {
                break ;
            }
        }
        Ok(expression)
    }

    fn unary(&mut self) -> (r: Result<Expression, ParserError>)
        requires
            old(self).wf(),
        ensures
            final(self).proceeds(old(self)),
            (expression_result(r), final(self).at(), final(self).next_id) == old(self).source().unary(
                old(self).at(),
                old(self).next_id,
            ),
        decreases old(self).tokens.len() - old(self).current, 26int,
    {
        if self.current < self.tokens.len() && (self.check(0, &TokenType::Bang) || self.check(
            0,
            &TokenType::Minus,
        )) {
            let operator = self.tokens[self.current].clone();
            self.skip(1);
            match self.unary() {
                Ok(operand) => Ok(Expression::Unary(operator, Box::new(operand))),
                Err(error) => Err(error),
            }
        } else {
            self.call()
        }
    }

    /// Whether a binary operator of the level stands at the position.
    fn check_operator(&self, level: u8) -> (r: bool)
        requires
            self.wf(),
        ensures
            r == (is_operator(level as nat, self.source().kind(self.at())) && self.current
                < self.tokens.len()),
    {
        if self.current >= self.tokens.len() {
            return false;
        }
        if level == 0 {
            self.check(0, &TokenType::Slash) || self.check(0, &TokenType::Star)
        } else if level == 1 {
            self.check(0, &TokenType::Minus) || self.check(0, &TokenType::Plus)
        } else if level == 2 {
            self.check(0, &TokenType::GreaterEqual) || self.check(0, &TokenType::Greater)
                || self.check(0, &TokenType::Less) || self.check(0, &TokenType::LessEqual)
        } else {
            self.check(0, &TokenType::BangEqual) || self.check(0, &TokenType::EqualEqual)
        }
    }

    fn operand(&mut self, level: u8) -> (r: Result<Expression, ParserError>)
        requires
            old(self).wf(),
        ensures
            final(self).proceeds(old(self)),
            (expression_result(r), final(self).at(), final(self).next_id) == old(
                self,
            ).source().operand(level as nat, old(self).at(), old(self).next_id),
        decreases old(self).tokens.len() - old(self).current, 27int + 2 * level,
    {
        if level == 0 {
            self.unary()
        } else {
            self.binary(level - 1)
        }
    }

    /// The binary operators of a level and of every level below it.
    #[verifier::loop_isolation(false)]
    fn binary(&mut self, level: u8) -> (r: Result<Expression, ParserError>)
        requires
            old(self).wf(),
        ensures
            final(self).proceeds(old(self)),
            (expression_result(r), final(self).at(), final(self).next_id) == old(
                self,
            ).source().binary(level as nat, old(self).at(), old(self).next_id),
        decreases old(self).tokens.len() - old(self).current, 28int + 2 * level,
    {
        let ghost source = self.source();
        let mut expression = match self.operand(level) {
            Ok(expression) => expression,
            Err(error) => {
                return Err(error);
            },
        };
        let ghost begun = (expression@, self.at(), self.next_id);
        loop
            invariant
                self.proceeds(old(self)),
                source.binary_rest(level as nat, begun.0, begun.1, begun.2) == source.binary_rest(
                    level as nat,
                    expression@,
                    self.at(),
                    self.next_id,
                ),
            decreases self.tokens.len() - self.current,
        {
            if !self.check_operator(level) {
                break ;
            }
            let operator = self.tokens[self.current].clone();
            self.skip(1);
            let right = match self.operand(level) {
                Ok(right) => right,
                Err(error) => {
                    return Err(error);
                },
            };
            expression = Expression::Binary {
                left: Box::new(expression),
                operator,
                right: Box::new(right),
            };
        }
        Ok(expression)
    }

    fn logical_operand(&mut self, disjunction: bool) -> (r: Result<Expression, ParserError>)
        requires
            old(self).wf(),
        ensures
            final(self).proceeds(old(self)),
            (expression_result(r), final(self).at(), final(self).next_id) == old(
                self,
            ).source().logical_operand(disjunction, old(self).at(), old(self).next_id),
        decreases old(self).tokens.len() - old(self).current, (if disjunction {
            39int
        } else {
            37int
        }),
    {
        if disjunction {
            self.logical(false)
        } else {
            self.binary(3)
        }
    }

    /// `or`, where `disjunction` is set, and `and`.
    #[verifier::loop_isolation(false)]
    fn logical(&mut self, disjunction: bool) -> (r: Result<Expression, ParserError>)
        requires
            old(self).wf(),
        ensures
            final(self).proceeds(old(self)),
            (expression_result(r), final(self).at(), final(self).next_id) == old(
                self,
            ).source().logical(disjunction, old(self).at(), old(self).next_id),
        decreases old(self).tokens.len() - old(self).current, (if disjunction {
            40int
        } else {
            38int
        }),
    {
        let ghost source = self.source();
        let mut expression = match self.logical_operand(disjunction) {
            Ok(expression) => expression,
            Err(error) => {
                return Err(error);
            },
        };
        let ghost begun = (expression@, self.at(), self.next_id);
        loop
            invariant
                self.proceeds(old(self)),
                source.logical_rest(disjunction, begun.0, begun.1, begun.2) == source.logical_rest(
                    disjunction,
                    expression@,
                    self.at(),
                    self.next_id,
                ),
            decreases self.tokens.len() - self.current,
        {
            if self.current >= self.tokens.len() {
                break ;
            }
            let found = if disjunction {
                self.check(0, &TokenType::Or)
            } else {
                self.check(0, &TokenType::And)
            };
            if !found {
                break ;
            }
            self.skip(1);
            let right = match self.logical_operand(disjunction) {
                Ok(right) => right,
                Err(error) => {
                    return Err(error);
                },
            };
            expression = if disjunction {
                Expression::Or { left: Box::new(expression), right: Box::new(right) }
            } else {
                Expression::And { left: Box::new(expression), right: Box::new(right) }
            };
        }
        Ok(expression)
    }

    fn assignment(&mut self) -> (r: Result<Expression, ParserError>)
        requires
            old(self).wf(),
        ensures
            final(self).proceeds(old(self)),
            (expression_result(r), final(self).at(), final(self).next_id) == old(
                self,
            ).source().assignment(old(self).at(), old(self).next_id),
        decreases old(self).tokens.len() - old(self).current, 42int,
    {
        let target = match self.logical(true) {
            Ok(target) => target,
            Err(error) => {
                return Err(error);
            },
        };
        if self.current < self.tokens.len() && self.check(0, &TokenType::Equal) {
            let equals = self.tokens[self.current].clone();
            self.skip(1);
            let value = match self.assignment() {
                Ok(value) => value,
                Err(error) => {
                    return Err(error);
                },
            };
            match target {
                Expression::Var { name, .. } => {
                    let id = self.identity();
                    Ok(Expression::Assignment { name, value: Box::new(value), token: equals, id })
                },
                Expression::Get { expression, token } => Ok(
                    Expression::SetField { name: token, object: expression, value: Box::new(value) },
                ),
                _ => Err(ParserError::InvalidAssignmentTarget(equals)),
            }
        } else {
            Ok(target)
        }
    }

    fn expression(&mut self) -> (r: Result<Expression, ParserError>)
        requires
            old(self).wf(),
        ensures
            final(self).proceeds(old(self)),
            (expression_result(r), final(self).at(), final(self).next_id) == old(
                self,
            ).source().expression(old(self).at(), old(self).next_id),
        decreases old(self).tokens.len() - old(self).current, 44int,
    {
        self.assignment()
    }

    /// An expression and the `;` behind it.
    fn terminated(&mut self) -> (r: Result<Expression, ParserError>)
        requires
            old(self).wf(),
        ensures
            final(self).proceeds(old(self)),
            (expression_result(r), final(self).at(), final(self).next_id) == old(
                self,
            ).source().terminated(old(self).at(), old(self).next_id),
        decreases old(self).tokens.len() - old(self).current, 60int,
    {
        let expression = match self.expression() {
            Ok(expression) => expression,
            Err(error) => {
                return Err(error);
            },
        };
        if self.check(0, &TokenType::Semicolon) {
            self.skip(1);
            Ok(expression)
        } else {
            self.expected(TokenType::Semicolon)
        }
    }

    fn variable_declaration(&mut self) -> (r: Result<Statement, ParserError>)
        requires
            old(self).wf(),
        ensures
            final(self).proceeds(old(self)),
            (statement_result(r), final(self).at(), final(self).next_id) == old(
                self,
            ).source().variable_declaration(old(self).at(), old(self).next_id),
        decreases old(self).tokens.len() - old(self).current, 62int,
    {
        if !self.check_identifier(0) {
            return self.expected_identifier();
        }
        let name = match &self.tokens[self.current].token_type {
            TokenType::Identifier(name) => name.clone(),
            _ => {
                return self.expected_identifier();
            },
        };
        if self.check(1, &TokenType::Equal) && self.current + 1 < self.tokens.len() {
            self.skip(2);
            match self.terminated() {
                Ok(initializer) => Ok(
                    Statement::VariableDeclaration { name, initializer: Some(initializer) },
                ),
                Err(error) => Err(error),
            }
        } else if self.check(1, &TokenType::Semicolon) {
            self.skip(2);
            Ok(Statement::VariableDeclaration { name, initializer: None })
        } else {
            self.skip(1);
            self.expected(TokenType::Semicolon)
        }
    }

    /// The parameters of a function behind the first.
    fn parameters_rest(&mut self, first: Token) -> (r: Result<Vec<Token>, ParserError>)
        requires
            old(self).wf(),
        ensures
            final(self).proceeds(old(self)),
            final(self).next_id == old(self).next_id,
            (
                match r {
                    Ok(parameters) => Ok::<Seq<Token>, ParserError>(parameters@),
                    Err(error) => Err(error),
                },
                final(self).at(),
                final(self).next_id,
            ) == old(self).source().parameters_rest(seq![first], old(self).at(), old(self).next_id),
    {
        let mut parameters: Vec<Token> = Vec::new();
        parameters.push(first);
        let ghost source = self.source();
        loop
            invariant
                self.proceeds(old(self)),
                self.next_id == old(self).next_id,
                source == self.source(),
                source.parameters_rest(seq![first], old(self).at(), old(self).next_id)
                    == source.parameters_rest(parameters@, self.at(), self.next_id),
            decreases self.tokens.len() - self.current,
        {
            if !(self.check(0, &TokenType::Comma) && self.current < self.tokens.len()) {
                return Ok(parameters);
            }
            if parameters.len() >= MAX_ARGS {
                self.skip(1);
                return Ok(parameters);
            }
            if !self.check_identifier(1) {
                self.skip(1);
                return self.expected_identifier();
            }
            parameters.push(self.tokens[self.current + 1].clone());
            self.skip(2);
        }
    }

    #[verifier::rlimit(100)]
    fn function_declaration(&mut self) -> (r: Result<Function, ParserError>)
        requires
            old(self).wf(),
        ensures
            final(self).proceeds(old(self)),
            (function_result(r), final(self).at(), final(self).next_id) == old(
                self,
            ).source().function(old(self).at(), old(self).next_id),
        decreases old(self).tokens.len() - old(self).current, 10int,
    {
        if !self.check_identifier(0) {
            return self.expected_identifier();
        }
        let name = match &self.tokens[self.current].token_type {
            TokenType::Identifier(name) => name.clone(),
            _ => {
                return self.expected_identifier();
            },
        };
        if !self.check(1, &TokenType::LeftParen) {
            self.skip(1);
            return self.expected(TokenType::LeftParen);
        }
        let parameters = if self.check(2, &TokenType::RightParen) {
            self.skip(2);
            Vec::new()
        } else if self.check_identifier(2) {
            let first = self.tokens[self.current + 2].clone();
            self.skip(3);
            match self.parameters_rest(first) {
                Ok(parameters) => parameters,
                Err(error) => {
                    return Err(error);
                },
            }
        } else {
            self.skip(2);
            return self.expected_identifier();
        };
        if !self.check(0, &TokenType::RightParen) {
            return self.expected(TokenType::RightParen);
        }
        if !self.check(1, &TokenType::LeftBrace) {
            self.skip(1);
            return self.expected(TokenType::LeftBrace);
        }
        self.skip(2);
        match self.parse_block() {
            Ok(body) => Ok(Function { name, parameters, body }),
            Err(error) => Err(error),
        }
    }

    /// The methods of a class, up to the `}` that closes it.
    fn methods_rest(&mut self) -> (r: Result<Vec<Rc<Function>>, ParserError>)
        requires
            old(self).wf(),
        ensures
            final(self).proceeds(old(self)),
            (
                match r {
                    Ok(methods) => Ok::<Seq<FunctionView>, ParserError>(function_views(methods@)),
                    Err(error) => Err(error),
                },
                final(self).at(),
                final(self).next_id,
            ) == old(self).source().methods_rest(Seq::empty(), old(self).at(), old(self).next_id),
        decreases old(self).tokens.len() - old(self).current, 12int,
    {
        let ghost source = self.source();
        let mut methods: Vec<Rc<Function>> = Vec::new();
        assert(function_views(methods@) =~= Seq::<FunctionView>::empty());
        loop
            invariant
                self.proceeds(old(self)),
                source == self.source(),
                source.methods_rest(Seq::empty(), old(self).at(), old(self).next_id)
                    == source.methods_rest(function_views(methods@), self.at(), self.next_id),
            decreases self.tokens.len() - self.current,
        {
            if self.check(0, &TokenType::RightBrace) {
                return Ok(methods);
            }
            let before = self.current;
            let method = match self.function_declaration() {
                Ok(method) => Rc::new(method),
                Err(error) => {
                    return Err(error);
                },
            };
            proof {
                lemma_push_function(methods@, method);
            }
            methods.push(method);
            if self.current <= before {
                return Ok(methods);
            }
        }
    }

    #[verifier::rlimit(100)]
    fn class_declaration(&mut self) -> (r: Result<Statement, ParserError>)
        requires
            old(self).wf(),
        ensures
            final(self).proceeds(old(self)),
            (statement_result(r), final(self).at(), final(self).next_id) == old(
                self,
            ).source().class_declaration(old(self).at(), old(self).next_id),
        decreases old(self).tokens.len() - old(self).current, 14int,
    {
        if !self.check_identifier(0) {
            return self.expected_identifier();
        }
        let name = match &self.tokens[self.current].token_type {
            TokenType::Identifier(name) => name.clone(),
            _ => {
                return self.expected_identifier();
            },
        };
        let super_class = if self.check(1, &TokenType::Less) {
            if !self.check_identifier(2) {
                self.skip(2);
                return self.expected_identifier();
            }
            let token = self.tokens[self.current + 2].clone();
            let parent = match &self.tokens[self.current + 2].token_type {
                TokenType::Identifier(parent) => parent.clone(),
                _ => {
                    return self.expected_identifier();
                },
            };
            self.skip(3);
            let id = self.identity();
            Some(Expression::Var { name: parent, token, id })
        } else {
            self.skip(1);
            None
        };
        if !self.check(0, &TokenType::LeftBrace) {
            return self.expected(TokenType::LeftBrace);
        }
        self.skip(1);
        let methods = match self.methods_rest() {
            Ok(methods) => methods,
            Err(error) => {
                return Err(error);
            },
        };
        if self.check(0, &TokenType::RightBrace) {
            self.skip(1);
            Ok(Statement::ClassDeclaration { name, methods, super_class })
        } else {
            self.expected(TokenType::RightBrace)
        }
    }

    /// The statements of a block, up to the `}` that closes it or the end.
    fn block_rest(&mut self) -> (r: Result<Vec<Statement>, ParserError>)
        requires
            old(self).wf(),
        ensures
            final(self).proceeds(old(self)),
            (statements_result(r), final(self).at(), final(self).next_id) == old(
                self,
            ).source().block_rest(Seq::empty(), old(self).at(), old(self).next_id),
        decreases old(self).tokens.len() - old(self).current, 72int,
    {
        let ghost source = self.source();
        let mut statements: Vec<Statement> = Vec::new();
        assert(statement_views(statements@) =~= Seq::<StatementView>::empty());
        loop
            invariant
                self.proceeds(old(self)),
                source == self.source(),
                source.block_rest(Seq::empty(), old(self).at(), old(self).next_id)
                    == source.block_rest(statement_views(statements@), self.at(), self.next_id),
            decreases self.tokens.len() - self.current,
        {
            if self.check(0, &TokenType::RightBrace) || self.is_at_end() {
                return Ok(statements);
            }
            let before = self.current;
            let statement = match self.declaration() {
                Ok(statement) => statement,
                Err(error) => {
                    return Err(error);
                },
            };
            proof {
                lemma_push_statement(statements@, statement);
            }
            statements.push(statement);
            if self.current <= before {
                return Ok(statements);
            }
        }
    }

    /// What stands behind the `{` of a block.
    fn parse_block(&mut self) -> (r: Result<Vec<Statement>, ParserError>)
        requires
            old(self).wf(),
        ensures
            final(self).proceeds(old(self)),
            (statements_result(r), final(self).at(), final(self).next_id) == old(
                self,
            ).source().block(old(self).at(), old(self).next_id),
        decreases old(self).tokens.len() - old(self).current, 74int,
    {
        let statements = match self.block_rest() {
            Ok(statements) => statements,
            Err(error) => {
                return Err(error);
            },
        };
        if self.check(0, &TokenType::RightBrace) {
            self.skip(1);
            Ok(statements)
        } else {
            self.expected(TokenType::RightBrace)
        }
    }

    /// An expression in parentheses.
    fn condition(&mut self) -> (r: Result<Expression, ParserError>)
        requires
            old(self).wf(),
        ensures
            final(self).proceeds(old(self)),
            r is Ok ==> final(self).current > old(self).current,
            (expression_result(r), final(self).at(), final(self).next_id) == old(
                self,
            ).source().condition(old(self).at(), old(self).next_id),
        decreases old(self).tokens.len() - old(self).current, 60int,
    {
        if !self.check(0, &TokenType::LeftParen) {
            return self.expected(TokenType::LeftParen);
        }
        self.skip(1);
        let condition = match self.expression() {
            Ok(condition) => condition,
            Err(error) => {
                return Err(error);
            },
        };
        if self.check(0, &TokenType::RightParen) {
            self.skip(1);
            Ok(condition)
        } else {
            self.expected(TokenType::RightParen)
        }
    }

    #[verifier::rlimit(100)]
    fn parse_if_statement(&mut self) -> (r: Result<Statement, ParserError>)
        requires
            old(self).wf(),
        ensures
            final(self).proceeds(old(self)),
            (statement_result(r), final(self).at(), final(self).next_id) == old(
                self,
            ).source().if_statement(old(self).at(), old(self).next_id),
        decreases old(self).tokens.len() - old(self).current, 62int,
    {
        let condition = match self.condition() {
            Ok(condition) => condition,
            Err(error) => {
                return Err(error);
            },
        };
        let then_branch = match self.parse_statement() {
            Ok(then_branch) => then_branch,
            Err(error) => {
                return Err(error);
            },
        };
        if self.current < self.tokens.len() && self.check(0, &TokenType::Else) {
            self.skip(1);
            match self.parse_statement() {
                Ok(else_branch) => Ok(
                    Statement::If {
                        condition,
                        then_branch: Box::new(then_branch),
                        else_branch: Some(Box::new(else_branch)),
                    },
                ),
                Err(error) => Err(error),
            }
        } else {
            Ok(Statement::If { condition, then_branch: Box::new(then_branch), else_branch: None })
        }
    }

    #[verifier::rlimit(100)]
    fn parse_while_statement(&mut self) -> (r: Result<Statement, ParserError>)
        requires
            old(self).wf(),
        ensures
            final(self).proceeds(old(self)),
            (statement_result(r), final(self).at(), final(self).next_id) == old(
                self,
            ).source().while_statement(old(self).at(), old(self).next_id),
        decreases old(self).tokens.len() - old(self).current, 62int,
    {
        let condition = match self.condition() {
            Ok(condition) => condition,
            Err(error) => {
                return Err(error);
            },
        };
        match self.parse_statement() {
            Ok(body) => Ok(Statement::While { condition, body: Box::new(body) }),
            Err(error) => Err(error),
        }
    }

    /// The first clause of a `for`.
    fn for_initializer(&mut self) -> (r: Result<Option<Box<Statement>>, ParserError>)
        requires
            old(self).wf(),
        ensures
            final(self).proceeds(old(self)),
            (
                match r {
                    Ok(Some(statement)) => Ok::<Option<Box<StatementView>>, ParserError>(
                        Some(Box::new(statement@)),
                    ),
                    Ok(None) => Ok(None),
                    Err(error) => Err(error),
                },
                final(self).at(),
                final(self).next_id,
            ) == old(self).source().for_initializer(old(self).at(), old(self).next_id),
        decreases old(self).tokens.len() - old(self).current, 64int,
    {
        if self.check(0, &TokenType::Semicolon) {
            self.skip(1);
            Ok(None)
        } else if self.check(0, &TokenType::Var) && self.current < self.tokens.len() {
            self.skip(1);
            match self.variable_declaration() {
                Ok(declaration) => Ok(Some(Box::new(declaration))),
                Err(error) => Err(error),
            }
        } else {
            match self.terminated() {
                Ok(expression) => Ok(Some(Box::new(Statement::Expression(expression)))),
                Err(error) => Err(error),
            }
        }
    }

    /// A clause of a `for` that may be empty, and the token that ends it.
    fn for_clause(&mut self, closing: TokenType) -> (r: Result<Option<Expression>, ParserError>)
        requires
            old(self).wf(),
            closing is Semicolon || closing is RightParen,
        ensures
            final(self).proceeds(old(self)),
            r is Ok ==> final(self).current > old(self).current,
            (
                match r {
                    Ok(clause) => Ok::<Option<ExpressionView>, ParserError>(optional_view(clause)),
                    Err(error) => Err(error),
                },
                final(self).at(),
                final(self).next_id,
            ) == old(self).source().for_clause(closing, old(self).at(), old(self).next_id),
        decreases old(self).tokens.len() - old(self).current, 64int,
    {
        if self.check(0, &closing) {
            self.skip(1);
            Ok(None)
        } else {
            let clause = match self.expression() {
                Ok(clause) => clause,
                Err(error) => {
                    return Err(error);
                },
            };
            if self.check(0, &closing) {
                self.skip(1);
                Ok(Some(clause))
            } else {
                self.expected(closing)
            }
        }
    }

    /// The three clauses of a `for`, in their parentheses.
    fn for_header(&mut self) -> (r: Result<
        (Option<Box<Statement>>, Option<Expression>, Option<Expression>),
        ParserError,
    >)
        requires
            old(self).wf(),
        ensures
            final(self).proceeds(old(self)),
            r is Ok ==> final(self).current > old(self).current,
            (
                match r {
                    Ok((Some(initializer), condition, increment)) => Ok::<
                        (Option<Box<StatementView>>, Option<ExpressionView>, Option<ExpressionView>),
                        ParserError,
                    >((Some(Box::new(initializer@)), optional_view(condition), optional_view(increment))),
                    Ok((None, condition, increment)) => Ok(
                        (None, optional_view(condition), optional_view(increment)),
                    ),
                    Err(error) => Err(error),
                },
                final(self).at(),
                final(self).next_id,
            ) == old(self).source().for_header(old(self).at(), old(self).next_id),
        decreases old(self).tokens.len() - old(self).current, 65int,
    {
        if !self.check(0, &TokenType::LeftParen) {
            return self.expected(TokenType::LeftParen);
        }
        self.skip(1);
        let initializer = match self.for_initializer() {
            Ok(initializer) => initializer,
            Err(error) => {
                return Err(error);
            },
        };
        let condition = match self.for_clause(TokenType::Semicolon) {
            Ok(condition) => condition,
            Err(error) => {
                return Err(error);
            },
        };
        match self.for_clause(TokenType::RightParen) {
            Ok(increment) => Ok((initializer, condition, increment)),
            Err(error) => Err(error),
        }
    }

    fn parse_for_statement(&mut self) -> (r: Result<Statement, ParserError>)
        requires
            old(self).wf(),
        ensures
            final(self).proceeds(old(self)),
            (statement_result(r), final(self).at(), final(self).next_id) == old(
                self,
            ).source().for_statement(old(self).at(), old(self).next_id),
        decreases old(self).tokens.len() - old(self).current, 66int,
    {
        let (initializer, condition, increment) = match self.for_header() {
            Ok(header) => header,
            Err(error) => {
                return Err(error);
            },
        };
        match self.parse_statement() {
            Ok(body) => Ok(Statement::For { initializer, condition, increment, body: Box::new(body) }),
            Err(error) => Err(error),
        }
    }

    /// An expression statement.
    fn parse_expression_statement(&mut self) -> (r: Result<Statement, ParserError>)
        requires
            old(self).wf(),
        ensures
            final(self).proceeds(old(self)),
            (statement_result(r), final(self).at(), final(self).next_id) == (match old(
                self,
            ).source().terminated(old(self).at(), old(self).next_id) {
                (Ok(expression), next, id) => (
                    Ok::<StatementView, ParserError>(StatementView::Expression(expression)),
                    next,
                    id,
                ),
                (Err(error), next, id) => (Err(error), next, id),
            }),
        decreases old(self).tokens.len() - old(self).current, 61int,
    {
        match self.terminated() {
            Ok(expression) => Ok(Statement::Expression(expression)),
            Err(error) => Err(error),
        }
    }

    #[verifier::rlimit(100)]
    fn parse_statement(&mut self) -> (r: Result<Statement, ParserError>)
        requires
            old(self).wf(),
        ensures
            final(self).proceeds(old(self)),
            (statement_result(r), final(self).at(), final(self).next_id) == old(
                self,
            ).source().statement(old(self).at(), old(self).next_id),
        decreases old(self).tokens.len() - old(self).current, 68int,
    {
        if self.current >= self.tokens.len() {
            return self.parse_expression_statement();
        }
        let token = &self.tokens[self.current];
        match &token.token_type {
            TokenType::Print => {
                self.skip(1);
                match self.terminated() {
                    Ok(expression) => Ok(Statement::Print(expression)),
                    Err(error) => Err(error),
                }
            },
            TokenType::LeftBrace => {
                self.skip(1);
                match self.parse_block() {
                    Ok(statements) => Ok(Statement::Block(statements)),
                    Err(error) => Err(error),
                }
            },
            TokenType::If => {
                self.skip(1);
                self.parse_if_statement()
            },
            TokenType::For => {
                self.skip(1);
                self.parse_for_statement()
            },
            TokenType::While => {
                self.skip(1);
                self.parse_while_statement()
            },
            TokenType::Return => {
                let keyword = token.clone();
                if self.check(1, &TokenType::Semicolon) {
                    self.skip(2);
                    Ok(Statement::Return { keyword, expression: None })
                } else {
                    self.skip(1);
                    match self.terminated() {
                        Ok(expression) => Ok(
                            Statement::Return { keyword, expression: Some(expression) },
                        ),
                        Err(error) => Err(error),
                    }
                }
            },
            TokenType::Break => {
                let keyword = token.clone();
                if self.check(1, &TokenType::Semicolon) {
                    self.skip(2);
                    Ok(Statement::Break { keyword })
                } else {
                    self.skip(1);
                    self.expected(TokenType::Semicolon)
                }
            },
            TokenType::Continue => {
                let keyword = token.clone();
                if self.check(1, &TokenType::Semicolon) {
                    self.skip(2);
                    Ok(Statement::Continue { keyword })
                } else {
                    self.skip(1);
                    self.expected(TokenType::Semicolon)
                }
            },
            _ => self.parse_expression_statement(),
        }
    }

    /// Moves to where parsing would go on behind an error.
    #[verifier::loop_isolation(false)]
    fn synchronize(&mut self)
        requires
            old(self).wf(),
        ensures
            final(self).proceeds(old(self)),
            final(self).next_id == old(self).next_id,
            final(self).at() == old(self).source().synchronize(
                if old(self).current < old(self).tokens.len() && !old(self).source().at_end(
                    old(self).at(),
                ) {
                    old(self).at() + 1
                } else {
                    old(self).at()
                },
            ),
    {
        if !self.is_at_end() {
            self.skip(1);
        }
        let ghost source = self.source();
        let ghost begun = self.at();
        loop
            invariant
                self.proceeds(old(self)),
                self.next_id == old(self).next_id,
                source == self.source(),
                source.synchronize(begun) == source.synchronize(self.at()),
            decreases self.tokens.len() - self.current,
        {
            if self.is_at_end() {
                return ;
            }
            if self.current > 0 && same_kind(
                &self.tokens[self.current - 1].token_type,
                &TokenType::Semicolon,
            ) {
                return ;
            }
            match &self.tokens[self.current].token_type {
                TokenType::Class => {
                    return ;
                },
                TokenType::Fun => {
                    return ;
                },
                TokenType::Var => {
                    return ;
                },
                TokenType::For => {
                    return ;
                },
                TokenType::If => {
                    return ;
                },
                TokenType::While => {
                    return ;
                },
                TokenType::Print => {
                    return ;
                },
                TokenType::Return => {
                    return ;
                },
                TokenType::Continue => {
                    return ;
                },
                _ => {},
            }
            self.skip(1);
        }
    }

    #[verifier::rlimit(100)]
    fn declaration(&mut self) -> (r: Result<Statement, ParserError>)
        requires
            old(self).wf(),
        ensures
            final(self).proceeds(old(self)),
            (statement_result(r), final(self).at(), final(self).next_id) == old(
                self,
            ).source().declaration(old(self).at(), old(self).next_id),
        decreases old(self).tokens.len() - old(self).current, 70int,
    {
        if self.current >= self.tokens.len() {
            return self.parse_statement();
        }
        match &self.tokens[self.current].token_type {
            TokenType::Fun => {
                self.skip(1);
                match self.function_declaration() {
                    Ok(function) => Ok(Statement::FunctionDeclaration(Rc::new(function))),
                    Err(error) => Err(error),
                }
            },
            TokenType::Var => {
                self.skip(1);
                match self.variable_declaration() {
                    Ok(declaration) => Ok(declaration),
                    Err(error) => {
                        self.synchronize();
                        Err(error)
                    },
                }
            },
            TokenType::Class => {
                self.skip(1);
                self.class_declaration()
            },
            _ => self.parse_statement(),
        }
    }

    /// Parses a program: declarations up to the end of the tokens, or the
    /// first error.
    pub fn statements(&mut self) -> (r: Result<Vec<Statement>, ParserError>)
        requires
            old(self).wf(),
        ensures
            final(self).proceeds(old(self)),
            (statements_result(r), final(self).at(), final(self).next_id) == old(
                self,
            ).source().statements(Seq::empty(), old(self).at(), old(self).next_id),
    {
        let ghost source = self.source();
        let mut statements: Vec<Statement> = Vec::new();
        assert(statement_views(statements@) =~= Seq::<StatementView>::empty());
        loop
            invariant
                self.proceeds(old(self)),
                source == self.source(),
                source.statements(Seq::empty(), old(self).at(), old(self).next_id)
                    == source.statements(statement_views(statements@), self.at(), self.next_id),
            decreases self.tokens.len() - self.current,
        {
            if self.is_at_end() {
                return Ok(statements);
            }
            let before = self.current;
            let statement = match self.declaration() {
                Ok(statement) => statement,
                Err(error) => {
                    return Err(error);
                },
            };
            proof {
                lemma_push_statement(statements@, statement);
            }
            statements.push(statement);
            if self.current <= before {
                return Ok(statements);
            }
        }
    }
}

/// Whether a token type is a given one that has no value of its own.
fn same_kind(found: &TokenType, expected: &TokenType) -> (r: bool)
    requires
        !(expected is Identifier) && !(expected is String) && !(expected is Number),
    ensures
        r == (*found == *expected),
{
    match (found, expected) {
        (TokenType::LeftParen, TokenType::LeftParen) => true,
        (TokenType::RightParen, TokenType::RightParen) => true,
        (TokenType::LeftBrace, TokenType::LeftBrace) => true,
        (TokenType::RightBrace, TokenType::RightBrace) => true,
        (TokenType::Comma, TokenType::Comma) => true,
        (TokenType::Dot, TokenType::Dot) => true,
        (TokenType::Minus, TokenType::Minus) => true,
        (TokenType::Plus, TokenType::Plus) => true,
        (TokenType::Semicolon, TokenType::Semicolon) => true,
        (TokenType::Slash, TokenType::Slash) => true,
        (TokenType::Star, TokenType::Star) => true,
        (TokenType::Bang, TokenType::Bang) => true,
        (TokenType::BangEqual, TokenType::BangEqual) => true,
        (TokenType::Equal, TokenType::Equal) => true,
        (TokenType::EqualEqual, TokenType::EqualEqual) => true,
        (TokenType::Greater, TokenType::Greater) => true,
        (TokenType::GreaterEqual, TokenType::GreaterEqual) => true,
        (TokenType::Less, TokenType::Less) => true,
        (TokenType::LessEqual, TokenType::LessEqual) => true,
        (TokenType::And, TokenType::And) => true,
        (TokenType::Class, TokenType::Class) => true,
        (TokenType::Else, TokenType::Else) => true,
        (TokenType::False, TokenType::False) => true,
        (TokenType::Fun, TokenType::Fun) => true,
        (TokenType::For, TokenType::For) => true,
        (TokenType::If, TokenType::If) => true,
        (TokenType::Nil, TokenType::Nil) => true,
        (TokenType::Or, TokenType::Or) => true,
        (TokenType::Print, TokenType::Print) => true,
        (TokenType::Return, TokenType::Return) => true,
        (TokenType::Break, TokenType::Break) => true,
        (TokenType::Continue, TokenType::Continue) => true,
        (TokenType::Super, TokenType::Super) => true,
        (TokenType::This, TokenType::This) => true,
        (TokenType::True, TokenType::True) => true,
        (TokenType::Var, TokenType::Var) => true,
        (TokenType::While, TokenType::While) => true,
        (TokenType::Eof, TokenType::Eof) => true,
        _ => false,
    }
}

} // verus!
