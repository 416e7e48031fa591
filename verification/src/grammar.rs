//! The grammar: the function from a sequence of tokens to the syntax tree
//! that it denotes, or to the first error in it.
//!
//! Every rule takes the position `at` of the token it begins with and the
//! identity `id` that the next variable occurrence gets, and gives the
//! position and the identity behind what it has read.

use crate::expression::ExpressionView;
use crate::statement::{FunctionView, StatementView};
use crate::token::{Token, TokenType};
use vstd::prelude::*;

verus! {

/// The most arguments of a call, and parameters of a function, that are read.
pub const MAX_ARGS: usize = 255;

#[derive(Debug, PartialEq, Eq)]
pub enum ParserError {
    /// A token of this type was expected and another stands there; or no
    /// expression begins with a token of this type.
    FailedMatch(TokenType),
    /// What stands left of this `=` cannot be assigned to.
    InvalidAssignmentTarget(Token),
}

/// What the parser reads.
pub struct Source {
    pub tokens: Seq<Token>,
    /// The name in the error that an identifier was expected.
    pub undefined: String,
}

/// What a rule gives: the tree or the error, and the position and identity behind it.
pub type Parsed<T> = (Result<T, ParserError>, int, usize);

impl Source {
    /// The type of the token at a position; past the last token, the end.
    pub open spec fn kind(self, at: int) -> TokenType {
        if 0 <= at < self.tokens.len() {
            self.tokens[at].token_type
        } else {
            TokenType::Eof
        }
    }

    /// Whether `next` lies behind `at`, and not behind the end.
    pub open spec fn ahead(self, at: int, next: int) -> bool {
        at < next <= self.tokens.len()
    }

    /// Whether `next` lies at `at` or behind it, and not behind the end.
    pub open spec fn within(self, at: int, next: int) -> bool {
        at <= next <= self.tokens.len()
    }

    /// Whether no token of the program stands at the position.
    pub open spec fn at_end(self, at: int) -> bool {
        self.kind(at) is Eof
    }

    /// The error that a token of the given type was expected.
    pub open spec fn expected<T>(self, token_type: TokenType, at: int, id: usize) -> Parsed<T> {
        (Err(ParserError::FailedMatch(token_type)), at, id)
    }

    /// The error that an identifier was expected.
    pub open spec fn expected_identifier<T>(self, at: int, id: usize) -> Parsed<T> {
        (Err(ParserError::FailedMatch(TokenType::Identifier(self.undefined))), at, id)
    }

    // Expressions.

    /// primary → `true` | `false` | `nil` | `this` | number | string | identifier | `(` expression `)`
    pub open spec fn primary(self, at: int, id: usize) -> Parsed<ExpressionView>
        decreases self.tokens.len() - at, 22int,
    {
        match self.kind(at) {
            TokenType::False => (Ok(ExpressionView::False), at + 1, id),
            TokenType::True => (Ok(ExpressionView::True), at + 1, id),
            TokenType::Nil => (Ok(ExpressionView::Nil), at + 1, id),
            TokenType::Number(number) => (Ok(ExpressionView::Number(number)), at + 1, id),
            TokenType::String(text) => (Ok(ExpressionView::String(text)), at + 1, id),
            TokenType::Identifier(name) => (
                Ok(ExpressionView::Var { name, token: self.tokens[at], id }),
                at + 1,
                (id + 1) as usize,
            ),
            TokenType::This => (
                Ok(ExpressionView::This { keyword: self.tokens[at], id }),
                at + 1,
                (id + 1) as usize,
            ),
            TokenType::LeftParen => {
                let (inner, next, id) = self.expression(at + 1, id);
                match inner {
                    Err(error) => (Err(error), next, id),
                    Ok(inner) => if self.kind(next) is RightParen {
                        (Ok(ExpressionView::Grouping(Box::new(inner))), next + 1, id)
                    } else {
                        self.expected(TokenType::RightParen, next, id)
                    },
                }
            },
            other => self.expected(other, at, id),
        }
    }

    /// The arguments of a call behind the first, each behind a comma.
    pub open spec fn arguments_rest(self, done: Seq<ExpressionView>, at: int, id: usize) -> Parsed<
        Seq<ExpressionView>,
    >
        decreases self.tokens.len() - at, 48int,
    {
        if self.kind(at) is Comma && at < self.tokens.len() {
            let (argument, next, id) = self.expression(at + 1, id);
            match argument {
                Err(error) => (Err(error), next, id),
                Ok(argument) => if done.len() + 1 >= MAX_ARGS || !self.ahead(at, next) {
                    (Ok(done.push(argument)), next, id)
                } else {
                    self.arguments_rest(done.push(argument), next, id)
                },
            }
        } else {
            (Ok(done), at, id)
        }
    }

    /// What stands behind the `(` of a call: the arguments and the `)`.
    pub open spec fn finish_call(self, callee: ExpressionView, at: int, id: usize) -> Parsed<
        ExpressionView,
    >
        decreases self.tokens.len() - at, 50int,
    {
        let (arguments, next, id) = if self.kind(at) is RightParen {
            (Ok(Seq::empty()), at, id)
        } else {
            let (first, next, id) = self.expression(at, id);
            match first {
                Err(error) => (Err(error), next, id),
                Ok(first) => if !self.within(at, next) {
                    (Ok(seq![first]), next, id)
                } else {
                    self.arguments_rest(seq![first], next, id)
                },
            }
        };
        match arguments {
            Err(error) => (Err(error), next, id),
            Ok(args) => if self.kind(next) is RightParen {
                (
                    Ok(
                        ExpressionView::Call {
                            callee: Box::new(callee),
                            paren: self.tokens[next],
                            args,
                        },
                    ),
                    next + 1,
                    id,
                )
            } else {
                self.expected(TokenType::RightParen, next, id)
            },
        }
    }

    /// The calls and property accesses behind an expression.
    pub open spec fn call_rest(self, callee: ExpressionView, at: int, id: usize) -> Parsed<
        ExpressionView,
    >
        decreases self.tokens.len() - at, 23int,
    {
        if self.kind(at) is LeftParen && at < self.tokens.len() {
            let (called, next, id) = self.finish_call(callee, at + 1, id);
            match called {
                Err(error) => (Err(error), next, id),
                Ok(called) => if !self.ahead(at, next) {
                    (Ok(called), next, id)
                } else {
                    self.call_rest(called, next, id)
                },
            }
        } else if self.kind(at) is Dot && at < self.tokens.len() {
            if self.kind(at + 1) is Identifier {
                self.call_rest(
                    ExpressionView::Get { expression: Box::new(callee), token: self.tokens[at + 1] },
                    at + 2,
                    id,
                )
            } else {
                self.expected_identifier(at + 1, id)
            }
        } else {
            (Ok(callee), at, id)
        }
    }

    /// call → primary ( `(` arguments? `)` | `.` identifier )*
    pub open spec fn call(self, at: int, id: usize) -> Parsed<ExpressionView>
        decreases self.tokens.len() - at, 24int,
    {
        let (callee, next, id) = self.primary(at, id);
        match callee {
            Err(error) => (Err(error), next, id),
            Ok(callee) => if !self.within(at, next) {
                (Ok(callee), next, id)
            } else {
                self.call_rest(callee, next, id)
            },
        }
    }

    /// unary → ( `!` | `-` ) unary | call
    pub open spec fn unary(self, at: int, id: usize) -> Parsed<ExpressionView>
        decreases self.tokens.len() - at, 26int,
    {
        if (self.kind(at) is Bang || self.kind(at) is Minus) && at < self.tokens.len() {
            let (operand, next, id) = self.unary(at + 1, id);
            match operand {
                Err(error) => (Err(error), next, id),
                Ok(operand) => (
                    Ok(ExpressionView::Unary(self.tokens[at], Box::new(operand))),
                    next,
                    id,
                ),
            }
        } else {
            self.call(at, id)
        }
    }

    /// The operand of a binary operator of a level: a unary expression at
    /// level 0, an expression of the level below at every other.
    pub open spec fn operand(self, level: nat, at: int, id: usize) -> Parsed<ExpressionView>
        decreases self.tokens.len() - at, 27int + 2 * level,
    {
        if level == 0 {
            self.unary(at, id)
        } else {
            self.binary((level - 1) as nat, at, id)
        }
    }

    /// What stands behind the left operand of a binary operator of a level.
    pub open spec fn binary_rest(self, level: nat, left: ExpressionView, at: int, id: usize) -> Parsed<
        ExpressionView,
    >
        decreases self.tokens.len() - at, 27int + 2 * level,
    {
        if is_operator(level, self.kind(at)) && at < self.tokens.len() {
            let (right, next, id) = self.operand(level, at + 1, id);
            match right {
                Err(error) => (Err(error), next, id),
                Ok(right) => {
                    let joined = ExpressionView::Binary {
                        left: Box::new(left),
                        operator: self.tokens[at],
                        right: Box::new(right),
                    };
                    if !self.ahead(at, next) {
                        (Ok(joined), next, id)
                    } else {
                        self.binary_rest(level, joined, next, id)
                    }
                },
            }
        } else {
            (Ok(left), at, id)
        }
    }

    /// The binary operators, which group to the left. Level 0 is `/ *`,
    /// level 1 `- +`, level 2 `> >= < <=`, level 3 `!= ==`.
    pub open spec fn binary(self, level: nat, at: int, id: usize) -> Parsed<ExpressionView>
        decreases self.tokens.len() - at, 28int + 2 * level,
    {
        let (left, next, id) = self.operand(level, at, id);
        match left {
            Err(error) => (Err(error), next, id),
            Ok(left) => if !self.within(at, next) {
                (Ok(left), next, id)
            } else {
                self.binary_rest(level, left, next, id)
            },
        }
    }

    /// The operand of `and` (an equality) and of `or` (a conjunction).
    pub open spec fn logical_operand(self, disjunction: bool, at: int, id: usize) -> Parsed<
        ExpressionView,
    >
        decreases self.tokens.len() - at, (if disjunction { 39int } else { 37int }),
    {
        if disjunction {
            self.logical(false, at, id)
        } else {
            self.binary(3, at, id)
        }
    }

    /// What stands behind the left operand of `and` or `or`.
    pub open spec fn logical_rest(self, disjunction: bool, left: ExpressionView, at: int, id: usize) -> Parsed<
        ExpressionView,
    >
        decreases self.tokens.len() - at, (if disjunction { 39int } else { 37int }),
    {
        if (if disjunction {
            self.kind(at) is Or
        } else {
            self.kind(at) is And
        }) && at < self.tokens.len() {
            let (right, next, id) = self.logical_operand(disjunction, at + 1, id);
            match right {
                Err(error) => (Err(error), next, id),
                Ok(right) => {
                    let joined = if disjunction {
                        ExpressionView::Or { left: Box::new(left), right: Box::new(right) }
                    } else {
                        ExpressionView::And { left: Box::new(left), right: Box::new(right) }
                    };
                    if !self.ahead(at, next) {
                        (Ok(joined), next, id)
                    } else {
                        self.logical_rest(disjunction, joined, next, id)
                    }
                },
            }
        } else {
            (Ok(left), at, id)
        }
    }

    /// `and` and `or`, which group to the left; `and` binds tighter.
    pub open spec fn logical(self, disjunction: bool, at: int, id: usize) -> Parsed<ExpressionView>
        decreases self.tokens.len() - at, (if disjunction { 40int } else { 38int }),
    {
        let (left, next, id) = self.logical_operand(disjunction, at, id);
        match left {
            Err(error) => (Err(error), next, id),
            Ok(left) => if !self.within(at, next) {
                (Ok(left), next, id)
            } else {
                self.logical_rest(disjunction, left, next, id)
            },
        }
    }

    /// assignment → ( call `.` )? identifier `=` assignment | disjunction
    pub open spec fn assignment(self, at: int, id: usize) -> Parsed<ExpressionView>
        decreases self.tokens.len() - at, 42int,
    {
        let (target, next, id) = self.logical(true, at, id);
        match target {
            Err(error) => (Err(error), next, id),
            Ok(target) => if self.kind(next) is Equal && self.within(at, next) && next < self.tokens.len() {
                let (value, behind, id) = self.assignment(next + 1, id);
                match value {
                    Err(error) => (Err(error), behind, id),
                    Ok(value) => match target {
                        ExpressionView::Var { name, .. } => (
                            Ok(
                                ExpressionView::Assignment {
                                    name,
                                    value: Box::new(value),
                                    token: self.tokens[next],
                                    id,
                                },
                            ),
                            behind,
                            (id + 1) as usize,
                        ),
                        ExpressionView::Get { expression, token } => (
                            Ok(
                                ExpressionView::SetField {
                                    name: token,
                                    object: expression,
                                    value: Box::new(value),
                                },
                            ),
                            behind,
                            id,
                        ),
                        _ => (
                            Err(ParserError::InvalidAssignmentTarget(self.tokens[next])),
                            behind,
                            id,
                        ),
                    },
                }
            } else {
                (Ok(target), next, id)
            },
        }
    }

    /// expression → assignment
    pub open spec fn expression(self, at: int, id: usize) -> Parsed<ExpressionView>
        decreases self.tokens.len() - at, 44int,
    {
        self.assignment(at, id)
    }

    // Statements.

    /// An expression and the `;` behind it.
    pub open spec fn terminated(self, at: int, id: usize) -> Parsed<ExpressionView>
        decreases self.tokens.len() - at, 60int,
    {
        let (expression, next, id) = self.expression(at, id);
        match expression {
            Err(error) => (Err(error), next, id),
            Ok(expression) => if self.kind(next) is Semicolon {
                (Ok(expression), next + 1, id)
            } else {
                self.expected(TokenType::Semicolon, next, id)
            },
        }
    }

    /// What stands behind `var`: a name, an initializer if there is one, and `;`.
    pub open spec fn variable_declaration(self, at: int, id: usize) -> Parsed<StatementView>
        decreases self.tokens.len() - at, 62int,
    {
        match self.kind(at) {
            TokenType::Identifier(name) => if self.kind(at + 1) is Equal && at + 1
                < self.tokens.len() {
                let (initializer, next, id) = self.terminated(at + 2, id);
                match initializer {
                    Err(error) => (Err(error), next, id),
                    Ok(initializer) => (
                        Ok(
                            StatementView::VariableDeclaration {
                                name,
                                initializer: Some(initializer),
                            },
                        ),
                        next,
                        id,
                    ),
                }
            } else if self.kind(at + 1) is Semicolon {
                (Ok(StatementView::VariableDeclaration { name, initializer: None }), at + 2, id)
            } else {
                self.expected(TokenType::Semicolon, at + 1, id)
            },
            _ => self.expected_identifier(at, id),
        }
    }

    /// The parameters of a function behind the first, each behind a comma.
    pub open spec fn parameters_rest(self, done: Seq<Token>, at: int, id: usize) -> Parsed<Seq<Token>>
        decreases self.tokens.len() - at,
    {
        if self.kind(at) is Comma && at < self.tokens.len() {
            if done.len() >= MAX_ARGS {
                (Ok(done), at + 1, id)
            } else if self.kind(at + 1) is Identifier {
                self.parameters_rest(done.push(self.tokens[at + 1]), at + 2, id)
            } else {
                self.expected_identifier(at + 1, id)
            }
        } else {
            (Ok(done), at, id)
        }
    }

    /// function → identifier `(` parameters? `)` block
    pub open spec fn function(self, at: int, id: usize) -> Parsed<FunctionView>
        decreases self.tokens.len() - at, 10int,
    {
        match self.kind(at) {
            TokenType::Identifier(name) => if !(self.kind(at + 1) is LeftParen) {
                self.expected(TokenType::LeftParen, at + 1, id)
            } else {
                let (parameters, next, id) = if self.kind(at + 2) is RightParen {
                    (Ok(Seq::empty()), at + 2, id)
                } else if self.kind(at + 2) is Identifier {
                    self.parameters_rest(seq![self.tokens[at + 2]], at + 3, id)
                } else {
                    self.expected_identifier(at + 2, id)
                };
                match parameters {
                    Err(error) => (Err(error), next, id),
                    Ok(parameters) => if !(self.kind(next) is RightParen) {
                        self.expected(TokenType::RightParen, next, id)
                    } else if !(self.kind(next + 1) is LeftBrace) {
                        self.expected(TokenType::LeftBrace, next + 1, id)
                    } else if !self.within(at, next) {
                        self.expected(TokenType::LeftBrace, next + 1, id)
                    } else {
                        let (body, behind, id) = self.block(next + 2, id);
                        match body {
                            Err(error) => (Err(error), behind, id),
                            Ok(body) => (Ok(FunctionView { name, parameters, body }), behind, id),
                        }
                    },
                }
            },
            _ => self.expected_identifier(at, id),
        }
    }

    /// The methods of a class, up to the `}` that closes it.
    pub open spec fn methods_rest(self, done: Seq<FunctionView>, at: int, id: usize) -> Parsed<
        Seq<FunctionView>,
    >
        decreases self.tokens.len() - at, 12int,
    {
        if self.kind(at) is RightBrace {
            (Ok(done), at, id)
        } else {
            let (method, next, id) = self.function(at, id);
            match method {
                Err(error) => (Err(error), next, id),
                Ok(method) => if !self.ahead(at, next) {
                    (Ok(done.push(method)), next, id)
                } else {
                    self.methods_rest(done.push(method), next, id)
                },
            }
        }
    }

    /// What stands behind `class`: a name, a superclass behind `<` if there
    /// is one, and the methods in braces.
    pub open spec fn class_declaration(self, at: int, id: usize) -> Parsed<StatementView>
        decreases self.tokens.len() - at, 14int,
    {
        match self.kind(at) {
            TokenType::Identifier(name) => {
                let (super_class, next, id) = if self.kind(at + 1) is Less {
                    match self.kind(at + 2) {
                        TokenType::Identifier(parent) => (
                            Ok(
                                Some(
                                    ExpressionView::Var { name: parent, token: self.tokens[at + 2], id },
                                ),
                            ),
                            at + 3,
                            (id + 1) as usize,
                        ),
                        _ => self.expected_identifier(at + 2, id),
                    }
                } else {
                    (Ok(None), at + 1, id)
                };
                match super_class {
                    Err(error) => (Err(error), next, id),
                    Ok(super_class) => if !(self.kind(next) is LeftBrace) {
                        self.expected(TokenType::LeftBrace, next, id)
                    } else {
                        let (methods, behind, id) = self.methods_rest(Seq::empty(), next + 1, id);
                        match methods {
                            Err(error) => (Err(error), behind, id),
                            Ok(methods) => if self.kind(behind) is RightBrace {
                                (
                                    Ok(StatementView::ClassDeclaration { name, methods, super_class }),
                                    behind + 1,
                                    id,
                                )
                            } else {
                                self.expected(TokenType::RightBrace, behind, id)
                            },
                        }
                    },
                }
            },
            _ => self.expected_identifier(at, id),
        }
    }

    /// The statements of a block, up to the `}` that closes it or the end.
    pub open spec fn block_rest(self, done: Seq<StatementView>, at: int, id: usize) -> Parsed<
        Seq<StatementView>,
    >
        decreases self.tokens.len() - at, 72int,
    {
        if self.kind(at) is RightBrace || self.at_end(at) {
            (Ok(done), at, id)
        } else {
            let (statement, next, id) = self.declaration(at, id);
            match statement {
                Err(error) => (Err(error), next, id),
                Ok(statement) => if !self.ahead(at, next) {
                    (Ok(done.push(statement)), next, id)
                } else {
                    self.block_rest(done.push(statement), next, id)
                },
            }
        }
    }

    /// What stands behind the `{` of a block: declarations and the `}`.
    pub open spec fn block(self, at: int, id: usize) -> Parsed<Seq<StatementView>>
        decreases self.tokens.len() - at, 74int,
    {
        let (statements, next, id) = self.block_rest(Seq::empty(), at, id);
        match statements {
            Err(error) => (Err(error), next, id),
            Ok(statements) => if self.kind(next) is RightBrace {
                (Ok(statements), next + 1, id)
            } else {
                self.expected(TokenType::RightBrace, next, id)
            },
        }
    }

    /// An expression in parentheses: the condition of `if` and `while`.
    pub open spec fn condition(self, at: int, id: usize) -> Parsed<ExpressionView>
        decreases self.tokens.len() - at, 60int,
    {
        if !(self.kind(at) is LeftParen) {
            self.expected(TokenType::LeftParen, at, id)
        } else {
            let (condition, next, id) = self.expression(at + 1, id);
            match condition {
                Err(error) => (Err(error), next, id),
                Ok(condition) => if self.kind(next) is RightParen {
                    (Ok(condition), next + 1, id)
                } else {
                    self.expected(TokenType::RightParen, next, id)
                },
            }
        }
    }

    /// What stands behind `if`.
    pub open spec fn if_statement(self, at: int, id: usize) -> Parsed<StatementView>
        decreases self.tokens.len() - at, 62int,
    {
        let (condition, next, id) = self.condition(at, id);
        match condition {
            Err(error) => (Err(error), next, id),
            Ok(condition) => if !self.ahead(at, next) {
                self.expected(TokenType::LeftParen, next, id)
            } else {
                let (then_branch, behind, id) = self.statement(next, id);
                match then_branch {
                    Err(error) => (Err(error), behind, id),
                    Ok(then_branch) => if self.kind(behind) is Else && next <= behind
                        < self.tokens.len() {
                        let (else_branch, last, id) = self.statement(behind + 1, id);
                        match else_branch {
                            Err(error) => (Err(error), last, id),
                            Ok(else_branch) => (
                                Ok(
                                    StatementView::If {
                                        condition,
                                        then_branch: Box::new(then_branch),
                                        else_branch: Some(Box::new(else_branch)),
                                    },
                                ),
                                last,
                                id,
                            ),
                        }
                    } else {
                        (
                            Ok(
                                StatementView::If {
                                    condition,
                                    then_branch: Box::new(then_branch),
                                    else_branch: None,
                                },
                            ),
                            behind,
                            id,
                        )
                    },
                }
            },
        }
    }

    /// What stands behind `while`.
    pub open spec fn while_statement(self, at: int, id: usize) -> Parsed<StatementView>
        decreases self.tokens.len() - at, 62int,
    {
        let (condition, next, id) = self.condition(at, id);
        match condition {
            Err(error) => (Err(error), next, id),
            Ok(condition) => if !self.ahead(at, next) {
                self.expected(TokenType::LeftParen, next, id)
            } else {
                let (body, behind, id) = self.statement(next, id);
                match body {
                    Err(error) => (Err(error), behind, id),
                    Ok(body) => (
                        Ok(StatementView::While { condition, body: Box::new(body) }),
                        behind,
                        id,
                    ),
                }
            },
        }
    }

    /// The first clause of a `for`, behind its `(`.
    pub open spec fn for_initializer(self, at: int, id: usize) -> Parsed<Option<Box<StatementView>>>
        decreases self.tokens.len() - at, 64int,
    {
        if self.kind(at) is Semicolon {
            (Ok(None), at + 1, id)
        } else if self.kind(at) is Var && at < self.tokens.len() {
            let (declaration, next, id) = self.variable_declaration(at + 1, id);
            match declaration {
                Err(error) => (Err(error), next, id),
                Ok(declaration) => (Ok(Some(Box::new(declaration))), next, id),
            }
        } else {
            let (expression, next, id) = self.terminated(at, id);
            match expression {
                Err(error) => (Err(error), next, id),
                Ok(expression) => (
                    Ok(Some(Box::new(StatementView::Expression(expression)))),
                    next,
                    id,
                ),
            }
        }
    }

    /// A clause of a `for` that may be empty, and the token that ends it.
    pub open spec fn for_clause(self, closing: TokenType, at: int, id: usize) -> Parsed<
        Option<ExpressionView>,
    >
        decreases self.tokens.len() - at, 64int,
    {
        if self.kind(at) == closing {
            (Ok(None), at + 1, id)
        } else {
            let (clause, next, id) = self.expression(at, id);
            match clause {
                Err(error) => (Err(error), next, id),
                Ok(clause) => if self.kind(next) == closing {
                    (Ok(Some(clause)), next + 1, id)
                } else {
                    self.expected(closing, next, id)
                },
            }
        }
    }

    /// The three clauses of a `for`, in their parentheses.
    pub open spec fn for_header(self, at: int, id: usize) -> Parsed<
        (Option<Box<StatementView>>, Option<ExpressionView>, Option<ExpressionView>),
    >
        decreases self.tokens.len() - at, 65int,
    {
        if !(self.kind(at) is LeftParen) {
            self.expected(TokenType::LeftParen, at, id)
        } else {
            let (initializer, first, id) = self.for_initializer(at + 1, id);
            match initializer {
                Err(error) => (Err(error), first, id),
                Ok(initializer) => {
                    let (condition, second, id) = self.for_clause(TokenType::Semicolon, first, id);
                    match condition {
                        Err(error) => (Err(error), second, id),
                        Ok(condition) => {
                            let (increment, third, id) = self.for_clause(
                                TokenType::RightParen,
                                second,
                                id,
                            );
                            match increment {
                                Err(error) => (Err(error), third, id),
                                Ok(increment) => (Ok((initializer, condition, increment)), third, id),
                            }
                        },
                    }
                },
            }
        }
    }

    /// What stands behind `for`.
    pub open spec fn for_statement(self, at: int, id: usize) -> Parsed<StatementView>
        decreases self.tokens.len() - at, 66int,
    {
        let (header, next, id) = self.for_header(at, id);
        match header {
            Err(error) => (Err(error), next, id),
            Ok((initializer, condition, increment)) => if !self.ahead(at, next) {
                self.expected(TokenType::RightParen, next, id)
            } else {
                let (body, behind, id) = self.statement(next, id);
                match body {
                    Err(error) => (Err(error), behind, id),
                    Ok(body) => (
                        Ok(
                            StatementView::For {
                                initializer,
                                condition,
                                increment,
                                body: Box::new(body),
                            },
                        ),
                        behind,
                        id,
                    ),
                }
            },
        }
    }

    /// statement → print | block | if | for | while | return | break | continue | expression `;`
    pub open spec fn statement(self, at: int, id: usize) -> Parsed<StatementView>
        decreases self.tokens.len() - at, 68int,
    {
        if at >= self.tokens.len() {
            let (expression, next, id) = self.terminated(at, id);
            match expression {
                Err(error) => (Err(error), next, id),
                Ok(expression) => (Ok(StatementView::Expression(expression)), next, id),
            }
        } else {
            match self.kind(at) {
                TokenType::Print => {
                    let (expression, next, id) = self.terminated(at + 1, id);
                    match expression {
                        Err(error) => (Err(error), next, id),
                        Ok(expression) => (Ok(StatementView::Print(expression)), next, id),
                    }
                },
                TokenType::LeftBrace => {
                    let (statements, next, id) = self.block(at + 1, id);
                    match statements {
                        Err(error) => (Err(error), next, id),
                        Ok(statements) => (Ok(StatementView::Block(statements)), next, id),
                    }
                },
                TokenType::If => self.if_statement(at + 1, id),
                TokenType::For => self.for_statement(at + 1, id),
                TokenType::While => self.while_statement(at + 1, id),
                TokenType::Return => if self.kind(at + 1) is Semicolon {
                    (
                        Ok(StatementView::Return { keyword: self.tokens[at], expression: None }),
                        at + 2,
                        id,
                    )
                } else {
                    let (expression, next, id) = self.terminated(at + 1, id);
                    match expression {
                        Err(error) => (Err(error), next, id),
                        Ok(expression) => (
                            Ok(
                                StatementView::Return {
                                    keyword: self.tokens[at],
                                    expression: Some(expression),
                                },
                            ),
                            next,
                            id,
                        ),
                    }
                },
                TokenType::Break => if self.kind(at + 1) is Semicolon {
                    (Ok(StatementView::Break { keyword: self.tokens[at] }), at + 2, id)
                } else {
                    self.expected(TokenType::Semicolon, at + 1, id)
                },
                TokenType::Continue => if self.kind(at + 1) is Semicolon {
                    (Ok(StatementView::Continue { keyword: self.tokens[at] }), at + 2, id)
                } else {
                    self.expected(TokenType::Semicolon, at + 1, id)
                },
                _ => {
                    let (expression, next, id) = self.terminated(at, id);
                    match expression {
                        Err(error) => (Err(error), next, id),
                        Ok(expression) => (Ok(StatementView::Expression(expression)), next, id),
                    }
                },
            }
        }
    }

    /// Where parsing would go on behind an error: behind the next `;`, or
    /// before the next token that begins a statement.
    pub open spec fn synchronize(self, at: int) -> int
        decreases self.tokens.len() - at,
    {
        if at < 0 || self.at_end(at) {
            at
        } else if at > 0 && self.kind(at - 1) is Semicolon {
            at
        } else {
            match self.kind(at) {
                TokenType::Class => at,
                TokenType::Fun => at,
                TokenType::Var => at,
                TokenType::For => at,
                TokenType::If => at,
                TokenType::While => at,
                TokenType::Print => at,
                TokenType::Return => at,
                TokenType::Continue => at,
                _ => self.synchronize(at + 1),
            }
        }
    }

    /// declaration → `fun` function | `var` … | `class` … | statement
    pub open spec fn declaration(self, at: int, id: usize) -> Parsed<StatementView>
        decreases self.tokens.len() - at, 70int,
    {
        if at >= self.tokens.len() {
            self.statement(at, id)
        } else {
            match self.kind(at) {
                TokenType::Fun => {
                    let (function, next, id) = self.function(at + 1, id);
                    match function {
                        Err(error) => (Err(error), next, id),
                        Ok(function) => (
                            Ok(StatementView::FunctionDeclaration(Box::new(function))),
                            next,
                            id,
                        ),
                    }
                },
                TokenType::Var => {
                    let (declaration, next, id) = self.variable_declaration(at + 1, id);
                    match declaration {
                        Err(error) => (
                            Err(error),
                            self.synchronize(
                                if next < self.tokens.len() && !self.at_end(next) {
                                    next + 1
                                } else {
                                    next
                                },
                            ),
                            id,
                        ),
                        Ok(declaration) => (Ok(declaration), next, id),
                    }
                },
                TokenType::Class => self.class_declaration(at + 1, id),
                _ => self.statement(at, id),
            }
        }
    }

    /// program → declaration* end
    pub open spec fn statements(self, done: Seq<StatementView>, at: int, id: usize) -> Parsed<
        Seq<StatementView>,
    >
        decreases self.tokens.len() - at, 80int,
    {
        if self.at_end(at) {
            (Ok(done), at, id)
        } else {
            let (statement, next, id) = self.declaration(at, id);
            match statement {
                Err(error) => (Err(error), next, id),
                Ok(statement) => if !self.ahead(at, next) {
                    (Ok(done.push(statement)), next, id)
                } else {
                    self.statements(done.push(statement), next, id)
                },
            }
        }
    }
}

/// Whether a token type is a binary operator of a level.
pub open spec fn is_operator(level: nat, token_type: TokenType) -> bool {
    if level == 0 {
        token_type is Slash || token_type is Star
    } else if level == 1 {
        token_type is Minus || token_type is Plus
    } else if level == 2 {
        token_type is GreaterEqual || token_type is Greater || token_type is Less
            || token_type is LessEqual
    } else {
        token_type is BangEqual || token_type is EqualEqual
    }
}

} // verus!
