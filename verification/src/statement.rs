//! Statements of the syntax tree.

use crate::expression::{expression_view, Expression, ExpressionView};
use crate::token::Token;
use std::rc::Rc;
use vstd::prelude::*;

verus! {

pub type Block = Vec<Statement>;

/// A function or method declaration. Closures share it with the tree.
#[derive(Debug, PartialEq, Eq)]
pub struct Function {
    pub name: String,
    pub parameters: Vec<Token>,
    pub body: Block,
}

#[derive(Debug, PartialEq, Eq)]
#[allow(inconsistent_fields)]
pub enum Statement {
    Expression(Expression),
    Print(Expression),
    VariableDeclaration { name: String, initializer: Option<Expression> },
    FunctionDeclaration(Rc<Function>),
    Block(Block),
    If { condition: Expression, then_branch: Box<Statement>, else_branch: Option<Box<Statement>> },
    While { condition: Expression, body: Box<Statement> },
    For {
        initializer: Option<Box<Statement>>,
        condition: Option<Expression>,
        increment: Option<Expression>,
        body: Box<Statement>,
    },
    ClassDeclaration { name: String, methods: Vec<Rc<Function>>, super_class: Option<Expression> },
    Return { keyword: Token, expression: Option<Expression> },
    Break { keyword: Token },
    Continue { keyword: Token },
}

/// A function declaration, as the contracts see it.
pub struct FunctionView {
    pub name: String,
    pub parameters: Seq<Token>,
    pub body: Seq<StatementView>,
}

/// A statement, as the contracts see it: the same tree, with sequences in the place of vectors.
#[allow(inconsistent_fields)]
pub enum StatementView {
    Expression(ExpressionView),
    Print(ExpressionView),
    VariableDeclaration { name: String, initializer: Option<ExpressionView> },
    FunctionDeclaration(Box<FunctionView>),
    Block(Seq<StatementView>),
    If {
        condition: ExpressionView,
        then_branch: Box<StatementView>,
        else_branch: Option<Box<StatementView>>,
    },
    While { condition: ExpressionView, body: Box<StatementView> },
    For {
        initializer: Option<Box<StatementView>>,
        condition: Option<ExpressionView>,
        increment: Option<ExpressionView>,
        body: Box<StatementView>,
    },
    ClassDeclaration { name: String, methods: Seq<FunctionView>, super_class: Option<ExpressionView> },
    Return { keyword: Token, expression: Option<ExpressionView> },
    Break { keyword: Token },
    Continue { keyword: Token },
}

/// The view of an expression that may be absent.
pub open spec fn optional_view(expression: Option<Expression>) -> Option<ExpressionView> {
    match expression {
        Some(expression) => Some(expression_view(expression)),
        None => None,
    }
}

/// The views of a sequence of statements.
pub open spec fn statement_views(statements: Seq<Statement>) -> Seq<StatementView>
    decreases statements, 1int,
{
    Seq::new(
        statements.len(),
        |i: int|
            if 0 <= i < statements.len() {
                statement_view(statements[i])
            } else {
                arbitrary()
            },
    )
}

/// The views of a sequence of function declarations.
pub open spec fn function_views(functions: Seq<Rc<Function>>) -> Seq<FunctionView>
    decreases functions, 1int,
{
    Seq::new(
        functions.len(),
        |i: int|
            if 0 <= i < functions.len() {
                function_view(*functions[i])
            } else {
                arbitrary()
            },
    )
}

/// The view of a function declaration.
pub open spec fn function_view(function: Function) -> FunctionView
    decreases function, 0int,
{
    FunctionView {
        name: function.name,
        parameters: function.parameters@,
        body: statement_views(function.body@),
    }
}

/// The view of a statement.
pub open spec fn statement_view(statement: Statement) -> StatementView
    decreases statement, 0int,
{
    match statement {
        Statement::Expression(expression) => StatementView::Expression(expression_view(expression)),
        Statement::Print(expression) => StatementView::Print(expression_view(expression)),
        Statement::VariableDeclaration { name, initializer } => StatementView::VariableDeclaration {
            name,
            initializer: optional_view(initializer),
        },
        Statement::FunctionDeclaration(function) => StatementView::FunctionDeclaration(
            Box::new(function_view(*function)),
        ),
        Statement::Block(statements) => StatementView::Block(statement_views(statements@)),
        Statement::If { condition, then_branch, else_branch } => StatementView::If {
            condition: expression_view(condition),
            then_branch: Box::new(statement_view(*then_branch)),
            else_branch: match else_branch {
                Some(else_branch) => Some(Box::new(statement_view(*else_branch))),
                None => None,
            },
        },
        Statement::While { condition, body } => StatementView::While {
            condition: expression_view(condition),
            body: Box::new(statement_view(*body)),
        },
        Statement::For { initializer, condition, increment, body } => StatementView::For {
            initializer: match initializer {
                Some(initializer) => Some(Box::new(statement_view(*initializer))),
                None => None,
            },
            condition: optional_view(condition),
            increment: optional_view(increment),
            body: Box::new(statement_view(*body)),
        },
        Statement::ClassDeclaration { name, methods, super_class } => StatementView::ClassDeclaration {
            name,
            methods: function_views(methods@),
            super_class: optional_view(super_class),
        },
        Statement::Return { keyword, expression } => StatementView::Return {
            keyword,
            expression: optional_view(expression),
        },
        Statement::Break { keyword } => StatementView::Break { keyword },
        Statement::Continue { keyword } => StatementView::Continue { keyword },
    }
}

impl View for Statement {
    type V = StatementView;

    open spec fn view(&self) -> StatementView {
        statement_view(*self)
    }
}

impl View for Function {
    type V = FunctionView;

    open spec fn view(&self) -> FunctionView {
        function_view(*self)
    }
}

} // verus!
