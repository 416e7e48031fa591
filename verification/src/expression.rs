//! Expressions of the syntax tree.

use crate::number::Number;
use crate::token::Token;
use vstd::prelude::*;

verus! {

/// An expression.
///
/// The three forms that name a variable (`Var`, `Assignment`, `This`) carry an
/// `id`: the identity under which the resolver records, and the interpreter
/// looks up, how many scopes lie between this very occurrence and the
/// declaration it refers to. Whoever builds the tree gives each occurrence an
/// `id` of its own.
#[derive(Debug, PartialEq, Eq)]
#[allow(inconsistent_fields)]
pub enum Expression {
    Binary { left: Box<Expression>, operator: Token, right: Box<Expression> },
    Grouping(Box<Expression>),
    Unary(Token, Box<Expression>),
    Var { name: String, token: Token, id: usize },
    Assignment { name: String, value: Box<Expression>, token: Token, id: usize },
    Or { left: Box<Expression>, right: Box<Expression> },
    And { left: Box<Expression>, right: Box<Expression> },
    Call { callee: Box<Expression>, paren: Token, args: Vec<Expression> },
    Get { expression: Box<Expression>, token: Token },
    SetField { name: Token, object: Box<Expression>, value: Box<Expression> },
    This { keyword: Token, id: usize },
    // Literals
    True,
    False,
    Number(Number),
    String(String),
    Nil,
}

/// An expression, as the contracts see it: the same tree, with sequences in the place of vectors.
#[allow(inconsistent_fields)]
pub enum ExpressionView {
    Binary { left: Box<ExpressionView>, operator: Token, right: Box<ExpressionView> },
    Grouping(Box<ExpressionView>),
    Unary(Token, Box<ExpressionView>),
    Var { name: String, token: Token, id: usize },
    Assignment { name: String, value: Box<ExpressionView>, token: Token, id: usize },
    Or { left: Box<ExpressionView>, right: Box<ExpressionView> },
    And { left: Box<ExpressionView>, right: Box<ExpressionView> },
    Call { callee: Box<ExpressionView>, paren: Token, args: Seq<ExpressionView> },
    Get { expression: Box<ExpressionView>, token: Token },
    SetField { name: Token, object: Box<ExpressionView>, value: Box<ExpressionView> },
    This { keyword: Token, id: usize },
    True,
    False,
    Number(Number),
    String(String),
    Nil,
}

/// The views of a sequence of expressions.
pub open spec fn expression_views(expressions: Seq<Expression>) -> Seq<ExpressionView>
    decreases expressions, 1int,
{
    Seq::new(
        expressions.len(),
        |i: int|
            if 0 <= i < expressions.len() {
                expression_view(expressions[i])
            } else {
                arbitrary()
            },
    )
}

/// The view of an expression.
pub open spec fn expression_view(expression: Expression) -> ExpressionView
    decreases expression, 0int,
{
    match expression {
        Expression::Binary { left, operator, right } => ExpressionView::Binary {
            left: Box::new(expression_view(*left)),
            operator,
            right: Box::new(expression_view(*right)),
        },
        Expression::Grouping(inner) => ExpressionView::Grouping(Box::new(expression_view(*inner))),
        Expression::Unary(operator, operand) => ExpressionView::Unary(
            operator,
            Box::new(expression_view(*operand)),
        ),
        Expression::Var { name, token, id } => ExpressionView::Var { name, token, id },
        Expression::Assignment { name, value, token, id } => ExpressionView::Assignment {
            name,
            value: Box::new(expression_view(*value)),
            token,
            id,
        },
        Expression::Or { left, right } => ExpressionView::Or {
            left: Box::new(expression_view(*left)),
            right: Box::new(expression_view(*right)),
        },
        Expression::And { left, right } => ExpressionView::And {
            left: Box::new(expression_view(*left)),
            right: Box::new(expression_view(*right)),
        },
        Expression::Call { callee, paren, args } => ExpressionView::Call {
            callee: Box::new(expression_view(*callee)),
            paren,
            args: expression_views(args@),
        },
        Expression::Get { expression: object, token } => ExpressionView::Get {
            expression: Box::new(expression_view(*object)),
            token,
        },
        Expression::SetField { name, object, value } => ExpressionView::SetField {
            name,
            object: Box::new(expression_view(*object)),
            value: Box::new(expression_view(*value)),
        },
        Expression::This { keyword, id } => ExpressionView::This { keyword, id },
        Expression::True => ExpressionView::True,
        Expression::False => ExpressionView::False,
        Expression::Number(number) => ExpressionView::Number(number),
        Expression::String(text) => ExpressionView::String(text),
        Expression::Nil => ExpressionView::Nil,
    }
}

impl View for Expression {
    type V = ExpressionView;

    open spec fn view(&self) -> ExpressionView {
        expression_view(*self)
    }
}

impl Expression {
    /// The identity of a variable occurrence; `None` for every other form.
    pub open spec fn identity_spec(&self) -> Option<usize> {
        match *self {
            Expression::Var { id, .. } => Some(id),
            Expression::Assignment { id, .. } => Some(id),
            Expression::This { id, .. } => Some(id),
            _ => None,
        }
    }

    #[verifier::when_used_as_spec(identity_spec)]
    pub fn identity(&self) -> (r: Option<usize>)
        ensures
            r == self.identity_spec(),
    {
        match self {
            Expression::Var { id, .. } => Some(*id),
            Expression::Assignment { id, .. } => Some(*id),
            Expression::This { id, .. } => Some(*id),
            _ => None,
        }
    }
}

} // verus!
