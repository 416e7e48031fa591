//! Identities: that the grammar gives every variable occurrence an identity
//! of its own.
//!
//! A rule that is given the identity `id` and gives back `next` has allotted
//! the identities from `id` up to `next`, each to one occurrence, in the
//! order in which the occurrences are read.

use crate::expression::ExpressionView;
use crate::grammar::Source;
use crate::statement::{FunctionView, StatementView};
use vstd::prelude::*;

verus! {

/// The identities in an expression, in the order in which they were allotted.
pub open spec fn expression_ids(expression: ExpressionView) -> Seq<usize>
    decreases expression, 0nat,
{
    match expression {
        ExpressionView::Var { id, .. } => seq![id],
        ExpressionView::This { id, .. } => seq![id],
        ExpressionView::Assignment { value, id, .. } => expression_ids(*value).push(id),
        ExpressionView::Binary { left, right, .. } => expression_ids(*left) + expression_ids(*right),
        ExpressionView::Or { left, right } => expression_ids(*left) + expression_ids(*right),
        ExpressionView::And { left, right } => expression_ids(*left) + expression_ids(*right),
        ExpressionView::SetField { object, value, .. } => expression_ids(*object) + expression_ids(
            *value,
        ),
        ExpressionView::Grouping(inner) => expression_ids(*inner),
        ExpressionView::Unary(_, operand) => expression_ids(*operand),
        ExpressionView::Get { expression: object, .. } => expression_ids(*object),
        ExpressionView::Call { callee, args, .. } => expression_ids(*callee) + expressions_ids(
            args,
            args.len(),
        ),
        _ => Seq::empty(),
    }
}

/// The identities in the first `count` of some expressions.
pub open spec fn expressions_ids(expressions: Seq<ExpressionView>, count: nat) -> Seq<usize>
    decreases expressions, count,
{
    if count == 0 || count > expressions.len() {
        Seq::empty()
    } else {
        expressions_ids(expressions, (count - 1) as nat) + expression_ids(expressions[count - 1])
    }
}

/// The identities in an expression that may be absent.
pub open spec fn optional_ids(expression: Option<ExpressionView>) -> Seq<usize> {
    match expression {
        Some(expression) => expression_ids(expression),
        None => Seq::empty(),
    }
}

/// The identities in a statement.
pub open spec fn statement_ids(statement: StatementView) -> Seq<usize>
    decreases statement, 0nat,
{
    match statement {
        StatementView::Expression(expression) => expression_ids(expression),
        StatementView::Print(expression) => expression_ids(expression),
        StatementView::VariableDeclaration { initializer, .. } => optional_ids(initializer),
        StatementView::FunctionDeclaration(function) => statements_ids(
            function.body,
            function.body.len(),
        ),
        StatementView::Block(statements) => statements_ids(statements, statements.len()),
        StatementView::If { condition, then_branch, else_branch } => expression_ids(condition)
            + statement_ids(*then_branch) + (match else_branch {
            Some(else_branch) => statement_ids(*else_branch),
            None => Seq::empty(),
        }),
        StatementView::While { condition, body } => expression_ids(condition) + statement_ids(*body),
        StatementView::For { initializer, condition, increment, body } => (match initializer {
            Some(initializer) => statement_ids(*initializer),
            None => Seq::empty(),
        }) + optional_ids(condition) + optional_ids(increment) + statement_ids(*body),
        StatementView::ClassDeclaration { methods, super_class, .. } => optional_ids(super_class)
            + functions_ids(methods, methods.len()),
        StatementView::Return { expression, .. } => optional_ids(expression),
        StatementView::Break { .. } => Seq::empty(),
        StatementView::Continue { .. } => Seq::empty(),
    }
}

/// The identities in the first `count` of some statements.
pub open spec fn statements_ids(statements: Seq<StatementView>, count: nat) -> Seq<usize>
    decreases statements, count,
{
    if count == 0 || count > statements.len() {
        Seq::empty()
    } else {
        statements_ids(statements, (count - 1) as nat) + statement_ids(statements[count - 1])
    }
}

/// The identities in the first `count` of some functions.
pub open spec fn functions_ids(functions: Seq<FunctionView>, count: nat) -> Seq<usize>
    decreases functions, count,
{
    if count == 0 || count > functions.len() {
        Seq::empty()
    } else {
        functions_ids(functions, (count - 1) as nat) + statements_ids(
            functions[count - 1].body,
            functions[count - 1].body.len(),
        )
    }
}

/// Whether identities were allotted one after another from `from` up to
/// `to`: each lies in that range, and each is larger than the one before.
pub open spec fn fresh(ids: Seq<usize>, from: int, to: int) -> bool {
    &&& from <= to
    &&& forall|i: int| 0 <= i < ids.len() ==> from <= #[trigger] ids[i] < to
    &&& forall|i: int, j: int| 0 <= i < j < ids.len() ==> #[trigger] ids[i] < #[trigger] ids[j]
}

/// Identities that are fresh are distinct.
pub proof fn lemma_fresh_distinct(ids: Seq<usize>, from: int, to: int)
    requires
        fresh(ids, from, to),
    ensures
        forall|i: int, j: int| 0 <= i < ids.len() && 0 <= j < ids.len() && i != j ==> ids[i] != ids[j],
{
    assert forall|i: int, j: int|
        0 <= i < ids.len() && 0 <= j < ids.len() && i != j implies ids[i] != ids[j] by {
        if i < j {
            assert(ids[i] < ids[j]);
        } else {
            assert(ids[j] < ids[i]);
        }
    }
}

/// Fresh identities of one range, followed by fresh identities of the next.
pub proof fn lemma_fresh_join(first: Seq<usize>, second: Seq<usize>, from: int, middle: int, to: int)
    requires
        fresh(first, from, middle),
        fresh(second, middle, to),
    ensures
        fresh(first + second, from, to),
{
    let joined = first + second;
    assert forall|i: int| 0 <= i < joined.len() implies from <= #[trigger] joined[i] < to by {
        if i < first.len() {
            assert(joined[i] == first[i]);
        } else {
            assert(joined[i] == second[i - first.len()]);
        }
    }
    assert forall|i: int, j: int| 0 <= i < j < joined.len() implies #[trigger] joined[i]
        < #[trigger] joined[j] by {
        if j < first.len() {
            assert(joined[i] == first[i] && joined[j] == first[j]);
        } else if i >= first.len() {
            assert(joined[i] == second[i - first.len()] && joined[j] == second[j - first.len()]);
        } else {
            assert(joined[i] == first[i] && joined[j] == second[j - first.len()]);
        }
    }
}

/// Fresh identities stay fresh in a wider range.
pub proof fn lemma_fresh_widen(ids: Seq<usize>, from: int, to: int, lower: int, upper: int)
    requires
        fresh(ids, from, to),
        lower <= from,
        to <= upper,
    ensures
        fresh(ids, lower, upper),
{
}

impl Source {
    /// Whether the identities from `id` on suffice for the tokens from `at` on.
    pub open spec fn room(self, at: int, id: usize) -> bool {
        0 <= at <= self.tokens.len() && id + (self.tokens.len() - at) <= usize::MAX
    }

    /// Whether a rule that began at `at` with `id` and ended at `next` with
    /// `behind` has gone forward and allotted no more identities than it read tokens.
    pub open spec fn advanced(self, at: int, id: usize, next: int, behind: usize) -> bool {
        &&& at <= next <= self.tokens.len()
        &&& id <= behind
        &&& behind - id <= next - at
    }

    pub proof fn lemma_primary(self, at: int, id: usize)
        requires
            self.room(at, id),
        ensures
            ({
                let (result, next, behind) = self.primary(at, id);
                result matches Ok(expression) ==> self.advanced(at, id, next, behind) && at < next
                    && fresh(expression_ids(expression), id as int, behind as int)
            }),
        decreases self.tokens.len() - at, 22int,
    {
        if self.kind(at) is LeftParen {
            self.lemma_expression(at + 1, id);
        }
    }

    pub proof fn lemma_arguments_rest(self, done: Seq<ExpressionView>, at: int, id: usize, base: int)
        requires
            self.room(at, id),
            fresh(expressions_ids(done, done.len()), base, id as int),
        ensures
            ({
                let (result, next, behind) = self.arguments_rest(done, at, id);
                result matches Ok(arguments) ==> self.advanced(at, id, next, behind) && fresh(
                    expressions_ids(arguments, arguments.len()),
                    base,
                    behind as int,
                )
            }),
        decreases self.tokens.len() - at, 48int,
    {
        if self.kind(at) is Comma && at < self.tokens.len() {
            self.lemma_expression(at + 1, id);
            let (argument, next, behind) = self.expression(at + 1, id);
            if argument is Ok {
                let more = done.push(argument->Ok_0);
                assert(more.drop_last() =~= done);
                assert(expressions_ids(more, (more.len() - 1) as nat) =~= expressions_ids(
                    done,
                    done.len(),
                )) by {
                    lemma_expressions_prefix(more, done, done.len());
                }
                lemma_fresh_join(
                    expressions_ids(done, done.len()),
                    expression_ids(argument->Ok_0),
                    base,
                    id as int,
                    behind as int,
                );
                if !(done.len() + 1 >= crate::grammar::MAX_ARGS || !self.ahead(at, next)) {
                    self.lemma_arguments_rest(more, next, behind, base);
                }
            }
        }
    }

    pub proof fn lemma_finish_call(self, callee: ExpressionView, at: int, id: usize, base: int)
        requires
            self.room(at, id),
            fresh(expression_ids(callee), base, id as int),
        ensures
            ({
                let (result, next, behind) = self.finish_call(callee, at, id);
                result matches Ok(expression) ==> self.advanced(at, id, next, behind) && at < next
                    && fresh(expression_ids(expression), base, behind as int)
            }),
        decreases self.tokens.len() - at, 50int,
    {
        if self.kind(at) is RightParen {
            assert(expressions_ids(Seq::<ExpressionView>::empty(), 0) =~= Seq::<usize>::empty());
            assert(expression_ids(callee) + Seq::<usize>::empty() =~= expression_ids(callee));
        } else {
            self.lemma_expression(at, id);
            let (first, next, behind) = self.expression(at, id);
            if first is Ok {
                let begun = seq![first->Ok_0];
                assert(expressions_ids(begun, 0) =~= Seq::<usize>::empty());
                assert(expressions_ids(begun, 1) =~= expression_ids(first->Ok_0));
                let (arguments, last, after) = if !self.within(at, next) {
                    (Ok(begun), next, behind)
                } else {
                    self.lemma_arguments_rest(begun, next, behind, id as int);
                    self.arguments_rest(begun, next, behind)
                };
                if arguments is Ok {
                    lemma_fresh_join(
                        expression_ids(callee),
                        expressions_ids(arguments->Ok_0, arguments->Ok_0.len()),
                        base,
                        id as int,
                        after as int,
                    );
                }
            }
        }
    }

    pub proof fn lemma_call_rest(self, callee: ExpressionView, at: int, id: usize, base: int)
        requires
            self.room(at, id),
            fresh(expression_ids(callee), base, id as int),
        ensures
            ({
                let (result, next, behind) = self.call_rest(callee, at, id);
                result matches Ok(expression) ==> self.advanced(at, id, next, behind) && fresh(
                    expression_ids(expression),
                    base,
                    behind as int,
                )
            }),
        decreases self.tokens.len() - at, 23int,
    {
        if self.kind(at) is LeftParen && at < self.tokens.len() {
            self.lemma_finish_call(callee, at + 1, id, base);
            let (called, next, behind) = self.finish_call(callee, at + 1, id);
            if called is Ok && self.ahead(at, next) {
                self.lemma_call_rest(called->Ok_0, next, behind, base);
            }
        } else if self.kind(at) is Dot && at < self.tokens.len() {
            if self.kind(at + 1) is Identifier {
                self.lemma_call_rest(
                    ExpressionView::Get { expression: Box::new(callee), token: self.tokens[at + 1] },
                    at + 2,
                    id,
                    base,
                );
            }
        }
    }

    pub proof fn lemma_call(self, at: int, id: usize)
        requires
            self.room(at, id),
        ensures
            ({
                let (result, next, behind) = self.call(at, id);
                result matches Ok(expression) ==> self.advanced(at, id, next, behind) && at < next
                    && fresh(expression_ids(expression), id as int, behind as int)
            }),
        decreases self.tokens.len() - at, 24int,
    {
        self.lemma_primary(at, id);
        let (callee, next, behind) = self.primary(at, id);
        if callee is Ok && self.within(at, next) {
            self.lemma_call_rest(callee->Ok_0, next, behind, id as int);
        }
    }

    pub proof fn lemma_unary(self, at: int, id: usize)
        requires
            self.room(at, id),
        ensures
            ({
                let (result, next, behind) = self.unary(at, id);
                result matches Ok(expression) ==> self.advanced(at, id, next, behind) && at < next
                    && fresh(expression_ids(expression), id as int, behind as int)
            }),
        decreases self.tokens.len() - at, 26int,
    {
        if (self.kind(at) is Bang || self.kind(at) is Minus) && at < self.tokens.len() {
            self.lemma_unary(at + 1, id);
        } else {
            self.lemma_call(at, id);
        }
    }

    pub proof fn lemma_operand(self, level: nat, at: int, id: usize)
        requires
            self.room(at, id),
        ensures
            ({
                let (result, next, behind) = self.operand(level, at, id);
                result matches Ok(expression) ==> self.advanced(at, id, next, behind) && at < next
                    && fresh(expression_ids(expression), id as int, behind as int)
            }),
        decreases self.tokens.len() - at, 27int + 2 * level,
    {
        if level == 0 {
            self.lemma_unary(at, id);
        } else {
            self.lemma_binary((level - 1) as nat, at, id);
        }
    }

    pub proof fn lemma_binary_rest(self, level: nat, left: ExpressionView, at: int, id: usize, base: int)
        requires
            self.room(at, id),
            fresh(expression_ids(left), base, id as int),
        ensures
            ({
                let (result, next, behind) = self.binary_rest(level, left, at, id);
                result matches Ok(expression) ==> self.advanced(at, id, next, behind) && fresh(
                    expression_ids(expression),
                    base,
                    behind as int,
                )
            }),
        decreases self.tokens.len() - at, 27int + 2 * level,
    {
        if crate::grammar::is_operator(level, self.kind(at)) && at < self.tokens.len() {
            self.lemma_operand(level, at + 1, id);
            let (right, next, behind) = self.operand(level, at + 1, id);
            if right is Ok {
                lemma_fresh_join(
                    expression_ids(left),
                    expression_ids(right->Ok_0),
                    base,
                    id as int,
                    behind as int,
                );
                if self.ahead(at, next) {
                    self.lemma_binary_rest(
                        level,
                        ExpressionView::Binary {
                            left: Box::new(left),
                            operator: self.tokens[at],
                            right: Box::new(right->Ok_0),
                        },
                        next,
                        behind,
                        base,
                    );
                }
            }
        }
    }

    pub proof fn lemma_binary(self, level: nat, at: int, id: usize)
        requires
            self.room(at, id),
        ensures
            ({
                let (result, next, behind) = self.binary(level, at, id);
                result matches Ok(expression) ==> self.advanced(at, id, next, behind) && at < next
                    && fresh(expression_ids(expression), id as int, behind as int)
            }),
        decreases self.tokens.len() - at, 28int + 2 * level,
    {
        self.lemma_operand(level, at, id);
        let (left, next, behind) = self.operand(level, at, id);
        if left is Ok && self.within(at, next) {
            self.lemma_binary_rest(level, left->Ok_0, next, behind, id as int);
        }
    }

    pub proof fn lemma_logical_operand(self, disjunction: bool, at: int, id: usize)
        requires
            self.room(at, id),
        ensures
            ({
                let (result, next, behind) = self.logical_operand(disjunction, at, id);
                result matches Ok(expression) ==> self.advanced(at, id, next, behind) && at < next
                    && fresh(expression_ids(expression), id as int, behind as int)
            }),
        decreases self.tokens.len() - at, (if disjunction {
            39int
        } else {
            37int
        }),
    {
        if disjunction {
            self.lemma_logical(false, at, id);
        } else {
            self.lemma_binary(3, at, id);
        }
    }

    pub proof fn lemma_logical_rest(
        self,
        disjunction: bool,
        left: ExpressionView,
        at: int,
        id: usize,
        base: int,
    )
        requires
            self.room(at, id),
            fresh(expression_ids(left), base, id as int),
        ensures
            ({
                let (result, next, behind) = self.logical_rest(disjunction, left, at, id);
                result matches Ok(expression) ==> self.advanced(at, id, next, behind) && fresh(
                    expression_ids(expression),
                    base,
                    behind as int,
                )
            }),
        decreases self.tokens.len() - at, (if disjunction {
            39int
        } else {
            37int
        }),
    {
        if (if disjunction {
            self.kind(at) is Or
        } else {
            self.kind(at) is And
        }) && at < self.tokens.len() {
            self.lemma_logical_operand(disjunction, at + 1, id);
            let (right, next, behind) = self.logical_operand(disjunction, at + 1, id);
            if right is Ok {
                lemma_fresh_join(
                    expression_ids(left),
                    expression_ids(right->Ok_0),
                    base,
                    id as int,
                    behind as int,
                );
                if self.ahead(at, next) {
                    let joined = if disjunction {
                        ExpressionView::Or { left: Box::new(left), right: Box::new(right->Ok_0) }
                    } else {
                        ExpressionView::And { left: Box::new(left), right: Box::new(right->Ok_0) }
                    };
                    self.lemma_logical_rest(disjunction, joined, next, behind, base);
                }
            }
        }
    }

    pub proof fn lemma_logical(self, disjunction: bool, at: int, id: usize)
        requires
            self.room(at, id),
        ensures
            ({
                let (result, next, behind) = self.logical(disjunction, at, id);
                result matches Ok(expression) ==> self.advanced(at, id, next, behind) && at < next
                    && fresh(expression_ids(expression), id as int, behind as int)
            }),
        decreases self.tokens.len() - at, (if disjunction {
            40int
        } else {
            38int
        }),
    {
        self.lemma_logical_operand(disjunction, at, id);
        let (left, next, behind) = self.logical_operand(disjunction, at, id);
        if left is Ok && self.within(at, next) {
            self.lemma_logical_rest(disjunction, left->Ok_0, next, behind, id as int);
        }
    }

    pub proof fn lemma_assignment(self, at: int, id: usize)
        requires
            self.room(at, id),
        ensures
            ({
                let (result, next, behind) = self.assignment(at, id);
                result matches Ok(expression) ==> self.advanced(at, id, next, behind) && at < next
                    && fresh(expression_ids(expression), id as int, behind as int)
            }),
        decreases self.tokens.len() - at, 42int,
    {
        self.lemma_logical(true, at, id);
        let (target, next, middle) = self.logical(true, at, id);
        if target is Ok && self.kind(next) is Equal && self.within(at, next) && next
            < self.tokens.len() {
            self.lemma_assignment(next + 1, middle);
            let (value, last, behind) = self.assignment(next + 1, middle);
            if value is Ok {
                match target->Ok_0 {
                    ExpressionView::Var { .. } => {
                        lemma_fresh_widen(
                            expression_ids(value->Ok_0),
                            middle as int,
                            behind as int,
                            id as int,
                            behind as int,
                        );
                        lemma_fresh_join(
                            expression_ids(value->Ok_0),
                            seq![behind],
                            id as int,
                            behind as int,
                            behind + 1,
                        );
                        assert(expression_ids(value->Ok_0).push(behind) =~= expression_ids(
                            value->Ok_0,
                        ) + seq![behind]);
                    },
                    ExpressionView::Get { expression, .. } => {
                        lemma_fresh_join(
                            expression_ids(*expression),
                            expression_ids(value->Ok_0),
                            id as int,
                            middle as int,
                            behind as int,
                        );
                    },
                    _ => {},
                }
            }
        }
    }

    pub proof fn lemma_expression(self, at: int, id: usize)
        requires
            self.room(at, id),
        ensures
            ({
                let (result, next, behind) = self.expression(at, id);
                result matches Ok(expression) ==> self.advanced(at, id, next, behind) && at < next
                    && fresh(expression_ids(expression), id as int, behind as int)
            }),
        decreases self.tokens.len() - at, 44int,
    {
        self.lemma_assignment(at, id);
    }

    pub proof fn lemma_terminated(self, at: int, id: usize)
        requires
            self.room(at, id),
        ensures
            ({
                let (result, next, behind) = self.terminated(at, id);
                result matches Ok(expression) ==> self.advanced(at, id, next, behind) && at < next
                    && fresh(expression_ids(expression), id as int, behind as int)
            }),
        decreases self.tokens.len() - at, 60int,
    {
        self.lemma_expression(at, id);
    }

    pub proof fn lemma_variable_declaration(self, at: int, id: usize)
        requires
            self.room(at, id),
        ensures
            ({
                let (result, next, behind) = self.variable_declaration(at, id);
                result matches Ok(statement) ==> self.advanced(at, id, next, behind) && at < next
                    && fresh(statement_ids(statement), id as int, behind as int)
            }),
        decreases self.tokens.len() - at, 62int,
    {
        if self.kind(at) is Identifier && self.kind(at + 1) is Equal && at + 1 < self.tokens.len() {
            self.lemma_terminated(at + 2, id);
        }
    }

    pub proof fn lemma_parameters_rest(self, done: Seq<crate::token::Token>, at: int, id: usize)
        requires
            self.room(at, id),
        ensures
            ({
                let (result, next, behind) = self.parameters_rest(done, at, id);
                result is Ok ==> self.advanced(at, id, next, behind) && behind == id
            }),
        decreases self.tokens.len() - at,
    {
        if self.kind(at) is Comma && at < self.tokens.len() && done.len() < crate::grammar::MAX_ARGS
            && self.kind(at + 1) is Identifier {
            self.lemma_parameters_rest(done.push(self.tokens[at + 1]), at + 2, id);
        }
    }

    pub proof fn lemma_function(self, at: int, id: usize)
        requires
            self.room(at, id),
        ensures
            ({
                let (result, next, behind) = self.function(at, id);
                result matches Ok(function) ==> self.advanced(at, id, next, behind) && at < next
                    && fresh(
                    statements_ids(function.body, function.body.len()),
                    id as int,
                    behind as int,
                )
            }),
        decreases self.tokens.len() - at, 10int,
    {
        if self.kind(at) is Identifier && self.kind(at + 1) is LeftParen {
            let (parameters, next, middle) = if self.kind(at + 2) is RightParen {
                (Ok(Seq::empty()), at + 2, id)
            } else if self.kind(at + 2) is Identifier {
                self.lemma_parameters_rest(seq![self.tokens[at + 2]], at + 3, id);
                self.parameters_rest(seq![self.tokens[at + 2]], at + 3, id)
            } else {
                self.expected_identifier(at + 2, id)
            };
            if parameters is Ok && self.kind(next) is RightParen && self.kind(next + 1) is LeftBrace
                && self.within(at, next) {
                self.lemma_block(next + 2, middle);
            }
        }
    }

    pub proof fn lemma_methods_rest(self, done: Seq<FunctionView>, at: int, id: usize, base: int)
        requires
            self.room(at, id),
            fresh(functions_ids(done, done.len()), base, id as int),
        ensures
            ({
                let (result, next, behind) = self.methods_rest(done, at, id);
                result matches Ok(methods) ==> self.advanced(at, id, next, behind) && fresh(
                    functions_ids(methods, methods.len()),
                    base,
                    behind as int,
                )
            }),
        decreases self.tokens.len() - at, 12int,
    {
        if !(self.kind(at) is RightBrace) {
            self.lemma_function(at, id);
            let (method, next, behind) = self.function(at, id);
            if method is Ok {
                let more = done.push(method->Ok_0);
                lemma_functions_prefix(more, done, done.len());
                lemma_fresh_join(
                    functions_ids(done, done.len()),
                    statements_ids(method->Ok_0.body, method->Ok_0.body.len()),
                    base,
                    id as int,
                    behind as int,
                );
                if self.ahead(at, next) {
                    self.lemma_methods_rest(more, next, behind, base);
                }
            }
        }
    }

    pub proof fn lemma_class_declaration(self, at: int, id: usize)
        requires
            self.room(at, id),
        ensures
            ({
                let (result, next, behind) = self.class_declaration(at, id);
                result matches Ok(statement) ==> self.advanced(at, id, next, behind) && at < next
                    && fresh(statement_ids(statement), id as int, behind as int)
            }),
        decreases self.tokens.len() - at, 14int,
    {
        if self.kind(at) is Identifier {
            let (super_class, next, middle) = if self.kind(at + 1) is Less {
                match self.kind(at + 2) {
                    crate::token::TokenType::Identifier(parent) => (
                        Ok(
                            Some(
                                ExpressionView::Var { name: parent, token: self.tokens[at + 2], id },
                            ),
                        ),
                        at + 3,
                        (id + 1) as usize,
                    ),
                    _ => self.expected_identifier(at + 2, id),
                }
            } else {
                (Ok(None), at + 1, id)
            };
            if super_class is Ok && self.kind(next) is LeftBrace {
                assert(functions_ids(Seq::<FunctionView>::empty(), 0) =~= Seq::<usize>::empty());
                self.lemma_methods_rest(Seq::empty(), next + 1, middle, middle as int);
                let (methods, behind, last) = self.methods_rest(Seq::empty(), next + 1, middle);
                if methods is Ok {
                    lemma_fresh_join(
                        optional_ids(super_class->Ok_0),
                        functions_ids(methods->Ok_0, methods->Ok_0.len()),
                        id as int,
                        middle as int,
                        last as int,
                    );
                }
            }
        }
    }

    pub proof fn lemma_block_rest(self, done: Seq<StatementView>, at: int, id: usize, base: int)
        requires
            self.room(at, id),
            fresh(statements_ids(done, done.len()), base, id as int),
        ensures
            ({
                let (result, next, behind) = self.block_rest(done, at, id);
                result matches Ok(statements) ==> self.advanced(at, id, next, behind) && fresh(
                    statements_ids(statements, statements.len()),
                    base,
                    behind as int,
                )
            }),
        decreases self.tokens.len() - at, 72int,
    {
        if !(self.kind(at) is RightBrace || self.at_end(at)) {
            self.lemma_declaration(at, id);
            let (statement, next, behind) = self.declaration(at, id);
            if statement is Ok {
                let more = done.push(statement->Ok_0);
                lemma_statements_prefix(more, done, done.len());
                lemma_fresh_join(
                    statements_ids(done, done.len()),
                    statement_ids(statement->Ok_0),
                    base,
                    id as int,
                    behind as int,
                );
                if self.ahead(at, next) {
                    self.lemma_block_rest(more, next, behind, base);
                }
            }
        }
    }

    pub proof fn lemma_block(self, at: int, id: usize)
        requires
            self.room(at, id),
        ensures
            ({
                let (result, next, behind) = self.block(at, id);
                result matches Ok(statements) ==> self.advanced(at, id, next, behind) && at < next
                    && fresh(statements_ids(statements, statements.len()), id as int, behind as int)
            }),
        decreases self.tokens.len() - at, 74int,
    {
        assert(statements_ids(Seq::<StatementView>::empty(), 0) =~= Seq::<usize>::empty());
        self.lemma_block_rest(Seq::empty(), at, id, id as int);
    }

    pub proof fn lemma_condition(self, at: int, id: usize)
        requires
            self.room(at, id),
        ensures
            ({
                let (result, next, behind) = self.condition(at, id);
                result matches Ok(expression) ==> self.advanced(at, id, next, behind) && at < next
                    && fresh(expression_ids(expression), id as int, behind as int)
            }),
        decreases self.tokens.len() - at, 60int,
    {
        if self.kind(at) is LeftParen {
            self.lemma_expression(at + 1, id);
        }
    }

    pub proof fn lemma_if_statement(self, at: int, id: usize)
        requires
            self.room(at, id),
        ensures
            ({
                let (result, next, behind) = self.if_statement(at, id);
                result matches Ok(statement) ==> self.advanced(at, id, next, behind) && at < next
                    && fresh(statement_ids(statement), id as int, behind as int)
            }),
        decreases self.tokens.len() - at, 62int,
    {
        self.lemma_condition(at, id);
        let (condition, next, first) = self.condition(at, id);
        if condition is Ok && self.ahead(at, next) {
            self.lemma_statement(next, first);
            let (then_branch, behind, second) = self.statement(next, first);
            if then_branch is Ok {
                lemma_fresh_join(
                    expression_ids(condition->Ok_0),
                    statement_ids(then_branch->Ok_0),
                    id as int,
                    first as int,
                    second as int,
                );
                if self.kind(behind) is Else && next <= behind < self.tokens.len() {
                    self.lemma_statement(behind + 1, second);
                    let (else_branch, last, third) = self.statement(behind + 1, second);
                    if else_branch is Ok {
                        lemma_fresh_join(
                            expression_ids(condition->Ok_0) + statement_ids(then_branch->Ok_0),
                            statement_ids(else_branch->Ok_0),
                            id as int,
                            second as int,
                            third as int,
                        );
                    }
                } else {
                    assert(expression_ids(condition->Ok_0) + statement_ids(then_branch->Ok_0)
                        + Seq::<usize>::empty() =~= expression_ids(condition->Ok_0)
                        + statement_ids(then_branch->Ok_0));
                }
            }
        }
    }

    pub proof fn lemma_while_statement(self, at: int, id: usize)
        requires
            self.room(at, id),
        ensures
            ({
                let (result, next, behind) = self.while_statement(at, id);
                result matches Ok(statement) ==> self.advanced(at, id, next, behind) && at < next
                    && fresh(statement_ids(statement), id as int, behind as int)
            }),
        decreases self.tokens.len() - at, 62int,
    {
        self.lemma_condition(at, id);
        let (condition, next, first) = self.condition(at, id);
        if condition is Ok && self.ahead(at, next) {
            self.lemma_statement(next, first);
            let (body, behind, second) = self.statement(next, first);
            if body is Ok {
                lemma_fresh_join(
                    expression_ids(condition->Ok_0),
                    statement_ids(body->Ok_0),
                    id as int,
                    first as int,
                    second as int,
                );
            }
        }
    }

    pub proof fn lemma_for_initializer(self, at: int, id: usize)
        requires
            self.room(at, id),
        ensures
            ({
                let (result, next, behind) = self.for_initializer(at, id);
                result matches Ok(initializer) ==> self.advanced(at, id, next, behind) && at < next
                    && fresh(
                    match initializer {
                        Some(statement) => statement_ids(*statement),
                        None => Seq::empty(),
                    },
                    id as int,
                    behind as int,
                )
            }),
        decreases self.tokens.len() - at, 64int,
    {
        if self.kind(at) is Semicolon {
        } else if self.kind(at) is Var && at < self.tokens.len() {
            self.lemma_variable_declaration(at + 1, id);
        } else {
            self.lemma_terminated(at, id);
        }
    }

    pub proof fn lemma_for_clause(self, closing: crate::token::TokenType, at: int, id: usize)
        requires
            self.room(at, id),
            !(closing is Eof),
        ensures
            ({
                let (result, next, behind) = self.for_clause(closing, at, id);
                result matches Ok(clause) ==> self.advanced(at, id, next, behind) && at < next
                    && fresh(optional_ids(clause), id as int, behind as int)
            }),
        decreases self.tokens.len() - at, 64int,
    {
        if self.kind(at) != closing {
            self.lemma_expression(at, id);
        }
    }

    pub proof fn lemma_for_header(self, at: int, id: usize)
        requires
            self.room(at, id),
        ensures
            ({
                let (result, next, behind) = self.for_header(at, id);
                result matches Ok((initializer, condition, increment)) ==> self.advanced(
                    at,
                    id,
                    next,
                    behind,
                ) && at < next && fresh(
                    (match initializer {
                        Some(statement) => statement_ids(*statement),
                        None => Seq::empty(),
                    }) + optional_ids(condition) + optional_ids(increment),
                    id as int,
                    behind as int,
                )
            }),
        decreases self.tokens.len() - at, 65int,
    {
        if self.kind(at) is LeftParen {
            self.lemma_for_initializer(at + 1, id);
            let (initializer, first, one) = self.for_initializer(at + 1, id);
            if initializer is Ok {
                self.lemma_for_clause(crate::token::TokenType::Semicolon, first, one);
                let (condition, second, two) = self.for_clause(
                    crate::token::TokenType::Semicolon,
                    first,
                    one,
                );
                if condition is Ok {
                    self.lemma_for_clause(crate::token::TokenType::RightParen, second, two);
                    let (increment, third, three) = self.for_clause(
                        crate::token::TokenType::RightParen,
                        second,
                        two,
                    );
                    if increment is Ok {
                        let begun = match initializer->Ok_0 {
                            Some(statement) => statement_ids(*statement),
                            None => Seq::empty(),
                        };
                        lemma_fresh_join(
                            begun,
                            optional_ids(condition->Ok_0),
                            id as int,
                            one as int,
                            two as int,
                        );
                        lemma_fresh_join(
                            begun + optional_ids(condition->Ok_0),
                            optional_ids(increment->Ok_0),
                            id as int,
                            two as int,
                            three as int,
                        );
                    }
                }
            }
        }
    }

    pub proof fn lemma_for_statement(self, at: int, id: usize)
        requires
            self.room(at, id),
        ensures
            ({
                let (result, next, behind) = self.for_statement(at, id);
                result matches Ok(statement) ==> self.advanced(at, id, next, behind) && at < next
                    && fresh(statement_ids(statement), id as int, behind as int)
            }),
        decreases self.tokens.len() - at, 66int,
    {
        self.lemma_for_header(at, id);
        let (header, next, middle) = self.for_header(at, id);
        if header is Ok && self.ahead(at, next) {
            self.lemma_statement(next, middle);
            let (body, behind, last) = self.statement(next, middle);
            if body is Ok {
                let (initializer, condition, increment) = header->Ok_0;
                lemma_fresh_join(
                    (match initializer {
                        Some(statement) => statement_ids(*statement),
                        None => Seq::empty(),
                    }) + optional_ids(condition) + optional_ids(increment),
                    statement_ids(body->Ok_0),
                    id as int,
                    middle as int,
                    last as int,
                );
            }
        }
    }

    pub proof fn lemma_statement(self, at: int, id: usize)
        requires
            self.room(at, id),
        ensures
            ({
                let (result, next, behind) = self.statement(at, id);
                result matches Ok(statement) ==> self.advanced(at, id, next, behind) && at < next
                    && fresh(statement_ids(statement), id as int, behind as int)
            }),
        decreases self.tokens.len() - at, 68int,
    {
        if at >= self.tokens.len() {
            self.lemma_terminated(at, id);
        } else {
            match self.kind(at) {
                crate::token::TokenType::Print => {
                    self.lemma_terminated(at + 1, id);
                },
                crate::token::TokenType::LeftBrace => {
                    self.lemma_block(at + 1, id);
                },
                crate::token::TokenType::If => {
                    self.lemma_if_statement(at + 1, id);
                },
                crate::token::TokenType::For => {
                    self.lemma_for_statement(at + 1, id);
                },
                crate::token::TokenType::While => {
                    self.lemma_while_statement(at + 1, id);
                },
                crate::token::TokenType::Return => {
                    if !(self.kind(at + 1) is Semicolon) {
                        self.lemma_terminated(at + 1, id);
                    }
                },
                crate::token::TokenType::Break => {},
                crate::token::TokenType::Continue => {},
                _ => {
                    self.lemma_terminated(at, id);
                },
            }
        }
    }

    pub proof fn lemma_declaration(self, at: int, id: usize)
        requires
            self.room(at, id),
        ensures
            ({
                let (result, next, behind) = self.declaration(at, id);
                result matches Ok(statement) ==> self.advanced(at, id, next, behind) && at < next
                    && fresh(statement_ids(statement), id as int, behind as int)
            }),
        decreases self.tokens.len() - at, 70int,
    {
        if at >= self.tokens.len() {
            self.lemma_statement(at, id);
        } else {
            match self.kind(at) {
                crate::token::TokenType::Fun => {
                    self.lemma_function(at + 1, id);
                },
                crate::token::TokenType::Var => {
                    self.lemma_variable_declaration(at + 1, id);
                },
                crate::token::TokenType::Class => {
                    self.lemma_class_declaration(at + 1, id);
                },
                _ => {
                    self.lemma_statement(at, id);
                },
            }
        }
    }

    pub proof fn lemma_statements(self, done: Seq<StatementView>, at: int, id: usize, base: int)
        requires
            self.room(at, id),
            fresh(statements_ids(done, done.len()), base, id as int),
        ensures
            ({
                let (result, next, behind) = self.statements(done, at, id);
                result matches Ok(statements) ==> self.advanced(at, id, next, behind) && fresh(
                    statements_ids(statements, statements.len()),
                    base,
                    behind as int,
                )
            }),
        decreases self.tokens.len() - at, 80int,
    {
        if !self.at_end(at) {
            self.lemma_declaration(at, id);
            let (statement, next, behind) = self.declaration(at, id);
            if statement is Ok {
                let more = done.push(statement->Ok_0);
                lemma_statements_prefix(more, done, done.len());
                lemma_fresh_join(
                    statements_ids(done, done.len()),
                    statement_ids(statement->Ok_0),
                    base,
                    id as int,
                    behind as int,
                );
                if self.ahead(at, next) {
                    self.lemma_statements(more, next, behind, base);
                }
            }
        }
    }

    /// Every occurrence has an identity of its own. In the tree of a program
    /// that was parsed, the identities of the variable occurrences are the
    /// identities from the first one given up to the next one free, each
    /// larger than the one before: no two occurrences share one.
    pub proof fn law_identities(self, id: usize)
        requires
            id + self.tokens.len() <= usize::MAX,
        ensures
            ({
                let (result, next, behind) = self.statements(Seq::empty(), 0, id);
                result matches Ok(statements) ==> {
                    let ids = statements_ids(statements, statements.len());
                    &&& id <= behind
                    &&& fresh(ids, id as int, behind as int)
                    &&& forall|i: int, j: int|
                        0 <= i < ids.len() && 0 <= j < ids.len() && i != j ==> ids[i] != ids[j]
                }
            }),
    {
        assert(statements_ids(Seq::<StatementView>::empty(), 0) =~= Seq::<usize>::empty());
        self.lemma_statements(Seq::empty(), 0, id, id as int);
        let (result, next, behind) = self.statements(Seq::empty(), 0, id);
        if result is Ok {
            lemma_fresh_distinct(
                statements_ids(result->Ok_0, result->Ok_0.len()),
                id as int,
                behind as int,
            );
        }
    }
}

/// The identities in a prefix of some statements are those in the same
/// prefix of a longer sequence.
pub proof fn lemma_statements_prefix(
    longer: Seq<StatementView>,
    shorter: Seq<StatementView>,
    count: nat,
)
    requires
        count <= shorter.len() <= longer.len(),
        forall|i: int| 0 <= i < shorter.len() ==> shorter[i] == longer[i],
    ensures
        statements_ids(longer, count) == statements_ids(shorter, count),
    decreases count,
{
    if count > 0 {
        lemma_statements_prefix(longer, shorter, (count - 1) as nat);
    }
}

/// The identities in a prefix of some functions are those in the same prefix
/// of a longer sequence.
pub proof fn lemma_functions_prefix(
    longer: Seq<FunctionView>,
    shorter: Seq<FunctionView>,
    count: nat,
)
    requires
        count <= shorter.len() <= longer.len(),
        forall|i: int| 0 <= i < shorter.len() ==> shorter[i] == longer[i],
    ensures
        functions_ids(longer, count) == functions_ids(shorter, count),
    decreases count,
{
    if count > 0 {
        lemma_functions_prefix(longer, shorter, (count - 1) as nat);
    }
}

/// The identities in a prefix of some expressions are those in the same
/// prefix of a longer sequence.
pub proof fn lemma_expressions_prefix(
    longer: Seq<ExpressionView>,
    shorter: Seq<ExpressionView>,
    count: nat,
)
    requires
        count <= shorter.len() <= longer.len(),
        forall|i: int| 0 <= i < shorter.len() ==> shorter[i] == longer[i],
    ensures
        expressions_ids(longer, count) == expressions_ids(shorter, count),
    decreases count,
{
    if count > 0 {
        lemma_expressions_prefix(longer, shorter, (count - 1) as nat);
    }
}

} // verus!
