//! Evaluation of expressions and calls.
//!
//! Every function here does what the function of the same purpose in
//! [`semantics`](crate::semantics) says, whatever the host goes on to answer:
//! its contract is stated for every sequence of answers that begins with the
//! answers given so far. In the proofs, naming the run of a part (`let run =
//! ...`) brings in what the call that made that run has established about it.

use crate::environment::{ancestor_spec, get_at_spec, get_spec, lemma_ancestor_in_range};
use crate::error::{fail, InterpreterError, InterpreterErrorType};
use crate::expression::Expression;
use crate::host::{is_prefix, Answer, Host};
use crate::interpreter::Interpreter;
use crate::machine::Machine;
use crate::operators::unary_operation;
use crate::semantics;
use crate::token::Token;
use crate::value::{find_method_spec, Callable, ClassLayer, Field, LoxFunction, LoxValue};

use vstd::prelude::*;
use vstd::string::StringExecFns;

verus! {

broadcast use vstd::std_specs::hash::group_hash_axioms;

/// What a chain of frames binds, exists.
pub proof fn lemma_get_holds(m: Machine, frame: usize, name: Seq<char>)
    requires
        m.wf(),
        frame < m.frames.len(),
    ensures
        get_spec(m.frames, frame, name) matches Some(value) ==> m.holds(value),
    decreases frame,
{
    assert(m.frame_wf(m.frames[frame as int]));
    if !m.frames[frame as int].values.contains_key(name) {
        match m.frames[frame as int].enclosing {
            Some(parent) => {
                if parent < frame {
                    lemma_get_holds(m, parent, name);
                }
            },
            None => {},
        }
    }
}

/// What a frame at a distance binds, exists.
pub proof fn lemma_get_at_holds(m: Machine, frame: usize, name: Seq<char>, distance: nat)
    requires
        m.wf(),
        frame < m.frames.len(),
    ensures
        get_at_spec(m.frames, frame, name, distance) matches Some(value) ==> m.holds(value),
{
    lemma_ancestor_in_range(m.frames, frame, distance);
    match ancestor_spec(m.frames, frame, distance) {
        Some(target) => {
            assert(m.frame_wf(m.frames[target as int]));
        },
        None => {},
    }
}

/// A method that a well-formed class finds is a function of the program.
pub proof fn lemma_method_is_function(m: Machine, chain: Seq<ClassLayer>, name: Seq<char>)
    requires
        m.class_wf(chain),
    ensures
        find_method_spec(chain, name) matches Some(method) ==> m.is_function(method),
    decreases chain.len(),
{
    if chain.len() > 0 && !chain[0].methods.contains_key(name) {
        let rest = chain.drop_first();
        if rest.len() > 0 {
            assert forall|k: int, other: Seq<char>|
                0 <= k < rest.len() && (#[trigger] rest[k].methods.contains_key(
                    other,
                )) implies m.is_function(rest[k].methods[other]) by {
                assert(rest[k] == chain[k + 1]);
                assert(chain[k + 1].methods.contains_key(other));
            }
            lemma_method_is_function(m, rest, name);
        }
    }
}

impl<H: Host> Interpreter<H> {
    /// Following is transitive.
    pub proof fn lemma_follows(&self, middle: &Self, before: &Self)
        requires
            middle.follows(before),
            self.follows(middle),
        ensures
            self.follows(before),
    {
    }

    /// What a variable occurrence reads.
    pub(crate) fn lookup_variable(&self, name: &str, id: usize, env: usize) -> (r: Option<LoxValue>)
        requires
            self.wf(),
            env < self@.frames.len(),
        ensures
            r == semantics::lookup(self@, env, name@, id),
            r matches Some(value) ==> self@.holds(value),
    {
        proof {
            lemma_get_holds(self@, 0, name@);
        }
        match self.locals.get(&id) {
            Some(distance) => {
                proof {
                    lemma_get_at_holds(self@, env, name@, *distance as nat);
                }
                self.environment.get_at(env, name, *distance)
            },
            None => self.environment.get(0, name),
        }
    }

    /// Writes through a variable occurrence, and says whether the variable exists.
    pub(crate) fn assign_variable(&mut self, name: &str, id: usize, env: usize, value: LoxValue) -> (r: bool)
        requires
            old(self).wf(),
            env < old(self)@.frames.len(),
            old(self)@.holds(value),
        ensures
            final(self).follows(old(self)),
            final(self).answers == old(self).answers,
            r == semantics::can_assign(old(self)@, env, name@, id),
            final(self)@ == semantics::assign(old(self)@, env, name@, id, value),
    {
        match self.locals.get(&id) {
            Some(distance) => {
                let distance = *distance;
                self.assign_at(env, name, value, distance)
            },
            None => self.assign_at(0, name, value, 0),
        }
    }

    /// Makes the method of an instance: a fresh frame around the method's
    /// closure binds `this`, and the method is closed over that frame.
    pub(crate) fn bind_method(&mut self, method: &LoxFunction, instance: LoxValue) -> (r: LoxFunction)
        requires
            old(self).wf(),
            method.closure < old(self)@.frames.len(),
            old(self)@.holds(instance),
        ensures
            final(self).follows(old(self)),
            final(self).answers == old(self).answers,
            (final(self)@, r) == semantics::bind(old(self)@, *method, instance),
            r.closure < final(self)@.frames.len(),
    {
        let bound = method.bind(&mut self.environment, instance);
        proof {
            let a = old(self)@;
            let b = self@;
            assert(b.strings =~= a.strings);
            assert(b.callables =~= a.callables);
            assert(b.instances =~= a.instances);
            assert(a.grows_to(b));
            crate::interpreter::lemma_wf_preserved(a, b);
        }
        bound
    }

    /// Evaluates an expression in the frame `env`: gives its value, or the
    /// first runtime error, and leaves the state that the evaluation made.
    /// `fuel` bounds the chain of nested calls and loop rounds.
    pub fn evaluate(&mut self, expression: &Expression, env: usize, fuel: u64) -> (r: Result<
        LoxValue,
        InterpreterError,
    >)
        requires
            old(self).wf(),
            env < old(self)@.frames.len(),
        ensures
            final(self).follows(old(self)),
            r matches Ok(value) ==> final(self)@.holds(value),
            forall|answers: Seq<Answer>|
                is_prefix(final(self).answers@, answers) ==> #[trigger] semantics::evaluate(
                    answers,
                    old(self)@,
                    *expression,
                    env,
                    fuel as nat,
                ) == (final(self)@, r),
        decreases fuel, 2int, expression, 1int,
    {
        match expression {
            Expression::True => Ok(LoxValue::Boolean(true)),
            Expression::False => Ok(LoxValue::Boolean(false)),
            Expression::Nil => Ok(LoxValue::Nil),
            Expression::Number(number) => Ok(LoxValue::Number(*number)),
            Expression::String(text) => Ok(self.intern(text.clone())),
            Expression::Grouping(inner) => {
                let r = self.evaluate(inner, env, fuel);
                assert forall|answers: Seq<Answer>|
                    is_prefix(self.answers@, answers) implies #[trigger] semantics::evaluate(
                    answers,
                    old(self)@,
                    *expression,
                    env,
                    fuel as nat,
                ) == (self@, r) by {
                    let inner_run = semantics::evaluate(answers, old(self)@, **inner, env, fuel as nat);
                }
                r
            },
            Expression::Var { name, token, id } => match self.lookup_variable(
                name.as_str(),
                *id,
                env,
            ) {
                Some(value) => Ok(value),
                None => fail(InterpreterErrorType::UndefinedVariable(name.clone()), token),
            },
            Expression::This { keyword, id } => match self.lookup_variable(
                keyword.lexeme(),
                *id,
                env,
            ) {
                Some(value) => Ok(value),
                None => fail(
                    InterpreterErrorType::UndefinedVariable(keyword.lexeme.clone()),
                    keyword,
                ),
            },
            Expression::Unary(_, _) => {
                let r = self.evaluate_unary(expression, env, fuel);
                assert forall|answers: Seq<Answer>|
                    is_prefix(self.answers@, answers) implies #[trigger] semantics::evaluate(
                    answers,
                    old(self)@,
                    *expression,
                    env,
                    fuel as nat,
                ) == (self@, r) by {
                    let run = semantics::evaluate_unary(answers, old(self)@, *expression, env, fuel as nat);
                }
                r
            },
            Expression::Binary { .. } => {
                let r = self.evaluate_binary(expression, env, fuel);
                assert forall|answers: Seq<Answer>|
                    is_prefix(self.answers@, answers) implies #[trigger] semantics::evaluate(
                    answers,
                    old(self)@,
                    *expression,
                    env,
                    fuel as nat,
                ) == (self@, r) by {
                    let run = semantics::evaluate_binary(answers, old(self)@, *expression, env, fuel as nat);
                }
                r
            },
            Expression::Assignment { .. } => {
                let r = self.evaluate_assignment(expression, env, fuel);
                assert forall|answers: Seq<Answer>|
                    is_prefix(self.answers@, answers) implies #[trigger] semantics::evaluate(
                    answers,
                    old(self)@,
                    *expression,
                    env,
                    fuel as nat,
                ) == (self@, r) by {
                    let run = semantics::evaluate_assignment(answers, old(self)@, *expression, env, fuel as nat);
                }
                r
            },
            Expression::Or { .. } | Expression::And { .. } => {
                let r = self.evaluate_logical(expression, env, fuel);
                assert forall|answers: Seq<Answer>|
                    is_prefix(self.answers@, answers) implies #[trigger] semantics::evaluate(
                    answers,
                    old(self)@,
                    *expression,
                    env,
                    fuel as nat,
                ) == (self@, r) by {
                    let run = semantics::evaluate_logical(answers, old(self)@, *expression, env, fuel as nat);
                }
                r
            },
            Expression::Call { .. } => {
                let r = self.evaluate_call(expression, env, fuel);
                assert forall|answers: Seq<Answer>|
                    is_prefix(self.answers@, answers) implies #[trigger] semantics::evaluate(
                    answers,
                    old(self)@,
                    *expression,
                    env,
                    fuel as nat,
                ) == (self@, r) by {
                    let run = semantics::evaluate_call(answers, old(self)@, *expression, env, fuel as nat);
                }
                r
            },
            Expression::Get { .. } => {
                let r = self.evaluate_get(expression, env, fuel);
                assert forall|answers: Seq<Answer>|
                    is_prefix(self.answers@, answers) implies #[trigger] semantics::evaluate(
                    answers,
                    old(self)@,
                    *expression,
                    env,
                    fuel as nat,
                ) == (self@, r) by {
                    let run = semantics::evaluate_get(answers, old(self)@, *expression, env, fuel as nat);
                }
                r
            },
            Expression::SetField { .. } => {
                let r = self.evaluate_set(expression, env, fuel);
                assert forall|answers: Seq<Answer>|
                    is_prefix(self.answers@, answers) implies #[trigger] semantics::evaluate(
                    answers,
                    old(self)@,
                    *expression,
                    env,
                    fuel as nat,
                ) == (self@, r) by {
                    let run = semantics::evaluate_set(answers, old(self)@, *expression, env, fuel as nat);
                }
                r
            },
        }
    }

    pub(crate) fn evaluate_unary(&mut self, expression: &Expression, env: usize, fuel: u64) -> (r: Result<
        LoxValue,
        InterpreterError,
    >)
        requires
            old(self).wf(),
            env < old(self)@.frames.len(),
            expression is Unary,
        ensures
            final(self).follows(old(self)),
            r matches Ok(value) ==> final(self)@.holds(value),
            forall|answers: Seq<Answer>|
                is_prefix(final(self).answers@, answers) ==> #[trigger] semantics::evaluate_unary(
                    answers,
                    old(self)@,
                    *expression,
                    env,
                    fuel as nat,
                ) == (final(self)@, r),
        decreases fuel, 2int, expression, 0int,
    {
        match expression {
            Expression::Unary(operator, operand) => {
                let value = self.evaluate(operand, env, fuel);
                let r = match value {
                    Err(error) => Err(error),
                    Ok(value) => match unary_operation(&operator.token_type, value) {
                        Ok(value) => Ok(value),
                        Err(error) => fail(error, operator),
                    },
                };
                assert forall|answers: Seq<Answer>|
                    is_prefix(self.answers@, answers) implies #[trigger] semantics::evaluate_unary(
                    answers,
                    old(self)@,
                    *expression,
                    env,
                    fuel as nat,
                ) == (self@, r) by {
                    let run = semantics::evaluate(answers, old(self)@, **operand, env, fuel as nat);
                }
                r
            },
            _ => Ok(LoxValue::Nil),
        }
    }

    pub(crate) fn evaluate_binary(&mut self, expression: &Expression, env: usize, fuel: u64) -> (r: Result<
        LoxValue,
        InterpreterError,
    >)
        requires
            old(self).wf(),
            env < old(self)@.frames.len(),
            expression is Binary,
        ensures
            final(self).follows(old(self)),
            r matches Ok(value) ==> final(self)@.holds(value),
            forall|answers: Seq<Answer>|
                is_prefix(final(self).answers@, answers) ==> #[trigger] semantics::evaluate_binary(
                    answers,
                    old(self)@,
                    *expression,
                    env,
                    fuel as nat,
                ) == (final(self)@, r),
        decreases fuel, 2int, expression, 0int,
    {
        match expression {
            Expression::Binary { left, operator, right } => {
                let first = match self.evaluate(left, env, fuel) {
                    Ok(first) => first,
                    Err(error) => {
                        assert forall|answers: Seq<Answer>|
                            is_prefix(
                                self.answers@,
                                answers,
                            ) implies #[trigger] semantics::evaluate_binary(
                            answers,
                            old(self)@,
                            *expression,
                            env,
                            fuel as nat,
                        ) == (self@, Err::<LoxValue, InterpreterError>(error)) by {
                            let run = semantics::evaluate(answers, old(self)@, **left, env, fuel as nat);
                        }
                        return Err(error);
                    },
                };
                let ghost after_left = *self;
                let second = match self.evaluate(right, env, fuel) {
                    Ok(second) => second,
                    Err(error) => {
                        proof {
                            self.lemma_follows(&after_left, old(self));
                        }
                        assert forall|answers: Seq<Answer>|
                            is_prefix(
                                self.answers@,
                                answers,
                            ) implies #[trigger] semantics::evaluate_binary(
                            answers,
                            old(self)@,
                            *expression,
                            env,
                            fuel as nat,
                        ) == (self@, Err::<LoxValue, InterpreterError>(error)) by {
                            let run = semantics::evaluate(answers, old(self)@, **left, env, fuel as nat);
                            let more = semantics::evaluate(answers, after_left@, **right, env, fuel as nat);
                        }
                        return Err(error);
                    },
                };
                let ghost after_right = *self;
                let r = self.binary(first, operator, second);
                proof {
                    after_right.lemma_follows(&after_left, old(self));
                    self.lemma_follows(&after_right, old(self));
                }
                assert forall|answers: Seq<Answer>|
                    is_prefix(self.answers@, answers) implies #[trigger] semantics::evaluate_binary(
                    answers,
                    old(self)@,
                    *expression,
                    env,
                    fuel as nat,
                ) == (self@, r) by {
                    let run = semantics::evaluate(answers, old(self)@, **left, env, fuel as nat);
                    let more = semantics::evaluate(answers, after_left@, **right, env, fuel as nat);
                    let last = semantics::binary(answers, after_right@, first, *operator, second);
                }
                r
            },
            _ => Ok(LoxValue::Nil),
        }
    }

    pub(crate) fn evaluate_assignment(&mut self, expression: &Expression, env: usize, fuel: u64) -> (r: Result<
        LoxValue,
        InterpreterError,
    >)
        requires
            old(self).wf(),
            env < old(self)@.frames.len(),
            expression is Assignment,
        ensures
            final(self).follows(old(self)),
            r matches Ok(value) ==> final(self)@.holds(value),
            forall|answers: Seq<Answer>|
                is_prefix(
                    final(self).answers@,
                    answers,
                ) ==> #[trigger] semantics::evaluate_assignment(
                    answers,
                    old(self)@,
                    *expression,
                    env,
                    fuel as nat,
                ) == (final(self)@, r),
        decreases fuel, 2int, expression, 0int,
    {
        match expression {
            Expression::Assignment { name, value, token, id } => {
                let result = self.evaluate(value, env, fuel);
                let ghost after = *self;
                let r = match result {
                    Err(error) => Err(error),
                    Ok(assigned) => {
                        if self.assign_variable(name.as_str(), *id, env, assigned) {
                            Ok(assigned)
                        } else {
                            fail(InterpreterErrorType::UndefinedVariable(name.clone()), token)
                        }
                    },
                };
                proof {
                    self.lemma_follows(&after, old(self));
                }
                assert forall|answers: Seq<Answer>|
                    is_prefix(
                        self.answers@,
                        answers,
                    ) implies #[trigger] semantics::evaluate_assignment(
                    answers,
                    old(self)@,
                    *expression,
                    env,
                    fuel as nat,
                ) == (self@, r) by {
                    let run = semantics::evaluate(answers, old(self)@, **value, env, fuel as nat);
                }
                r
            },
            _ => Ok(LoxValue::Nil),
        }
    }

    pub(crate) fn evaluate_logical(&mut self, expression: &Expression, env: usize, fuel: u64) -> (r: Result<
        LoxValue,
        InterpreterError,
    >)
        requires
            old(self).wf(),
            env < old(self)@.frames.len(),
            expression is Or || expression is And,
        ensures
            final(self).follows(old(self)),
            r matches Ok(value) ==> final(self)@.holds(value),
            forall|answers: Seq<Answer>|
                is_prefix(final(self).answers@, answers) ==> #[trigger] semantics::evaluate_logical(
                    answers,
                    old(self)@,
                    *expression,
                    env,
                    fuel as nat,
                ) == (final(self)@, r),
        decreases fuel, 2int, expression, 0int,
    {
        let (left, right, stops_on_truthy) = match expression {
            Expression::Or { left, right } => (left, right, true),
            Expression::And { left, right } => (left, right, false),
            _ => { return Ok(LoxValue::Nil); },
        };
        let first = self.evaluate(left, env, fuel);
        let ghost after = *self;
        let r = match first {
            Err(error) => Err(error),
            Ok(value) => if value.is_truthy() == stops_on_truthy {
                Ok(value)
            } else {
                self.evaluate(right, env, fuel)
            },
        };
        proof {
            self.lemma_follows(&after, old(self));
        }
        assert forall|answers: Seq<Answer>|
            is_prefix(self.answers@, answers) implies #[trigger] semantics::evaluate_logical(
            answers,
            old(self)@,
            *expression,
            env,
            fuel as nat,
        ) == (self@, r) by {
            let run = semantics::evaluate(answers, old(self)@, **left, env, fuel as nat);
            let more = semantics::evaluate(answers, after@, **right, env, fuel as nat);
        }
        r
    }

    /// Evaluates the arguments of a call, left to right.
    pub(crate) fn evaluate_arguments(&mut self, arguments: &Vec<Expression>, env: usize, fuel: u64) -> (r:
        Result<Vec<LoxValue>, InterpreterError>)
        requires
            old(self).wf(),
            env < old(self)@.frames.len(),
        ensures
            final(self).follows(old(self)),
            r matches Ok(values) ==> final(self)@.holds_all(values@),
            forall|answers: Seq<Answer>|
                is_prefix(
                    final(self).answers@,
                    answers,
                ) ==> #[trigger] semantics::evaluate_arguments(
                    answers,
                    old(self)@,
                    arguments@,
                    0,
                    env,
                    fuel as nat,
                    Seq::empty(),
                ) == (
                    final(self)@,
                    match r {
                        Ok(values) => Ok::<Seq<LoxValue>, InterpreterError>(values@),
                        Err(error) => Err(error),
                    },
                ),
        decreases fuel, 2int, arguments, 0int,
    {
        let mut values: Vec<LoxValue> = Vec::new();
        let mut i: usize = 0;
        while i < arguments.len()
            invariant
                i <= arguments.len(),
                self.follows(old(self)),
                env < self@.frames.len(),
                self@.holds_all(values@),
                forall|answers: Seq<Answer>|
                    is_prefix(
                        self.answers@,
                        answers,
                    ) ==> #[trigger] semantics::evaluate_arguments(
                        answers,
                        old(self)@,
                        arguments@,
                        0,
                        env,
                        fuel as nat,
                        Seq::empty(),
                    ) == semantics::evaluate_arguments(
                        answers,
                        self@,
                        arguments@,
                        i as nat,
                        env,
                        fuel as nat,
                        values@,
                    ),
            decreases arguments.len() - i,
        {
            let ghost before = *self;
            let ghost done = values@;
            assert(decreases_to!(arguments => arguments@));
            assert(decreases_to!(arguments@ => arguments@[i as int]));
            match self.evaluate(&arguments[i], env, fuel) {
                Ok(value) => {
                    values.push(value);
                    proof {
                        self.lemma_follows(&before, old(self));
                        assert forall|k: int| 0 <= k < values@.len() implies self@.holds(
                            #[trigger] values@[k],
                        ) by {
                            if k < done.len() {
                                assert(before@.holds(done[k]));
                            }
                        }
                    }
                    assert forall|answers: Seq<Answer>|
                        is_prefix(
                            self.answers@,
                            answers,
                        ) implies #[trigger] semantics::evaluate_arguments(
                        answers,
                        old(self)@,
                        arguments@,
                        0,
                        env,
                        fuel as nat,
                        Seq::empty(),
                    ) == semantics::evaluate_arguments(
                        answers,
                        self@,
                        arguments@,
                        (i + 1) as nat,
                        env,
                        fuel as nat,
                        values@,
                    ) by {
                        let run = semantics::evaluate(
                            answers,
                            before@,
                            arguments@[i as int],
                            env,
                            fuel as nat,
                        );
                        let rest = semantics::evaluate_arguments(
                            answers,
                            before@,
                            arguments@,
                            i as nat,
                            env,
                            fuel as nat,
                            done,
                        );
                    }
                },
                Err(error) => {
                    proof {
                        self.lemma_follows(&before, old(self));
                    }
                    assert forall|answers: Seq<Answer>|
                        is_prefix(
                            self.answers@,
                            answers,
                        ) implies #[trigger] semantics::evaluate_arguments(
                        answers,
                        old(self)@,
                        arguments@,
                        0,
                        env,
                        fuel as nat,
                        Seq::empty(),
                    ) == (self@, Err::<Seq<LoxValue>, InterpreterError>(error)) by {
                        let run = semantics::evaluate(
                            answers,
                            before@,
                            arguments@[i as int],
                            env,
                            fuel as nat,
                        );
                        let rest = semantics::evaluate_arguments(
                            answers,
                            before@,
                            arguments@,
                            i as nat,
                            env,
                            fuel as nat,
                            done,
                        );
                    }
                    return Err(error);
                },
            }
            i += 1;
        }
        assert forall|answers: Seq<Answer>|
            is_prefix(self.answers@, answers) implies #[trigger] semantics::evaluate_arguments(
            answers,
            old(self)@,
            arguments@,
            0,
            env,
            fuel as nat,
            Seq::empty(),
        ) == (self@, Ok::<Seq<LoxValue>, InterpreterError>(values@)) by {
            let rest = semantics::evaluate_arguments(
                answers,
                self@,
                arguments@,
                i as nat,
                env,
                fuel as nat,
                values@,
            );
        }
        Ok(values)
    }

    pub(crate) fn evaluate_call(&mut self, expression: &Expression, env: usize, fuel: u64) -> (r: Result<
        LoxValue,
        InterpreterError,
    >)
        requires
            old(self).wf(),
            env < old(self)@.frames.len(),
            expression is Call,
        ensures
            final(self).follows(old(self)),
            r matches Ok(value) ==> final(self)@.holds(value),
            forall|answers: Seq<Answer>|
                is_prefix(final(self).answers@, answers) ==> #[trigger] semantics::evaluate_call(
                    answers,
                    old(self)@,
                    *expression,
                    env,
                    fuel as nat,
                ) == (final(self)@, r),
        decreases fuel, 2int, expression, 0int,
    {
        match expression {
            Expression::Call { callee, paren, args } => {
                let function = match self.evaluate(callee, env, fuel) {
                    Ok(LoxValue::Callable(function)) => function,
                    Ok(other) => {
                        let r = fail(InterpreterErrorType::NotACallable, paren);
                        assert forall|answers: Seq<Answer>|
                            is_prefix(
                                self.answers@,
                                answers,
                            ) implies #[trigger] semantics::evaluate_call(
                            answers,
                            old(self)@,
                            *expression,
                            env,
                            fuel as nat,
                        ) == (self@, r) by {
                            let run = semantics::evaluate(answers, old(self)@, **callee, env, fuel as nat);
                        }
                        return r;
                    },
                    Err(error) => {
                        assert forall|answers: Seq<Answer>|
                            is_prefix(
                                self.answers@,
                                answers,
                            ) implies #[trigger] semantics::evaluate_call(
                            answers,
                            old(self)@,
                            *expression,
                            env,
                            fuel as nat,
                        ) == (self@, Err::<LoxValue, InterpreterError>(error)) by {
                            let run = semantics::evaluate(answers, old(self)@, **callee, env, fuel as nat);
                        }
                        return Err(error);
                    },
                };
                let ghost after_callee = *self;
                let values = match self.evaluate_arguments(args, env, fuel) {
                    Ok(values) => values,
                    Err(error) => {
                        proof {
                            self.lemma_follows(&after_callee, old(self));
                        }
                        assert forall|answers: Seq<Answer>|
                            is_prefix(
                                self.answers@,
                                answers,
                            ) implies #[trigger] semantics::evaluate_call(
                            answers,
                            old(self)@,
                            *expression,
                            env,
                            fuel as nat,
                        ) == (self@, Err::<LoxValue, InterpreterError>(error)) by {
                            let run = semantics::evaluate(answers, old(self)@, **callee, env, fuel as nat);
                            let more = semantics::evaluate_arguments(
                                answers,
                                after_callee@,
                                args@,
                                0,
                                env,
                                fuel as nat,
                                Seq::empty(),
                            );
                        }
                        return Err(error);
                    },
                };
                let ghost after_arguments = *self;
                let r = self.interpret_call(function, &values, paren, fuel);
                proof {
                    after_arguments.lemma_follows(&after_callee, old(self));
                    self.lemma_follows(&after_arguments, old(self));
                }
                assert forall|answers: Seq<Answer>|
                    is_prefix(self.answers@, answers) implies #[trigger] semantics::evaluate_call(
                    answers,
                    old(self)@,
                    *expression,
                    env,
                    fuel as nat,
                ) == (self@, r) by {
                    let run = semantics::evaluate(answers, old(self)@, **callee, env, fuel as nat);
                    let more = semantics::evaluate_arguments(
                        answers,
                        after_callee@,
                        args@,
                        0,
                        env,
                        fuel as nat,
                        Seq::empty(),
                    );
                    let last = semantics::call(
                        answers,
                        after_arguments@,
                        function,
                        values@,
                        *paren,
                        fuel as nat,
                    );
                }
                r
            },
            _ => Ok(LoxValue::Nil),
        }
    }

    /// The property of an instance that `token` names.
    pub(crate) fn get_property(&mut self, instance: usize, token: &Token) -> (r: Result<
        LoxValue,
        InterpreterError,
    >)
        requires
            old(self).wf(),
            instance < old(self)@.instances.len(),
        ensures
            final(self).follows(old(self)),
            final(self).answers == old(self).answers,
            r matches Ok(value) ==> final(self)@.holds(value),
            semantics::get_property(old(self)@, instance, *token) == (final(self)@, r),
    {
        proof {
            let m = self@;
            assert(m.instance_wf(m.instances[instance as int]));
            lemma_method_is_function(m, m.instances[instance as int].class, token.lexeme@);
        }
        match self.instances[instance].get(token.lexeme()) {
            Field::Value(value) => Ok(value),
            Field::Method(method) => {
                assert(self@.callable_wf(self@.callables[method as int]));
                let function = match &self.callables[method] {
                    Callable::LoxFunction(function) => function.duplicate(),
                    _ => { return Ok(LoxValue::Callable(method)); },
                };
                let bound = self.bind_method(&function, LoxValue::Instance(instance));
                let ghost with_frame = *self;
                let value = self.add_callable(Callable::LoxFunction(bound));
                proof {
                    self.lemma_follows(&with_frame, old(self));
                }
                Ok(value)
            },
            Field::Undefined => fail(
                InterpreterErrorType::NotAProperty {
                    class_name: self.instances[instance].class.name.clone(),
                    field: token.lexeme.clone(),
                },
                token,
            ),
        }
    }

    pub(crate) fn evaluate_get(&mut self, expression: &Expression, env: usize, fuel: u64) -> (r: Result<
        LoxValue,
        InterpreterError,
    >)
        requires
            old(self).wf(),
            env < old(self)@.frames.len(),
            expression is Get,
        ensures
            final(self).follows(old(self)),
            r matches Ok(value) ==> final(self)@.holds(value),
            forall|answers: Seq<Answer>|
                is_prefix(final(self).answers@, answers) ==> #[trigger] semantics::evaluate_get(
                    answers,
                    old(self)@,
                    *expression,
                    env,
                    fuel as nat,
                ) == (final(self)@, r),
        decreases fuel, 2int, expression, 0int,
    {
        match expression {
            Expression::Get { expression: object, token } => {
                let target = self.evaluate(object, env, fuel);
                let ghost after = *self;
                let r = match target {
                    Err(error) => Err(error),
                    Ok(LoxValue::Instance(instance)) => self.get_property(instance, token),
                    Ok(_) => fail(
                        InterpreterErrorType::InvalidInstance(token.lexeme.clone()),
                        token,
                    ),
                };
                proof {
                    self.lemma_follows(&after, old(self));
                }
                assert forall|answers: Seq<Answer>|
                    is_prefix(self.answers@, answers) implies #[trigger] semantics::evaluate_get(
                    answers,
                    old(self)@,
                    *expression,
                    env,
                    fuel as nat,
                ) == (self@, r) by {
                    let run = semantics::evaluate(answers, old(self)@, **object, env, fuel as nat);
                }
                r
            },
            _ => Ok(LoxValue::Nil),
        }
    }

    pub(crate) fn evaluate_set(&mut self, expression: &Expression, env: usize, fuel: u64) -> (r: Result<
        LoxValue,
        InterpreterError,
    >)
        requires
            old(self).wf(),
            env < old(self)@.frames.len(),
            expression is SetField,
        ensures
            final(self).follows(old(self)),
            r matches Ok(value) ==> final(self)@.holds(value),
            forall|answers: Seq<Answer>|
                is_prefix(final(self).answers@, answers) ==> #[trigger] semantics::evaluate_set(
                    answers,
                    old(self)@,
                    *expression,
                    env,
                    fuel as nat,
                ) == (final(self)@, r),
        decreases fuel, 2int, expression, 0int,
    {
        match expression {
            Expression::SetField { name, object, value } => {
                let instance = match self.evaluate(object, env, fuel) {
                    Ok(LoxValue::Instance(instance)) => instance,
                    Ok(_) => {
                        let r = fail(
                            InterpreterErrorType::InvalidInstance(name.lexeme.clone()),
                            name,
                        );
                        assert forall|answers: Seq<Answer>|
                            is_prefix(
                                self.answers@,
                                answers,
                            ) implies #[trigger] semantics::evaluate_set(
                            answers,
                            old(self)@,
                            *expression,
                            env,
                            fuel as nat,
                        ) == (self@, r) by {
                            let run = semantics::evaluate(answers, old(self)@, **object, env, fuel as nat);
                        }
                        return r;
                    },
                    Err(error) => {
                        assert forall|answers: Seq<Answer>|
                            is_prefix(
                                self.answers@,
                                answers,
                            ) implies #[trigger] semantics::evaluate_set(
                            answers,
                            old(self)@,
                            *expression,
                            env,
                            fuel as nat,
                        ) == (self@, Err::<LoxValue, InterpreterError>(error)) by {
                            let run = semantics::evaluate(answers, old(self)@, **object, env, fuel as nat);
                        }
                        return Err(error);
                    },
                };
                let ghost after_object = *self;
                let result = self.evaluate(value, env, fuel);
                let ghost after_value = *self;
                let r = match result {
                    Err(error) => Err(error),
                    Ok(assigned) => {
                        self.set_field(instance, name.lexeme(), assigned);
                        Ok(assigned)
                    },
                };
                proof {
                    after_value.lemma_follows(&after_object, old(self));
                    self.lemma_follows(&after_value, old(self));
                }
                assert forall|answers: Seq<Answer>|
                    is_prefix(self.answers@, answers) implies #[trigger] semantics::evaluate_set(
                    answers,
                    old(self)@,
                    *expression,
                    env,
                    fuel as nat,
                ) == (self@, r) by {
                    let run = semantics::evaluate(answers, old(self)@, **object, env, fuel as nat);
                    let more = semantics::evaluate(answers, after_object@, **value, env, fuel as nat);
                }
                r
            },
            _ => Ok(LoxValue::Nil),
        }
    }
}

} // verus!
