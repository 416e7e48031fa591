//! Execution of statements.
//!
//! Every function here does what the function of the same purpose in
//! [`semantics`](crate::semantics) says, whatever the host goes on to answer:
//! its contract is stated for every sequence of answers that begins with the
//! answers given so far. In the proofs, naming the run of a part (`let run =
//! ...`) brings in what the call that made that run has established about it.

use crate::error::{fail, InterpreterError, InterpreterErrorType};
use crate::evaluate::lemma_method_is_function;
use crate::expression::Expression;
use crate::host::{is_prefix, Answer, Host};
use crate::interpreter::Interpreter;
use crate::machine::lemma_class_wf_monotonic;
use crate::semantics;
use crate::semantics::LoopStep;
use crate::statement::{Function, Statement};
use crate::value::{lemma_chain_head, Callable, Class, ControlFlow, LoxFunction, LoxValue};
use std::rc::Rc;
use vstd::hash_map::StringHashMap;
use vstd::prelude::*;
use vstd::string::StringExecFns;

verus! {

/// What the body's signal means to the loop around it.
pub fn loop_step(flow: ControlFlow) -> (r: LoopStep)
    ensures
        r == semantics::loop_step_spec(flow),
{
    match flow {
        ControlFlow::Normal => LoopStep::Next,
        ControlFlow::ContinueLoop => LoopStep::Next,
        ControlFlow::BreakLoop => LoopStep::Leave(ControlFlow::Normal),
        ControlFlow::Return(value) => LoopStep::Leave(ControlFlow::Return(value)),
    }
}

impl<H: Host> Interpreter<H> {
    /// Whether a signal carries only what exists.
    pub open spec fn holds_flow(&self, flow: ControlFlow) -> bool {
        match flow {
            ControlFlow::Return(value) => self@.holds(value),
            _ => true,
        }
    }

    /// Executes the statements of a block, or of a function body, in the frame `env`.
    pub(crate) fn execute_block(
        &mut self,
        statements: &Vec<Statement>,
        env: usize,
        inside_loop: bool,
        fuel: u64,
    ) -> (r: Result<ControlFlow, InterpreterError>)
        requires
            old(self).wf(),
            env < old(self)@.frames.len(),
        ensures
            final(self).follows(old(self)),
            r matches Ok(flow) ==> final(self).holds_flow(flow),
            forall|answers: Seq<Answer>|
                is_prefix(final(self).answers@, answers) ==> #[trigger] semantics::execute_block(
                    answers,
                    old(self)@,
                    statements@,
                    0,
                    env,
                    inside_loop,
                    fuel as nat,
                ) == (final(self)@, r),
        decreases fuel, 3int, statements, 0int,
    {
        let mut i: usize = 0;
        while i < statements.len()
            invariant
                i <= statements.len(),
                self.follows(old(self)),
                env < self@.frames.len(),
                forall|answers: Seq<Answer>|
                    is_prefix(self.answers@, answers) ==> #[trigger] semantics::execute_block(
                        answers,
                        old(self)@,
                        statements@,
                        0,
                        env,
                        inside_loop,
                        fuel as nat,
                    ) == semantics::execute_block(
                        answers,
                        self@,
                        statements@,
                        i as nat,
                        env,
                        inside_loop,
                        fuel as nat,
                    ),
            decreases statements.len() - i,
        {
            let ghost before = *self;
            assert(decreases_to!(statements => statements@));
            assert(decreases_to!(statements@ => statements@[i as int]));
            let result = self.execute_statement(&statements[i], env, inside_loop, fuel);
            proof {
                self.lemma_follows(&before, old(self));
            }
            assert forall|answers: Seq<Answer>|
                is_prefix(self.answers@, answers) implies #[trigger] semantics::execute_block(
                answers,
                old(self)@,
                statements@,
                0,
                env,
                inside_loop,
                fuel as nat,
            ) == (if result == Ok::<ControlFlow, InterpreterError>(ControlFlow::Normal) {
                semantics::execute_block(
                    answers,
                    self@,
                    statements@,
                    (i + 1) as nat,
                    env,
                    inside_loop,
                    fuel as nat,
                )
            } else {
                (self@, result)
            }) by {
                let run = semantics::execute_statement(
                    answers,
                    before@,
                    statements@[i as int],
                    env,
                    inside_loop,
                    fuel as nat,
                );
                let rest = semantics::execute_block(
                    answers,
                    before@,
                    statements@,
                    i as nat,
                    env,
                    inside_loop,
                    fuel as nat,
                );
            }
            match result {
                Ok(ControlFlow::Normal) => {},
                _ => {
                    return result;
                },
            }
            i += 1;
        }
        assert forall|answers: Seq<Answer>|
            is_prefix(self.answers@, answers) implies #[trigger] semantics::execute_block(
            answers,
            old(self)@,
            statements@,
            0,
            env,
            inside_loop,
            fuel as nat,
        ) == (self@, Ok::<ControlFlow, InterpreterError>(ControlFlow::Normal)) by {
            let rest = semantics::execute_block(
                answers,
                self@,
                statements@,
                i as nat,
                env,
                inside_loop,
                fuel as nat,
            );
        }
        Ok(ControlFlow::Normal)
    }

    /// The class that a value denotes, if it is a class.
    fn validate_superclass(&self, value: LoxValue) -> (r: Option<Rc<Class>>)
        requires
            self.wf(),
            self@.holds(value),
        ensures
            match r {
                Some(class) => semantics::class_of(self@, value) == Some(class.chain())
                    && self@.class_wf(class.chain()),
                None => semantics::class_of(self@, value) is None,
            },
    {
        match value {
            LoxValue::Callable(callable) => {
                assert(self@.callable_wf(self@.callables[callable as int]));
                match &self.callables[callable] {
                    Callable::Constructor { class, .. } => Some(class.clone()),
                    _ => None,
                }
            },
            _ => None,
        }
    }

    /// Makes a class of a declaration and binds its name, in the frame `env`.
    fn declare_class(
        &mut self,
        name: &String,
        methods: &Vec<Rc<Function>>,
        parent: Option<Rc<Class>>,
        env: usize,
    )
        requires
            old(self).wf(),
            env < old(self)@.frames.len(),
            parent matches Some(class) ==> old(self)@.class_wf(class.chain()),
        ensures
            final(self).follows(old(self)),
            final(self).answers == old(self).answers,
            final(self)@ == semantics::declare_class(
                old(self)@,
                *name,
                methods@,
                semantics::inherited(parent),
                env,
            ),
    {
        let ghost inherited = semantics::inherited(parent);
        self.define(env, name.clone(), LoxValue::Nil);
        let ghost declared = *self;
        let base = self.callables.len();
        let init = String::from_str("init");
        let mut table: StringHashMap<usize> = StringHashMap::new();
        let mut i: usize = 0;
        while i < methods.len()
            invariant
                i <= methods.len(),
                init@ == "init"@,
                self.follows(&declared),
                self.answers == declared.answers,
                env < declared@.frames.len(),
                base == declared@.callables.len(),
                self@ == semantics::methods_added(declared@, methods@, env, i as nat),
                self@.callables.len() == base + i,
                table@ == semantics::method_table(methods@, base as nat, i as nat),
                forall|key: Seq<char>| #[trigger]
                    table@.contains_key(key) ==> self@.is_function(table@[key]),
            decreases methods.len() - i,
        {
            let ghost before = *self;
            let ghost listed = table@;
            let index = self.callables.len();
            let method = &methods[i];
            let closure = Callable::LoxFunction(
                LoxFunction {
                    closure: env,
                    declaration: method.clone(),
                    is_initializer: method.name == init,
                },
            );
            assert(closure@ == semantics::method_closure(methods@[i as int], env));
            let added = self.add_callable(closure);
            table.insert(method.name.clone(), index);
            proof {
                self.lemma_follows(&before, &declared);
                assert forall|key: Seq<char>| #[trigger]
                    table@.contains_key(key) implies self@.is_function(table@[key]) by {
                    if key != method.name@ {
                        assert(listed.contains_key(key));
                        assert(before@.is_function(listed[key]));
                    }
                }
            }
            i += 1;
        }
        let ghost with_methods = *self;
        proof {
            if parent is Some {
                lemma_class_wf_monotonic(old(self)@, self@, inherited);
            }
        }
        let class = Rc::new(Class::new(name.clone(), table, parent));
        proof {
            lemma_chain_head(&class);
            let chain = class.chain();
            if parent is Some {
                assert(chain =~= seq![class.layer()] + inherited);
            } else {
                assert(chain =~= seq![class.layer()] + inherited);
            }
            assert forall|k: int, key: Seq<char>|
                0 <= k < chain.len() && (#[trigger] chain[k].methods.contains_key(
                    key,
                )) implies self@.is_function(chain[k].methods[key]) by {
                if k > 0 {
                    assert(chain[k] == inherited[k - 1]);
                    assert(inherited[k - 1].methods.contains_key(key));
                }
            }
            lemma_method_is_function(self@, chain, "init"@);
        }
        let arity = match class.find_method("init") {
            Some(initializer) => self.callables[initializer].arity(),
            None => 0,
        };
        let constructor = self.add_callable(Callable::Constructor { class, arity });
        let ghost with_constructor = *self;
        self.assign_at(env, name.as_str(), constructor, 0);
        proof {
            with_methods.lemma_follows(&declared, old(self));
            with_constructor.lemma_follows(&with_methods, old(self));
            self.lemma_follows(&with_constructor, old(self));
        }
    }

    /// Executes the rounds of a `while` or `for` statement.
    fn execute_loop(&mut self, statement: &Statement, env: usize, fuel: u64) -> (r: Result<
        ControlFlow,
        InterpreterError,
    >)
        requires
            old(self).wf(),
            env < old(self)@.frames.len(),
            statement is While || statement is For,
        ensures
            final(self).follows(old(self)),
            r matches Ok(flow) ==> final(self).holds_flow(flow),
            forall|answers: Seq<Answer>|
                is_prefix(final(self).answers@, answers) ==> #[trigger] semantics::execute_loop(
                    answers,
                    old(self)@,
                    *statement,
                    env,
                    fuel as nat,
                ) == (final(self)@, r),
        decreases fuel, 3int, statement, 0int,
    {
        let mut remaining: u64 = fuel;
        loop
            invariant
                remaining <= fuel,
                statement is While || statement is For,
                self.follows(old(self)),
                env < self@.frames.len(),
                forall|answers: Seq<Answer>|
                    is_prefix(self.answers@, answers) ==> #[trigger] semantics::execute_loop(
                        answers,
                        old(self)@,
                        *statement,
                        env,
                        fuel as nat,
                    ) == semantics::execute_loop(
                        answers,
                        self@,
                        *statement,
                        env,
                        remaining as nat,
                    ),
            decreases remaining,
        {
            let ghost before = *self;
            if remaining == 0 {
                let r = fail(InterpreterErrorType::Exhausted, &self.marker);
                assert forall|answers: Seq<Answer>|
                    is_prefix(self.answers@, answers) implies #[trigger] semantics::execute_loop(
                    answers,
                    old(self)@,
                    *statement,
                    env,
                    fuel as nat,
                ) == (self@, r) by {
                    let run = semantics::execute_loop(
                        answers,
                        before@,
                        *statement,
                        env,
                        remaining as nat,
                    );
                }
                return r;
            }
            let (condition, increment, body) = match statement {
                Statement::While { condition, body } => (Some(condition), None, body),
                Statement::For { condition, increment, body, .. } => (
                    condition.as_ref(),
                    increment.as_ref(),
                    body,
                ),
                _ => { return Ok(ControlFlow::Normal); },
            };
            assert(decreases_to!(statement => body));
            // The condition.
            let tested = match condition {
                Some(condition) => self.evaluate(condition, env, remaining),
                None => Ok(LoxValue::Boolean(true)),
            };
            let ghost after_test = *self;
            proof {
                self.lemma_follows(&before, old(self));
            }
            let goes_on = match tested {
                Ok(value) => value.is_truthy(),
                Err(error) => {
                    assert forall|answers: Seq<Answer>|
                        is_prefix(
                            self.answers@,
                            answers,
                        ) implies #[trigger] semantics::execute_loop(
                        answers,
                        old(self)@,
                        *statement,
                        env,
                        fuel as nat,
                    ) == (self@, Err::<ControlFlow, InterpreterError>(error)) by {
                        let run = semantics::execute_loop(
                            answers,
                            before@,
                            *statement,
                            env,
                            remaining as nat,
                        );
                        if condition is Some {
                            let test = semantics::evaluate(
                                answers,
                                before@,
                                *condition->0,
                                env,
                                remaining as nat,
                            );
                        }
                    }
                    return Err(error);
                },
            };
            if !goes_on {
                assert forall|answers: Seq<Answer>|
                    is_prefix(self.answers@, answers) implies #[trigger] semantics::execute_loop(
                    answers,
                    old(self)@,
                    *statement,
                    env,
                    fuel as nat,
                ) == (self@, Ok::<ControlFlow, InterpreterError>(ControlFlow::Normal)) by {
                    let run = semantics::execute_loop(
                        answers,
                        before@,
                        *statement,
                        env,
                        remaining as nat,
                    );
                    if condition is Some {
                        let test = semantics::evaluate(
                            answers,
                            before@,
                            *condition->0,
                            env,
                            remaining as nat,
                        );
                    }
                }
                return Ok(ControlFlow::Normal);
            }
            // The body.
            let result = self.execute_statement(body, env, true, remaining);
            let ghost after_body = *self;
            proof {
                self.lemma_follows(&after_test, old(self));
            }
            let step = match result {
                Ok(flow) => loop_step(flow),
                Err(error) => {
                    assert forall|answers: Seq<Answer>|
                        is_prefix(
                            self.answers@,
                            answers,
                        ) implies #[trigger] semantics::execute_loop(
                        answers,
                        old(self)@,
                        *statement,
                        env,
                        fuel as nat,
                    ) == (self@, Err::<ControlFlow, InterpreterError>(error)) by {
                        let run = semantics::execute_loop(
                            answers,
                            before@,
                            *statement,
                            env,
                            remaining as nat,
                        );
                        if condition is Some {
                            let test = semantics::evaluate(
                                answers,
                                before@,
                                *condition->0,
                                env,
                                remaining as nat,
                            );
                        }
                        let ran = semantics::execute_statement(
                            answers,
                            after_test@,
                            **body,
                            env,
                            true,
                            remaining as nat,
                        );
                    }
                    return Err(error);
                },
            };
            match step {
                LoopStep::Leave(flow) => {
                    assert forall|answers: Seq<Answer>|
                        is_prefix(
                            self.answers@,
                            answers,
                        ) implies #[trigger] semantics::execute_loop(
                        answers,
                        old(self)@,
                        *statement,
                        env,
                        fuel as nat,
                    ) == (self@, Ok::<ControlFlow, InterpreterError>(flow)) by {
                        let run = semantics::execute_loop(
                            answers,
                            before@,
                            *statement,
                            env,
                            remaining as nat,
                        );
                        if condition is Some {
                            let test = semantics::evaluate(
                                answers,
                                before@,
                                *condition->0,
                                env,
                                remaining as nat,
                            );
                        }
                        let ran = semantics::execute_statement(
                            answers,
                            after_test@,
                            **body,
                            env,
                            true,
                            remaining as nat,
                        );
                    }
                    return Ok(flow);
                },
                LoopStep::Next => {},
            }
            // The increment.
            let stepped = match increment {
                Some(increment) => self.evaluate(increment, env, remaining),
                None => Ok(LoxValue::Nil),
            };
            proof {
                self.lemma_follows(&after_body, old(self));
            }
            assert forall|answers: Seq<Answer>|
                is_prefix(self.answers@, answers) implies #[trigger] semantics::execute_loop(
                answers,
                old(self)@,
                *statement,
                env,
                fuel as nat,
            ) == (match stepped {
                Err(error) => (self@, Err::<ControlFlow, InterpreterError>(error)),
                Ok(_) => semantics::execute_loop(
                    answers,
                    self@,
                    *statement,
                    env,
                    (remaining - 1) as nat,
                ),
            }) by {
                let run = semantics::execute_loop(
                    answers,
                    before@,
                    *statement,
                    env,
                    remaining as nat,
                );
                if condition is Some {
                    let test = semantics::evaluate(
                        answers,
                        before@,
                        *condition->0,
                        env,
                        remaining as nat,
                    );
                }
                let ran = semantics::execute_statement(
                    answers,
                    after_test@,
                    **body,
                    env,
                    true,
                    remaining as nat,
                );
                if increment is Some {
                    let step = semantics::evaluate(
                        answers,
                        after_body@,
                        *increment->0,
                        env,
                        remaining as nat,
                    );
                }
            }
            match stepped {
                Err(error) => {
                    return Err(error);
                },
                Ok(_) => {},
            }
            remaining -= 1;
        }
    }

    /// Executes a statement in the frame `env`: gives the signal with which
    /// it ends, or the first runtime error. `inside_loop` says whether `break`
    /// and `continue` are allowed here; `fuel` bounds the chain of nested calls
    /// and loop rounds.
    pub fn execute_statement(
        &mut self,
        statement: &Statement,
        env: usize,
        inside_loop: bool,
        fuel: u64,
    ) -> (r: Result<ControlFlow, InterpreterError>)
        requires
            old(self).wf(),
            env < old(self)@.frames.len(),
        ensures
            final(self).follows(old(self)),
            r matches Ok(flow) ==> final(self).holds_flow(flow),
            forall|answers: Seq<Answer>|
                is_prefix(
                    final(self).answers@,
                    answers,
                ) ==> #[trigger] semantics::execute_statement(
                    answers,
                    old(self)@,
                    *statement,
                    env,
                    inside_loop,
                    fuel as nat,
                ) == (final(self)@, r),
        decreases fuel, 3int, statement, 1int,
    {
        match statement {
            Statement::Expression(expression) => {
                let r = match self.evaluate(expression, env, fuel) {
                    Ok(_) => Ok(ControlFlow::Normal),
                    Err(error) => Err(error),
                };
                assert forall|answers: Seq<Answer>|
                    is_prefix(
                        self.answers@,
                        answers,
                    ) implies #[trigger] semantics::execute_statement(
                    answers,
                    old(self)@,
                    *statement,
                    env,
                    inside_loop,
                    fuel as nat,
                ) == (self@, r) by {
                    let run = semantics::evaluate(answers, old(self)@, *expression, env, fuel as nat);
                }
                r
            },
            Statement::Print(expression) => {
                let result = self.evaluate(expression, env, fuel);
                let ghost after = *self;
                let r = match result {
                    Err(error) => Err(error),
                    Ok(value) => {
                        let text = self.display(value);
                        let ghost shown = *self;
                        self.emit(text.as_str());
                        proof {
                            shown.lemma_follows(&after, old(self));
                            self.lemma_follows(&shown, old(self));
                            assert forall|answers: Seq<Answer>|
                                is_prefix(
                                    self.answers@,
                                    answers,
                                ) implies #[trigger] semantics::display(
                                answers,
                                after@,
                                value,
                            ) == (shown@, text@) by {}
                        }
                        Ok(ControlFlow::Normal)
                    },
                };
                assert forall|answers: Seq<Answer>|
                    is_prefix(
                        self.answers@,
                        answers,
                    ) implies #[trigger] semantics::execute_statement(
                    answers,
                    old(self)@,
                    *statement,
                    env,
                    inside_loop,
                    fuel as nat,
                ) == (self@, r) by {
                    let run = semantics::evaluate(answers, old(self)@, *expression, env, fuel as nat);
                    if result is Ok {
                        let text = semantics::display(answers, after@, result->Ok_0);
                    }
                }
                r
            },
            Statement::VariableDeclaration { name, initializer } => {
                let result = match initializer {
                    Some(initializer) => self.evaluate(initializer, env, fuel),
                    None => Ok(LoxValue::Nil),
                };
                let ghost after = *self;
                let r = match result {
                    Err(error) => Err(error),
                    Ok(value) => {
                        self.define(env, name.clone(), value);
                        Ok(ControlFlow::Normal)
                    },
                };
                proof {
                    self.lemma_follows(&after, old(self));
                }
                assert forall|answers: Seq<Answer>|
                    is_prefix(
                        self.answers@,
                        answers,
                    ) implies #[trigger] semantics::execute_statement(
                    answers,
                    old(self)@,
                    *statement,
                    env,
                    inside_loop,
                    fuel as nat,
                ) == (self@, r) by {
                    if initializer is Some {
                        let run = semantics::evaluate(
                            answers,
                            old(self)@,
                            initializer->0,
                            env,
                            fuel as nat,
                        );
                    }
                }
                r
            },
            Statement::FunctionDeclaration(function) => {
                let closure = Callable::LoxFunction(
                    LoxFunction {
                        closure: env,
                        declaration: function.clone(),
                        is_initializer: false,
                    },
                );
                let value = self.add_callable(closure);
                let ghost added = *self;
                self.define(env, function.name.clone(), value);
                proof {
                    self.lemma_follows(&added, old(self));
                }
                Ok(ControlFlow::Normal)
            },
            Statement::Block(statements) => {
                let frame = self.enclose(env);
                let ghost entered = *self;
                let r = self.execute_block(statements, frame, inside_loop, fuel);
                proof {
                    self.lemma_follows(&entered, old(self));
                }
                assert forall|answers: Seq<Answer>|
                    is_prefix(
                        self.answers@,
                        answers,
                    ) implies #[trigger] semantics::execute_statement(
                    answers,
                    old(self)@,
                    *statement,
                    env,
                    inside_loop,
                    fuel as nat,
                ) == (self@, r) by {
                    let run = semantics::execute_block(
                        answers,
                        entered@,
                        statements@,
                        0,
                        frame,
                        inside_loop,
                        fuel as nat,
                    );
                }
                r
            },
            Statement::If { condition, then_branch, else_branch } => {
                let tested = self.evaluate(condition, env, fuel);
                let ghost after = *self;
                let r = match tested {
                    Err(error) => Err(error),
                    Ok(value) => if value.is_truthy() {
                        self.execute_statement(then_branch, env, inside_loop, fuel)
                    } else {
                        match else_branch {
                            Some(else_branch) => self.execute_statement(
                                else_branch,
                                env,
                                inside_loop,
                                fuel,
                            ),
                            None => Ok(ControlFlow::Normal),
                        }
                    },
                };
                proof {
                    self.lemma_follows(&after, old(self));
                }
                assert forall|answers: Seq<Answer>|
                    is_prefix(
                        self.answers@,
                        answers,
                    ) implies #[trigger] semantics::execute_statement(
                    answers,
                    old(self)@,
                    *statement,
                    env,
                    inside_loop,
                    fuel as nat,
                ) == (self@, r) by {
                    let run = semantics::evaluate(answers, old(self)@, *condition, env, fuel as nat);
                    let first = semantics::execute_statement(
                        answers,
                        after@,
                        **then_branch,
                        env,
                        inside_loop,
                        fuel as nat,
                    );
                    if else_branch is Some {
                        let second = semantics::execute_statement(
                            answers,
                            after@,
                            *else_branch->0,
                            env,
                            inside_loop,
                            fuel as nat,
                        );
                    }
                }
                r
            },
            Statement::While { .. } => {
                let r = self.execute_loop(statement, env, fuel);
                assert forall|answers: Seq<Answer>|
                    is_prefix(
                        self.answers@,
                        answers,
                    ) implies #[trigger] semantics::execute_statement(
                    answers,
                    old(self)@,
                    *statement,
                    env,
                    inside_loop,
                    fuel as nat,
                ) == (self@, r) by {
                    let run = semantics::execute_loop(answers, old(self)@, *statement, env, fuel as nat);
                }
                r
            },
            Statement::For { initializer, .. } => {
                let started = match initializer {
                    Some(initializer) => self.execute_statement(initializer, env, false, fuel),
                    None => Ok(ControlFlow::Normal),
                };
                let ghost after = *self;
                let r = match started {
                    Err(error) => Err(error),
                    Ok(_) => self.execute_loop(statement, env, fuel),
                };
                proof {
                    self.lemma_follows(&after, old(self));
                }
                assert forall|answers: Seq<Answer>|
                    is_prefix(
                        self.answers@,
                        answers,
                    ) implies #[trigger] semantics::execute_statement(
                    answers,
                    old(self)@,
                    *statement,
                    env,
                    inside_loop,
                    fuel as nat,
                ) == (self@, r) by {
                    if initializer is Some {
                        let run = semantics::execute_statement(
                            answers,
                            old(self)@,
                            *initializer->0,
                            env,
                            false,
                            fuel as nat,
                        );
                    }
                    let rounds = semantics::execute_loop(answers, after@, *statement, env, fuel as nat);
                }
                r
            },
            Statement::ClassDeclaration { name, methods, super_class } => {
                let parent = match super_class {
                    Some(super_class) => {
                        let value = match self.evaluate(super_class, env, fuel) {
                            Ok(value) => value,
                            Err(error) => {
                                assert forall|answers: Seq<Answer>|
                                    is_prefix(
                                        self.answers@,
                                        answers,
                                    ) implies #[trigger] semantics::execute_statement(
                                    answers,
                                    old(self)@,
                                    *statement,
                                    env,
                                    inside_loop,
                                    fuel as nat,
                                ) == (self@, Err::<ControlFlow, InterpreterError>(error)) by {
                                    let run = semantics::evaluate(
                                        answers,
                                        old(self)@,
                                        *super_class,
                                        env,
                                        fuel as nat,
                                    );
                                }
                                return Err(error);
                            },
                        };
                        match self.validate_superclass(value) {
                            Some(class) => Some(class),
                            None => {
                                let r = fail(
                                    InterpreterErrorType::InvalidSuperclass,
                                    self.anchor(super_class),
                                );
                                assert forall|answers: Seq<Answer>|
                                    is_prefix(
                                        self.answers@,
                                        answers,
                                    ) implies #[trigger] semantics::execute_statement(
                                    answers,
                                    old(self)@,
                                    *statement,
                                    env,
                                    inside_loop,
                                    fuel as nat,
                                ) == (self@, r) by {
                                    let run = semantics::evaluate(
                                        answers,
                                        old(self)@,
                                        *super_class,
                                        env,
                                        fuel as nat,
                                    );
                                }
                                return r;
                            },
                        }
                    },
                    None => None,
                };
                let ghost after = *self;
                self.declare_class(name, methods, parent, env);
                proof {
                    self.lemma_follows(&after, old(self));
                }
                assert forall|answers: Seq<Answer>|
                    is_prefix(
                        self.answers@,
                        answers,
                    ) implies #[trigger] semantics::execute_statement(
                    answers,
                    old(self)@,
                    *statement,
                    env,
                    inside_loop,
                    fuel as nat,
                ) == (self@, Ok::<ControlFlow, InterpreterError>(ControlFlow::Normal)) by {
                    if super_class is Some {
                        let run = semantics::evaluate(
                            answers,
                            old(self)@,
                            super_class->0,
                            env,
                            fuel as nat,
                        );
                    }
                }
                Ok(ControlFlow::Normal)
            },
            Statement::Return { expression, .. } => {
                let r = match expression {
                    Some(expression) => match self.evaluate(expression, env, fuel) {
                        Ok(value) => Ok(ControlFlow::Return(value)),
                        Err(error) => Err(error),
                    },
                    None => Ok(ControlFlow::Return(LoxValue::Nil)),
                };
                assert forall|answers: Seq<Answer>|
                    is_prefix(
                        self.answers@,
                        answers,
                    ) implies #[trigger] semantics::execute_statement(
                    answers,
                    old(self)@,
                    *statement,
                    env,
                    inside_loop,
                    fuel as nat,
                ) == (self@, r) by {
                    if expression is Some {
                        let run = semantics::evaluate(
                            answers,
                            old(self)@,
                            expression->0,
                            env,
                            fuel as nat,
                        );
                    }
                }
                r
            },
            Statement::Break { keyword } => if inside_loop {
                Ok(ControlFlow::BreakLoop)
            } else {
                fail(InterpreterErrorType::NotInLoop, keyword)
            },
            Statement::Continue { keyword } => if inside_loop {
                Ok(ControlFlow::ContinueLoop)
            } else {
                fail(InterpreterErrorType::NotInLoop, keyword)
            },
        }
    }
}

} // verus!
