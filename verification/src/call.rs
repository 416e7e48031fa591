//! Calls: of host functions, of functions of the program, of constructors.
//!
//! Every function here does what the function of the same purpose in
//! [`semantics`](crate::semantics) says, whatever the host goes on to answer:
//! its contract is stated for every sequence of answers that begins with the
//! answers given so far. In the proofs, naming the run of a part (`let run =
//! ...`) brings in what the call that made that run has established about it.

use crate::error::{fail, InterpreterError, InterpreterErrorType};
use crate::evaluate::{lemma_get_at_holds, lemma_method_is_function};
use crate::host::{is_prefix, Answer, Host};
use crate::interpreter::Interpreter;
use crate::semantics;
use crate::token::Token;
use crate::value::{Callable, LoxFunction, LoxValue};
use vstd::prelude::*;

verus! {

impl<H: Host> Interpreter<H> {
    /// Binds the parameters of a function to the arguments of a call, in `frame`.
    fn bind_parameters(&mut self, frame: usize, function: &LoxFunction, arguments: &Vec<LoxValue>)
        requires
            old(self).wf(),
            frame < old(self)@.frames.len(),
            old(self)@.holds_all(arguments@),
            function.declaration.parameters.len() == arguments.len(),
        ensures
            final(self).follows(old(self)),
            final(self).answers == old(self).answers,
            final(self)@ == old(self)@.with_frames(
                semantics::bind_parameters(
                    old(self)@.frames,
                    frame,
                    function.declaration.parameters@,
                    arguments@,
                    arguments.len() as nat,
                ),
            ),
    {
        let mut i: usize = 0;
        while i < arguments.len()
            invariant
                i <= arguments.len(),
                function.declaration.parameters.len() == arguments.len(),
                self.follows(old(self)),
                self.answers == old(self).answers,
                frame < self@.frames.len(),
                old(self)@.holds_all(arguments@),
                self@ == old(self)@.with_frames(
                    semantics::bind_parameters(
                        old(self)@.frames,
                        frame,
                        function.declaration.parameters@,
                        arguments@,
                        i as nat,
                    ),
                ),
            decreases arguments.len() - i,
        {
            let ghost before = *self;
            assert(old(self)@.holds(arguments@[i as int]));
            self.define(frame, function.declaration.parameters[i].lexeme.clone(), arguments[i]);
            proof {
                self.lemma_follows(&before, old(self));
            }
            i += 1;
        }
    }

    /// Calls a function of the program.
    pub(crate) fn evaluate_lox_function(
        &mut self,
        paren: &Token,
        arguments: &Vec<LoxValue>,
        function: &LoxFunction,
        fuel: u64,
    ) -> (r: Result<LoxValue, InterpreterError>)
        requires
            old(self).wf(),
            function.closure < old(self)@.frames.len(),
            old(self)@.holds_all(arguments@),
        ensures
            final(self).follows(old(self)),
            r matches Ok(value) ==> final(self)@.holds(value),
            forall|answers: Seq<Answer>|
                is_prefix(final(self).answers@, answers) ==> #[trigger] semantics::call_function(
                    answers,
                    old(self)@,
                    *function,
                    arguments@,
                    *paren,
                    fuel as nat,
                ) == (final(self)@, r),
        decreases fuel, 0int, paren, 0int,
    {
        if function.declaration.parameters.len() != arguments.len() {
            return fail(
                InterpreterErrorType::WrongArity {
                    original: function.declaration.parameters.len(),
                    user: arguments.len(),
                },
                paren,
            );
        }
        if fuel == 0 {
            return fail(InterpreterErrorType::Exhausted, paren);
        }
        let frame = self.enclose(function.closure);
        let ghost enclosed = *self;
        self.bind_parameters(frame, function, arguments);
        let ghost entered = *self;
        let result = self.execute_block(&function.declaration.body, frame, false, fuel - 1);
        proof {
            entered.lemma_follows(&enclosed, old(self));
            self.lemma_follows(&entered, old(self));
            lemma_get_at_holds(self@, function.closure, "this"@, 0);
        }
        let r = match result {
            Err(error) => Err(error),
            Ok(flow) => if function.is_initializer {
                match self.environment.get_at(function.closure, "this", 0) {
                    Some(this) => Ok(this),
                    None => Ok(LoxValue::Nil),
                }
            } else {
                Ok(flow.returned())
            },
        };
        assert forall|answers: Seq<Answer>|
            is_prefix(self.answers@, answers) implies #[trigger] semantics::call_function(
            answers,
            old(self)@,
            *function,
            arguments@,
            *paren,
            fuel as nat,
        ) == (self@, r) by {
            let run = semantics::execute_block(
                answers,
                entered@,
                function.declaration.body@,
                0,
                frame,
                false,
                (fuel - 1) as nat,
            );
        }
        r
    }

    /// Calls the callable with index `callee`.
    pub(crate) fn interpret_call(
        &mut self,
        callee: usize,
        arguments: &Vec<LoxValue>,
        paren: &Token,
        fuel: u64,
    ) -> (r: Result<LoxValue, InterpreterError>)
        requires
            old(self).wf(),
            callee < old(self)@.callables.len(),
            old(self)@.holds_all(arguments@),
        ensures
            final(self).follows(old(self)),
            r matches Ok(value) ==> final(self)@.holds(value),
            forall|answers: Seq<Answer>|
                is_prefix(final(self).answers@, answers) ==> #[trigger] semantics::call(
                    answers,
                    old(self)@,
                    callee,
                    arguments@,
                    *paren,
                    fuel as nat,
                ) == (final(self)@, r),
        decreases fuel, 1int, paren, 0int,
    {
        assert(self@.callable_wf(self@.callables[callee as int]));
        match &self.callables[callee] {
            Callable::Native { func, arity } => {
                let func = *func;
                let arity = *arity;
                let r = self.evaluate_native(func, arity, arguments, paren);
                assert forall|answers: Seq<Answer>|
                    is_prefix(self.answers@, answers) implies #[trigger] semantics::call(
                    answers,
                    old(self)@,
                    callee,
                    arguments@,
                    *paren,
                    fuel as nat,
                ) == (self@, r) by {
                    let run = semantics::call_native(
                        answers,
                        old(self)@,
                        func,
                        arity,
                        arguments@,
                        *paren,
                    );
                }
                r
            },
            Callable::LoxFunction(function) => {
                let function = function.duplicate();
                let r = self.evaluate_lox_function(paren, arguments, &function, fuel);
                assert forall|answers: Seq<Answer>|
                    is_prefix(self.answers@, answers) implies #[trigger] semantics::call(
                    answers,
                    old(self)@,
                    callee,
                    arguments@,
                    *paren,
                    fuel as nat,
                ) == (self@, r) by {
                    let run = semantics::call_function(
                        answers,
                        old(self)@,
                        function,
                        arguments@,
                        *paren,
                        fuel as nat,
                    );
                }
                r
            },
            Callable::Constructor { class, arity } => {
                if *arity != arguments.len() {
                    return fail(
                        InterpreterErrorType::WrongArity {
                            original: *arity,
                            user: arguments.len(),
                        },
                        paren,
                    );
                }
                let class = class.clone();
                let ghost chain = class.chain();
                proof {
                    lemma_method_is_function(self@, chain, "init"@);
                }
                let initializer = class.find_method("init");
                let instance = self.add_instance(class);
                let ghost created = *self;
                let method = match initializer {
                    Some(init) => match &self.callables[init] {
                        Callable::LoxFunction(method) => method.duplicate(),
                        _ => { return Ok(instance); },
                    },
                    None => { return Ok(instance); },
                };
                assert(created@.callable_wf(created@.callables[initializer->0 as int]));
                let bound = self.bind_method(&method, instance);
                let ghost with_frame = *self;
                proof {
                    assert forall|k: int| 0 <= k < arguments@.len() implies with_frame@.holds(
                        #[trigger] arguments@[k],
                    ) by {
                        assert(old(self)@.holds(arguments@[k]));
                    }
                }
                let result = self.evaluate_lox_function(paren, arguments, &bound, fuel);
                let r = match result {
                    Err(error) => Err(error),
                    Ok(_) => Ok(instance),
                };
                proof {
                    with_frame.lemma_follows(&created, old(self));
                    self.lemma_follows(&with_frame, old(self));
                }
                assert forall|answers: Seq<Answer>|
                    is_prefix(self.answers@, answers) implies #[trigger] semantics::call(
                    answers,
                    old(self)@,
                    callee,
                    arguments@,
                    *paren,
                    fuel as nat,
                ) == (self@, r) by {
                    let run = semantics::call_function(
                        answers,
                        with_frame@,
                        bound,
                        arguments@,
                        *paren,
                        fuel as nat,
                    );
                }
                r
            },
        }
    }
}

} // verus!
