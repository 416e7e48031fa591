//! The interpreter: executes statements and evaluates expressions, jumping to
//! the frame of each variable by the distance that the resolver recorded.

use crate::environment::{assign_at_spec, assignable, chained, define_spec, enclose_spec, lemma_ancestor_in_range, ancestor_spec, Environment};
use crate::error::{fail, InterpreterError, InterpreterErrorType};
use crate::expression::Expression;
use crate::host::{is_prefix, Answer, Host, Question};
use crate::machine::Machine;
use crate::number::{Arithmetic, Number};
use crate::operators::{binary_operation, Operation};
use crate::semantics;
use crate::statement::Statement;
use crate::token::{Token, TokenType};
use crate::value::{Callable, CallableModel, Class, Instance, InstanceModel, LoxFunction, LoxValue, NativeFunction};
use std::collections::HashMap;
use std::rc::Rc;

use vstd::prelude::*;
use vstd::string::StringExecFns;

verus! {

pub struct Interpreter<H: Host> {
    pub host: H,
    pub environment: Environment,
    pub strings: Vec<String>,
    pub callables: Vec<Callable>,
    pub instances: Vec<Instance>,
    /// The resolver's table, by the identity of each variable occurrence.
    pub locals: HashMap<usize, usize>,
    /// The longest chain of nested calls and loop rounds that a program may build.
    pub budget: u64,
    /// The token of errors that occur at no token of the program.
    pub marker: Token,
    /// Every question asked of the host so far.
    pub asked: Ghost<Seq<Question>>,
    /// Every answer of the host so far.
    pub answers: Ghost<Seq<Answer>>,
    /// Every line handed to the host for printing so far.
    pub printed: Ghost<Seq<Seq<char>>>,
    /// Every notice handed to the host so far.
    pub warned: Ghost<Seq<Seq<char>>>,
}

/// The state may have changed in one store or frame only; whatever is new or
/// changed is well formed.
pub proof fn lemma_wf_preserved(a: Machine, b: Machine)
    requires
        a.wf(),
        a.grows_to(b),
        chained(b.frames),
        forall|i: int|
            0 <= i < b.frames.len() ==> (i < a.frames.len() && #[trigger] b.frames[i]
                == a.frames[i]) || b.frame_wf(b.frames[i]),
        forall|i: int|
            0 <= i < b.callables.len() ==> i < a.callables.len() || b.callable_wf(
                #[trigger] b.callables[i],
            ),
        forall|i: int|
            0 <= i < b.instances.len() ==> (i < a.instances.len() && #[trigger] b.instances[i]
                == a.instances[i]) || b.instance_wf(b.instances[i]),
    ensures
        b.wf(),
{
    assert forall|i: int| 0 <= i < b.frames.len() implies b.frame_wf(#[trigger] b.frames[i]) by {
        if i < a.frames.len() && b.frames[i] == a.frames[i] {
            assert(a.frame_wf(a.frames[i]));
        }
    }
    assert forall|i: int| 0 <= i < b.callables.len() implies b.callable_wf(
        #[trigger] b.callables[i],
    ) by {
        if i < a.callables.len() {
            assert(a.callable_wf(a.callables[i]));
            match a.callables[i] {
                CallableModel::Constructor { class, .. } => {
                    crate::machine::lemma_class_wf_monotonic(a, b, class);
                },
                _ => {},
            }
        }
    }
    assert forall|i: int| 0 <= i < b.instances.len() implies b.instance_wf(
        #[trigger] b.instances[i],
    ) by {
        if i < a.instances.len() && b.instances[i] == a.instances[i] {
            assert(a.instance_wf(a.instances[i]));
            crate::machine::lemma_class_wf_monotonic(a, b, a.instances[i].class);
        }
    }
}

impl<H: Host> View for Interpreter<H> {
    type V = Machine;

    open spec fn view(&self) -> Machine {
        Machine {
            frames: self.environment@,
            strings: Seq::new(self.strings.len() as nat, |i: int| self.strings[i]@),
            callables: Seq::new(self.callables.len() as nat, |i: int| self.callables[i]@),
            instances: Seq::new(self.instances.len() as nat, |i: int| self.instances[i]@),
            locals: self.locals@,
            printed: self.printed@,
            warned: self.warned@,
            asked: self.asked@,
            cursor: self.answers@.len(),
            marker: self.marker,
        }
    }
}

impl<H: Host> Interpreter<H> {
    /// The state refers to nothing that does not exist.
    pub open spec fn wf(&self) -> bool {
        self@.wf()
    }

    /// `self` is a state that a run from `before` can reach: well formed,
    /// with everything that `before` held, and with the answers that the host
    /// had given put first.
    pub open spec fn follows(&self, before: &Self) -> bool {
        &&& self.wf()
        &&& before@.grows_to(self@)
        &&& is_prefix(before.answers@, self.answers@)
        &&& self.budget == before.budget
        &&& before.printed@.len() <= self.printed@.len()
    }

    /// Registers one host function under its name in the global frame.
    fn define_native(&mut self, name: &str, func: NativeFunction)
        requires
            old(self).wf(),
        ensures
            final(self).wf(),
            final(self)@ == old(self)@.add_callable(semantics::native_callable(func)).with_frames(
                define_spec(old(self)@.frames, 0, name@, old(self)@.next_callable()),
            ),
            final(self).answers == old(self).answers,
            final(self).budget == old(self).budget,
    {
        let value = self.add_callable(Callable::Native { func, arity: func.arity() });
        self.define(0, String::from_str(name), value);
    }

    /// An interpreter on the given host. The global frame holds the host
    /// functions `clock`, `read_line`, `random` and `string_to_number`, and
    /// nothing else; the budget is the largest there is.
    pub fn new(host: H) -> (r: Self)
        ensures
            r.wf(),
            r@ == semantics::initial(r.marker),
            r.marker.token_type == TokenType::Eof,
            r.marker.lexeme@ == Seq::<char>::empty(),
            r.marker.line == 0,
            r.answers@ == Seq::<Answer>::empty(),
            r.budget == u64::MAX,
    {
        let mut interpreter = Self {
            host,
            environment: Environment::new(),
            strings: Vec::new(),
            callables: Vec::new(),
            instances: Vec::new(),
            locals: HashMap::new(),
            budget: u64::MAX,
            marker: Token::new(TokenType::Eof, String::new(), 0),
            asked: Ghost(Seq::empty()),
            answers: Ghost(Seq::empty()),
            printed: Ghost(Seq::empty()),
            warned: Ghost(Seq::empty()),
        };
        proof {
            assert(interpreter@.strings =~= Seq::<Seq<char>>::empty());
            assert(interpreter@.callables =~= Seq::<CallableModel>::empty());
            assert(interpreter@.instances =~= Seq::<InstanceModel>::empty());
            assert(interpreter@.frames[0].values =~= Map::<Seq<char>, LoxValue>::empty());
        }
        interpreter.load_native_functions();
        interpreter
    }

    fn load_native_functions(&mut self)
        requires
            old(self).wf(),
            old(self)@.frames =~= seq![
                crate::environment::FrameModel { values: Map::empty(), enclosing: None },
            ],
            old(self)@.strings.len() == 0,
            old(self)@.callables.len() == 0,
            old(self)@.instances.len() == 0,
            old(self)@.locals == Map::<usize, usize>::empty(),
            old(self)@.printed.len() == 0,
            old(self)@.warned.len() == 0,
            old(self)@.asked.len() == 0,
            old(self)@.cursor == 0,
        ensures
            final(self).wf(),
            final(self)@ == semantics::initial(old(self).marker),
            final(self).marker == old(self).marker,
            final(self).answers == old(self).answers,
            final(self).budget == old(self).budget,
    {
        self.define_native("clock", NativeFunction::Clock);
        self.define_native("read_line", NativeFunction::ReadLine);
        self.define_native("random", NativeFunction::Random);
        self.define_native("string_to_number", NativeFunction::StringToNumber);
        proof {
            let m = self@;
            let expected = semantics::initial(old(self).marker);
            assert(m.frames[0].values =~= expected.frames[0].values);
            assert(m.frames =~= expected.frames);
            assert(m.strings =~= expected.strings);
            assert(m.callables =~= expected.callables);
            assert(m.instances =~= expected.instances);
            assert(m.printed =~= expected.printed);
            assert(m.warned =~= expected.warned);
            assert(m.asked =~= expected.asked);
        }
    }

    /// Sets the longest chain of nested calls and loop rounds that a program may build.
    pub fn set_budget(&mut self, budget: u64)
        ensures
            final(self).budget == budget,
            final(self)@ == old(self)@,
            final(self).answers == old(self).answers,
            final(self).wf() == old(self).wf(),
    {
        self.budget = budget;
    }

    /// Records, for a variable occurrence, how many frames lie between the
    /// frame it is evaluated in and the frame that binds it. Any other
    /// expression is left out.
    pub fn resolve(&mut self, expression: &Expression, depth: usize)
        ensures
            final(self)@ == (match expression.identity_spec() {
                Some(id) => old(self)@.resolve(id, depth),
                None => old(self)@,
            }),
            final(self).answers == old(self).answers,
            final(self).budget == old(self).budget,
            final(self).wf() == old(self).wf(),
    {
        broadcast use vstd::std_specs::hash::group_hash_axioms;

        match expression.identity() {
            Some(id) => {
                self.locals.insert(id, depth);
                proof {
                    assert(self@.strings =~= old(self)@.strings);
                    assert(self@.callables =~= old(self)@.callables);
                    assert(self@.instances =~= old(self)@.instances);
                }
            },
            None => {},
        }
    }

    /// What the global frame binds `name` to.
    pub fn global(&self, name: &str) -> (r: Option<LoxValue>)
        requires
            self.wf(),
        ensures
            r == crate::environment::get_spec(self@.frames, 0, name@),
    {
        self.environment.get(0, name)
    }

    /// The text of a string value.
    pub fn text(&self, value: LoxValue) -> (r: Option<&String>)
        ensures
            match r {
                Some(text) => value matches LoxValue::String(index) && index
                    < self@.strings.len() && text@ == self@.strings[index as int],
                None => !(value matches LoxValue::String(index) && index < self@.strings.len()),
            },
    {
        match value {
            LoxValue::String(index) => if index < self.strings.len() {
                Some(&self.strings[index])
            } else {
                None
            },
            _ => None,
        }
    }

    /// Runs a program: its statements in order, in the global frame, up to
    /// the first runtime error.
    pub fn interpret(&mut self, statements: &Vec<Statement>) -> (r: Result<(), InterpreterError>)
        requires
            old(self).wf(),
        ensures
            final(self).follows(old(self)),
            forall|answers: Seq<Answer>|
                is_prefix(final(self).answers@, answers) ==> #[trigger] semantics::interpret(
                    answers,
                    old(self)@,
                    statements@,
                    0,
                    old(self).budget as nat,
                ) == (final(self)@, r),
    {
        let fuel = self.budget;
        let mut i: usize = 0;
        while i < statements.len()
            invariant
                i <= statements.len(),
                fuel == old(self).budget,
                self.follows(old(self)),
                forall|answers: Seq<Answer>|
                    is_prefix(self.answers@, answers) ==> #[trigger] semantics::interpret(
                        answers,
                        old(self)@,
                        statements@,
                        0,
                        fuel as nat,
                    ) == semantics::interpret(answers, self@, statements@, i as nat, fuel as nat),
            decreases statements.len() - i,
        {
            let ghost before = *self;
            let result = self.execute_statement(&statements[i], 0, false, fuel);
            proof {
                self.lemma_follows(&before, old(self));
            }
            assert forall|answers: Seq<Answer>|
                is_prefix(self.answers@, answers) implies #[trigger] semantics::interpret(
                answers,
                old(self)@,
                statements@,
                0,
                fuel as nat,
            ) == (match result {
                Err(error) => (self@, Err::<(), InterpreterError>(error)),
                Ok(_) => semantics::interpret(
                    answers,
                    self@,
                    statements@,
                    (i + 1) as nat,
                    fuel as nat,
                ),
            }) by {
                let run = semantics::execute_statement(
                    answers,
                    before@,
                    statements@[i as int],
                    0,
                    false,
                    fuel as nat,
                );
                let rest = semantics::interpret(
                    answers,
                    before@,
                    statements@,
                    i as nat,
                    fuel as nat,
                );
            }
            match result {
                Err(error) => {
                    return Err(error);
                },
                Ok(_) => {},
            }
            i += 1;
        }
        assert forall|answers: Seq<Answer>|
            is_prefix(self.answers@, answers) implies #[trigger] semantics::interpret(
            answers,
            old(self)@,
            statements@,
            0,
            fuel as nat,
        ) == (self@, Ok::<(), InterpreterError>(())) by {
            let rest = semantics::interpret(answers, self@, statements@, i as nat, fuel as nat);
        }
        Ok(())
    }

    // The stores.

    /// Puts a text into the string store.
    pub(crate) fn intern(&mut self, text: String) -> (value: LoxValue)
        requires
            old(self).wf(),
        ensures
            final(self).follows(old(self)),
            final(self)@ == old(self)@.intern(text@),
            final(self).answers == old(self).answers,
            value == old(self)@.next_string(),
            final(self)@.holds(value),
    {
        let index = self.strings.len();
        self.strings.push(text);
        proof {
            assert(self@.strings =~= old(self)@.strings.push(text@));
            assert(self@.callables =~= old(self)@.callables);
            assert(self@.instances =~= old(self)@.instances);
            lemma_wf_preserved(old(self)@, self@);
        }
        LoxValue::String(index)
    }

    /// Puts a callable into the callable store.
    pub(crate) fn add_callable(&mut self, callable: Callable) -> (value: LoxValue)
        requires
            old(self).wf(),
            old(self)@.callable_wf(callable@),
        ensures
            final(self).follows(old(self)),
            final(self)@ == old(self)@.add_callable(callable@),
            final(self).answers == old(self).answers,
            value == old(self)@.next_callable(),
            final(self)@.holds(value),
    {
        let index = self.callables.len();
        self.callables.push(callable);
        proof {
            let a = old(self)@;
            let b = self@;
            assert(b.strings =~= a.strings);
            assert(b.callables =~= a.callables.push(callable@));
            assert(b.instances =~= a.instances);
            assert(a.grows_to(b));
            match callable@ {
                CallableModel::Constructor { class, .. } => {
                    crate::machine::lemma_class_wf_monotonic(a, b, class);
                },
                _ => {},
            }
            lemma_wf_preserved(a, b);
        }
        LoxValue::Callable(index)
    }

    /// Puts a fresh instance of the class into the instance store.
    pub(crate) fn add_instance(&mut self, class: Rc<Class>) -> (value: LoxValue)
        requires
            old(self).wf(),
            old(self)@.class_wf(class.chain()),
        ensures
            final(self).follows(old(self)),
            final(self)@ == old(self)@.add_instance(class.chain()),
            final(self).answers == old(self).answers,
            value == old(self)@.next_instance(),
            final(self)@.holds(value),
    {
        let index = self.instances.len();
        self.instances.push(Instance::new(class));
        proof {
            let a = old(self)@;
            let b = self@;
            assert(b.strings =~= a.strings);
            assert(b.callables =~= a.callables);
            assert(b.instances =~= a.instances.push(
                InstanceModel { class: class.chain(), fields: Map::empty() },
            ));
            assert(a.grows_to(b));
            crate::machine::lemma_class_wf_monotonic(a, b, class.chain());
            lemma_wf_preserved(a, b);
        }
        LoxValue::Instance(index)
    }

    /// Writes a field of an instance.
    pub(crate) fn set_field(&mut self, instance: usize, name: &str, value: LoxValue)
        requires
            old(self).wf(),
            instance < old(self)@.instances.len(),
            old(self)@.holds(value),
        ensures
            final(self).follows(old(self)),
            final(self)@ == old(self)@.set_field(instance, name@, value),
            final(self).answers == old(self).answers,
    {
        self.instances[instance].set(name, value);
        proof {
            let a = old(self)@;
            let b = self@;
            assert(b.strings =~= a.strings);
            assert(b.callables =~= a.callables);
            assert(b.instances =~= a.instances.update(
                instance as int,
                a.instances[instance as int].set(name@, value),
            ));
            assert(a.grows_to(b));
            assert(a.instance_wf(a.instances[instance as int]));
            crate::machine::lemma_class_wf_monotonic(a, b, a.instances[instance as int].class);
            lemma_wf_preserved(a, b);
        }
    }

    /// Binds a name in a frame.
    pub(crate) fn define(&mut self, frame: usize, name: String, value: LoxValue)
        requires
            old(self).wf(),
            frame < old(self)@.frames.len(),
            old(self)@.holds(value),
        ensures
            final(self).follows(old(self)),
            final(self)@ == old(self)@.with_frames(define_spec(old(self)@.frames, frame, name@, value)),
            final(self).answers == old(self).answers,
    {
        self.environment.define(frame, name, value);
        proof {
            let a = old(self)@;
            let b = self@;
            assert(b.strings =~= a.strings);
            assert(b.callables =~= a.callables);
            assert(b.instances =~= a.instances);
            assert(a.grows_to(b));
            assert(a.frame_wf(a.frames[frame as int]));
            lemma_wf_preserved(a, b);
        }
    }

    /// Creates an empty frame enclosed by `enclosing`.
    pub(crate) fn enclose(&mut self, enclosing: usize) -> (frame: usize)
        requires
            old(self).wf(),
            enclosing < old(self)@.frames.len(),
        ensures
            final(self).follows(old(self)),
            final(self)@ == old(self)@.with_frames(enclose_spec(old(self)@.frames, enclosing)),
            final(self).answers == old(self).answers,
            frame == old(self)@.next_frame(),
            frame < final(self)@.frames.len(),
    {
        let frame = self.environment.new_enclosed(enclosing);
        proof {
            let a = old(self)@;
            let b = self@;
            assert(b.strings =~= a.strings);
            assert(b.callables =~= a.callables);
            assert(b.instances =~= a.instances);
            assert(a.grows_to(b));
            lemma_wf_preserved(a, b);
        }
        frame
    }

    /// Overwrites a binding, and says whether there was one.
    pub(crate) fn assign_at(&mut self, frame: usize, name: &str, value: LoxValue, distance: usize) -> (r: bool)
        requires
            old(self).wf(),
            frame < old(self)@.frames.len(),
            old(self)@.holds(value),
        ensures
            final(self).follows(old(self)),
            final(self)@ == old(self)@.with_frames(
                assign_at_spec(old(self)@.frames, frame, name@, value, distance as nat),
            ),
            r == assignable(old(self)@.frames, frame, name@, distance as nat),
            final(self).answers == old(self).answers,
    {
        let r = self.environment.assign_at(frame, name, value, distance);
        proof {
            let a = old(self)@;
            let b = self@;
            assert(b.strings =~= a.strings);
            assert(b.callables =~= a.callables);
            assert(b.instances =~= a.instances);
            if r {
                lemma_ancestor_in_range(a.frames, frame, distance as nat);
                let target = ancestor_spec(a.frames, frame, distance as nat)->0;
                assert(a.frame_wf(a.frames[target as int]));
            }
            assert(a.grows_to(b));
            lemma_wf_preserved(a, b);
        }
        r
    }

    // The host.

    /// Has the host compute `left operation right`.
    pub(crate) fn ask_arithmetic(&mut self, operation: Arithmetic, left: Number, right: Number) -> (r: Number)
        requires
            old(self).wf(),
        ensures
            final(self).follows(old(self)),
            final(self)@ == old(self)@.ask(Question::Arithmetic(operation, left, right)),
            final(self).answers@ == old(self).answers@.push(Answer::Number(r)),
    {
        let r = self.host.arithmetic(operation, left, right);
        self.note(Ghost(Question::Arithmetic(operation, left, right)), Ghost(Answer::Number(r)));
        r
    }

    /// Has the host format a number.
    pub(crate) fn ask_format(&mut self, number: Number) -> (r: String)
        requires
            old(self).wf(),
        ensures
            final(self).follows(old(self)),
            final(self)@ == old(self)@.ask(Question::Format(number)),
            final(self).answers@ == old(self).answers@.push(Answer::Text(r)),
    {
        let r = self.host.format_number(number);
        self.note(Ghost(Question::Format(number)), Ghost(Answer::Text(r)));
        r
    }

    /// Notes a question that was asked and the answer that was given.
    pub(crate) fn note(&mut self, question: Ghost<Question>, answer: Ghost<Answer>)
        requires
            old(self).wf(),
            question@.fits(answer@),
        ensures
            final(self).follows(old(self)),
            final(self)@ == old(self)@.ask(question@),
            final(self).answers@ == old(self).answers@.push(answer@),
            final(self).strings == old(self).strings,
    {
        proof {
            self.asked@ = self.asked@.push(question@);
            self.answers@ = self.answers@.push(answer@);
            assert(self@.strings =~= old(self)@.strings);
            assert(self@.callables =~= old(self)@.callables);
            assert(self@.instances =~= old(self)@.instances);
            lemma_wf_preserved(old(self)@, self@);
        }
    }

    /// Hands a line to the host for printing.
    pub(crate) fn emit(&mut self, text: &str)
        requires
            old(self).wf(),
        ensures
            final(self).follows(old(self)),
            final(self)@ == old(self)@.print(text@),
            final(self).answers == old(self).answers,
    {
        self.host.print(text);
        proof {
            self.printed@ = self.printed@.push(text@);
            assert(self@.strings =~= old(self)@.strings);
            assert(self@.callables =~= old(self)@.callables);
            assert(self@.instances =~= old(self)@.instances);
            lemma_wf_preserved(old(self)@, self@);
        }
    }

    /// Hands a notice to the host.
    pub(crate) fn warn(&mut self, text: &str)
        requires
            old(self).wf(),
        ensures
            final(self).follows(old(self)),
            final(self)@ == old(self)@.warn(text@),
            final(self).answers == old(self).answers,
    {
        self.host.warn(text);
        proof {
            self.warned@ = self.warned@.push(text@);
            assert(self@.strings =~= old(self)@.strings);
            assert(self@.callables =~= old(self)@.callables);
            assert(self@.instances =~= old(self)@.instances);
            lemma_wf_preserved(old(self)@, self@);
        }
    }

    /// The display form of a value: what `print` writes and what `+` puts
    /// behind a string.
    pub fn display(&mut self, value: LoxValue) -> (r: String)
        requires
            old(self).wf(),
            old(self)@.holds(value),
        ensures
            final(self).follows(old(self)),
            forall|answers: Seq<Answer>|
                is_prefix(final(self).answers@, answers) ==> #[trigger] semantics::display(
                    answers,
                    old(self)@,
                    value,
                ) == (final(self)@, r@),
    {
        match value {
            LoxValue::Nil => String::from_str("nil"),
            LoxValue::Boolean(b) => if b {
                String::from_str("true")
            } else {
                String::from_str("false")
            },
            LoxValue::Number(number) => {
                let r = self.ask_format(number);
                assert forall|answers: Seq<Answer>|
                    is_prefix(self.answers@, answers) implies #[trigger] semantics::display(
                    answers,
                    old(self)@,
                    value,
                ) == (self@, r@) by {
                    assert(answers[old(self)@.cursor as int] == self.answers@[old(
                        self,
                    )@.cursor as int]);
                }
                r
            },
            LoxValue::String(text) => self.strings[text].clone(),
            LoxValue::Callable(callable) => match &self.callables[callable] {
                Callable::Native { .. } => String::from_str("<native fun>"),
                Callable::LoxFunction(function) => String::from_str("<fun ").concat(
                    function.declaration.name.as_str(),
                ).concat(">"),
                Callable::Constructor { class, .. } => {
                    proof {
                        crate::value::lemma_chain_head(class);
                    }
                    String::from_str("<constructor ").concat(class.name.as_str()).concat(">")
                },
            },
            LoxValue::Instance(instance) => String::from_str("instanceof(").concat(
                self.instances[instance].class_name(),
            ).concat(")"),
        }
    }

    /// Whether a value refers to something that exists.
    pub fn holds(&self, value: LoxValue) -> (r: bool)
        ensures
            r == self@.holds(value),
    {
        match value {
            LoxValue::String(text) => text < self.strings.len(),
            LoxValue::Callable(callable) => callable < self.callables.len(),
            LoxValue::Instance(instance) => instance < self.instances.len(),
            _ => true,
        }
    }

    /// A value as an error report shows it.
    fn shown(&mut self, value: LoxValue) -> (r: String)
        requires
            old(self).wf(),
        ensures
            final(self).follows(old(self)),
            forall|answers: Seq<Answer>|
                is_prefix(final(self).answers@, answers) ==> #[trigger] semantics::shown(
                    answers,
                    old(self)@,
                    value,
                ) == (final(self)@, r@),
    {
        if self.holds(value) {
            let r = self.display(value);
            assert forall|answers: Seq<Answer>|
                is_prefix(self.answers@, answers) implies #[trigger] semantics::shown(
                answers,
                old(self)@,
                value,
            ) == (self@, r@) by {
                let run = semantics::display(answers, old(self)@, value);
            }
            r
        } else {
            String::from_str(value.kind())
        }
    }

    /// What a runtime error says, with the operands that an operator was
    /// given shown as values.
    pub fn message(&mut self, error: &InterpreterError) -> (r: String)
        requires
            old(self).wf(),
        ensures
            final(self).follows(old(self)),
            forall|answers: Seq<Answer>|
                is_prefix(final(self).answers@, answers) ==> #[trigger] semantics::message(
                    answers,
                    old(self)@,
                    *error,
                ) == (final(self)@, r@),
    {
        match &error.error_type {
            InterpreterErrorType::WrongUnaryOperands(operator, operand) => {
                let text = self.shown(*operand);
                let r = String::from_str("The unary operation ").concat(operator.name()).concat(
                    " is not valid over token of type: ",
                ).concat(text.as_str());
                assert forall|answers: Seq<Answer>|
                    is_prefix(self.answers@, answers) implies #[trigger] semantics::message(
                    answers,
                    old(self)@,
                    *error,
                ) == (self@, r@) by {
                    let run = semantics::shown(answers, old(self)@, *operand);
                }
                r
            },
            InterpreterErrorType::WrongBinaryOperands(left, operator, right) => {
                let first = self.shown(*left);
                let ghost between = *self;
                let second = self.shown(*right);
                let r = String::from_str("Operation of type: ").concat(operator.name()).concat(
                    " cannot be applied over operands of types ",
                ).concat(first.as_str()).concat(" and ").concat(second.as_str());
                proof {
                    self.lemma_follows(&between, old(self));
                }
                assert forall|answers: Seq<Answer>|
                    is_prefix(self.answers@, answers) implies #[trigger] semantics::message(
                    answers,
                    old(self)@,
                    *error,
                ) == (self@, r@) by {
                    let run = semantics::shown(answers, old(self)@, *left);
                    let more = semantics::shown(answers, between@, *right);
                }
                r
            },
            _ => error.message(),
        }
    }

    /// The report of a runtime error, as a host shows it: what it says, a
    /// line break, and the line of its token in brackets.
    pub fn report(&mut self, error: &InterpreterError) -> (r: String)
        requires
            old(self).wf(),
        ensures
            final(self).follows(old(self)),
            forall|answers: Seq<Answer>|
                is_prefix(final(self).answers@, answers) ==> #[trigger] semantics::report(
                    answers,
                    old(self)@,
                    *error,
                ) == (final(self)@, r@),
    {
        let text = self.message(error);
        let r = text.concat("\n[line ").concat(
            crate::text::decimal(error.token.line()).as_str(),
        ).concat("]");
        assert forall|answers: Seq<Answer>|
            is_prefix(self.answers@, answers) implies #[trigger] semantics::report(
            answers,
            old(self)@,
            *error,
        ) == (self@, r@) by {
            let run = semantics::message(answers, old(self)@, *error);
        }
        r
    }

    /// The result of a binary operator on two values.
    pub(crate) fn binary(&mut self, left: LoxValue, operator: &Token, right: LoxValue) -> (r: Result<
        LoxValue,
        InterpreterError,
    >)
        requires
            old(self).wf(),
            old(self)@.holds(left),
            old(self)@.holds(right),
        ensures
            final(self).follows(old(self)),
            r matches Ok(value) ==> final(self)@.holds(value),
            forall|answers: Seq<Answer>|
                is_prefix(final(self).answers@, answers) ==> #[trigger] semantics::binary(
                    answers,
                    old(self)@,
                    left,
                    *operator,
                    right,
                ) == (final(self)@, r),
    {
        match binary_operation(left, &operator.token_type, right) {
            Operation::Done(Ok(value)) => Ok(value),
            Operation::Done(Err(error)) => fail(error, operator),
            Operation::Compute(operation, a, b) => {
                let number = self.ask_arithmetic(operation, a, b);
                assert forall|answers: Seq<Answer>|
                    is_prefix(self.answers@, answers) implies #[trigger] semantics::binary(
                    answers,
                    old(self)@,
                    left,
                    *operator,
                    right,
                ) == (self@, Ok::<LoxValue, InterpreterError>(LoxValue::Number(number))) by {
                    assert(answers[old(self)@.cursor as int] == self.answers@[old(
                        self,
                    )@.cursor as int]);
                }
                Ok(LoxValue::Number(number))
            },
            Operation::Concatenate(text, value) => {
                let tail = self.display(value);
                let ghost shown = self@;
                let joined = self.strings[text].clone().concat(tail.as_str());
                let result = self.intern(joined);
                assert forall|answers: Seq<Answer>|
                    is_prefix(self.answers@, answers) implies #[trigger] semantics::binary(
                    answers,
                    old(self)@,
                    left,
                    *operator,
                    right,
                ) == (self@, Ok::<LoxValue, InterpreterError>(result)) by {
                    let d = semantics::display(answers, old(self)@, value);
                    assert(d == (shown, tail@));
                }
                Ok(result)
            },
        }
    }

    /// The token that an error about the whole expression is reported at.
    pub(crate) fn anchor<'a>(&'a self, expression: &'a Expression) -> (r: &'a Token)
        ensures
            *r == semantics::anchor_spec(*expression, self.marker),
    {
        match expression {
            Expression::Binary { operator, .. } => operator,
            Expression::Unary(operator, _) => operator,
            Expression::Var { token, .. } => token,
            Expression::Assignment { token, .. } => token,
            Expression::Call { paren, .. } => paren,
            Expression::Get { token, .. } => token,
            Expression::SetField { name, .. } => name,
            Expression::This { keyword, .. } => keyword,
            _ => &self.marker,
        }
    }
}

} // verus!
