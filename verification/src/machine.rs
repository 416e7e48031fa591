//! The state of a running program, as the contracts see it.

use crate::environment::{chained, FrameModel};
use crate::host::{Answer, Question};
use crate::token::Token;
use crate::value::{CallableModel, ClassLayer, InstanceModel, LoxFunction, LoxValue};
use vstd::prelude::*;

verus! {

pub struct Machine {
    /// The environment; frame 0 is the global frame.
    pub frames: Seq<FrameModel>,
    /// The string store.
    pub strings: Seq<Seq<char>>,
    /// The callable store.
    pub callables: Seq<CallableModel>,
    /// The instance store.
    pub instances: Seq<InstanceModel>,
    /// The resolver's table: for the identity of a variable occurrence, the
    /// number of frames between the frame it is evaluated in and the frame
    /// that binds it.
    pub locals: Map<usize, usize>,
    /// Every line printed so far.
    pub printed: Seq<Seq<char>>,
    /// Every notice given so far.
    pub warned: Seq<Seq<char>>,
    /// Every question asked of the host so far.
    pub asked: Seq<Question>,
    /// How many answers the host has given so far.
    pub cursor: nat,
    /// The token of errors that occur at no token of the program.
    pub marker: Token,
}

impl Machine {
    /// Whether `value` refers to an object that exists.
    pub open spec fn holds(self, value: LoxValue) -> bool {
        match value {
            LoxValue::String(text) => text < self.strings.len(),
            LoxValue::Callable(callable) => callable < self.callables.len(),
            LoxValue::Instance(instance) => instance < self.instances.len(),
            _ => true,
        }
    }

    /// Whether every one of `values` refers to an object that exists.
    pub open spec fn holds_all(self, values: Seq<LoxValue>) -> bool {
        forall|i: int| 0 <= i < values.len() ==> self.holds(#[trigger] values[i])
    }

    /// Whether `callable` is the index of a function of the program.
    pub open spec fn is_function(self, callable: usize) -> bool {
        callable < self.callables.len() && self.callables[callable as int] is LoxFunction
    }

    /// Whether every method of the chain is a function of the program.
    pub open spec fn class_wf(self, chain: Seq<ClassLayer>) -> bool {
        &&& chain.len() > 0
        &&& forall|k: int, name: Seq<char>|
            0 <= k < chain.len() && (#[trigger] chain[k].methods.contains_key(name))
                ==> self.is_function(chain[k].methods[name])
    }

    pub open spec fn callable_wf(self, callable: CallableModel) -> bool {
        match callable {
            CallableModel::Native { func, arity } => arity == func.arity_spec(),
            CallableModel::LoxFunction(function) => function.closure < self.frames.len(),
            CallableModel::Constructor { class, .. } => self.class_wf(class),
        }
    }

    pub open spec fn frame_wf(self, frame: FrameModel) -> bool {
        forall|name: Seq<char>| #[trigger]
            frame.values.contains_key(name) ==> self.holds(frame.values[name])
    }

    pub open spec fn instance_wf(self, instance: InstanceModel) -> bool {
        &&& self.class_wf(instance.class)
        &&& forall|name: Seq<char>| #[trigger]
            instance.fields.contains_key(name) ==> self.holds(instance.fields[name])
    }

    /// No value, closure or method table refers to an object that does not
    /// exist, and the frames form chains that end at a frame without parent.
    pub open spec fn wf(self) -> bool {
        &&& chained(self.frames)
        &&& forall|i: int| 0 <= i < self.frames.len() ==> self.frame_wf(#[trigger] self.frames[i])
        &&& forall|i: int|
            0 <= i < self.callables.len() ==> self.callable_wf(#[trigger] self.callables[i])
        &&& forall|i: int|
            0 <= i < self.instances.len() ==> self.instance_wf(#[trigger] self.instances[i])
    }

    /// Nothing was taken away: the stores of `later` begin with what `self`
    /// holds; strings and callables are never changed once made, and an
    /// instance keeps its class.
    pub open spec fn grows_to(self, later: Machine) -> bool {
        &&& self.frames.len() <= later.frames.len()
        &&& self.strings.len() <= later.strings.len()
        &&& self.callables.len() <= later.callables.len()
        &&& self.instances.len() <= later.instances.len()
        &&& forall|i: int| 0 <= i < self.strings.len() ==> self.strings[i] == #[trigger] later.strings[i]
        &&& forall|i: int|
            0 <= i < self.callables.len() ==> self.callables[i] == #[trigger] later.callables[i]
        &&& forall|i: int|
            0 <= i < self.instances.len() ==> self.instances[i].class
                == (#[trigger] later.instances[i]).class
        &&& forall|i: int|
            0 <= i < self.frames.len() ==> self.frames[i].enclosing
                == (#[trigger] later.frames[i]).enclosing
        &&& self.locals == later.locals
        &&& self.marker == later.marker
        &&& self.cursor <= later.cursor
    }

    // Steps of the machine.

    /// One more question has been asked, and its answer taken.
    pub open spec fn ask(self, question: Question) -> Machine {
        Machine { asked: self.asked.push(question), cursor: self.cursor + 1, ..self }
    }

    /// The answer that the host gives next.
    pub open spec fn next(self, answers: Seq<Answer>) -> Answer {
        answers[self.cursor as int]
    }

    /// `text` has been put into the string store.
    pub open spec fn intern(self, text: Seq<char>) -> Machine {
        Machine { strings: self.strings.push(text), ..self }
    }

    /// The value of the string that `intern` stores next.
    pub open spec fn next_string(self) -> LoxValue {
        LoxValue::String(self.strings.len() as usize)
    }

    /// `callable` has been put into the callable store.
    pub open spec fn add_callable(self, callable: CallableModel) -> Machine {
        Machine { callables: self.callables.push(callable), ..self }
    }

    /// The value of the callable that `add_callable` stores next.
    pub open spec fn next_callable(self) -> LoxValue {
        LoxValue::Callable(self.callables.len() as usize)
    }

    /// A fresh instance of the class has been put into the instance store.
    pub open spec fn add_instance(self, class: Seq<ClassLayer>) -> Machine {
        Machine {
            instances: self.instances.push(InstanceModel { class, fields: Map::empty() }),
            ..self
        }
    }

    /// The value of the instance that `add_instance` stores next.
    pub open spec fn next_instance(self) -> LoxValue {
        LoxValue::Instance(self.instances.len() as usize)
    }

    /// The field of the instance has been written.
    pub open spec fn set_field(self, instance: usize, name: Seq<char>, value: LoxValue) -> Machine {
        Machine {
            instances: self.instances.update(
                instance as int,
                self.instances[instance as int].set(name, value),
            ),
            ..self
        }
    }

    /// The environment has been replaced.
    pub open spec fn with_frames(self, frames: Seq<FrameModel>) -> Machine {
        Machine { frames, ..self }
    }

    /// The notice `text` has been given.
    pub open spec fn warn(self, text: Seq<char>) -> Machine {
        Machine { warned: self.warned.push(text), ..self }
    }

    /// `text` has been printed.
    pub open spec fn print(self, text: Seq<char>) -> Machine {
        Machine { printed: self.printed.push(text), ..self }
    }

    /// The resolver has recorded a distance for a variable occurrence.
    pub open spec fn resolve(self, id: usize, depth: usize) -> Machine {
        Machine { locals: self.locals.insert(id, depth), ..self }
    }

    /// The index of the frame that is created next.
    pub open spec fn next_frame(self) -> usize {
        self.frames.len() as usize
    }

    /// The function bound to the instance: the same declaration, closed over
    /// the frame that is created next.
    pub open spec fn bound(self, method: LoxFunction) -> LoxFunction {
        LoxFunction {
            closure: self.next_frame(),
            declaration: method.declaration,
            is_initializer: method.is_initializer,
        }
    }
}

/// A class that is well formed stays so.
pub proof fn lemma_class_wf_monotonic(a: Machine, b: Machine, chain: Seq<ClassLayer>)
    requires
        a.grows_to(b),
        a.class_wf(chain),
    ensures
        b.class_wf(chain),
{
    assert forall|k: int, name: Seq<char>|
        0 <= k < chain.len() && (#[trigger] chain[k].methods.contains_key(name)) implies b.is_function(
        chain[k].methods[name],
    ) by {
        assert(a.is_function(chain[k].methods[name]));
    }
}

} // verus!
