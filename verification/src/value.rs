//! Runtime values.
//!
//! A value is small and freely copied. Whatever is shared between holders (a
//! string, a callable, an instance) lives in a store of the interpreter and a
//! value holds its index there, so that every holder sees the same object.

use crate::environment::{define_spec, enclose_spec, Environment};
use crate::number::Number;
use crate::statement::Function;
use std::rc::Rc;
use vstd::hash_map::StringHashMap;
use vstd::prelude::*;
use vstd::string::StringExecFns;

verus! {

#[derive(Clone, Copy, PartialEq, Eq, Structural, Debug)]
pub enum LoxValue {
    Nil,
    Boolean(bool),
    Number(Number),
    /// Index of the text in the interpreter's string store.
    String(usize),
    /// Index of the callable in the interpreter's callable store.
    Callable(usize),
    /// Index of the instance in the interpreter's instance store.
    Instance(usize),
}

impl LoxValue {
    /// `nil`, `false` and the number zero are falsy; everything else is truthy.
    pub open spec fn is_truthy_spec(&self) -> bool {
        match *self {
            LoxValue::Nil => false,
            LoxValue::Boolean(b) => b,
            LoxValue::Number(n) => !n.is_zero_spec(),
            LoxValue::String(_) => true,
            LoxValue::Callable(_) => true,
            LoxValue::Instance(_) => true,
        }
    }

    /// The name of the kind of value, as runtime errors write it.
    pub open spec fn kind_spec(&self) -> Seq<char> {
        match *self {
            LoxValue::Nil => "nil"@,
            LoxValue::Boolean(_) => "boolean"@,
            LoxValue::Number(_) => "number"@,
            LoxValue::String(_) => "string"@,
            LoxValue::Callable(_) => "callable"@,
            LoxValue::Instance(_) => "instance"@,
        }
    }

    pub fn kind(&self) -> (r: &'static str)
        ensures
            r@ == self.kind_spec(),
    {
        match self {
            LoxValue::Nil => "nil",
            LoxValue::Boolean(_) => "boolean",
            LoxValue::Number(_) => "number",
            LoxValue::String(_) => "string",
            LoxValue::Callable(_) => "callable",
            LoxValue::Instance(_) => "instance",
        }
    }

    #[verifier::when_used_as_spec(is_truthy_spec)]
    pub fn is_truthy(&self) -> (r: bool)
        ensures
            r == self.is_truthy_spec(),
    {
        match self {
            LoxValue::Nil => false,
            LoxValue::Boolean(b) => *b,
            LoxValue::Number(n) => !n.is_zero(),
            LoxValue::String(_) => true,
            LoxValue::Callable(_) => true,
            LoxValue::Instance(_) => true,
        }
    }
}

/// What a statement hands to the statement around it.
#[derive(Clone, Copy, PartialEq, Eq, Structural, Debug)]
pub enum ControlFlow {
    Normal,
    BreakLoop,
    ContinueLoop,
    Return(LoxValue),
}

impl ControlFlow {
    /// What a call yields once the body of the function has ended with this
    /// signal: the returned value, and `nil` where nothing was returned.
    pub open spec fn returned_spec(&self) -> LoxValue {
        match *self {
            ControlFlow::Return(value) => value,
            _ => LoxValue::Nil,
        }
    }

    #[verifier::when_used_as_spec(returned_spec)]
    pub fn returned(&self) -> (r: LoxValue)
        ensures
            r == self.returned_spec(),
    {
        match self {
            ControlFlow::Return(value) => *value,
            _ => LoxValue::Nil,
        }
    }
}

/// The functions that the host provides to every program.
#[derive(Clone, Copy, PartialEq, Eq, Structural, Debug)]
pub enum NativeFunction {
    Clock,
    ReadLine,
    Random,
    StringToNumber,
}

impl NativeFunction {
    pub open spec fn arity_spec(&self) -> usize {
        match *self {
            NativeFunction::Clock => 0,
            NativeFunction::ReadLine => 0,
            NativeFunction::Random => 2,
            NativeFunction::StringToNumber => 1,
        }
    }

    #[verifier::when_used_as_spec(arity_spec)]
    pub fn arity(&self) -> (r: usize)
        ensures
            r == self.arity_spec(),
    {
        match self {
            NativeFunction::Clock => 0,
            NativeFunction::ReadLine => 0,
            NativeFunction::Random => 2,
            NativeFunction::StringToNumber => 1,
        }
    }
}

/// A closure: a declaration together with the frame it was declared in.
pub struct LoxFunction {
    /// Index of the defining frame in the environment.
    pub closure: usize,
    pub declaration: Rc<Function>,
    pub is_initializer: bool,
}

impl LoxFunction {
    /// Another handle on the same closure.
    pub fn duplicate(&self) -> (r: LoxFunction)
        ensures
            r == *self,
    {
        LoxFunction {
            closure: self.closure,
            declaration: self.declaration.clone(),
            is_initializer: self.is_initializer,
        }
    }

    /// Binds a method to an instance: a fresh frame, enclosed by the frame
    /// the method was declared in, binds `this` to the instance and nothing
    /// else, and the result is the same declaration closed over that frame.
    /// Each call makes a frame of its own.
    pub fn bind(&self, environment: &mut Environment, instance: LoxValue) -> (r: LoxFunction)
        requires
            old(environment).wf(),
            self.closure < old(environment)@.len(),
        ensures
            final(environment).wf(),
            final(environment)@ == define_spec(
                enclose_spec(old(environment)@, self.closure),
                old(environment)@.len() as usize,
                "this"@,
                instance,
            ),
            r == (LoxFunction {
                closure: old(environment)@.len() as usize,
                declaration: self.declaration,
                is_initializer: self.is_initializer,
            }),
    {
        let frame = environment.new_enclosed(self.closure);
        environment.define(frame, String::from_str("this"), instance);
        LoxFunction {
            closure: frame,
            declaration: self.declaration.clone(),
            is_initializer: self.is_initializer,
        }
    }
}

/// One class of an inheritance chain, as the contracts see it.
pub struct ClassLayer {
    pub name: String,
    /// Method name to the index of the method in the callable store.
    pub methods: Map<Seq<char>, usize>,
}

pub struct Class {
    pub name: String,
    /// Method name to the index of the method in the callable store.
    pub methods: StringHashMap<usize>,
    pub super_class: Option<Rc<Class>>,
}

/// Looks `name` up along a chain of classes, the class itself first, then its
/// superclass, and so on.
pub open spec fn find_method_spec(chain: Seq<ClassLayer>, name: Seq<char>) -> Option<usize>
    decreases chain.len(),
{
    if chain.len() == 0 {
        None
    } else if chain[0].methods.contains_key(name) {
        Some(chain[0].methods[name])
    } else {
        find_method_spec(chain.drop_first(), name)
    }
}

impl Class {
    /// This class alone.
    pub open spec fn layer(&self) -> ClassLayer {
        ClassLayer { name: self.name, methods: self.methods@ }
    }

    /// The inheritance chain: this class, its superclass, and so on to the root.
    pub open spec fn chain(&self) -> Seq<ClassLayer>
        decreases self,
    {
        match self.super_class {
            Some(parent) => seq![self.layer()] + parent.chain(),
            None => seq![self.layer()],
        }
    }

    pub fn new(name: String, methods: StringHashMap<usize>, super_class: Option<Rc<Class>>) -> (r:
        Self)
        ensures
            r.name == name,
            r.methods == methods,
            r.super_class == super_class,
    {
        Self { name, methods, super_class }
    }

    /// Own methods first, else the superclass chain.
    pub fn find_method(&self, name: &str) -> (r: Option<usize>)
        ensures
            r == find_method_spec(self.chain(), name@),
        decreases self,
    {
        proof {
            if self.super_class is Some {
                assert(self.chain() =~= seq![self.layer()] + self.super_class->0.chain());
            } else {
                assert(self.chain() =~= seq![self.layer()]);
            }
            assert(self.chain()[0] == self.layer());
        }
        match self.methods.get(name) {
            Some(method) => Some(*method),
            None => match &self.super_class {
                Some(parent) => {
                    assert(self.chain().drop_first() =~= parent.chain());
                    parent.find_method(name)
                },
                None => {
                    assert(self.chain().drop_first() =~= Seq::<ClassLayer>::empty());
                    assert(find_method_spec(self.chain().drop_first(), name@) is None);
                    None
                },
            },
        }
    }
}

/// A chain begins with the class itself.
pub proof fn lemma_chain_head(class: &Class)
    ensures
        class.chain().len() > 0,
        class.chain()[0] == class.layer(),
{
    if class.super_class is Some {
        assert(class.chain() =~= seq![class.layer()] + class.super_class->0.chain());
    } else {
        assert(class.chain() =~= seq![class.layer()]);
    }
}

/// A callable object, as the contracts see it.
pub enum CallableModel {
    Native { func: NativeFunction, arity: usize },
    LoxFunction(LoxFunction),
    Constructor { class: Seq<ClassLayer>, arity: usize },
}

pub enum Callable {
    /// A function of the host, with the number of arguments it takes.
    Native { func: NativeFunction, arity: usize },
    LoxFunction(LoxFunction),
    /// What a class name evaluates to. `arity` is that of the class's `init`,
    /// and 0 where it has none.
    Constructor { class: Rc<Class>, arity: usize },
}

impl CallableModel {
    pub open spec fn arity(self) -> usize {
        match self {
            CallableModel::Native { arity, .. } => arity,
            CallableModel::LoxFunction(function) => function.declaration.parameters.len(),
            CallableModel::Constructor { arity, .. } => arity,
        }
    }
}

impl View for Callable {
    type V = CallableModel;

    open spec fn view(&self) -> CallableModel {
        match *self {
            Callable::Native { func, arity } => CallableModel::Native { func, arity },
            Callable::LoxFunction(function) => CallableModel::LoxFunction(function),
            Callable::Constructor { class, arity } => CallableModel::Constructor {
                class: class.chain(),
                arity,
            },
        }
    }
}

impl Callable {
    /// How many arguments a call must pass.
    pub fn arity(&self) -> (r: usize)
        ensures
            r == self@.arity(),
    {
        match self {
            Callable::Native { arity, .. } => *arity,
            Callable::LoxFunction(function) => function.declaration.parameters.len(),
            Callable::Constructor { arity, .. } => *arity,
        }
    }
}

/// An instance, as the contracts see it.
pub struct InstanceModel {
    pub class: Seq<ClassLayer>,
    pub fields: Map<Seq<char>, LoxValue>,
}

pub struct Instance {
    pub class: Rc<Class>,
    pub fields: StringHashMap<LoxValue>,
}

/// What a property name denotes on an instance.
#[derive(Clone, Copy, PartialEq, Eq, Structural, Debug)]
pub enum Field {
    Undefined,
    Value(LoxValue),
    /// Index of the unbound method in the callable store.
    Method(usize),
}

impl InstanceModel {
    /// Fields shadow methods; a name that is neither is undefined.
    pub open spec fn get(self, key: Seq<char>) -> Field {
        if self.fields.contains_key(key) {
            Field::Value(self.fields[key])
        } else {
            match find_method_spec(self.class, key) {
                Some(method) => Field::Method(method),
                None => Field::Undefined,
            }
        }
    }

    /// Writes the instance's own field, whatever the class defines under that name.
    pub open spec fn set(self, key: Seq<char>, value: LoxValue) -> InstanceModel {
        InstanceModel { class: self.class, fields: self.fields.insert(key, value) }
    }
}

impl View for Instance {
    type V = InstanceModel;

    open spec fn view(&self) -> InstanceModel {
        InstanceModel { class: self.class.chain(), fields: self.fields@ }
    }
}

impl Instance {
    /// A fresh instance: no fields yet.
    pub fn new(class: Rc<Class>) -> (r: Self)
        ensures
            r@ == (InstanceModel { class: class.chain(), fields: Map::empty() }),
            r.class == class,
    {
        Self { class, fields: StringHashMap::new() }
    }

    pub fn get(&self, key: &str) -> (r: Field)
        ensures
            r == self@.get(key@),
    {
        match self.fields.get(key) {
            Some(value) => Field::Value(*value),
            None => match self.class.find_method(key) {
                Some(method) => Field::Method(method),
                None => Field::Undefined,
            },
        }
    }

    pub fn set(&mut self, key: &str, value: LoxValue)
        ensures
            final(self)@ == old(self)@.set(key@, value),
            final(self).class == old(self).class,
    {
        self.fields.insert(String::from_str(key), value);
    }

    pub fn class_name(&self) -> (r: &str)
        ensures
            r@ == self.class.name@,
            self@.class.len() > 0,
            self@.class[0].name == self.class.name,
    {
        proof {
            lemma_chain_head(&self.class);
        }
        self.class.name.as_str()
    }
}

} // verus!
