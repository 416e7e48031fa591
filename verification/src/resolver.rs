//! The resolver: a pass over the syntax tree, before any of it runs, that
//! finds for every variable occurrence the scope that declares it, records
//! in the interpreter how many scopes lie between the two, and rejects what
//! no scope rule allows.

use crate::expression::Expression;
use crate::host::Host;
use crate::interpreter::Interpreter;
use crate::machine::Machine;
use crate::statement::{Function, Statement};
use crate::token::Token;
use std::rc::Rc;
use vstd::hash_map::StringHashMap;
use vstd::prelude::*;
use vstd::string::StringExecFns;

verus! {

#[derive(Debug, PartialEq, Eq)]
pub enum ResolverError {
    /// A variable is read in its own initializer.
    NotInitialized(String),
    /// A name is declared twice in one scope.
    VariableAlreadyExists(String),
    /// `return` stands outside every function.
    ReturnNotInFunction,
    /// `this` stands outside every class; the line of the keyword.
    InvalidThis(usize),
}

/// The kind of function whose body is being resolved.
#[derive(Clone, Copy, PartialEq, Eq, Structural, Debug)]
pub enum FunctionType {
    Outside,
    Function,
    Method,
}

/// Whether the body of a class is being resolved.
#[derive(Clone, Copy, PartialEq, Eq, Structural, Debug)]
pub enum ClassType {
    Outside,
    Class,
}

/// A scope: the names declared in it, each with whether it is defined yet.
pub type Scope = Map<Seq<char>, bool>;

/// The table that the resolver fills: distances by occurrence.
pub type Distances = Map<usize, usize>;

/// The resolver, as the contracts see it. The last scope is the innermost;
/// the global scope is not among them.
pub struct ResolverModel {
    pub scopes: Seq<Scope>,
    pub function_type: FunctionType,
    pub class_type: ClassType,
}

/// How many scopes lie between the innermost scope and the nearest one that
/// declares `name`; `None` where no scope does, and the name is global.
pub open spec fn distance(scopes: Seq<Scope>, name: Seq<char>) -> Option<nat>
    decreases scopes.len(),
{
    if scopes.len() == 0 {
        None
    } else if scopes.last().contains_key(name) {
        Some(0)
    } else {
        match distance(scopes.drop_last(), name) {
            Some(found) => Some(found + 1),
            None => None,
        }
    }
}

/// The table after the occurrence `id` of `name` has been resolved.
pub open spec fn resolve_local(scopes: Seq<Scope>, locals: Distances, id: usize, name: Seq<char>) -> Distances {
    match distance(scopes, name) {
        Some(found) => locals.insert(id, found as usize),
        None => locals,
    }
}

impl ResolverModel {
    pub open spec fn with_scopes(self, scopes: Seq<Scope>) -> ResolverModel {
        ResolverModel { scopes, ..self }
    }

    pub open spec fn with_function(self, function_type: FunctionType) -> ResolverModel {
        ResolverModel { function_type, ..self }
    }

    pub open spec fn with_class(self, class_type: ClassType) -> ResolverModel {
        ResolverModel { class_type, ..self }
    }

    /// A scope has been opened.
    pub open spec fn begin_scope(self) -> ResolverModel {
        self.with_scopes(self.scopes.push(Map::empty()))
    }

    /// The innermost scope has been closed.
    pub open spec fn end_scope(self) -> ResolverModel {
        if self.scopes.len() > 0 {
            self.with_scopes(self.scopes.drop_last())
        } else {
            self
        }
    }

    /// `name` has been entered into the innermost scope.
    pub open spec fn enter(self, name: Seq<char>, defined: bool) -> ResolverModel {
        if self.scopes.len() > 0 {
            self.with_scopes(
                self.scopes.update(self.scopes.len() - 1, self.scopes.last().insert(name, defined)),
            )
        } else {
            self
        }
    }

    /// Whether the innermost scope has `name` already.
    pub open spec fn declared(self, name: Seq<char>) -> bool {
        self.scopes.len() > 0 && self.scopes.last().contains_key(name)
    }

    /// Whether `name` is declared in the innermost scope and not defined yet.
    pub open spec fn in_own_initializer(self, name: Seq<char>) -> bool {
        self.declared(name) && !self.scopes.last()[name]
    }

    /// Declaring: the name becomes visible and not yet usable. At the global
    /// level nothing is recorded and nothing is refused.
    pub open spec fn declare(self, name: String) -> (ResolverModel, Result<(), ResolverError>) {
        if self.declared(name@) {
            (self, Err(ResolverError::VariableAlreadyExists(name)))
        } else {
            (self.enter(name@, false), Ok(()))
        }
    }
}

pub open spec fn resolve_expression(r: ResolverModel, locals: Distances, expression: Expression) -> (
    Distances,
    Result<(), ResolverError>,
)
    decreases expression, 0int,
{
    match expression {
        Expression::Var { name, id, .. } => if r.in_own_initializer(name@) {
            (locals, Err(ResolverError::NotInitialized(name)))
        } else {
            (resolve_local(r.scopes, locals, id, name@), Ok(()))
        },
        Expression::This { keyword, id } => if r.class_type != ClassType::Class {
            (locals, Err(ResolverError::InvalidThis(keyword.line)))
        } else {
            (resolve_local(r.scopes, locals, id, keyword.lexeme@), Ok(()))
        },
        Expression::Assignment { name, value, id, .. } => {
            let (after, result) = resolve_expression(r, locals, *value);
            match result {
                Err(error) => (after, Err(error)),
                Ok(_) => (resolve_local(r.scopes, after, id, name@), Ok(())),
            }
        },
        Expression::Binary { left, right, .. } => {
            let (after, result) = resolve_expression(r, locals, *left);
            match result {
                Err(error) => (after, Err(error)),
                Ok(_) => resolve_expression(r, after, *right),
            }
        },
        Expression::Or { left, right } => {
            let (after, result) = resolve_expression(r, locals, *left);
            match result {
                Err(error) => (after, Err(error)),
                Ok(_) => resolve_expression(r, after, *right),
            }
        },
        Expression::And { left, right } => {
            let (after, result) = resolve_expression(r, locals, *left);
            match result {
                Err(error) => (after, Err(error)),
                Ok(_) => resolve_expression(r, after, *right),
            }
        },
        Expression::SetField { object, value, .. } => {
            let (after, result) = resolve_expression(r, locals, *object);
            match result {
                Err(error) => (after, Err(error)),
                Ok(_) => resolve_expression(r, after, *value),
            }
        },
        Expression::Grouping(inner) => resolve_expression(r, locals, *inner),
        Expression::Unary(_, operand) => resolve_expression(r, locals, *operand),
        Expression::Get { expression: object, .. } => resolve_expression(r, locals, *object),
        Expression::Call { callee, args, .. } => {
            let (after, result) = resolve_expression(r, locals, *callee);
            match result {
                Err(error) => (after, Err(error)),
                Ok(_) => resolve_expressions(r, after, args@, 0),
            }
        },
        Expression::True => (locals, Ok(())),
        Expression::False => (locals, Ok(())),
        Expression::Number(_) => (locals, Ok(())),
        Expression::String(_) => (locals, Ok(())),
        Expression::Nil => (locals, Ok(())),
    }
}

pub open spec fn resolve_expressions(
    r: ResolverModel,
    locals: Distances,
    expressions: Seq<Expression>,
    from: nat,
) -> (Distances, Result<(), ResolverError>)
    decreases expressions, expressions.len() - from,
{
    if from >= expressions.len() {
        (locals, Ok(()))
    } else {
        let (after, result) = resolve_expression(r, locals, expressions[from as int]);
        match result {
            Err(error) => (after, Err(error)),
            Ok(_) => resolve_expressions(r, after, expressions, from + 1),
        }
    }
}

/// An expression that may be absent.
pub open spec fn resolve_optional(r: ResolverModel, locals: Distances, expression: Option<Expression>) -> (
    Distances,
    Result<(), ResolverError>,
) {
    match expression {
        Some(expression) => resolve_expression(r, locals, expression),
        None => (locals, Ok(())),
    }
}

/// The state of a resolution: the resolver, the table, and how it went.
pub type Resolved = (ResolverModel, Distances, Result<(), ResolverError>);

/// The parameters from index `from` on, each declared and defined in the innermost scope.
pub open spec fn declare_parameters(r: ResolverModel, parameters: Seq<Token>, from: nat) -> (
    ResolverModel,
    Result<(), ResolverError>,
)
    decreases parameters.len() - from,
{
    if from >= parameters.len() {
        (r, Ok(()))
    } else {
        let name = parameters[from as int].lexeme;
        let (declared, result) = r.declare(name);
        match result {
            Err(error) => (declared, Err(error)),
            Ok(_) => declare_parameters(declared.enter(name@, true), parameters, from + 1),
        }
    }
}

/// A function or method: its parameters and its body share one scope; the
/// kind of the function around it is put back afterwards.
pub open spec fn resolve_function(
    r: ResolverModel,
    locals: Distances,
    function: Function,
    kind: FunctionType,
) -> Resolved
    decreases function, 0int,
{
    let (declared, result) = declare_parameters(
        r.with_function(kind).begin_scope(),
        function.parameters@,
        0,
    );
    match result {
        Err(error) => (declared, locals, Err(error)),
        Ok(_) => {
            let (after, table, result) = resolve_statements(declared, locals, function.body@, 0);
            match result {
                Err(error) => (after, table, Err(error)),
                Ok(_) => (after.end_scope().with_function(r.function_type), table, Ok(())),
            }
        },
    }
}

/// The methods of a class from index `from` on.
pub open spec fn resolve_methods(
    r: ResolverModel,
    locals: Distances,
    methods: Seq<Rc<Function>>,
    from: nat,
) -> Resolved
    decreases methods, methods.len() - from,
{
    if from >= methods.len() {
        (r, locals, Ok(()))
    } else {
        let (after, table, result) = resolve_function(
            r,
            locals,
            *methods[from as int],
            FunctionType::Method,
        );
        match result {
            Err(error) => (after, table, Err(error)),
            Ok(_) => resolve_methods(after, table, methods, from + 1),
        }
    }
}

pub open spec fn resolve_statements(
    r: ResolverModel,
    locals: Distances,
    statements: Seq<Statement>,
    from: nat,
) -> Resolved
    decreases statements, statements.len() - from,
{
    if from >= statements.len() {
        (r, locals, Ok(()))
    } else {
        let (after, table, result) = resolve_statement(r, locals, statements[from as int]);
        match result {
            Err(error) => (after, table, Err(error)),
            Ok(_) => resolve_statements(after, table, statements, from + 1),
        }
    }
}

pub open spec fn resolve_statement(r: ResolverModel, locals: Distances, statement: Statement) -> Resolved
    decreases statement, 0int,
{
    match statement {
        Statement::Block(statements) => {
            let (after, table, result) = resolve_statements(r.begin_scope(), locals, statements@, 0);
            match result {
                Err(error) => (after, table, Err(error)),
                Ok(_) => (after.end_scope(), table, Ok(())),
            }
        },
        Statement::VariableDeclaration { name, initializer } => {
            let (declared, result) = r.declare(name);
            match result {
                Err(error) => (declared, locals, Err(error)),
                Ok(_) => {
                    let (table, result) = resolve_optional(declared, locals, initializer);
                    match result {
                        Err(error) => (declared, table, Err(error)),
                        Ok(_) => (declared.enter(name@, true), table, Ok(())),
                    }
                },
            }
        },
        Statement::ClassDeclaration { name, methods, super_class } => {
            let (declared, result) = r.declare(name);
            match result {
                Err(error) => (declared, locals, Err(error)),
                Ok(_) => {
                    let defined = declared.enter(name@, true);
                    let (table, result) = resolve_optional(defined, locals, super_class);
                    match result {
                        Err(error) => (defined, table, Err(error)),
                        Ok(_) => {
                            let (after, table, result) = resolve_methods(
                                defined.with_class(ClassType::Class).begin_scope().enter(
                                    "this"@,
                                    true,
                                ),
                                table,
                                methods@,
                                0,
                            );
                            match result {
                                Err(error) => (after, table, Err(error)),
                                Ok(_) => (after.end_scope().with_class(r.class_type), table, Ok(())),
                            }
                        },
                    }
                },
            }
        },
        Statement::Expression(expression) => {
            let (table, result) = resolve_expression(r, locals, expression);
            (r, table, result)
        },
        Statement::Print(expression) => {
            let (table, result) = resolve_expression(r, locals, expression);
            (r, table, result)
        },
        Statement::FunctionDeclaration(function) => {
            let (declared, result) = r.declare(function.name);
            match result {
                Err(error) => (declared, locals, Err(error)),
                Ok(_) => resolve_function(
                    declared.enter(function.name@, true),
                    locals,
                    *function,
                    FunctionType::Function,
                ),
            }
        },
        Statement::If { condition, then_branch, else_branch } => {
            let (table, result) = resolve_expression(r, locals, condition);
            match result {
                Err(error) => (r, table, Err(error)),
                Ok(_) => {
                    let (after, table, result) = resolve_statement(r, table, *then_branch);
                    match result {
                        Err(error) => (after, table, Err(error)),
                        Ok(_) => match else_branch {
                            Some(else_branch) => resolve_statement(after, table, *else_branch),
                            None => (after, table, Ok(())),
                        },
                    }
                },
            }
        },
        Statement::While { condition, body } => {
            let (table, result) = resolve_expression(r, locals, condition);
            match result {
                Err(error) => (r, table, Err(error)),
                Ok(_) => resolve_statement(r, table, *body),
            }
        },
        Statement::For { initializer, condition, increment, body } => {
            let (started, table, result) = match initializer {
                Some(initializer) => resolve_statement(r, locals, *initializer),
                None => (r, locals, Ok(())),
            };
            match result {
                Err(error) => (started, table, Err(error)),
                Ok(_) => {
                    let (table, result) = resolve_optional(started, table, condition);
                    match result {
                        Err(error) => (started, table, Err(error)),
                        Ok(_) => {
                            let (table, result) = resolve_optional(started, table, increment);
                            match result {
                                Err(error) => (started, table, Err(error)),
                                Ok(_) => resolve_statement(started, table, *body),
                            }
                        },
                    }
                },
            }
        },
        Statement::Return { expression, .. } => if r.function_type == FunctionType::Outside {
            (r, locals, Err(ResolverError::ReturnNotInFunction))
        } else {
            let (table, result) = resolve_optional(r, locals, expression);
            (r, table, result)
        },
        Statement::Break { .. } => (r, locals, Ok(())),
        Statement::Continue { .. } => (r, locals, Ok(())),
    }
}

pub struct Resolver {
    pub scopes: Vec<StringHashMap<bool>>,
    pub function_type: FunctionType,
    pub class_type: ClassType,
}

impl View for Resolver {
    type V = ResolverModel;

    open spec fn view(&self) -> ResolverModel {
        ResolverModel {
            scopes: Seq::new(self.scopes.len() as nat, |i: int| self.scopes[i]@),
            function_type: self.function_type,
            class_type: self.class_type,
        }
    }
}

/// What a resolution may change of an interpreter: the table of distances.
pub open spec fn only_resolved<H: Host>(before: &Interpreter<H>, after: &Interpreter<H>) -> bool {
    &&& after@ == (Machine { locals: after@.locals, ..before@ })
    &&& after.answers == before.answers
    &&& after.budget == before.budget
    &&& after.wf() == before.wf()
}

impl Resolver {
    /// A resolver at the global level, outside every function and class.
    pub fn new() -> (r: Self)
        ensures
            r@ == (ResolverModel {
                scopes: Seq::empty(),
                function_type: FunctionType::Outside,
                class_type: ClassType::Outside,
            }),
    {
        let r = Self {
            scopes: Vec::new(),
            function_type: FunctionType::Outside,
            class_type: ClassType::Outside,
        };
        assert(r@.scopes =~= Seq::<Scope>::empty());
        r
    }

    fn begin_scope(&mut self)
        ensures
            final(self)@ == old(self)@.begin_scope(),
    {
        self.scopes.push(StringHashMap::new());
        assert(self@.scopes =~= old(self)@.scopes.push(Map::empty()));
    }

    fn end_scope(&mut self)
        ensures
            final(self)@ == old(self)@.end_scope(),
    {
        if self.scopes.len() > 0 {
            self.scopes.pop();
            assert(self@.scopes =~= old(self)@.scopes.drop_last());
        }
    }

    /// Enters `name` into the innermost scope.
    fn enter(&mut self, name: &str, defined: bool)
        ensures
            final(self)@ == old(self)@.enter(name@, defined),
    {
        let depth = self.scopes.len();
        if depth > 0 {
            self.scopes[depth - 1].insert(String::from_str(name), defined);
            assert(self@.scopes =~= old(self)@.scopes.update(
                depth - 1,
                old(self)@.scopes.last().insert(name@, defined),
            ));
        }
    }

    fn define(&mut self, name: &str)
        ensures
            final(self)@ == old(self)@.enter(name@, true),
    {
        self.enter(name, true);
    }

    fn declare(&mut self, name: &String) -> (r: Result<(), ResolverError>)
        ensures
            (final(self)@, r) == old(self)@.declare(*name),
    {
        let depth = self.scopes.len();
        if depth > 0 && self.scopes[depth - 1].contains_key(name.as_str()) {
            return Err(ResolverError::VariableAlreadyExists(name.clone()));
        }
        self.enter(name.as_str(), false);
        Ok(())
    }

    /// Whether `name` is declared in the innermost scope and not defined yet.
    fn in_own_initializer(&self, name: &str) -> (r: bool)
        ensures
            r == self@.in_own_initializer(name@),
    {
        let depth = self.scopes.len();
        if depth == 0 {
            return false;
        }
        match self.scopes[depth - 1].get(name) {
            Some(defined) => !*defined,
            None => false,
        }
    }

    /// How many scopes lie between the innermost scope and the nearest one that declares `name`.
    fn find(&self, name: &str) -> (r: Option<usize>)
        ensures
            match r {
                Some(found) => distance(self@.scopes, name@) == Some(found as nat),
                None => distance(self@.scopes, name@) is None,
            },
    {
        let depth = self.scopes.len();
        let mut remaining: usize = depth;
        assert(self@.scopes.subrange(0, depth as int) =~= self@.scopes);
        while remaining > 0
            invariant
                remaining <= depth,
                depth == self.scopes.len(),
                distance(self@.scopes, name@) == (match distance(
                    self@.scopes.subrange(0, remaining as int),
                    name@,
                ) {
                    Some(found) => Some((found + (depth - remaining)) as nat),
                    None => None,
                }),
            decreases remaining,
        {
            let ghost inner = self@.scopes.subrange(0, remaining as int);
            assert(inner.last() == self.scopes[remaining - 1]@);
            assert(inner.drop_last() =~= self@.scopes.subrange(0, remaining - 1));
            if self.scopes[remaining - 1].contains_key(name) {
                return Some(depth - remaining);
            }
            remaining -= 1;
        }
        assert(self@.scopes.subrange(0, 0).len() == 0);
        None
    }

    /// Records the distance of one occurrence, where a scope declares its name.
    fn resolve_local<H: Host>(&self, interpreter: &mut Interpreter<H>, expression: &Expression, name: &str)
        requires
            expression.identity_spec() is Some,
        ensures
            only_resolved(old(interpreter), final(interpreter)),
            final(interpreter)@.locals == resolve_local(
                self@.scopes,
                old(interpreter)@.locals,
                expression.identity_spec()->0,
                name@,
            ),
    {
        match self.find(name) {
            Some(found) => {
                interpreter.resolve(expression, found);
            },
            None => {},
        }
    }

    #[verifier::loop_isolation(false)]
    fn resolve_expression<H: Host>(&self, interpreter: &mut Interpreter<H>, expression: &Expression) -> (r:
        Result<(), ResolverError>)
        ensures
            only_resolved(old(interpreter), final(interpreter)),
            (final(interpreter)@.locals, r) == resolve_expression(
                self@,
                old(interpreter)@.locals,
                *expression,
            ),
        decreases expression, 0int,
    {
        match expression {
            Expression::Var { name, .. } => {
                if self.in_own_initializer(name.as_str()) {
                    return Err(ResolverError::NotInitialized(name.clone()));
                }
                self.resolve_local(interpreter, expression, name.as_str());
                Ok(())
            },
            Expression::This { keyword, .. } => {
                match self.class_type {
                    ClassType::Class => {},
                    ClassType::Outside => {
                        return Err(ResolverError::InvalidThis(keyword.line()));
                    },
                }
                self.resolve_local(interpreter, expression, keyword.lexeme());
                Ok(())
            },
            Expression::Assignment { name, value, .. } => {
                match self.resolve_expression(interpreter, value) {
                    Err(error) => {
                        return Err(error);
                    },
                    Ok(_) => {},
                }
                self.resolve_local(interpreter, expression, name.as_str());
                Ok(())
            },
            Expression::Binary { left, right, .. } => {
                match self.resolve_expression(interpreter, left) {
                    Err(error) => Err(error),
                    Ok(_) => self.resolve_expression(interpreter, right),
                }
            },
            Expression::Or { left, right } => {
                match self.resolve_expression(interpreter, left) {
                    Err(error) => Err(error),
                    Ok(_) => self.resolve_expression(interpreter, right),
                }
            },
            Expression::And { left, right } => {
                match self.resolve_expression(interpreter, left) {
                    Err(error) => Err(error),
                    Ok(_) => self.resolve_expression(interpreter, right),
                }
            },
            Expression::SetField { object, value, .. } => {
                match self.resolve_expression(interpreter, object) {
                    Err(error) => Err(error),
                    Ok(_) => self.resolve_expression(interpreter, value),
                }
            },
            Expression::Grouping(inner) => self.resolve_expression(interpreter, inner),
            Expression::Unary(_, operand) => self.resolve_expression(interpreter, operand),
            Expression::Get { expression: object, .. } => self.resolve_expression(
                interpreter,
                object,
            ),
            Expression::Call { callee, args, .. } => {
                match self.resolve_expression(interpreter, callee) {
                    Err(error) => {
                        return Err(error);
                    },
                    Ok(_) => {},
                }
                let ghost start = interpreter@.locals;
                let mut i: usize = 0;
                while i < args.len()
                    invariant
                        i <= args.len(),
                        *expression == (Expression::Call { callee: *callee, paren: expression->paren, args: *args }),
                        only_resolved(old(interpreter), interpreter),
                        resolve_expressions(self@, start, args@, 0) == resolve_expressions(
                            self@,
                            interpreter@.locals,
                            args@,
                            i as nat,
                        ),
                    decreases args.len() - i,
                {
                    assert(decreases_to!(expression => expression->args));
                    assert(decreases_to!(args => args@));
                    assert(decreases_to!(args@ => args@[i as int]));
                    match self.resolve_expression(interpreter, &args[i]) {
                        Err(error) => {
                            return Err(error);
                        },
                        Ok(_) => {},
                    }
                    i += 1;
                }
                Ok(())
            },
            Expression::True => Ok(()),
            Expression::False => Ok(()),
            Expression::Number(_) => Ok(()),
            Expression::String(_) => Ok(()),
            Expression::Nil => Ok(()),
        }
    }

    fn resolve_optional<H: Host>(&self, interpreter: &mut Interpreter<H>, expression: &Option<Expression>) -> (r:
        Result<(), ResolverError>)
        ensures
            only_resolved(old(interpreter), final(interpreter)),
            (final(interpreter)@.locals, r) == resolve_optional(
                self@,
                old(interpreter)@.locals,
                *expression,
            ),
    {
        match expression {
            Some(expression) => self.resolve_expression(interpreter, expression),
            None => Ok(()),
        }
    }

    fn declare_parameters(&mut self, parameters: &Vec<Token>) -> (r: Result<(), ResolverError>)
        ensures
            (final(self)@, r) == declare_parameters(old(self)@, parameters@, 0),
    {
        let mut i: usize = 0;
        while i < parameters.len()
            invariant
                i <= parameters.len(),
                declare_parameters(old(self)@, parameters@, 0) == declare_parameters(
                    self@,
                    parameters@,
                    i as nat,
                ),
            decreases parameters.len() - i,
        {
            match self.declare(&parameters[i].lexeme) {
                Err(error) => {
                    return Err(error);
                },
                Ok(_) => {},
            }
            self.define(parameters[i].lexeme());
            i += 1;
        }
        Ok(())
    }

    fn resolve_function<H: Host>(
        &mut self,
        interpreter: &mut Interpreter<H>,
        function: &Function,
        kind: FunctionType,
    ) -> (r: Result<(), ResolverError>)
        ensures
            only_resolved(old(interpreter), final(interpreter)),
            (final(self)@, final(interpreter)@.locals, r) == resolve_function(
                old(self)@,
                old(interpreter)@.locals,
                *function,
                kind,
            ),
        decreases function, 0int,
    {
        let enclosing = self.function_type;
        self.function_type = kind;
        assert(self@ == old(self)@.with_function(kind));
        self.begin_scope();
        match self.declare_parameters(&function.parameters) {
            Err(error) => {
                return Err(error);
            },
            Ok(_) => {},
        }
        match self.resolve_block(interpreter, &function.body) {
            Err(error) => {
                return Err(error);
            },
            Ok(_) => {},
        }
        self.end_scope();
        let ghost closed = self@;
        self.function_type = enclosing;
        assert(self@ == closed.with_function(enclosing));
        Ok(())
    }

    /// Resolves statements in the scope that is open.
    fn resolve_block<H: Host>(&mut self, interpreter: &mut Interpreter<H>, statements: &Vec<Statement>) -> (r:
        Result<(), ResolverError>)
        ensures
            only_resolved(old(interpreter), final(interpreter)),
            (final(self)@, final(interpreter)@.locals, r) == resolve_statements(
                old(self)@,
                old(interpreter)@.locals,
                statements@,
                0,
            ),
        decreases statements, 0int,
    {
        let mut i: usize = 0;
        while i < statements.len()
            invariant
                i <= statements.len(),
                only_resolved(old(interpreter), interpreter),
                resolve_statements(old(self)@, old(interpreter)@.locals, statements@, 0)
                    == resolve_statements(self@, interpreter@.locals, statements@, i as nat),
            decreases statements.len() - i,
        {
            assert(decreases_to!(statements => statements@));
            assert(decreases_to!(statements@ => statements@[i as int]));
            match self.resolve_statement(interpreter, &statements[i]) {
                Err(error) => {
                    return Err(error);
                },
                Ok(_) => {},
            }
            i += 1;
        }
        Ok(())
    }

    /// Resolves a program, or more of one: every variable occurrence that a
    /// scope declares gets its distance recorded in the interpreter, and the
    /// first violation of a scope rule is returned.
    pub fn resolve_statements<H: Host>(
        &mut self,
        interpreter: &mut Interpreter<H>,
        statements: &Vec<Statement>,
    ) -> (r: Result<(), ResolverError>)
        ensures
            only_resolved(old(interpreter), final(interpreter)),
            (final(self)@, final(interpreter)@.locals, r) == resolve_statements(
                old(self)@,
                old(interpreter)@.locals,
                statements@,
                0,
            ),
    {
        self.resolve_block(interpreter, statements)
    }

    #[verifier::loop_isolation(false)]
    fn resolve_statement<H: Host>(&mut self, interpreter: &mut Interpreter<H>, statement: &Statement) -> (r:
        Result<(), ResolverError>)
        ensures
            only_resolved(old(interpreter), final(interpreter)),
            (final(self)@, final(interpreter)@.locals, r) == resolve_statement(
                old(self)@,
                old(interpreter)@.locals,
                *statement,
            ),
        decreases statement, 0int,
    {
        match statement {
            Statement::Block(statements) => {
                self.begin_scope();
                match self.resolve_block(interpreter, statements) {
                    Err(error) => {
                        return Err(error);
                    },
                    Ok(_) => {},
                }
                self.end_scope();
                Ok(())
            },
            Statement::VariableDeclaration { name, initializer } => {
                match self.declare(name) {
                    Err(error) => {
                        return Err(error);
                    },
                    Ok(_) => {},
                }
                match self.resolve_optional(interpreter, initializer) {
                    Err(error) => {
                        return Err(error);
                    },
                    Ok(_) => {},
                }
                self.define(name.as_str());
                Ok(())
            },
            Statement::ClassDeclaration { name, methods, super_class } => {
                match self.declare(name) {
                    Err(error) => {
                        return Err(error);
                    },
                    Ok(_) => {},
                }
                self.define(name.as_str());
                match self.resolve_optional(interpreter, super_class) {
                    Err(error) => {
                        return Err(error);
                    },
                    Ok(_) => {},
                }
                let enclosing = self.class_type;
                let ghost defined = self@;
                self.class_type = ClassType::Class;
                assert(self@ == defined.with_class(ClassType::Class));
                self.begin_scope();
                self.enter("this", true);
                let ghost opened = self@;
                let ghost table = interpreter@.locals;
                let mut i: usize = 0;
                while i < methods.len()
                    invariant
                        i <= methods.len(),
                        *statement == (Statement::ClassDeclaration {
                            name: *name,
                            methods: *methods,
                            super_class: *super_class,
                        }),
                        only_resolved(old(interpreter), interpreter),
                        resolve_methods(opened, table, methods@, 0) == resolve_methods(
                            self@,
                            interpreter@.locals,
                            methods@,
                            i as nat,
                        ),
                    decreases methods.len() - i,
                {
                    assert(decreases_to!(statement => statement->methods));
                    assert(decreases_to!(methods => methods@));
                    assert(decreases_to!(methods@ => methods@[i as int]));
                    match self.resolve_function(interpreter, &methods[i], FunctionType::Method) {
                        Err(error) => {
                            return Err(error);
                        },
                        Ok(_) => {},
                    }
                    i += 1;
                }
                self.end_scope();
                let ghost closed = self@;
                self.class_type = enclosing;
                assert(self@ == closed.with_class(enclosing));
                Ok(())
            },
            Statement::Expression(expression) => self.resolve_expression(interpreter, expression),
            Statement::Print(expression) => self.resolve_expression(interpreter, expression),
            Statement::FunctionDeclaration(function) => {
                match self.declare(&function.name) {
                    Err(error) => {
                        return Err(error);
                    },
                    Ok(_) => {},
                }
                self.define(function.name.as_str());
                assert(decreases_to!(statement => statement->FunctionDeclaration_0));
                self.resolve_function(interpreter, function, FunctionType::Function)
            },
            Statement::If { condition, then_branch, else_branch } => {
                match self.resolve_expression(interpreter, condition) {
                    Err(error) => {
                        return Err(error);
                    },
                    Ok(_) => {},
                }
                match self.resolve_statement(interpreter, then_branch) {
                    Err(error) => {
                        return Err(error);
                    },
                    Ok(_) => {},
                }
                match else_branch {
                    Some(else_branch) => self.resolve_statement(interpreter, else_branch),
                    None => Ok(()),
                }
            },
            Statement::While { condition, body } => {
                match self.resolve_expression(interpreter, condition) {
                    Err(error) => Err(error),
                    Ok(_) => self.resolve_statement(interpreter, body),
                }
            },
            Statement::For { initializer, condition, increment, body } => {
                match initializer {
                    Some(initializer) => match self.resolve_statement(interpreter, initializer) {
                        Err(error) => {
                            return Err(error);
                        },
                        Ok(_) => {},
                    },
                    None => {},
                }
                match self.resolve_optional(interpreter, condition) {
                    Err(error) => {
                        return Err(error);
                    },
                    Ok(_) => {},
                }
                match self.resolve_optional(interpreter, increment) {
                    Err(error) => {
                        return Err(error);
                    },
                    Ok(_) => {},
                }
                self.resolve_statement(interpreter, body)
            },
            Statement::Return { expression, .. } => {
                match self.function_type {
                    FunctionType::Outside => {
                        return Err(ResolverError::ReturnNotInFunction);
                    },
                    _ => {},
                }
                self.resolve_optional(interpreter, expression)
            },
            Statement::Break { .. } => Ok(()),
            Statement::Continue { .. } => Ok(()),
        }
    }
}

} // verus!
