//! What holds of every program: consequences of the semantics, each proved.

use crate::environment::{
    ancestor_spec, assign_at_spec, assignable, chained, define_spec, enclose_spec, get_at_spec,
    FrameModel,
};
use crate::error::{failure, InterpreterError, InterpreterErrorType};
use crate::expression::Expression;
use crate::host::Answer;
use crate::machine::Machine;
use crate::number::Number;
use crate::number::{Arithmetic, SIGN_BIT};
use crate::operators::{binary_operation_spec, unary_operation_spec, Operation};
use crate::resolver::{
    distance, resolve_optional, resolve_statement, resolve_statements, Distances, ResolverError,
    ResolverModel, Scope,
};
use crate::semantics::{
    assign, bind_parameters, call, call_function, can_assign, display, evaluate,
    evaluate_arguments, evaluate_assignment, evaluate_binary, evaluate_call, evaluate_logical,
    evaluate_unary, execute_block, execute_loop, execute_statement, lookup,
};
use crate::statement::Statement;
use crate::token::{Token, TokenType};
use crate::value::{find_method_spec, CallableModel, ClassLayer, ControlFlow, LoxValue};
use vstd::prelude::*;

verus! {

/// Shadowing, in the environment. Bind a name in a frame, open a frame
/// inside it, bind the same name there: a read in the inner frame at
/// distance 0 sees the inner value, a read in the outer frame still sees the
/// outer value, and so does a read from the inner frame at distance 1.
pub proof fn law_shadowing(
    frames: Seq<FrameModel>,
    outer: usize,
    name: Seq<char>,
    outer_value: LoxValue,
    inner_value: LoxValue,
)
    requires
        chained(frames),
        outer < frames.len(),
        frames.len() < usize::MAX,
    ensures
        ({
            let inner = frames.len() as usize;
            let after = define_spec(
                enclose_spec(define_spec(frames, outer, name, outer_value), outer),
                inner,
                name,
                inner_value,
            );
            &&& get_at_spec(after, inner, name, 0) == Some(inner_value)
            &&& get_at_spec(after, outer, name, 0) == Some(outer_value)
            &&& get_at_spec(after, inner, name, 1) == Some(outer_value)
        }),
{
    let inner = frames.len() as usize;
    let after = define_spec(
        enclose_spec(define_spec(frames, outer, name, outer_value), outer),
        inner,
        name,
        inner_value,
    );
    assert(ancestor_spec(after, inner, 0) == Some(inner));
    assert(ancestor_spec(after, outer, 0) == Some(outer));
    assert(after[inner as int].enclosing == Some(outer));
    assert(ancestor_spec(after, outer, 0) == Some(outer));
    assert(ancestor_spec(after, inner, 1) == ancestor_spec(after, outer, 0)) by {
        reveal_with_fuel(ancestor_spec, 2);
    }
}

/// Scoping. With a name bound in a frame and bound again in a frame opened
/// inside it, an occurrence of the name that is resolved to distance 0 (as
/// every occurrence is that stands in the scope of a declaration) reads the
/// inner value while the inner frame is the current one, and the outer value
/// once the outer frame is current again.
pub proof fn law_scoping(
    answers: Seq<Answer>,
    m: Machine,
    outer: usize,
    name: String,
    token: Token,
    inside: usize,
    behind: usize,
    outer_value: LoxValue,
    inner_value: LoxValue,
    fuel: nat,
)
    requires
        chained(m.frames),
        outer < m.frames.len(),
        m.frames.len() < usize::MAX,
        m.locals.contains_key(inside) && m.locals[inside] == 0,
        m.locals.contains_key(behind) && m.locals[behind] == 0,
    ensures
        ({
            let inner = m.frames.len() as usize;
            let shadowed = m.with_frames(
                define_spec(
                    enclose_spec(define_spec(m.frames, outer, name@, outer_value), outer),
                    inner,
                    name@,
                    inner_value,
                ),
            );
            &&& evaluate(answers, shadowed, Expression::Var { name, token, id: inside }, inner, fuel)
                == (shadowed, Ok::<LoxValue, InterpreterError>(inner_value))
            &&& evaluate(answers, shadowed, Expression::Var { name, token, id: behind }, outer, fuel)
                == (shadowed, Ok::<LoxValue, InterpreterError>(outer_value))
        }),
{
    law_shadowing(m.frames, outer, name@, outer_value, inner_value);
}

/// The value of a literal that is `nil`, a boolean or a number.
pub open spec fn literal_value(expression: Expression) -> LoxValue {
    match expression {
        Expression::True => LoxValue::Boolean(true),
        Expression::False => LoxValue::Boolean(false),
        Expression::Number(number) => LoxValue::Number(number),
        _ => LoxValue::Nil,
    }
}

/// Whether an expression is a literal that is `nil`, a boolean or a number.
pub open spec fn is_plain_literal(expression: Expression) -> bool {
    expression is Nil || expression is True || expression is False || expression is Number
}

/// Whether a statement is the program
/// `{ var x = first; { var x = second; print x; } print x; }`,
/// for a name `x` and two plain literals, where the occurrence of `x` in the
/// inner block has the identity `inside` and the one behind it `behind`.
pub open spec fn shadows(
    program: Statement,
    name: String,
    first: Expression,
    second: Expression,
    inside: usize,
    behind: usize,
) -> bool {
    &&& is_plain_literal(first)
    &&& is_plain_literal(second)
    &&& program matches Statement::Block(outer)
    &&& outer@.len() == 3
    &&& outer@[0] == (Statement::VariableDeclaration { name, initializer: Some(first) })
    &&& outer@[1] matches Statement::Block(inner)
    &&& inner@.len() == 2
    &&& inner@[0] == (Statement::VariableDeclaration { name, initializer: Some(second) })
    &&& inner@[1] matches Statement::Print(Expression::Var { name: read, id, .. })
    &&& read == name
    &&& id == inside
    &&& outer@[2] matches Statement::Print(Expression::Var { name: read, id, .. })
    &&& read == name
    &&& id == behind
}

/// Scoping, in the resolver, for a whole program. Wherever the program
/// `{ var x = first; { var x = second; print x; } print x; }` stands, it
/// resolves without error, leaves the resolver as it was, and records the
/// distance 0 for both occurrences of `x`, and nothing else.
pub proof fn law_shadowing_resolved(
    r: ResolverModel,
    table: Distances,
    program: Statement,
    name: String,
    first: Expression,
    second: Expression,
    inside: usize,
    behind: usize,
)
    requires
        shadows(program, name, first, second, inside, behind),
    ensures
        resolve_statement(r, table, program) == (
            r,
            table.insert(inside, 0).insert(behind, 0),
            Ok::<(), ResolverError>(()),
        ),
{
    let outer = program->Block_0@;
    let inner = outer[1]->Block_0@;
    // The outer block.
    let opened = r.begin_scope();
    assert(opened.scopes.last() == Map::<Seq<char>, bool>::empty());
    let (declared, _) = opened.declare(name);
    assert(resolve_optional(declared, table, Some(first)) == (table, Ok::<(), ResolverError>(())));
    let defined = declared.enter(name@, true);
    assert(resolve_statement(opened, table, outer[0]) == (defined, table, Ok::<(), ResolverError>(())));
    assert(defined.scopes.last().contains_key(name@));
    // The inner block.
    let nested = defined.begin_scope();
    assert(nested.scopes.last() == Map::<Seq<char>, bool>::empty());
    let (nested_declared, _) = nested.declare(name);
    assert(resolve_optional(nested_declared, table, Some(second)) == (table, Ok::<(), ResolverError>(())));
    let nested_defined = nested_declared.enter(name@, true);
    assert(resolve_statement(nested, table, inner[0]) == (nested_defined, table, Ok::<(), ResolverError>(())));
    assert(nested_defined.scopes.last().contains_key(name@));
    assert(nested_defined.scopes.last()[name@]);
    let read = table.insert(inside, 0);
    assert(distance(nested_defined.scopes, name@) == Some(0nat));
    assert(resolve_statement(nested_defined, table, inner[1]) == (nested_defined, read, Ok::<(), ResolverError>(())));
    assert(resolve_statements(nested_defined, read, inner, 2) == (nested_defined, read, Ok::<(), ResolverError>(())));
    assert(resolve_statements(nested_defined, table, inner, 1) == (nested_defined, read, Ok::<(), ResolverError>(())));
    assert(resolve_statements(nested, table, inner, 0) == (nested_defined, read, Ok::<(), ResolverError>(())));
    assert(nested_defined.end_scope().scopes =~= defined.scopes);
    assert(nested_defined.end_scope() == defined);
    assert(resolve_statement(defined, table, outer[1]) == (defined, read, Ok::<(), ResolverError>(())));
    // Behind the inner block.
    let all = read.insert(behind, 0);
    assert(defined.scopes.last()[name@]);
    assert(distance(defined.scopes, name@) == Some(0nat));
    assert(resolve_statement(defined, read, outer[2]) == (defined, all, Ok::<(), ResolverError>(())));
    assert(resolve_statements(defined, all, outer, 3) == (defined, all, Ok::<(), ResolverError>(())));
    assert(resolve_statements(defined, read, outer, 2) == (defined, all, Ok::<(), ResolverError>(())));
    assert(resolve_statements(defined, table, outer, 1) == (defined, all, Ok::<(), ResolverError>(())));
    assert(resolve_statements(opened, table, outer, 0) == (defined, all, Ok::<(), ResolverError>(())));
    assert(defined.end_scope().scopes =~= r.scopes);
    assert(defined.end_scope() == r);
}

/// Scoping, in the interpreter, for a whole program. With the distances that
/// the resolver records for it, the program
/// `{ var x = first; { var x = second; print x; } print x; }` prints the
/// inner value and then the outer value, and ends normally, wherever it runs.
pub proof fn law_shadowing_executed(
    answers: Seq<Answer>,
    m: Machine,
    program: Statement,
    name: String,
    first: Expression,
    second: Expression,
    inside: usize,
    behind: usize,
    env: usize,
    inside_loop: bool,
    fuel: nat,
)
    requires
        shadows(program, name, first, second, inside, behind),
        chained(m.frames),
        env < m.frames.len(),
        m.frames.len() + 2 <= usize::MAX,
        m.locals.contains_key(inside) && m.locals[inside] == 0,
        m.locals.contains_key(behind) && m.locals[behind] == 0,
    ensures
        ({
            let (after, result) = execute_statement(answers, m, program, env, inside_loop, fuel);
            let (shown, inner_text) = display(answers, m, literal_value(second));
            let (_, outer_text) = display(answers, shown, literal_value(first));
            &&& result == Ok::<ControlFlow, InterpreterError>(ControlFlow::Normal)
            &&& after.printed == m.printed.push(inner_text).push(outer_text)
        }),
{
    let outer = program->Block_0@;
    let inner = outer[1]->Block_0@;
    let outer_frame = m.frames.len() as usize;
    let inner_frame = (m.frames.len() + 1) as usize;
    let v1 = literal_value(first);
    let v2 = literal_value(second);
    // The outer block is entered and binds the name.
    let m1 = m.with_frames(enclose_spec(m.frames, env));
    assert(evaluate(answers, m1, first, outer_frame, fuel) == (m1, Ok::<LoxValue, InterpreterError>(v1)));
    let m2 = m1.with_frames(define_spec(m1.frames, outer_frame, name@, v1));
    assert(execute_statement(answers, m1, outer[0], outer_frame, inside_loop, fuel) == (m2, Ok::<ControlFlow, InterpreterError>(ControlFlow::Normal)));
    // The inner block is entered and binds the name again.
    let m3 = m2.with_frames(enclose_spec(m2.frames, outer_frame));
    assert(evaluate(answers, m3, second, inner_frame, fuel) == (m3, Ok::<LoxValue, InterpreterError>(v2)));
    let m4 = m3.with_frames(define_spec(m3.frames, inner_frame, name@, v2));
    assert(execute_statement(answers, m3, inner[0], inner_frame, inside_loop, fuel) == (m4, Ok::<ControlFlow, InterpreterError>(ControlFlow::Normal)));
    // The read in the inner block.
    assert(ancestor_spec(m4.frames, inner_frame, 0) == Some(inner_frame));
    assert(lookup(m4, inner_frame, name@, inside) == Some(v2));
    assert(evaluate(answers, m4, inner[1]->Print_0, inner_frame, fuel) == (m4, Ok::<LoxValue, InterpreterError>(v2)));
    let (m5, inner_text) = display(answers, m4, v2);
    let m6 = m5.print(inner_text);
    assert(execute_statement(answers, m4, inner[1], inner_frame, inside_loop, fuel) == (m6, Ok::<ControlFlow, InterpreterError>(ControlFlow::Normal)));
    assert(execute_block(answers, m6, inner, 2, inner_frame, inside_loop, fuel) == (m6, Ok::<ControlFlow, InterpreterError>(ControlFlow::Normal)));
    assert(execute_block(answers, m4, inner, 1, inner_frame, inside_loop, fuel) == (m6, Ok::<ControlFlow, InterpreterError>(ControlFlow::Normal)));
    assert(execute_block(answers, m3, inner, 0, inner_frame, inside_loop, fuel) == (m6, Ok::<ControlFlow, InterpreterError>(ControlFlow::Normal)));
    assert(execute_statement(answers, m2, outer[1], outer_frame, inside_loop, fuel) == (m6, Ok::<ControlFlow, InterpreterError>(ControlFlow::Normal)));
    // The read behind the inner block.
    assert(m6.frames == m4.frames);
    assert(ancestor_spec(m6.frames, outer_frame, 0) == Some(outer_frame));
    assert(lookup(m6, outer_frame, name@, behind) == Some(v1));
    assert(evaluate(answers, m6, outer[2]->Print_0, outer_frame, fuel) == (m6, Ok::<LoxValue, InterpreterError>(v1)));
    let (m7, outer_text) = display(answers, m6, v1);
    let m8 = m7.print(outer_text);
    assert(execute_statement(answers, m6, outer[2], outer_frame, inside_loop, fuel) == (m8, Ok::<ControlFlow, InterpreterError>(ControlFlow::Normal)));
    assert(execute_block(answers, m8, outer, 3, outer_frame, inside_loop, fuel) == (m8, Ok::<ControlFlow, InterpreterError>(ControlFlow::Normal)));
    assert(execute_block(answers, m6, outer, 2, outer_frame, inside_loop, fuel) == (m8, Ok::<ControlFlow, InterpreterError>(ControlFlow::Normal)));
    assert(execute_block(answers, m2, outer, 1, outer_frame, inside_loop, fuel) == (m8, Ok::<ControlFlow, InterpreterError>(ControlFlow::Normal)));
    assert(execute_block(answers, m1, outer, 0, outer_frame, inside_loop, fuel) == (m8, Ok::<ControlFlow, InterpreterError>(ControlFlow::Normal)));
    assert(execute_statement(answers, m, program, env, inside_loop, fuel) == (m8, Ok::<ControlFlow, InterpreterError>(ControlFlow::Normal)));
    // What was printed.
    let (shown, text2) = display(answers, m, v2);
    assert(text2 == inner_text);
    assert(shown.cursor == m5.cursor);
    let (_, text1) = display(answers, shown, v1);
    assert(text1 == outer_text);
}

/// Whether the chain of frames from `frame` outwards matches a stack of
/// scopes, the innermost scope last: frame for scope, each frame binds every
/// name that its scope has defined, and the chain goes on for at least as
/// many frames as there are scopes.
pub open spec fn covers(frames: Seq<FrameModel>, frame: usize, scopes: Seq<Scope>) -> bool
    decreases scopes.len(),
{
    if scopes.len() == 0 {
        frame < frames.len()
    } else {
        &&& frame < frames.len()
        &&& forall|name: Seq<char>|
            scopes.last().contains_key(name) && scopes.last()[name]
                ==> #[trigger] frames[frame as int].values.contains_key(name)
        &&& frames[frame as int].enclosing matches Some(parent) && covers(
            frames,
            parent,
            scopes.drop_last(),
        )
    }
}

/// A recorded distance leads to the binding. Where the frames match the
/// scopes, the distance that the resolver finds for a defined name is the
/// number of links from the current frame to a frame that binds the name:
/// a read at that distance finds a value, and an assignment a variable.
pub proof fn law_distance(frames: Seq<FrameModel>, frame: usize, scopes: Seq<Scope>, name: Seq<char>)
    requires
        covers(frames, frame, scopes),
        forall|k: int, other: Seq<char>|
            0 <= k < scopes.len() && (#[trigger] scopes[k].contains_key(other)) ==> scopes[k][other],
    ensures
        distance(scopes, name) matches Some(found) ==> {
            &&& found < scopes.len()
            &&& get_at_spec(frames, frame, name, found) is Some
            &&& assignable(frames, frame, name, found)
            &&& ancestor_spec(frames, frame, found) matches Some(target)
                && frames[target as int].values.contains_key(name)
        },
    decreases scopes.len(),
{
    if scopes.len() > 0 {
        if scopes.last().contains_key(name) {
            assert(scopes[scopes.len() - 1].contains_key(name));
            assert(frames[frame as int].values.contains_key(name));
        } else {
            let parent = frames[frame as int].enclosing->0;
            let rest = scopes.drop_last();
            assert forall|k: int, other: Seq<char>|
                0 <= k < rest.len() && (#[trigger] rest[k].contains_key(other)) implies rest[k][other] by {
                assert(rest[k] == scopes[k]);
            }
            law_distance(frames, parent, rest, name);
        }
    }
}

/// Entering a block keeps frames and scopes matched: the frame that a block
/// statement creates matches the scope that the resolver opens for it.
pub proof fn law_block_entry(frames: Seq<FrameModel>, frame: usize, scopes: Seq<Scope>)
    requires
        covers(frames, frame, scopes),
        frames.len() < usize::MAX,
    ensures
        covers(enclose_spec(frames, frame), frames.len() as usize, scopes.push(Map::empty())),
{
    let entered = enclose_spec(frames, frame);
    lemma_covers_grows(frames, entered, frame, scopes);
    assert(scopes.push(Map::empty()).drop_last() =~= scopes);
}

/// A declaration keeps frames and scopes matched: binding a name in the
/// current frame matches defining it in the innermost scope.
pub proof fn law_declaration(
    frames: Seq<FrameModel>,
    frame: usize,
    scopes: Seq<Scope>,
    name: Seq<char>,
    value: LoxValue,
)
    requires
        covers(frames, frame, scopes),
        scopes.len() > 0,
    ensures
        covers(
            define_spec(frames, frame, name, value),
            frame,
            scopes.update(scopes.len() - 1, scopes.last().insert(name, true)),
        ),
{
    let defined = define_spec(frames, frame, name, value);
    let updated = scopes.update(scopes.len() - 1, scopes.last().insert(name, true));
    lemma_covers_grows(frames, defined, frame, scopes);
    assert(updated.drop_last() =~= scopes.drop_last());
    assert forall|other: Seq<char>|
        updated.last().contains_key(other) && updated.last()[other] implies #[trigger] defined[frame as int].values.contains_key(
        other,
    ) by {
        if other != name {
            assert(scopes.last().contains_key(other) && scopes.last()[other]);
            assert(frames[frame as int].values.contains_key(other));
        }
    }
}

/// Frames that match scopes go on matching them when frames are added and
/// names are bound: a frame never loses a name or changes its parent.
pub proof fn lemma_covers_grows(
    frames: Seq<FrameModel>,
    later: Seq<FrameModel>,
    frame: usize,
    scopes: Seq<Scope>,
)
    requires
        covers(frames, frame, scopes),
        frames.len() <= later.len(),
        forall|i: int|
            0 <= i < frames.len() ==> (#[trigger] later[i]).enclosing == frames[i].enclosing,
        forall|i: int, name: Seq<char>|
            0 <= i < frames.len() && frames[i].values.contains_key(name) ==> (#[trigger] later[i].values.contains_key(
                name,
            )),
    ensures
        covers(later, frame, scopes),
    decreases scopes.len(),
{
    if scopes.len() > 0 {
        let parent = frames[frame as int].enclosing->0;
        lemma_covers_grows(frames, later, parent, scopes.drop_last());
        assert forall|name: Seq<char>|
            scopes.last().contains_key(name) && scopes.last()[name] implies #[trigger] later[frame as int].values.contains_key(
            name,
        ) by {
            assert(frames[frame as int].values.contains_key(name));
        }
    }
}

/// Shadowing, in the resolver. An occurrence of a name that the innermost
/// scope declares resolves to distance 0, whatever the scopes around
/// declare; once that scope is closed, an occurrence resolves as it did
/// before the scope was opened; and inside a scope that does not declare the
/// name, it resolves one scope further out than outside it.
pub proof fn law_resolution(scopes: Seq<Scope>, inner: Scope, name: Seq<char>)
    ensures
        inner.contains_key(name) ==> distance(scopes.push(inner), name) == Some(0nat),
        scopes.push(inner).drop_last() == scopes,
        !inner.contains_key(name) ==> distance(scopes.push(inner), name) == (match distance(
            scopes,
            name,
        ) {
            Some(found) => Some(found + 1),
            None => None,
        }),
{
    assert(scopes.push(inner).drop_last() =~= scopes);
    assert(scopes.push(inner).last() == inner);
}

/// The program `{ var x = first; { var x = second; print x; } print x; }`,
/// resolved and then run: it resolves without error, and with the distances
/// recorded for it, it prints the inner value and then the outer value.
pub proof fn law_scoping_program(
    answers: Seq<Answer>,
    m: Machine,
    r: ResolverModel,
    program: Statement,
    name: String,
    first: Expression,
    second: Expression,
    inside: usize,
    behind: usize,
    env: usize,
    fuel: nat,
)
    requires
        shadows(program, name, first, second, inside, behind),
        chained(m.frames),
        env < m.frames.len(),
        m.frames.len() + 2 <= usize::MAX,
    ensures
        ({
            let (_, table, resolved) = resolve_statement(r, m.locals, program);
            let (after, result) = execute_statement(
                answers,
                Machine { locals: table, ..m },
                program,
                env,
                false,
                fuel,
            );
            let (shown, inner_text) = display(answers, m, literal_value(second));
            let (_, outer_text) = display(answers, shown, literal_value(first));
            &&& resolved is Ok
            &&& result == Ok::<ControlFlow, InterpreterError>(ControlFlow::Normal)
            &&& after.printed == m.printed.push(inner_text).push(outer_text)
        }),
{
    law_shadowing_resolved(r, m.locals, program, name, first, second, inside, behind);
    let table = m.locals.insert(inside, 0).insert(behind, 0);
    let resolved = Machine { locals: table, ..m };
    law_shadowing_executed(
        answers,
        resolved,
        program,
        name,
        first,
        second,
        inside,
        behind,
        env,
        false,
        fuel,
    );
}

/// Whether a statement is the program
/// `{ var x = first; fun set() { x = second; } fun get() { print x; } get(); set(); get(); }`
/// for three different names and two plain literals.
pub open spec fn captures(
    program: Statement,
    name: String,
    first: Expression,
    second: Expression,
    setter: std::rc::Rc<crate::statement::Function>,
    getter: std::rc::Rc<crate::statement::Function>,
    written: usize,
    read: usize,
    calls: Seq<usize>,
) -> bool {
    &&& is_plain_literal(first)
    &&& is_plain_literal(second)
    &&& name@ != setter.name@
    &&& name@ != getter.name@
    &&& setter.name@ != getter.name@
    &&& calls.len() == 3
    &&& setter.parameters@.len() == 0
    &&& setter.body@.len() == 1
    &&& setter.body@[0] matches Statement::Expression(
        Expression::Assignment { name: target, value, id, .. },
    )
    &&& target == name
    &&& *value == second
    &&& id == written
    &&& getter.parameters@.len() == 0
    &&& getter.body@.len() == 1
    &&& getter.body@[0] matches Statement::Print(Expression::Var { name: source, id, .. })
    &&& source == name
    &&& id == read
    &&& program matches Statement::Block(outer)
    &&& outer@.len() == 6
    &&& outer@[0] == (Statement::VariableDeclaration { name, initializer: Some(first) })
    &&& outer@[1] == Statement::FunctionDeclaration(setter)
    &&& outer@[2] == Statement::FunctionDeclaration(getter)
    &&& is_call(outer@[3], getter.name@, calls[0])
    &&& is_call(outer@[4], setter.name@, calls[1])
    &&& is_call(outer@[5], getter.name@, calls[2])
}

/// Whether a statement is the call `name();`, where the occurrence of the
/// name has the identity `id`.
pub open spec fn is_call(statement: Statement, name: Seq<char>, id: usize) -> bool {
    &&& statement matches Statement::Expression(Expression::Call { callee, args, .. })
    &&& args@.len() == 0
    &&& *callee matches Expression::Var { name: called, id: given, .. }
    &&& called@ == name
    &&& given == id
}

/// A call statement `name();` whose name is bound, in the current frame, to
/// a callable: it ends as the call of that callable without arguments ends.
pub proof fn lemma_call_statement(
    answers: Seq<Answer>,
    m: Machine,
    statement: Statement,
    name: Seq<char>,
    id: usize,
    callee: usize,
    env: usize,
    inside_loop: bool,
    fuel: nat,
)
    requires
        is_call(statement, name, id),
        env < m.frames.len(),
        m.locals.contains_key(id) && m.locals[id] == 0,
        m.frames[env as int].values.contains_key(name),
        m.frames[env as int].values[name] == LoxValue::Callable(callee),
    ensures
        ({
            let (after, result) = call(
                answers,
                m,
                callee,
                Seq::empty(),
                statement->Expression_0->paren,
                fuel,
            );
            execute_statement(answers, m, statement, env, inside_loop, fuel) == (
                after,
                match result {
                    Ok(_) => Ok::<ControlFlow, InterpreterError>(ControlFlow::Normal),
                    Err(error) => Err(error),
                },
            )
        }),
{
    let expression = statement->Expression_0;
    let empty = Seq::<LoxValue>::empty();
    assert(ancestor_spec(m.frames, env, 0) == Some(env));
    assert(lookup(m, env, name, id) == Some(LoxValue::Callable(callee)));
    assert(evaluate(answers, m, *expression->callee, env, fuel) == (
        m,
        Ok::<LoxValue, InterpreterError>(LoxValue::Callable(callee)),
    ));
    assert(evaluate_arguments(answers, m, expression->args@, 0, env, fuel, empty) == (
        m,
        Ok::<Seq<LoxValue>, InterpreterError>(empty),
    ));
    assert(evaluate(answers, m, expression, env, fuel) == evaluate_call(
        answers,
        m,
        expression,
        env,
        fuel,
    ));
}

/// The reader `fun get() { print x; }`, closed over a frame that binds `x`:
/// a call of it prints what the frame binds at the time of the call, and
/// changes nothing else but to add the frame of the call.
pub proof fn lemma_reader(
    answers: Seq<Answer>,
    m: Machine,
    getter: std::rc::Rc<crate::statement::Function>,
    name: String,
    read: usize,
    callee: usize,
    closure: usize,
    value: LoxValue,
    paren: Token,
    fuel: nat,
)
    requires
        fuel > 0,
        getter.parameters@.len() == 0,
        getter.body@.len() == 1,
        getter.body@[0] matches Statement::Print(Expression::Var { name: source, id, .. })
            && source == name && id == read,
        m.callables[callee as int] == CallableModel::LoxFunction(
            crate::value::LoxFunction { closure, declaration: getter, is_initializer: false },
        ),
        closure < m.frames.len(),
        m.frames.len() < usize::MAX,
        m.frames[closure as int].values.contains_key(name@),
        m.frames[closure as int].values[name@] == value,
        m.locals.contains_key(read) && m.locals[read] == 1,
    ensures
        ({
            let (shown, text) = display(answers, m, value);
            call(answers, m, callee, Seq::empty(), paren, fuel) == (
                shown.with_frames(enclose_spec(m.frames, closure)).print(text),
                Ok::<LoxValue, InterpreterError>(LoxValue::Nil),
            )
        }),
{
    let function = crate::value::LoxFunction { closure, declaration: getter, is_initializer: false };
    let empty = Seq::<LoxValue>::empty();
    let normal = Ok::<ControlFlow, InterpreterError>(ControlFlow::Normal);
    let frame = m.frames.len() as usize;
    let entered = m.with_frames(enclose_spec(m.frames, closure));
    assert(bind_parameters(entered.frames, frame, getter.parameters@, empty, 0) == entered.frames);
    assert(ancestor_spec(entered.frames, frame, 1) == Some(closure)) by {
        reveal_with_fuel(ancestor_spec, 2);
    }
    assert(lookup(entered, frame, name@, read) == Some(value));
    assert(evaluate(answers, entered, getter.body@[0]->Print_0, frame, (fuel - 1) as nat) == (
        entered,
        Ok::<LoxValue, InterpreterError>(value),
    ));
    let (shown, text) = display(answers, entered, value);
    let printed = shown.print(text);
    assert(execute_statement(answers, entered, getter.body@[0], frame, false, (fuel - 1) as nat)
        == (printed, normal));
    assert(execute_block(answers, printed, getter.body@, 1, frame, false, (fuel - 1) as nat) == (
        printed,
        normal,
    ));
    assert(execute_block(answers, entered, getter.body@, 0, frame, false, (fuel - 1) as nat) == (
        printed,
        normal,
    ));
    assert(call_function(answers, m, function, empty, paren, fuel) == (
        printed,
        Ok::<LoxValue, InterpreterError>(LoxValue::Nil),
    ));
    let (plain, same) = display(answers, m, value);
    assert(same == text);
    assert(printed == plain.with_frames(enclose_spec(m.frames, closure)).print(text));
}

/// The writer `fun set() { x = second; }`, closed over a frame that binds
/// `x`: a call of it binds `x` in that frame to the value of the literal, and
/// changes nothing else but to add the frame of the call.
pub proof fn lemma_writer(
    answers: Seq<Answer>,
    m: Machine,
    setter: std::rc::Rc<crate::statement::Function>,
    name: String,
    second: Expression,
    written: usize,
    callee: usize,
    closure: usize,
    paren: Token,
    fuel: nat,
)
    requires
        fuel > 0,
        is_plain_literal(second),
        setter.parameters@.len() == 0,
        setter.body@.len() == 1,
        setter.body@[0] matches Statement::Expression(
            Expression::Assignment { name: target, value, id, .. },
        ) && target == name && *value == second && id == written,
        m.callables[callee as int] == CallableModel::LoxFunction(
            crate::value::LoxFunction { closure, declaration: setter, is_initializer: false },
        ),
        closure < m.frames.len(),
        m.frames.len() < usize::MAX,
        m.frames[closure as int].values.contains_key(name@),
        m.locals.contains_key(written) && m.locals[written] == 1,
    ensures
        call(answers, m, callee, Seq::empty(), paren, fuel) == (
            m.with_frames(
                define_spec(
                    enclose_spec(m.frames, closure),
                    closure,
                    name@,
                    literal_value(second),
                ),
            ),
            Ok::<LoxValue, InterpreterError>(LoxValue::Nil),
        ),
{
    let function = crate::value::LoxFunction { closure, declaration: setter, is_initializer: false };
    let empty = Seq::<LoxValue>::empty();
    let normal = Ok::<ControlFlow, InterpreterError>(ControlFlow::Normal);
    let value = literal_value(second);
    let frame = m.frames.len() as usize;
    let entered = m.with_frames(enclose_spec(m.frames, closure));
    assert(bind_parameters(entered.frames, frame, setter.parameters@, empty, 0) == entered.frames);
    assert(ancestor_spec(entered.frames, frame, 1) == Some(closure)) by {
        reveal_with_fuel(ancestor_spec, 2);
    }
    let assignment = setter.body@[0]->Expression_0;
    assert(evaluate(answers, entered, second, frame, (fuel - 1) as nat) == (
        entered,
        Ok::<LoxValue, InterpreterError>(value),
    ));
    assert(entered.frames[closure as int].values.contains_key(name@));
    assert(can_assign(entered, frame, name@, written));
    let assigned = assign(entered, frame, name@, written, value);
    assert(assigned.frames == define_spec(entered.frames, closure, name@, value));
    assert(evaluate_assignment(answers, entered, assignment, frame, (fuel - 1) as nat) == (
        assigned,
        Ok::<LoxValue, InterpreterError>(value),
    ));
    assert(evaluate(answers, entered, assignment, frame, (fuel - 1) as nat) == (
        assigned,
        Ok::<LoxValue, InterpreterError>(value),
    ));
    assert(execute_statement(answers, entered, setter.body@[0], frame, false, (fuel - 1) as nat)
        == (assigned, normal));
    assert(execute_block(answers, assigned, setter.body@, 1, frame, false, (fuel - 1) as nat) == (
        assigned,
        normal,
    ));
    assert(execute_block(answers, entered, setter.body@, 0, frame, false, (fuel - 1) as nat) == (
        assigned,
        normal,
    ));
    assert(call_function(answers, m, function, empty, paren, fuel) == (
        assigned,
        Ok::<LoxValue, InterpreterError>(LoxValue::Nil),
    ));
}

/// Capture, in the interpreter, for a whole program. With the distances that
/// the resolver records for it, the program
/// `{ var x = first; fun set() { x = second; } fun get() { print x; } get(); set(); get(); }`
/// prints the first value and then the second: what the one closure writes
/// is what the other reads, because both hold the frame and not a copy of
/// the variable.
#[verifier::rlimit(50)]
pub proof fn law_capture_executed(
    answers: Seq<Answer>,
    m: Machine,
    program: Statement,
    name: String,
    first: Expression,
    second: Expression,
    setter: std::rc::Rc<crate::statement::Function>,
    getter: std::rc::Rc<crate::statement::Function>,
    written: usize,
    read: usize,
    calls: Seq<usize>,
    env: usize,
    inside_loop: bool,
    fuel: nat,
)
    requires
        captures(program, name, first, second, setter, getter, written, read, calls),
        fuel > 0,
        chained(m.frames),
        env < m.frames.len(),
        m.frames.len() + 4 <= usize::MAX,
        m.callables.len() + 2 <= usize::MAX,
        m.locals.contains_key(written) && m.locals[written] == 1,
        m.locals.contains_key(read) && m.locals[read] == 1,
        forall|i: int|
            0 <= i < 3 ==> m.locals.contains_key(#[trigger] calls[i]) && m.locals[calls[i]] == 0,
    ensures
        ({
            let (after, result) = execute_statement(answers, m, program, env, inside_loop, fuel);
            let (shown, first_text) = display(answers, m, literal_value(first));
            let (_, second_text) = display(answers, shown, literal_value(second));
            &&& result == Ok::<ControlFlow, InterpreterError>(ControlFlow::Normal)
            &&& after.printed == m.printed.push(first_text).push(second_text)
        }),
{
    let outer = program->Block_0@;
    let block = m.frames.len() as usize;
    let v1 = literal_value(first);
    let v2 = literal_value(second);
    let x = name@;
    let s = setter.name@;
    let g = getter.name@;
    let normal = Ok::<ControlFlow, InterpreterError>(ControlFlow::Normal);
    // The block is entered; the variable and the two closures are declared.
    let m1 = m.with_frames(enclose_spec(m.frames, env));
    assert(evaluate(answers, m1, first, block, fuel) == (m1, Ok::<LoxValue, InterpreterError>(v1)));
    let m2 = m1.with_frames(define_spec(m1.frames, block, x, v1));
    assert(execute_statement(answers, m1, outer[0], block, inside_loop, fuel) == (m2, normal));
    let set_index = m.callables.len() as usize;
    let get_index = (m.callables.len() + 1) as usize;
    let set_closure = crate::value::LoxFunction {
        closure: block,
        declaration: setter,
        is_initializer: false,
    };
    let get_closure = crate::value::LoxFunction {
        closure: block,
        declaration: getter,
        is_initializer: false,
    };
    let m3 = m2.add_callable(CallableModel::LoxFunction(set_closure)).with_frames(
        define_spec(m2.frames, block, s, LoxValue::Callable(set_index)),
    );
    assert(execute_statement(answers, m2, outer[1], block, inside_loop, fuel) == (m3, normal));
    let m4 = m3.add_callable(CallableModel::LoxFunction(get_closure)).with_frames(
        define_spec(m3.frames, block, g, LoxValue::Callable(get_index)),
    );
    assert(execute_statement(answers, m3, outer[2], block, inside_loop, fuel) == (m4, normal));
    assert(m4.callables[get_index as int] == CallableModel::LoxFunction(get_closure));
    assert(m4.callables[set_index as int] == CallableModel::LoxFunction(set_closure));
    assert(m4.frames[block as int].values[x] == v1);
    // The first call of the reader.
    lemma_reader(
        answers,
        m4,
        getter,
        name,
        read,
        get_index,
        block,
        v1,
        outer[3]->Expression_0->paren,
        fuel,
    );
    lemma_call_statement(
        answers,
        m4,
        outer[3],
        g,
        calls[0],
        get_index,
        block,
        inside_loop,
        fuel,
    );
    let (shown4, first_text) = display(answers, m4, v1);
    let m6 = shown4.with_frames(enclose_spec(m4.frames, block)).print(first_text);
    assert(execute_statement(answers, m4, outer[3], block, inside_loop, fuel) == (m6, normal));
    // The call of the writer.
    assert(m6.callables == m4.callables);
    assert(m6.locals == m.locals);
    lemma_writer(
        answers,
        m6,
        setter,
        name,
        second,
        written,
        set_index,
        block,
        outer[4]->Expression_0->paren,
        fuel,
    );
    lemma_call_statement(
        answers,
        m6,
        outer[4],
        s,
        calls[1],
        set_index,
        block,
        inside_loop,
        fuel,
    );
    let m8 = m6.with_frames(define_spec(enclose_spec(m6.frames, block), block, x, v2));
    assert(execute_statement(answers, m6, outer[4], block, inside_loop, fuel) == (m8, normal));
    // The second call of the reader.
    assert(m8.frames[block as int].values[x] == v2);
    assert(m8.frames[block as int].values[g] == LoxValue::Callable(get_index));
    lemma_reader(
        answers,
        m8,
        getter,
        name,
        read,
        get_index,
        block,
        v2,
        outer[5]->Expression_0->paren,
        fuel,
    );
    lemma_call_statement(
        answers,
        m8,
        outer[5],
        g,
        calls[2],
        get_index,
        block,
        inside_loop,
        fuel,
    );
    let (shown8, second_text) = display(answers, m8, v2);
    let m10 = shown8.with_frames(enclose_spec(m8.frames, block)).print(second_text);
    assert(execute_statement(answers, m8, outer[5], block, inside_loop, fuel) == (m10, normal));
    // The block as a whole.
    assert(execute_block(answers, m10, outer, 6, block, inside_loop, fuel) == (m10, normal));
    assert(execute_block(answers, m8, outer, 5, block, inside_loop, fuel) == (m10, normal));
    assert(execute_block(answers, m6, outer, 4, block, inside_loop, fuel) == (m10, normal));
    assert(execute_block(answers, m4, outer, 3, block, inside_loop, fuel) == (m10, normal));
    assert(execute_block(answers, m3, outer, 2, block, inside_loop, fuel) == (m10, normal));
    assert(execute_block(answers, m2, outer, 1, block, inside_loop, fuel) == (m10, normal));
    assert(execute_block(answers, m1, outer, 0, block, inside_loop, fuel) == (m10, normal));
    assert(execute_statement(answers, m, program, env, inside_loop, fuel) == (m10, normal));
    // What was printed.
    let (shown, text1) = display(answers, m, v1);
    assert(text1 == first_text);
    assert(shown.cursor == shown4.cursor);
    let (_, text2) = display(answers, shown, v2);
    assert(m8.cursor == shown4.cursor);
    assert(text2 == second_text);
}

/// Binding a name changes no link between frames.
pub proof fn lemma_define_keeps_ancestors(
    frames: Seq<FrameModel>,
    target: usize,
    name: Seq<char>,
    value: LoxValue,
    frame: usize,
    distance: nat,
)
    requires
        chained(frames),
        target < frames.len(),
        frame < frames.len(),
    ensures
        ancestor_spec(define_spec(frames, target, name, value), frame, distance) == ancestor_spec(
            frames,
            frame,
            distance,
        ),
    decreases distance,
{
    if distance > 0 {
        match frames[frame as int].enclosing {
            Some(parent) => {
                lemma_define_keeps_ancestors(
                    frames,
                    target,
                    name,
                    value,
                    parent,
                    (distance - 1) as nat,
                );
            },
            None => {},
        }
    }
}

/// Frames are shared. What is assigned through one holder of a frame is
/// read by every other: when two frames reach the same frame, each over its
/// own distance, an assignment from the one is what a read from the other
/// finds. So two calls of one closure, and two closures made in one frame,
/// work on the same variables.
pub proof fn law_shared_frame(
    frames: Seq<FrameModel>,
    writer: usize,
    written: nat,
    reader: usize,
    read: nat,
    name: Seq<char>,
    value: LoxValue,
)
    requires
        chained(frames),
        writer < frames.len(),
        reader < frames.len(),
        assignable(frames, writer, name, written),
        ancestor_spec(frames, reader, read) == ancestor_spec(frames, writer, written),
    ensures
        get_at_spec(assign_at_spec(frames, writer, name, value, written), reader, name, read)
            == Some(value),
{
    let target = ancestor_spec(frames, writer, written)->0;
    crate::environment::lemma_ancestor_in_range(frames, writer, written);
    lemma_define_keeps_ancestors(frames, target, name, value, reader, read);
}

/// Separate frames are independent. An assignment that reaches one frame
/// changes nothing that a read reaching another frame finds. So closures made
/// by separate calls, each over the frame of its own call, do not see each
/// other's variables.
pub proof fn law_separate_frames(
    frames: Seq<FrameModel>,
    writer: usize,
    written: nat,
    reader: usize,
    read: nat,
    name: Seq<char>,
    other: Seq<char>,
    value: LoxValue,
)
    requires
        chained(frames),
        writer < frames.len(),
        reader < frames.len(),
        ancestor_spec(frames, reader, read) != ancestor_spec(frames, writer, written),
    ensures
        get_at_spec(assign_at_spec(frames, writer, name, value, written), reader, other, read)
            == get_at_spec(frames, reader, other, read),
{
    if assignable(frames, writer, name, written) {
        let target = ancestor_spec(frames, writer, written)->0;
        crate::environment::lemma_ancestor_in_range(frames, writer, written);
        crate::environment::lemma_ancestor_in_range(frames, reader, read);
        lemma_define_keeps_ancestors(frames, target, name, value, reader, read);
    }
}

/// Closures capture the frame, not its values: the body of a called function
/// runs in a fresh frame whose parent is the very frame in which the
/// function was declared, so that it reads and writes what every other
/// holder of that frame reads and writes.
pub proof fn law_closure(
    answers: Seq<Answer>,
    m: Machine,
    declaration: std::rc::Rc<crate::statement::Function>,
    env: usize,
    fuel: nat,
)
    requires
        env < m.frames.len(),
    ensures
        ({
            let (after, result) = execute_statement(
                answers,
                m,
                Statement::FunctionDeclaration(declaration),
                env,
                false,
                fuel,
            );
            &&& result == Ok::<ControlFlow, InterpreterError>(ControlFlow::Normal)
            &&& after.frames[env as int].values[declaration.name@] == m.next_callable()
            &&& after.callables[m.callables.len() as int] matches CallableModel::LoxFunction(
                function,
            ) && function.closure == env && function.declaration == declaration
        }),
{
}

/// `!` on values: true of `nil` and of a zero of either sign, false of
/// every other number, and else the negation of a boolean.
pub proof fn law_not(number: Number, boolean: bool)
    ensures
        unary_operation_spec(TokenType::Bang, LoxValue::Number(number)) == Ok::<
            LoxValue,
            InterpreterErrorType,
        >(LoxValue::Boolean(number.is_zero_spec())),
        unary_operation_spec(TokenType::Bang, LoxValue::Nil) == Ok::<LoxValue, InterpreterErrorType>(
            LoxValue::Boolean(true),
        ),
        unary_operation_spec(TokenType::Bang, LoxValue::Boolean(boolean)) == Ok::<
            LoxValue,
            InterpreterErrorType,
        >(LoxValue::Boolean(!boolean)),
        number.bits == 0 || number.bits == SIGN_BIT ==> number.is_zero_spec(),
        number.negated().is_zero_spec() == number.is_zero_spec(),
{
    assert(0u64 & 0x7fff_ffff_ffff_ffffu64 == 0) by (bit_vector);
    assert(0x8000_0000_0000_0000u64 & 0x7fff_ffff_ffff_ffffu64 == 0) by (bit_vector);
    crate::number::lemma_negation(number);
}

/// `/` on values: dividing by a zero of either sign is an error, whatever
/// is divided; every other division is handed to the host.
pub proof fn law_division(dividend: Number, divisor: Number)
    ensures
        divisor.is_zero_spec() ==> binary_operation_spec(
            LoxValue::Number(dividend),
            TokenType::Slash,
            LoxValue::Number(divisor),
        ) == Operation::Done(Err(InterpreterErrorType::DivisionByZero)),
        !divisor.is_zero_spec() ==> binary_operation_spec(
            LoxValue::Number(dividend),
            TokenType::Slash,
            LoxValue::Number(divisor),
        ) == Operation::Compute(Arithmetic::Divide, dividend, divisor),
{
}

/// Inheritance. A class that does not define a method finds that of its
/// superclass; one that defines it finds its own, whatever the superclass has.
pub proof fn law_inheritance(own: ClassLayer, parent: Seq<ClassLayer>, name: Seq<char>)
    ensures
        !own.methods.contains_key(name) ==> find_method_spec(seq![own] + parent, name)
            == find_method_spec(parent, name),
        own.methods.contains_key(name) ==> find_method_spec(seq![own] + parent, name) == Some(
            own.methods[name],
        ),
{
    assert((seq![own] + parent).drop_first() =~= parent);
}

/// `!` in expressions: true of `nil`, of `false` and of a zero; false of
/// `true` and of every other number.
pub proof fn law_truthiness(answers: Seq<Answer>, m: Machine, bang: Token, operand: Expression, env: usize, fuel: nat)
    requires
        bang.token_type == TokenType::Bang,
        operand is Nil || operand is True || operand is False || operand is Number,
    ensures
        ({
            let value = match operand {
                Expression::Nil => LoxValue::Nil,
                Expression::True => LoxValue::Boolean(true),
                Expression::False => LoxValue::Boolean(false),
                Expression::Number(number) => LoxValue::Number(number),
                _ => LoxValue::Nil,
            };
            evaluate(answers, m, Expression::Unary(bang, Box::new(operand)), env, fuel) == (
                m,
                Ok::<LoxValue, InterpreterError>(LoxValue::Boolean(!value.is_truthy_spec())),
            )
        }),
{
    let whole = Expression::Unary(bang, Box::new(operand));
    assert(evaluate(answers, m, whole, env, fuel) == evaluate_unary(answers, m, whole, env, fuel));
    let inner = evaluate(answers, m, operand, env, fuel);
}

/// `/`: dividing any number by a zero is the error `DivisionByZero`, at the
/// operator, and changes nothing.
pub proof fn law_division_by_zero(
    answers: Seq<Answer>,
    m: Machine,
    dividend: Number,
    slash: Token,
    divisor: Number,
    env: usize,
    fuel: nat,
)
    requires
        slash.token_type == TokenType::Slash,
        divisor.is_zero_spec(),
    ensures
        evaluate(
            answers,
            m,
            Expression::Binary {
                left: Box::new(Expression::Number(dividend)),
                operator: slash,
                right: Box::new(Expression::Number(divisor)),
            },
            env,
            fuel,
        ) == (m, failure::<LoxValue>(InterpreterErrorType::DivisionByZero, slash)),
{
    let whole = Expression::Binary {
        left: Box::new(Expression::Number(dividend)),
        operator: slash,
        right: Box::new(Expression::Number(divisor)),
    };
    assert(evaluate(answers, m, whole, env, fuel) == evaluate_binary(answers, m, whole, env, fuel));
    let first = evaluate(answers, m, Expression::Number(dividend), env, fuel);
    let second = evaluate(answers, m, Expression::Number(divisor), env, fuel);
}

/// `random` stays between its bounds. Whatever a call of `random` with two
/// numbers yields, other than `nil`, is the number that the host made of an
/// integer that lies between the integer parts of the two numbers: not
/// below the smaller, and below the larger.
pub proof fn law_random(answers: Seq<Answer>, m: Machine, first: Number, second: Number)
    ensures
        ({
            let arguments = seq![LoxValue::Number(first), LoxValue::Number(second)];
            let result = crate::semantics::native(
                answers,
                m,
                crate::value::NativeFunction::Random,
                arguments,
            ).1;
            result matches Ok(LoxValue::Number(number)) ==> {
                &&& crate::semantics::between(
                    answers[m.cursor as int + 2].integer(),
                    answers[m.cursor as int].integer(),
                    answers[m.cursor as int + 1].integer(),
                )
                &&& answers[m.cursor as int + 3].number() == number
            }
        }),
{
}

/// A quotient is a number. Dividing a number by a number that is no zero
/// asks the host for the quotient, and the result is the number that the
/// host answers.
pub proof fn law_quotient(
    answers: Seq<Answer>,
    m: Machine,
    dividend: Number,
    slash: Token,
    divisor: Number,
    env: usize,
    fuel: nat,
)
    requires
        slash.token_type == TokenType::Slash,
        !divisor.is_zero_spec(),
    ensures
        evaluate(
            answers,
            m,
            Expression::Binary {
                left: Box::new(Expression::Number(dividend)),
                operator: slash,
                right: Box::new(Expression::Number(divisor)),
            },
            env,
            fuel,
        ) == (
            m.ask(crate::host::Question::Arithmetic(Arithmetic::Divide, dividend, divisor)),
            Ok::<LoxValue, InterpreterError>(LoxValue::Number(answers[m.cursor as int].number())),
        ),
{
    let whole = Expression::Binary {
        left: Box::new(Expression::Number(dividend)),
        operator: slash,
        right: Box::new(Expression::Number(divisor)),
    };
    assert(evaluate(answers, m, whole, env, fuel) == evaluate_binary(answers, m, whole, env, fuel));
    let first = evaluate(answers, m, Expression::Number(dividend), env, fuel);
    let second = evaluate(answers, m, Expression::Number(divisor), env, fuel);
}

/// A call of a host function. With another number of arguments than the
/// function is registered with, the call fails with `WrongArity` at the
/// token of the call, and the host is asked nothing; else the result of the
/// host function is the result of the call, and a failure of it the error
/// `Native`, at the token of the call.
pub proof fn law_native_call(
    answers: Seq<Answer>,
    m: Machine,
    func: crate::value::NativeFunction,
    arity: usize,
    arguments: Seq<LoxValue>,
    paren: Token,
)
    ensures
        ({
            let (after, result) = crate::semantics::call_native(
                answers,
                m,
                func,
                arity,
                arguments,
                paren,
            );
            let (asked, answered) = crate::semantics::native(answers, m, func, arguments);
            &&& arity != arguments.len() ==> after == m && result == failure::<LoxValue>(
                InterpreterErrorType::WrongArity { original: arity, user: arguments.len() as usize },
                paren,
            )
            &&& arity == arguments.len() ==> after == asked && (match answered {
                Ok(value) => result == Ok::<LoxValue, InterpreterError>(value),
                Err(error) => result == failure::<LoxValue>(
                    InterpreterErrorType::Native(error),
                    paren,
                ),
            })
            &&& result matches Err(error) ==> error.token == paren
        }),
{
}

/// The constructor yields the instance. A call of a class that succeeds
/// returns the instance that the call created, whatever the initializer
/// returned.
pub proof fn law_constructor(
    answers: Seq<Answer>,
    m: Machine,
    callee: usize,
    arguments: Seq<LoxValue>,
    paren: Token,
    fuel: nat,
)
    requires
        m.callables[callee as int] is Constructor,
    ensures
        call(answers, m, callee, arguments, paren, fuel).1 matches Ok(value) ==> value
            == m.next_instance(),
{
}

/// An initializer yields `this`. A call of a bound initializer that succeeds
/// returns what its closure binds `this` to, whatever its body returned.
pub proof fn law_initializer(
    answers: Seq<Answer>,
    m: Machine,
    function: crate::value::LoxFunction,
    arguments: Seq<LoxValue>,
    paren: Token,
    fuel: nat,
)
    requires
        function.is_initializer,
    ensures
        ({
            let (after, result) = call_function(answers, m, function, arguments, paren, fuel);
            result matches Ok(value) ==> value == (match get_at_spec(
                after.frames,
                function.closure,
                "this"@,
                0,
            ) {
                Some(this) => this,
                None => LoxValue::Nil,
            })
        }),
{
}

/// Arity. A call with another number of arguments than the callable takes
/// fails with `WrongArity`, which names both numbers, and changes nothing.
pub proof fn law_arity(
    answers: Seq<Answer>,
    m: Machine,
    callee: usize,
    arguments: Seq<LoxValue>,
    paren: Token,
    fuel: nat,
)
    requires
        m.callables[callee as int].arity() != arguments.len(),
    ensures
        call(answers, m, callee, arguments, paren, fuel) == (
            m,
            failure::<LoxValue>(
                InterpreterErrorType::WrongArity {
                    original: m.callables[callee as int].arity(),
                    user: arguments.len() as usize,
                },
                paren,
            ),
        ),
{
}

/// `continue` in a `for` loop. When the condition holds and the body ends
/// with `continue`, or normally, the increment is evaluated next, in the
/// state that the body left, and only then does the next round test the
/// condition.
pub proof fn law_continue(
    answers: Seq<Answer>,
    m: Machine,
    initializer: Option<Box<Statement>>,
    condition: Expression,
    increment: Expression,
    body: Statement,
    env: usize,
    fuel: nat,
)
    requires
        fuel > 0,
        ({
            let (tested, value) = evaluate(answers, m, condition, env, fuel);
            &&& value matches Ok(value) && value.is_truthy_spec()
            &&& execute_statement(answers, tested, body, env, true, fuel).1 matches Ok(flow) && (
            flow == ControlFlow::ContinueLoop || flow == ControlFlow::Normal)
        }),
    ensures
        ({
            let statement = Statement::For {
                initializer,
                condition: Some(condition),
                increment: Some(increment),
                body: Box::new(body),
            };
            let tested = evaluate(answers, m, condition, env, fuel).0;
            let after = execute_statement(answers, tested, body, env, true, fuel).0;
            let (stepped, result) = evaluate(answers, after, increment, env, fuel);
            execute_loop(answers, m, statement, env, fuel) == (match result {
                Err(error) => (stepped, Err::<ControlFlow, InterpreterError>(error)),
                Ok(_) => execute_loop(answers, stepped, statement, env, (fuel - 1) as nat),
            })
        }),
{
}

/// `break` ends the innermost loop only. When the condition holds and the
/// body ends with `break`, the loop statement ends normally, in the state
/// that the body left: the loop around it, if there is one, sees a statement
/// that ended normally and goes on.
pub proof fn law_break(
    answers: Seq<Answer>,
    m: Machine,
    condition: Expression,
    body: Statement,
    env: usize,
    inside_loop: bool,
    fuel: nat,
)
    requires
        fuel > 0,
        ({
            let (tested, value) = evaluate(answers, m, condition, env, fuel);
            &&& value matches Ok(value) && value.is_truthy_spec()
            &&& execute_statement(answers, tested, body, env, true, fuel).1 == Ok::<
                ControlFlow,
                InterpreterError,
            >(ControlFlow::BreakLoop)
        }),
    ensures
        ({
            let statement = Statement::While { condition, body: Box::new(body) };
            let tested = evaluate(answers, m, condition, env, fuel).0;
            let after = execute_statement(answers, tested, body, env, true, fuel).0;
            execute_statement(answers, m, statement, env, inside_loop, fuel) == (
                after,
                Ok::<ControlFlow, InterpreterError>(ControlFlow::Normal),
            )
        }),
{
    let statement = Statement::While { condition, body: Box::new(body) };
    assert(execute_statement(answers, m, statement, env, inside_loop, fuel) == execute_loop(
        answers,
        m,
        statement,
        env,
        fuel,
    ));
}

/// A signal passes through nested blocks. The first statement of a block
/// that does not end normally ends the block, with its signal; and a block
/// statement ends as the block in it.
pub proof fn law_signal(
    answers: Seq<Answer>,
    m: Machine,
    statements: Seq<Statement>,
    from: nat,
    env: usize,
    inside_loop: bool,
    fuel: nat,
)
    requires
        from < statements.len(),
        execute_statement(answers, m, statements[from as int], env, inside_loop, fuel).1
            != Ok::<ControlFlow, InterpreterError>(ControlFlow::Normal),
    ensures
        execute_block(answers, m, statements, from, env, inside_loop, fuel) == execute_statement(
            answers,
            m,
            statements[from as int],
            env,
            inside_loop,
            fuel,
        ),
{
}

/// `or` and `and` hand values on as they are. Where the left operand of
/// `or` is truthy, or that of `and` falsy, it is the result and the right
/// operand is not evaluated; otherwise the result is whatever the right
/// operand evaluates to, not a boolean made of it.
pub proof fn law_logical(
    answers: Seq<Answer>,
    m: Machine,
    left: Expression,
    right: Expression,
    env: usize,
    fuel: nat,
)
    ensures
        ({
            let (after, first) = evaluate(answers, m, left, env, fuel);
            let either = Expression::Or { left: Box::new(left), right: Box::new(right) };
            let both = Expression::And { left: Box::new(left), right: Box::new(right) };
            match first {
                Err(error) => {
                    &&& evaluate(answers, m, either, env, fuel) == (after, first)
                    &&& evaluate(answers, m, both, env, fuel) == (after, first)
                },
                Ok(value) => {
                    &&& evaluate(answers, m, either, env, fuel) == (if value.is_truthy_spec() {
                        (after, first)
                    } else {
                        evaluate(answers, after, right, env, fuel)
                    })
                    &&& evaluate(answers, m, both, env, fuel) == (if value.is_truthy_spec() {
                        evaluate(answers, after, right, env, fuel)
                    } else {
                        (after, first)
                    })
                },
            }
        }),
{
    let either = Expression::Or { left: Box::new(left), right: Box::new(right) };
    let both = Expression::And { left: Box::new(left), right: Box::new(right) };
    assert(evaluate(answers, m, either, env, fuel) == evaluate_logical(
        answers,
        m,
        either,
        env,
        fuel,
    ));
    assert(evaluate(answers, m, both, env, fuel) == evaluate_logical(answers, m, both, env, fuel));
}

} // verus!
