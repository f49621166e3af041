//! Why a program that the parser has built and the resolver has resolved
//! does not get the machine stuck: what makes a state of the machine
//! sound, which the states of such a program are, and which a step keeps.
use super::callable::LoxFunctionView;
use super::environment::{ancestor, EnvironmentView};
use super::machine::{
    AppliedView, Event, InterpreterView, RequestView, Stepped, TaskView, after_applied,
    answered, apply_binary, apply_unary, assign, begin_scope, call, declare, declare_params,
    drive, drop_task, drop_value, end_scope, eval_expr, eval_next, eval_stmt, frames_wf, get,
    fail, lemma_assign_keeps_frames, lemma_call_keeps_frames, lemma_declare_keeps_frames,
    lemma_fail_keeps_frames, lemma_scopes_keep_frames, perform, push_task, push_value, schedule, step, unwind,
};
use crate::parser::expr::{
    expr_formed, exprs_formed, is_binary_operator, is_logical_operator, is_unary_operator,
};
use crate::parser::stmt::{are_identifiers, is_declaration, stmt_formed, stmts_formed};
use crate::parser::{ControlSignalView, ExprView, StmtView, ValueView};
use crate::resolver::scoping::{
    after_stmt, expr_scoped, exprs_scoped, names_within, stmt_scoped, stmts_scoped, use_scoped,
    with_token, with_tokens, Names,
};
use vstd::prelude::*;

verus! {

/// The names that are declared in the frames from the outermost to the
/// frame at `frame`, behind the empty scope of the resolver.
pub open spec fn chain_names(frames: Seq<EnvironmentView>, frame: nat) -> Names
    decreases frame,
{
    if frame >= frames.len() {
        seq![Set::empty()]
    } else {
        match frames[frame as int].enclosing {
            Some(around) if around < frame => chain_names(frames, around).push(
                frames[frame as int].variables.dom(),
            ),
            _ => seq![Set::empty(), frames[frame as int].variables.dom()],
        }
    }
}

/// `after` holds the frames of `before`, each with the frame around it
/// that it had and with the variables that it had, and maybe more.
pub open spec fn frames_grown(before: Seq<EnvironmentView>, after: Seq<EnvironmentView>) -> bool {
    &&& before.len() <= after.len()
    &&& forall|i: int|
        0 <= i < before.len() ==> {
            &&& (#[trigger] after[i]).enclosing == before[i].enclosing
            &&& before[i].variables.dom().subset_of(after[i].variables.dom())
        }
}

/// The frame around each frame is older than the frame.
pub open spec fn frames_ordered(frames: Seq<EnvironmentView>) -> bool {
    forall|i: int|
        0 <= i < frames.len() ==> match (#[trigger] frames[i]).enclosing {
            Some(around) => around < i,
            None => true,
        }
}

/// A function value is one of `functions` functions.
pub open spec fn value_ok(value: ValueView, functions: nat) -> bool {
    match value {
        ValueView::Callable(function) => function < functions,
        _ => true,
    }
}

pub open spec fn values_ok(values: Seq<ValueView>, functions: nat) -> bool {
    forall|i: int| 0 <= i < values.len() ==> value_ok(#[trigger] values[i], functions)
}

pub open spec fn frames_values_ok(frames: Seq<EnvironmentView>, functions: nat) -> bool {
    forall|i: int, name: Seq<char>|
        0 <= i < frames.len() && (#[trigger] frames[i].variables.contains_key(name)) ==> value_ok(
            frames[i].variables[name],
            functions,
        )
}

/// The names that are declared where the body of `function` stands:
/// those of its parameters, in a scope inside the frame in which the
/// function was declared.
pub open spec fn body_names(frames: Seq<EnvironmentView>, function: LoxFunctionView) -> Names {
    with_tokens(
        chain_names(frames, function.environment).push(Set::empty()),
        function.params,
        function.params.len(),
    )
}

/// `function` is as the parser and the resolver leave functions, and the
/// frame in which it was declared is one of the frames.
pub open spec fn function_ok(
    state: InterpreterView,
    function: LoxFunctionView,
) -> bool {
    &&& function.name.kind is Identifier
    &&& are_identifiers(function.params)
    &&& stmt_formed(function.body)
    &&& function.body is Block
    &&& function.environment < state.environments.len()
    &&& stmt_scoped(function.body, state.bindings, body_names(state.environments, function))
}

pub open spec fn functions_ok(state: InterpreterView) -> bool {
    forall|i: int|
        0 <= i < state.functions.len() ==> function_ok(state, #[trigger] state.functions[i])
}

/// Where a task stands: the frame that is running when the task is
/// taken up, the names that are declared there, and the number of values
/// on the stack.
pub struct Context {
    pub frame: nat,
    pub names: Names,
    pub height: nat,
}

/// Whether the tasks `tasks` end where a statement may end: with a task
/// that goes on with statements, or with the way back from a call.
pub open spec fn stmt_position(tasks: Seq<TaskView>) -> bool {
    tasks.len() == 0 || match tasks.last() {
        TaskView::Program { stmts, next } => true,
        TaskView::Block { stmts, next } => true,
        TaskView::Loop { condition, body } => true,
        TaskView::Leave { environment } => true,
        _ => false,
    }
}

/// The statements of `stmts` from `from` on are formed as the parser
/// forms them.
pub open spec fn stmts_formed_from(stmts: Seq<StmtView>, from: nat) -> bool {
    forall|i: int| from <= i < stmts.len() ==> stmt_formed(#[trigger] stmts[i])
}

/// The task `task` can be taken up at `context`, above the tasks
/// `below`, in the state `state`.
pub open spec fn task_ok(
    state: InterpreterView,
    task: TaskView,
    context: Context,
    below: Seq<TaskView>,
) -> bool {
    let bindings = state.bindings;
    let names = context.names;
    match task {
        TaskView::Program { stmts, next } => {
            &&& stmts_formed_from(stmts, next)
            &&& stmts_scoped(stmts, next as int, bindings, names)
            &&& stmt_position(below)
        },
        TaskView::Stmt(stmt) => {
            &&& stmt_formed(stmt)
            &&& stmt_scoped(stmt, bindings, names)
            &&& stmt_position(below)
        },
        TaskView::Expr(expr) => expr_formed(expr) && expr_scoped(expr, bindings, names),
        TaskView::Block { stmts, next } => {
            &&& stmts_formed_from(stmts, next)
            &&& stmts_scoped(stmts, next as int, bindings, names)
            &&& stmt_position(below)
            &&& context.frame < state.environments.len()
            &&& state.environments[context.frame as int].enclosing is Some
            &&& names.len() > 0
        },
        TaskView::Print => context.height >= 1 && stmt_position(below),
        TaskView::Discard => context.height >= 1 && stmt_position(below),
        TaskView::Declare(variable) => {
            &&& context.height >= 1
            &&& variable.kind is Identifier
            &&& stmt_position(below)
        },
        TaskView::Return => context.height >= 1 && stmt_position(below),
        TaskView::Branch { then_stmt, else_stmt } => {
            &&& context.height >= 1
            &&& stmt_position(below)
            &&& stmt_formed(then_stmt)
            &&& !is_declaration(then_stmt)
            &&& stmt_scoped(then_stmt, bindings, names)
            &&& else_stmt matches Some(stmt) ==> {
                &&& stmt_formed(stmt)
                &&& !is_declaration(stmt)
                &&& stmt_scoped(stmt, bindings, names)
            }
        },
        TaskView::Loop { condition, body } => {
            &&& stmt_position(below)
            &&& expr_formed(condition)
            &&& expr_scoped(condition, bindings, names)
            &&& stmt_formed(body)
            &&& !is_declaration(body)
            &&& stmt_scoped(body, bindings, names)
        },
        TaskView::Test { condition, body } => {
            &&& context.height >= 1
            &&& stmt_position(below)
            &&& expr_formed(condition)
            &&& expr_scoped(condition, bindings, names)
            &&& stmt_formed(body)
            &&& !is_declaration(body)
            &&& stmt_scoped(body, bindings, names)
        },
        TaskView::Unary(op) => context.height >= 1 && is_unary_operator(op.kind),
        TaskView::Binary(op) => context.height >= 2 && is_binary_operator(op.kind),
        TaskView::Logical { op, right } => {
            &&& context.height >= 1
            &&& is_logical_operator(op.kind)
            &&& expr_formed(right)
            &&& expr_scoped(right, bindings, names)
        },
        TaskView::Truth => context.height >= 1,
        TaskView::Assign { id, variable } => {
            &&& context.height >= 1
            &&& use_scoped(id, variable, bindings, names)
        },
        TaskView::Call { paren, args } => {
            &&& context.height >= 1
            &&& exprs_formed(args)
            &&& exprs_scoped(args, bindings, names)
        },
        TaskView::Invoke { function } => {
            &&& function < state.functions.len()
            &&& context.height >= state.functions[function as int].params.len()
        },
        TaskView::Leave { environment } => environment < state.environments.len(),
    }
}

/// Where the tasks below `task` stand when `task` is done.
pub open spec fn task_next(state: InterpreterView, task: TaskView, context: Context) -> Context {
    match task {
        TaskView::Stmt(stmt) => Context { names: after_stmt(context.names, stmt), ..context },
        TaskView::Expr(expr) => Context { height: context.height + 1, ..context },
        TaskView::Block { stmts, next } => Context {
            frame: match state.environments[context.frame as int].enclosing {
                Some(around) => around,
                None => 0,
            },
            names: context.names.drop_last(),
            height: context.height,
        },
        TaskView::Print => Context { height: (context.height - 1) as nat, ..context },
        TaskView::Discard => Context { height: (context.height - 1) as nat, ..context },
        TaskView::Declare(variable) => Context {
            names: with_token(context.names, variable),
            height: (context.height - 1) as nat,
            ..context
        },
        TaskView::Return => Context { height: (context.height - 1) as nat, ..context },
        TaskView::Branch { then_stmt, else_stmt } => Context {
            height: (context.height - 1) as nat,
            ..context
        },
        TaskView::Test { condition, body } => Context {
            height: (context.height - 1) as nat,
            ..context
        },
        TaskView::Binary(op) => Context { height: (context.height - 1) as nat, ..context },
        TaskView::Invoke { function } => Context {
            height: (context.height + 1 - state.functions[function as int].params.len()) as nat,
            ..context
        },
        TaskView::Leave { environment } => Context {
            frame: environment,
            names: chain_names(state.environments, environment),
            height: context.height + 1,
        },
        _ => context,
    }
}

/// Each of the first `count` tasks of `state` can be taken up where it
/// stands when the tasks above it are done, the topmost of them at
/// `context`.
pub open spec fn stack_ok(state: InterpreterView, count: nat, context: Context) -> bool
    decreases count,
{
    if count == 0 || count > state.tasks.len() {
        true
    } else {
        let task = state.tasks[count - 1];
        &&& task_ok(state, task, context, state.tasks.take(count - 1))
        &&& stack_ok(state, (count - 1) as nat, task_next(state, task, context))
    }
}

/// Where the topmost task of `state` stands.
pub open spec fn top_context(state: InterpreterView) -> Context {
    Context {
        frame: state.environment,
        names: chain_names(state.environments, state.environment),
        height: state.values.len() + if state.pending is Some {
            1nat
        } else {
            0nat
        },
    }
}

/// The state is one that a program leads to which the parser has built
/// and the resolver has resolved: the frames hang together, every value
/// that is a function is one of the functions, every function and every
/// task is formed as the parser forms it and finds its variables where
/// the resolver found them, each task finds the values that it takes,
/// and a `return` is on its way only where a statement may end.
pub open spec fn sound(state: InterpreterView) -> bool {
    &&& frames_wf(state)
    &&& values_ok(state.values, state.functions.len())
    &&& frames_values_ok(state.environments, state.functions.len())
    &&& functions_ok(state)
    &&& stack_ok(state, state.tasks.len(), top_context(state))
    &&& match state.signal {
        ControlSignalView::Return(value) => {
            &&& value_ok(value, state.functions.len())
            &&& stmt_position(state.tasks)
            &&& state.pending is None
        },
        ControlSignalView::Normal => true,
    }
}

/// The names of a chain of frames start with the empty scope of the
/// resolver, behind which the chain of a frame holds a scope at least.
pub proof fn lemma_chain_base(frames: Seq<EnvironmentView>, frame: nat)
    ensures
        chain_names(frames, frame).len() >= 1,
        chain_names(frames, frame)[0] == Set::<Seq<char>>::empty(),
        frame < frames.len() ==> chain_names(frames, frame).len() >= 2,
        frame < frames.len() ==> chain_names(frames, frame).last()
            == frames[frame as int].variables.dom(),
    decreases frame,
{
    if frame < frames.len() {
        if let Some(around) = frames[frame as int].enclosing {
            if around < frame {
                lemma_chain_base(frames, around);
            }
        }
    }
}

/// The names of a chain of frames are those of the frames of the chain
/// alone.
pub proof fn lemma_chain_same(
    before: Seq<EnvironmentView>,
    after: Seq<EnvironmentView>,
    frame: nat,
)
    requires
        frame < before.len() <= after.len(),
        forall|i: int| 0 <= i <= frame ==> after[i] == before[i],
    ensures
        chain_names(after, frame) == chain_names(before, frame),
    decreases frame,
{
    if let Some(around) = before[frame as int].enclosing {
        if around < frame {
            lemma_chain_same(before, after, around);
        }
    }
}

/// Where the frames have grown, the names of each chain have grown.
pub proof fn lemma_chain_grown(
    before: Seq<EnvironmentView>,
    after: Seq<EnvironmentView>,
    frame: nat,
)
    requires
        frames_grown(before, after),
        frame < before.len(),
    ensures
        names_within(chain_names(before, frame), chain_names(after, frame)),
    decreases frame,
{
    if let Some(around) = before[frame as int].enclosing {
        if around < frame {
            lemma_chain_grown(before, after, around);
        }
    }
}

/// The frame that lies `depth` scopes around a frame holds the names that
/// stand `depth` places before the last in the names of the chain of the
/// frame.
pub proof fn lemma_chain_lookup(frames: Seq<EnvironmentView>, frame: nat, depth: nat)
    requires
        frames_ordered(frames),
        frame < frames.len(),
        depth + 1 < chain_names(frames, frame).len(),
    ensures
        ancestor(frames, frame, depth) matches Some(place) && place < frames.len()
            && frames[place as int].variables.dom() == chain_names(frames, frame)[chain_names(
            frames,
            frame,
        ).len() - 1 - depth],
    decreases depth,
{
    lemma_chain_base(frames, frame);
    if depth > 0 {
        match frames[frame as int].enclosing {
            Some(around) => {
                lemma_chain_lookup(frames, around, (depth - 1) as nat);
            },
            None => {},
        }
    }
}

/// A declaration in a frame declares its name in the innermost scope of
/// the chain of the frame.
pub proof fn lemma_chain_declared(
    frames: Seq<EnvironmentView>,
    frame: nat,
    name: Seq<char>,
    value: ValueView,
)
    requires
        frames_ordered(frames),
        frame < frames.len(),
    ensures
        chain_names(
            frames.update(
                frame as int,
                EnvironmentView {
                    variables: frames[frame as int].variables.insert(name, value),
                    ..frames[frame as int]
                },
            ),
            frame,
        ) == crate::resolver::scoping::with_name(chain_names(frames, frame), name),
{
    let after = frames.update(
        frame as int,
        EnvironmentView {
            variables: frames[frame as int].variables.insert(name, value),
            ..frames[frame as int]
        },
    );
    lemma_chain_base(frames, frame);
    if let Some(around) = frames[frame as int].enclosing {
        if around < frame {
            lemma_chain_same(frames, after, around);
        }
    }
    assert(after[frame as int].variables.dom() =~= frames[frame as int].variables.dom().insert(
        name,
    ));
    assert(chain_names(after, frame) =~= crate::resolver::scoping::with_name(
        chain_names(frames, frame),
        name,
    ));
}

/// `after` is `before` grown: it holds the frames of `before`, as
/// [`frames_grown`] says, and its functions, and maybe more of both.
pub open spec fn grown(before: InterpreterView, after: InterpreterView) -> bool {
    &&& after.bindings == before.bindings
    &&& frames_grown(before.environments, after.environments)
    &&& before.functions.len() <= after.functions.len()
    &&& forall|i: int|
        0 <= i < before.functions.len() ==> (#[trigger] after.functions[i]) == before.functions[i]
}

/// `more` is `less` with more names declared, maybe, and more values on
/// the stack.
pub open spec fn context_within(less: Context, more: Context) -> bool {
    &&& less.frame == more.frame
    &&& names_within(less.names, more.names)
    &&& less.height <= more.height
}

/// A task that can be taken up can be taken up where the state has grown
/// and more names are declared.
pub proof fn lemma_task_ok_grown(
    before: InterpreterView,
    after: InterpreterView,
    task: TaskView,
    less: Context,
    more: Context,
    below: Seq<TaskView>,
)
    requires
        grown(before, after),
        task_ok(before, task, less, below),
        context_within(less, more),
    ensures
        task_ok(after, task, more, below),
        context_within(task_next(before, task, less), task_next(after, task, more)),
{
    let bindings = before.bindings;
    match task {
        TaskView::Program { stmts, next } => {
            crate::resolver::scoping::lemma_stmts_scoped_within(
                stmts,
                next as int,
                bindings,
                less.names,
                more.names,
            );
        },
        TaskView::Stmt(stmt) => {
            crate::resolver::scoping::lemma_stmt_scoped_within(
                stmt,
                bindings,
                less.names,
                more.names,
            );
            crate::resolver::scoping::lemma_after_stmt_within(less.names, more.names, stmt);
        },
        TaskView::Expr(expr) => {
            crate::resolver::scoping::lemma_expr_scoped_within(
                expr,
                bindings,
                less.names,
                more.names,
            );
        },
        TaskView::Block { stmts, next } => {
            crate::resolver::scoping::lemma_stmts_scoped_within(
                stmts,
                next as int,
                bindings,
                less.names,
                more.names,
            );
            assert(names_within(less.names.drop_last(), more.names.drop_last()));
        },
        TaskView::Declare(variable) => {
            crate::resolver::scoping::lemma_with_token_within(less.names, more.names, variable);
        },
        TaskView::Branch { then_stmt, else_stmt } => {
            crate::resolver::scoping::lemma_stmt_scoped_within(
                then_stmt,
                bindings,
                less.names,
                more.names,
            );
            if let Some(stmt) = else_stmt {
                crate::resolver::scoping::lemma_stmt_scoped_within(
                    stmt,
                    bindings,
                    less.names,
                    more.names,
                );
            }
        },
        TaskView::Loop { condition, body } => {
            crate::resolver::scoping::lemma_expr_scoped_within(
                condition,
                bindings,
                less.names,
                more.names,
            );
            crate::resolver::scoping::lemma_stmt_scoped_within(
                body,
                bindings,
                less.names,
                more.names,
            );
        },
        TaskView::Test { condition, body } => {
            crate::resolver::scoping::lemma_expr_scoped_within(
                condition,
                bindings,
                less.names,
                more.names,
            );
            crate::resolver::scoping::lemma_stmt_scoped_within(
                body,
                bindings,
                less.names,
                more.names,
            );
        },
        TaskView::Logical { op, right } => {
            crate::resolver::scoping::lemma_expr_scoped_within(
                right,
                bindings,
                less.names,
                more.names,
            );
        },
        TaskView::Call { paren, args } => {
            crate::resolver::scoping::lemma_exprs_scoped_within(
                args,
                bindings,
                less.names,
                more.names,
            );
        },
        TaskView::Leave { environment } => {
            lemma_chain_grown(before.environments, after.environments, environment);
        },
        _ => {},
    }
}

/// Tasks that can be taken up can be taken up where the state has grown
/// and more names are declared.
pub proof fn lemma_stack_ok_grown(
    before: InterpreterView,
    after: InterpreterView,
    count: nat,
    less: Context,
    more: Context,
)
    requires
        grown(before, after),
        count <= before.tasks.len(),
        count <= after.tasks.len(),
        after.tasks.take(count as int) == before.tasks.take(count as int),
        stack_ok(before, count, less),
        context_within(less, more),
    ensures
        stack_ok(after, count, more),
    decreases count,
{
    if count > 0 {
        let task = before.tasks[count - 1];
        assert(after.tasks[count - 1] == after.tasks.take(count as int)[count - 1]);
        assert(before.tasks[count - 1] == before.tasks.take(count as int)[count - 1]);
        assert(after.tasks.take(count - 1) =~= after.tasks.take(count as int).take(count - 1));
        assert(before.tasks.take(count - 1) =~= before.tasks.take(count as int).take(count - 1));
        lemma_task_ok_grown(before, after, task, less, more, before.tasks.take(count - 1));
        lemma_stack_ok_grown(
            before,
            after,
            (count - 1) as nat,
            task_next(before, task, less),
            task_next(after, task, more),
        );
    }
}

/// The functions of a state are what they were where the state has
/// grown.
pub proof fn lemma_functions_ok_grown(before: InterpreterView, after: InterpreterView)
    requires
        grown(before, after),
        functions_ok(before),
    ensures
        forall|i: int|
            0 <= i < before.functions.len() ==> function_ok(after, #[trigger] after.functions[i]),
{
    assert forall|i: int| 0 <= i < before.functions.len() implies function_ok(
        after,
        #[trigger] after.functions[i],
    ) by {
        let function = before.functions[i];
        assert(function_ok(before, function));
        lemma_chain_grown(before.environments, after.environments, function.environment);
        let less = chain_names(before.environments, function.environment).push(Set::empty());
        let more = chain_names(after.environments, function.environment).push(Set::empty());
        assert(names_within(less, more));
        crate::resolver::scoping::lemma_with_tokens_within(
            less,
            more,
            function.params,
            function.params.len(),
        );
        crate::resolver::scoping::lemma_stmt_scoped_within(
            function.body,
            before.bindings,
            body_names(before.environments, function),
            body_names(after.environments, function),
        );
    }
}

/// A use of a variable that the resolver has bound finds its variable in
/// the frames, where the names that the resolver found are declared.
pub proof fn lemma_use_found(
    state: InterpreterView,
    id: nat,
    token: crate::lexer::TokenView,
    names: Names,
    value: ValueView,
)
    requires
        frames_wf(state),
        use_scoped(id, token, state.bindings, names),
        names_within(names, chain_names(state.environments, state.environment)),
    ensures
        super::machine::get(state, id, token) is Some,
        super::machine::assign(state, id, token, value) is Some,
{
    let chain = chain_names(state.environments, state.environment);
    let depth = state.bindings[id];
    lemma_chain_base(state.environments, state.environment);
    assert(names[names.len() - 1 - depth].subset_of(chain[chain.len() - 1 - depth]));
    lemma_chain_lookup(state.environments, state.environment, depth);
}

/// What holds of a step in a sound state: it does not get the machine
/// stuck, and the state that it leads to is sound.
pub open spec fn sound_step(stepped: Stepped) -> bool {
    !(stepped.action is Stuck) && sound(stepped.state)
}

/// The state `rest`, from which `task` has been taken, is ready for the
/// task: it is sound but for the task, which can be taken up where the
/// state stands, as can the tasks below it when the task is done.
pub open spec fn ready(rest: InterpreterView, task: TaskView) -> bool {
    let context = top_context(rest);
    &&& frames_wf(rest)
    &&& values_ok(rest.values, rest.functions.len())
    &&& frames_values_ok(rest.environments, rest.functions.len())
    &&& functions_ok(rest)
    &&& rest.signal is Normal
    &&& rest.pending is None
    &&& task_ok(rest, task, context, rest.tasks)
    &&& stack_ok(rest, rest.tasks.len(), task_next(rest, task, context))
}

/// A state is grown from itself.
pub proof fn lemma_grown_same(state: InterpreterView)
    ensures
        grown(state, state),
{
}

/// To declare a name leaves what was declared.
pub proof fn lemma_within_with_token(names: Names, token: crate::lexer::TokenView)
    ensures
        names_within(names, with_token(names, token)),
{
}

/// What is declared is declared.
pub proof fn lemma_within_same(names: Names)
    ensures
        names_within(names, names),
{
}

/// A statement leaves declared what was declared.
pub proof fn lemma_within_after_stmt(names: Names, stmt: StmtView)
    ensures
        names_within(names, after_stmt(names, stmt)),
        !is_declaration(stmt) ==> after_stmt(names, stmt) == names,
{
    match stmt {
        StmtView::VarDecl { variable, expr } => lemma_within_with_token(names, variable),
        StmtView::FunDecl { name, params, body } => lemma_within_with_token(names, name),
        _ => {},
    }
}

/// The tasks of `rest` can be taken up in `after`, which holds them and
/// has grown from `rest`, where more names are declared.
pub proof fn lemma_remainder(
    rest: InterpreterView,
    after: InterpreterView,
    less: Context,
    more: Context,
)
    requires
        grown(rest, after),
        rest.tasks.len() <= after.tasks.len(),
        after.tasks.take(rest.tasks.len() as int) == rest.tasks,
        stack_ok(rest, rest.tasks.len(), less),
        context_within(less, more),
    ensures
        stack_ok(after, rest.tasks.len(), more),
{
    assert(rest.tasks.take(rest.tasks.len() as int) =~= rest.tasks);
    lemma_stack_ok_grown(rest, after, rest.tasks.len(), less, more);
}

/// The next of a run of statements, with the run behind it, can be taken
/// up where the run could.
proof fn lemma_eval_next_sound(
    rest: InterpreterView,
    run: TaskView,
    stmts: Seq<StmtView>,
    next: nat,
)
    requires
        frames_wf(rest),
        values_ok(rest.values, rest.functions.len()),
        frames_values_ok(rest.environments, rest.functions.len()),
        functions_ok(rest),
        rest.signal is Normal,
        rest.pending is None,
        next < stmts.len(),
        stmts_formed_from(stmts, next),
        stmts_scoped(stmts, next as int, rest.bindings, top_context(rest).names),
        stmt_position(rest.tasks),
        run matches TaskView::Program { stmts: all, next: then } ==> all == stmts && then == next
            + 1,
        run matches TaskView::Block { stmts: all, next: then } ==> {
            &&& all == stmts
            &&& then == next + 1
            &&& top_context(rest).frame < rest.environments.len()
            &&& rest.environments[top_context(rest).frame as int].enclosing is Some
        },
        run is Program || run is Block,
        stack_ok(rest, rest.tasks.len(), task_next(rest, run, top_context(rest))),
    ensures
        sound(eval_next(rest, run, stmts, next)),
{
    let context = top_context(rest);
    let after = eval_next(rest, run, stmts, next);
    let stmt = stmts[next as int];
    let middle = task_next(after, TaskView::Stmt(stmt), context);
    lemma_grown_same(rest);
    lemma_within_after_stmt(context.names, stmt);
    lemma_chain_base(rest.environments, rest.environment);
    assert(after.tasks.take(rest.tasks.len() as int) =~= rest.tasks);
    assert(after.tasks.take(rest.tasks.len() as int + 1) =~= rest.tasks.push(run));
    assert(grown(rest, after));
    assert(context_within(
        task_next(rest, run, context),
        task_next(after, run, middle),
    )) by {
        assert(names_within(context.names.drop_last(), middle.names.drop_last()));
    }
    lemma_remainder(rest, after, task_next(rest, run, context), task_next(after, run, middle));
    assert(task_ok(after, run, middle, rest.tasks));
    assert(stack_ok(after, (rest.tasks.len() + 1) as nat, middle));
    assert(task_ok(after, TaskView::Stmt(stmt), context, rest.tasks.push(run)));
    assert(stack_ok(after, after.tasks.len(), context));
}

/// A program that ends in an error leaves a sound state.
proof fn lemma_fail_sound(state: InterpreterView, error: super::errors::RuntimeErrorView)
    requires
        frames_wf(state),
        values_ok(state.values, state.functions.len()),
        frames_values_ok(state.environments, state.functions.len()),
        functions_ok(state),
        state.signal is Normal,
    ensures
        sound(fail(state, error).state),
        !(fail(state, error).action is Stuck),
{
    let after = fail(state, error).state;
    lemma_fail_keeps_frames(state, error);
    assert(functions_ok(after)) by {
        lemma_grown_same(state);
        assert(grown(state, after));
        lemma_functions_ok_grown(state, after);
    }
}

/// A value on the stack of values is one more value.
proof fn lemma_push_value_sound(rest: InterpreterView, value: ValueView, less: Context)
    requires
        frames_wf(rest),
        values_ok(rest.values, rest.functions.len()),
        frames_values_ok(rest.environments, rest.functions.len()),
        functions_ok(rest),
        rest.signal is Normal,
        rest.pending is None,
        value_ok(value, rest.functions.len()),
        stack_ok(rest, rest.tasks.len(), less),
        less.frame == rest.environment,
        names_within(less.names, chain_names(rest.environments, rest.environment)),
        less.height <= rest.values.len() + 1,
    ensures
        sound(push_value(rest, value)),
{
    let after = push_value(rest, value);
    lemma_grown_same(rest);
    assert(grown(rest, after));
    assert(after.tasks.take(rest.tasks.len() as int) =~= rest.tasks);
    lemma_remainder(rest, after, less, top_context(after));
    lemma_functions_ok_grown(rest, after);
    assert(functions_ok(after));
    assert(values_ok(after.values, after.functions.len()));
}

/// A number that the machine waits for is one more value to come.
proof fn lemma_pending_sound(rest: InterpreterView, request: RequestView, less: Context)
    requires
        frames_wf(rest),
        values_ok(rest.values, rest.functions.len()),
        frames_values_ok(rest.environments, rest.functions.len()),
        functions_ok(rest),
        rest.signal is Normal,
        rest.pending is None,
        stack_ok(rest, rest.tasks.len(), less),
        less.frame == rest.environment,
        names_within(less.names, chain_names(rest.environments, rest.environment)),
        less.height <= rest.values.len() + 1,
    ensures
        sound(InterpreterView { pending: Some(request), ..rest }),
{
    let after = InterpreterView { pending: Some(request), ..rest };
    lemma_grown_same(rest);
    assert(grown(rest, after));
    assert(after.tasks.take(rest.tasks.len() as int) =~= rest.tasks);
    lemma_remainder(rest, after, less, top_context(after));
    lemma_functions_ok_grown(rest, after);
    assert(functions_ok(after));
}

/// What a variable holds is a value that may be held.
proof fn lemma_get_ok(state: InterpreterView, id: nat, token: crate::lexer::TokenView)
    requires
        frames_wf(state),
        frames_values_ok(state.environments, state.functions.len()),
    ensures
        get(state, id, token) matches Some(value) ==> value_ok(value, state.functions.len()),
{
    if state.bindings.contains_key(id) {
        super::environment::lemma_ancestor_is_frame(
            state.environments,
            state.environment,
            state.bindings[id],
        );
    }
}

/// Tasks pushed on the tasks of `rest` can be taken up, and those of
/// `rest` behind them, where each of them can be taken up where it
/// stands and leaves the tasks of `rest` where they stood.
proof fn lemma_pushed_sound(rest: InterpreterView, pushed: Seq<TaskView>, less: Context)
    requires
        frames_wf(rest),
        values_ok(rest.values, rest.functions.len()),
        frames_values_ok(rest.environments, rest.functions.len()),
        functions_ok(rest),
        rest.signal is Normal,
        rest.pending is None,
        stack_ok(rest, rest.tasks.len(), less),
        pushed_ok(rest, pushed, pushed.len(), top_context(rest)),
        context_within(less, pushed_next(rest, pushed, pushed.len(), top_context(rest))),
    ensures
        sound(InterpreterView { tasks: rest.tasks + pushed, ..rest }),
{
    let after = InterpreterView { tasks: rest.tasks + pushed, ..rest };
    lemma_grown_same(rest);
    assert(grown(rest, after));
    assert(after.tasks.take(rest.tasks.len() as int) =~= rest.tasks);
    lemma_remainder(
        rest,
        after,
        less,
        pushed_next(rest, pushed, pushed.len(), top_context(rest)),
    );
    lemma_functions_ok_grown(rest, after);
    assert(functions_ok(after));
    lemma_pushed_stack(rest, after, pushed, pushed.len(), top_context(rest));
    assert(after.tasks.len() == rest.tasks.len() + pushed.len());
    assert(top_context(after) == top_context(rest));
    assert(stack_ok(after, after.tasks.len(), top_context(after)));
    assert(frames_wf(after)) by {
        assert forall|i: int| 0 <= i < after.tasks.len() implies match #[trigger] after.tasks[i] {
            TaskView::Leave { environment } => environment < after.environments.len(),
            _ => true,
        } by {
            assert(stack_ok(after, after.tasks.len(), top_context(after)));
            lemma_stack_leaves(after, after.tasks.len(), top_context(after), i);
        }
    }
}

/// The ways back from calls among tasks that can be taken up lead to
/// frames.
proof fn lemma_stack_leaves(state: InterpreterView, count: nat, context: Context, place: int)
    requires
        count <= state.tasks.len(),
        stack_ok(state, count, context),
        0 <= place < count,
    ensures
        state.tasks[place] matches TaskView::Leave { environment } ==> environment
            < state.environments.len(),
    decreases count,
{
    if place < count - 1 {
        lemma_stack_leaves(
            state,
            (count - 1) as nat,
            task_next(state, state.tasks[count - 1], context),
            place,
        );
    }
}

/// Each of the first `count` of the tasks `pushed` can be taken up above
/// the tasks of `rest` and those pushed before it, the last of them at
/// `context`.
pub open spec fn pushed_ok(
    rest: InterpreterView,
    pushed: Seq<TaskView>,
    count: nat,
    context: Context,
) -> bool
    decreases count,
{
    if count == 0 || count > pushed.len() {
        true
    } else {
        let task = pushed[count - 1];
        &&& task_ok(rest, task, context, rest.tasks + pushed.take(count - 1))
        &&& pushed_ok(rest, pushed, (count - 1) as nat, task_next(rest, task, context))
    }
}

/// Where the tasks below the first `count` of the tasks `pushed` stand
/// when these are done.
pub open spec fn pushed_next(
    rest: InterpreterView,
    pushed: Seq<TaskView>,
    count: nat,
    context: Context,
) -> Context
    decreases count,
{
    if count == 0 || count > pushed.len() {
        context
    } else {
        pushed_next(rest, pushed, (count - 1) as nat, task_next(rest, pushed[count - 1], context))
    }
}

proof fn lemma_pushed_stack(
    rest: InterpreterView,
    after: InterpreterView,
    pushed: Seq<TaskView>,
    count: nat,
    context: Context,
)
    requires
        after == (InterpreterView { tasks: rest.tasks + pushed, ..rest }),
        count <= pushed.len(),
        pushed_ok(rest, pushed, count, context),
        stack_ok(after, rest.tasks.len(), pushed_next(rest, pushed, count, context)),
    ensures
        stack_ok(after, rest.tasks.len() + count, context),
    decreases count,
{
    if count > 0 {
        let task = pushed[count - 1];
        assert(after.tasks[rest.tasks.len() + count - 1] == task);
        assert(after.tasks.take(rest.tasks.len() + count - 1) =~= rest.tasks + pushed.take(
            count - 1,
        ));
        lemma_pushed_stack(rest, after, pushed, (count - 1) as nat, task_next(rest, task, context));
    }
}

/// The start of an expression keeps the state sound.
proof fn lemma_eval_expr_sound(rest: InterpreterView, expr: ExprView)
    requires
        ready(rest, TaskView::Expr(expr)),
    ensures
        sound_step(eval_expr(rest, expr)),
{
    let context = top_context(rest);
    let less = task_next(rest, TaskView::Expr(expr), context);
    lemma_within_same(context.names);
    reveal_with_fuel(pushed_ok, 4);
    reveal_with_fuel(pushed_next, 4);
    match expr {
        ExprView::Unary { op, right } => {
            let pushed = seq![TaskView::Unary(op), TaskView::Expr(*right)];
            assert(pushed.take(1) =~= seq![TaskView::Unary(op)]);
            assert(pushed.take(0) =~= Seq::<TaskView>::empty());
            lemma_pushed_sound(rest, pushed, less);
            assert(rest.tasks + pushed =~= rest.tasks.push(TaskView::Unary(op)).push(
                TaskView::Expr(*right),
            ));
        },
        ExprView::Binary { left, op, right } => {
            let pushed = seq![TaskView::Binary(op), TaskView::Expr(*right), TaskView::Expr(*left)];
            assert(pushed.take(2) =~= seq![TaskView::Binary(op), TaskView::Expr(*right)]);
            assert(pushed.take(1) =~= seq![TaskView::Binary(op)]);
            assert(pushed.take(0) =~= Seq::<TaskView>::empty());
            lemma_pushed_sound(rest, pushed, less);
            assert(rest.tasks + pushed =~= rest.tasks.push(TaskView::Binary(op)).push(
                TaskView::Expr(*right),
            ).push(TaskView::Expr(*left)));
        },
        ExprView::Grouping(inner) => {
            let pushed = seq![TaskView::Expr(*inner)];
            assert(pushed.take(0) =~= Seq::<TaskView>::empty());
            lemma_pushed_sound(rest, pushed, less);
            assert(rest.tasks + pushed =~= rest.tasks.push(TaskView::Expr(*inner)));
        },
        ExprView::Literal(literal) => {
            match literal {
                crate::parser::LiteralView::Number(digits) => {
                    lemma_pending_sound(rest, RequestView::Literal(digits), less);
                },
                crate::parser::LiteralView::Str(text) => {
                    lemma_push_value_sound(rest, ValueView::Str(text), less);
                },
                crate::parser::LiteralView::Bool(b) => {
                    lemma_push_value_sound(rest, ValueView::Bool(b), less);
                },
                crate::parser::LiteralView::Nil => {
                    lemma_push_value_sound(rest, ValueView::Nil, less);
                },
            }
        },
        ExprView::Variable { id, variable } => {
            lemma_use_found(rest, id, variable, context.names, ValueView::Nil);
            lemma_get_ok(rest, id, variable);
            lemma_push_value_sound(rest, get(rest, id, variable)->Some_0, less);
        },
        ExprView::Assignment { id, variable, expr: value } => {
            let pushed = seq![TaskView::Assign { id, variable }, TaskView::Expr(*value)];
            assert(pushed.take(1) =~= seq![TaskView::Assign { id, variable }]);
            assert(pushed.take(0) =~= Seq::<TaskView>::empty());
            lemma_pushed_sound(rest, pushed, less);
            assert(rest.tasks + pushed =~= rest.tasks.push(TaskView::Assign { id, variable }).push(
                TaskView::Expr(*value),
            ));
        },
        ExprView::Logical { left, op, right } => {
            let pushed = seq![TaskView::Logical { op, right: *right }, TaskView::Expr(*left)];
            assert(pushed.take(1) =~= seq![TaskView::Logical { op, right: *right }]);
            assert(pushed.take(0) =~= Seq::<TaskView>::empty());
            lemma_pushed_sound(rest, pushed, less);
            assert(rest.tasks + pushed =~= rest.tasks.push(
                TaskView::Logical { op, right: *right },
            ).push(TaskView::Expr(*left)));
        },
        ExprView::FunCall { callee, paren, args } => {
            let pushed = seq![TaskView::Call { paren, args }, TaskView::Expr(*callee)];
            assert(pushed.take(1) =~= seq![TaskView::Call { paren, args }]);
            assert(pushed.take(0) =~= Seq::<TaskView>::empty());
            lemma_pushed_sound(rest, pushed, less);
            assert(rest.tasks + pushed =~= rest.tasks.push(TaskView::Call { paren, args }).push(
                TaskView::Expr(*callee),
            ));
        },
    }
}

/// The declaration of a variable keeps the state sound.
proof fn lemma_declare_sound(
    rest: InterpreterView,
    token: crate::lexer::TokenView,
    value: ValueView,
    less: Context,
)
    requires
        frames_wf(rest),
        values_ok(rest.values, rest.functions.len()),
        frames_values_ok(rest.environments, rest.functions.len()),
        functions_ok(rest),
        rest.signal is Normal,
        rest.pending is None,
        token.kind is Identifier,
        value_ok(value, rest.functions.len()),
        stack_ok(rest, rest.tasks.len(), less),
        less.frame == rest.environment,
        names_within(
            less.names,
            with_token(chain_names(rest.environments, rest.environment), token),
        ),
        less.height <= rest.values.len(),
    ensures
        declare(rest, token, value) matches Some(after) && sound(after),
{
    let name = token.kind.identifier()->Some_0;
    let after = declare(rest, token, value)->Some_0;
    lemma_declare_keeps_frames(rest, token, value);
    lemma_chain_declared(rest.environments, rest.environment, name, value);
    assert(grown(rest, after));
    assert(after.tasks.take(rest.tasks.len() as int) =~= rest.tasks);
    lemma_remainder(rest, after, less, top_context(after));
    lemma_functions_ok_grown(rest, after);
    assert(functions_ok(after));
    assert(frames_values_ok(after.environments, after.functions.len()));
}

/// The start of a block keeps the state sound.
proof fn lemma_block_sound(rest: InterpreterView, stmts: Seq<StmtView>)
    requires
        ready(rest, TaskView::Stmt(StmtView::Block { stmts })),
    ensures
        sound(push_task(begin_scope(rest), TaskView::Block { stmts, next: 0 })),
{
    let context = top_context(rest);
    let stmt = StmtView::Block { stmts };
    let less = task_next(rest, TaskView::Stmt(stmt), context);
    let opened = begin_scope(rest);
    let task = TaskView::Block { stmts, next: 0 };
    let after = push_task(opened, task);
    lemma_scopes_keep_frames(rest);
    lemma_chain_same(rest.environments, after.environments, rest.environment);
    lemma_chain_base(rest.environments, rest.environment);
    let inner = top_context(after);
    assert(inner.names =~= context.names.push(Set::empty())) by {
        assert(after.environments[rest.environments.len() as int].variables.dom() =~= Set::<
            Seq<char>,
        >::empty());
    }
    assert(grown(rest, after));
    assert(after.tasks.take(rest.tasks.len() as int) =~= rest.tasks);
    assert(stmts_formed_from(stmts, 0)) by {
        assert forall|i: int| 0 <= i < stmts.len() implies stmt_formed(#[trigger] stmts[i]) by {
            crate::resolver::scoping::lemma_each_formed(stmts, i);
        }
    }
    assert(task_ok(after, task, inner, rest.tasks));
    let next = task_next(after, task, inner);
    assert(next.names =~= context.names);
    lemma_remainder(rest, after, less, next);
    lemma_functions_ok_grown(rest, after);
    assert(functions_ok(after));
    assert(stack_ok(after, after.tasks.len(), inner));
    assert(frames_wf(after)) by {
        assert forall|i: int| 0 <= i < after.tasks.len() implies match #[trigger] after.tasks[i] {
            TaskView::Leave { environment } => environment < after.environments.len(),
            _ => true,
        } by {
            lemma_stack_leaves(after, after.tasks.len(), inner, i);
        }
    }
    assert(frames_values_ok(after.environments, after.functions.len()));
}

/// The declaration of a function keeps the state sound.
proof fn lemma_fun_decl_sound(
    rest: InterpreterView,
    name: crate::lexer::TokenView,
    params: Seq<crate::lexer::TokenView>,
    body: StmtView,
)
    requires
        ready(rest, TaskView::Stmt(StmtView::FunDecl { name, params, body: Box::new(body) })),
    ensures
        sound_step(eval_stmt(rest, StmtView::FunDecl { name, params, body: Box::new(body) })),
{
    let context = top_context(rest);
    let stmt = StmtView::FunDecl { name, params, body: Box::new(body) };
    let less = task_next(rest, TaskView::Stmt(stmt), context);
    let function = LoxFunctionView { name, params, body, environment: rest.environment };
    let known = InterpreterView { functions: rest.functions.push(function), ..rest };
    let value = ValueView::Callable(rest.functions.len());
    let text = name.kind.identifier()->Some_0;
    lemma_declare_keeps_frames(known, name, value);
    lemma_chain_declared(rest.environments, rest.environment, text, value);
    let after = declare(known, name, value)->Some_0;
    assert(grown(rest, after));
    assert(after.tasks.take(rest.tasks.len() as int) =~= rest.tasks);
    lemma_remainder(rest, after, less, top_context(after));
    lemma_functions_ok_grown(rest, after);
    assert(function_ok(after, function)) by {
        assert(body_names(after.environments, function) == with_tokens(
            with_token(context.names, name).push(Set::empty()),
            params,
            params.len(),
        ));
    }
    assert(functions_ok(after)) by {
        assert forall|i: int| 0 <= i < after.functions.len() implies function_ok(
            after,
            #[trigger] after.functions[i],
        ) by {
            if i == rest.functions.len() {
                assert(after.functions[i] == function);
            }
        }
    }
    assert(values_ok(after.values, after.functions.len()));
    assert(frames_values_ok(after.environments, after.functions.len()));
}

/// The start of a statement keeps the state sound.
proof fn lemma_eval_stmt_sound(rest: InterpreterView, stmt: StmtView)
    requires
        ready(rest, TaskView::Stmt(stmt)),
    ensures
        sound_step(eval_stmt(rest, stmt)),
{
    let context = top_context(rest);
    let less = task_next(rest, TaskView::Stmt(stmt), context);
    lemma_within_after_stmt(context.names, stmt);
    reveal_with_fuel(pushed_ok, 4);
    reveal_with_fuel(pushed_next, 4);
    match stmt {
        StmtView::ExprStmt { expr } => {
            let pushed = seq![TaskView::Discard, TaskView::Expr(expr)];
            assert(pushed.take(1) =~= seq![TaskView::Discard]);
            assert(pushed.take(0) =~= Seq::<TaskView>::empty());
            assert(rest.tasks + seq![TaskView::Discard] =~= rest.tasks.push(TaskView::Discard));
            assert(rest.tasks + Seq::<TaskView>::empty() =~= rest.tasks);
            lemma_pushed_sound(rest, pushed, less);
            assert(rest.tasks + pushed =~= rest.tasks.push(TaskView::Discard).push(
                TaskView::Expr(expr),
            ));
        },
        StmtView::PrintStmt { expr } => {
            let pushed = seq![TaskView::Print, TaskView::Expr(expr)];
            assert(pushed.take(1) =~= seq![TaskView::Print]);
            assert(pushed.take(0) =~= Seq::<TaskView>::empty());
            assert(rest.tasks + Seq::<TaskView>::empty() =~= rest.tasks);
            lemma_pushed_sound(rest, pushed, less);
            assert(rest.tasks + pushed =~= rest.tasks.push(TaskView::Print).push(
                TaskView::Expr(expr),
            ));
        },
        StmtView::VarDecl { variable, expr } => {
            match expr {
                Some(expr) => {
                    let pushed = seq![TaskView::Declare(variable), TaskView::Expr(expr)];
                    assert(pushed.take(1) =~= seq![TaskView::Declare(variable)]);
                    assert(pushed.take(0) =~= Seq::<TaskView>::empty());
                    assert(rest.tasks + Seq::<TaskView>::empty() =~= rest.tasks);
                    lemma_pushed_sound(rest, pushed, less);
                    assert(rest.tasks + pushed =~= rest.tasks.push(
                        TaskView::Declare(variable),
                    ).push(TaskView::Expr(expr)));
                },
                None => {
                    lemma_declare_sound(rest, variable, ValueView::Nil, less);
                },
            }
        },
        StmtView::Block { stmts } => {
            lemma_block_sound(rest, stmts);
        },
        StmtView::If { condition, then_stmt, else_stmt } => {
            let branch = TaskView::Branch {
                then_stmt: *then_stmt,
                else_stmt: match else_stmt {
                    Some(stmt) => Some(*stmt),
                    None => None,
                },
            };
            lemma_within_after_stmt(context.names, *then_stmt);
            let pushed = seq![branch, TaskView::Expr(condition)];
            assert(pushed.take(1) =~= seq![branch]);
            assert(pushed.take(0) =~= Seq::<TaskView>::empty());
            assert(rest.tasks + Seq::<TaskView>::empty() =~= rest.tasks);
            lemma_pushed_sound(rest, pushed, less);
            assert(rest.tasks + pushed =~= rest.tasks.push(branch).push(
                TaskView::Expr(condition),
            ));
        },
        StmtView::While { condition, body } => {
            let pushed = seq![TaskView::Loop { condition, body: *body }];
            assert(pushed.take(0) =~= Seq::<TaskView>::empty());
            assert(rest.tasks + Seq::<TaskView>::empty() =~= rest.tasks);
            lemma_pushed_sound(rest, pushed, less);
            assert(rest.tasks + pushed =~= rest.tasks.push(
                TaskView::Loop { condition, body: *body },
            ));
        },
        StmtView::FunDecl { name, params, body } => {
            lemma_fun_decl_sound(rest, name, params, *body);
        },
        StmtView::Return { expr } => {
            let pushed = seq![TaskView::Return, TaskView::Expr(expr)];
            assert(pushed.take(1) =~= seq![TaskView::Return]);
            assert(pushed.take(0) =~= Seq::<TaskView>::empty());
            assert(rest.tasks + Seq::<TaskView>::empty() =~= rest.tasks);
            lemma_pushed_sound(rest, pushed, less);
            assert(rest.tasks + pushed =~= rest.tasks.push(TaskView::Return).push(
                TaskView::Expr(expr),
            ));
        },
    }
}

/// A state that is ready for a task that leaves it as it is, is sound.
proof fn lemma_rest_sound(rest: InterpreterView, less: Context)
    requires
        frames_wf(rest),
        values_ok(rest.values, rest.functions.len()),
        frames_values_ok(rest.environments, rest.functions.len()),
        functions_ok(rest),
        rest.signal is Normal,
        rest.pending is None,
        stack_ok(rest, rest.tasks.len(), less),
        context_within(less, top_context(rest)),
    ensures
        sound(rest),
{
    lemma_grown_same(rest);
    assert(rest.tasks.take(rest.tasks.len() as int) =~= rest.tasks);
    lemma_remainder(rest, rest, less, top_context(rest));
}

/// To go on with the statements of the program or of a block, and to
/// leave a block at its end, keeps the state sound.
proof fn lemma_cursor_sound(rest: InterpreterView, task: TaskView)
    requires
        ready(rest, task),
        task is Program || task is Block,
    ensures
        sound_step(perform(rest, task)),
{
    let context = top_context(rest);
    let less = task_next(rest, task, context);
    lemma_within_same(context.names);
    match task {
        TaskView::Program { stmts, next } => {
            if next < stmts.len() {
                lemma_eval_next_sound(
                    rest,
                    TaskView::Program { stmts, next: next + 1 },
                    stmts,
                    next,
                );
            } else {
                lemma_rest_sound(rest, less);
            }
        },
        TaskView::Block { stmts, next } => {
            if next < stmts.len() {
                lemma_eval_next_sound(rest, TaskView::Block { stmts, next: next + 1 }, stmts, next);
            } else {
                let after = end_scope(rest)->Some_0;
                lemma_scopes_keep_frames(rest);
                lemma_chain_base(rest.environments, rest.environment);
                assert(context.names.drop_last() =~= chain_names(
                    after.environments,
                    after.environment,
                ));
                lemma_grown_same(rest);
                assert(grown(rest, after));
                assert(after.tasks.take(rest.tasks.len() as int) =~= rest.tasks);
                lemma_remainder(rest, after, less, top_context(after));
                lemma_functions_ok_grown(rest, after);
                assert(functions_ok(after));
            }
        },
        _ => {},
    }
}

/// The way back from a call that has come to its end keeps the state
/// sound.
proof fn lemma_leave_sound(rest: InterpreterView, environment: nat)
    requires
        ready(rest, TaskView::Leave { environment }),
    ensures
        sound_step(perform(rest, TaskView::Leave { environment })),
{
    let context = top_context(rest);
    let less = task_next(rest, TaskView::Leave { environment }, context);
    let back = InterpreterView { environment, ..rest };
    let after = push_value(back, ValueView::Nil);
    lemma_grown_same(rest);
    assert(grown(rest, after));
    assert(after.tasks.take(rest.tasks.len() as int) =~= rest.tasks);
    lemma_within_same(less.names);
    lemma_remainder(rest, after, less, top_context(after));
    lemma_functions_ok_grown(rest, after);
    assert(functions_ok(after));
    assert(values_ok(after.values, after.functions.len()));
}

/// The start of a round of a loop keeps the state sound.
proof fn lemma_loop_sound(rest: InterpreterView, condition: ExprView, body: StmtView)
    requires
        ready(rest, TaskView::Loop { condition, body }),
    ensures
        sound_step(perform(rest, TaskView::Loop { condition, body })),
{
    let context = top_context(rest);
    let less = task_next(rest, TaskView::Loop { condition, body }, context);
    lemma_within_same(context.names);
    reveal_with_fuel(pushed_ok, 4);
    reveal_with_fuel(pushed_next, 4);
    let pushed = seq![TaskView::Test { condition, body }, TaskView::Expr(condition)];
    assert(pushed.take(1) =~= seq![TaskView::Test { condition, body }]);
    assert(pushed.take(0) =~= Seq::<TaskView>::empty());
    assert(rest.tasks + Seq::<TaskView>::empty() =~= rest.tasks);
    lemma_pushed_sound(rest, pushed, less);
    assert(rest.tasks + pushed =~= rest.tasks.push(TaskView::Test { condition, body }).push(
        TaskView::Expr(condition),
    ));
}

/// The state without its topmost value is what it was, but for the
/// value.
proof fn lemma_drop_value(rest: InterpreterView)
    requires
        frames_wf(rest),
        values_ok(rest.values, rest.functions.len()),
        frames_values_ok(rest.environments, rest.functions.len()),
        functions_ok(rest),
        rest.values.len() > 0,
    ensures
        frames_wf(drop_value(rest)),
        values_ok(drop_value(rest).values, rest.functions.len()),
        functions_ok(drop_value(rest)),
        value_ok(rest.values.last(), rest.functions.len()),
        grown(rest, drop_value(rest)),
        top_context(drop_value(rest)).names == top_context(rest).names,
{
    let after = drop_value(rest);
    lemma_grown_same(rest);
    assert(grown(rest, after));
    lemma_functions_ok_grown(rest, after);
    assert(functions_ok(after));
}

/// The tasks of `rest` can be taken up where a value is off the stack
/// that they do not take.
proof fn lemma_dropped_stack(rest: InterpreterView, less: Context)
    requires
        stack_ok(rest, rest.tasks.len(), less),
        rest.values.len() > 0,
    ensures
        stack_ok(drop_value(rest), rest.tasks.len(), less),
{
    let after = drop_value(rest);
    lemma_grown_same(rest);
    assert(grown(rest, after));
    assert(after.tasks.take(rest.tasks.len() as int) =~= rest.tasks);
    lemma_within_same(less.names);
    lemma_remainder(rest, after, less, less);
}

/// What an operator has made of its operands keeps the state sound.
proof fn lemma_after_applied_sound(rest: InterpreterView, applied: AppliedView, less: Context)
    requires
        frames_wf(rest),
        values_ok(rest.values, rest.functions.len()),
        frames_values_ok(rest.environments, rest.functions.len()),
        functions_ok(rest),
        rest.signal is Normal,
        rest.pending is None,
        !(applied is Stuck),
        applied matches AppliedView::Value(value) ==> value_ok(value, rest.functions.len()),
        stack_ok(rest, rest.tasks.len(), less),
        less.frame == rest.environment,
        names_within(less.names, chain_names(rest.environments, rest.environment)),
        less.height <= rest.values.len() + 1,
    ensures
        sound_step(after_applied(rest, applied)),
{
    match applied {
        AppliedView::Value(value) => lemma_push_value_sound(rest, value, less),
        AppliedView::Arithmetic(operator, left, right) => lemma_pending_sound(
            rest,
            RequestView::Arithmetic { operator, left, right },
            less,
        ),
        AppliedView::Failed(error) => lemma_fail_sound(rest, error),
        AppliedView::Stuck => {},
    }
}

/// An operator of its kind makes a value of its operands, asks for one or
/// fails, and the value is no function.
proof fn lemma_applied_ok(op: crate::lexer::TokenView, left: ValueView, right: ValueView)
    ensures
        is_unary_operator(op.kind) ==> !(apply_unary(op, right) is Stuck),
        is_binary_operator(op.kind) ==> !(apply_binary(left, op, right) is Stuck),
        apply_unary(op, right) matches AppliedView::Value(value) ==> !(value is Callable),
        apply_binary(left, op, right) matches AppliedView::Value(value) ==> !(value is Callable),
{
}

/// A task that takes the topmost value keeps the state sound.
proof fn lemma_consume_sound(rest: InterpreterView, task: TaskView)
    requires
        ready(rest, task),
        task is Print || task is Discard || task is Declare || task is Return || task is Branch
            || task is Test || task is Unary || task is Binary || task is Logical || task is Truth
            || task is Assign,
    ensures
        sound_step(perform(rest, task)),
{
    let context = top_context(rest);
    let less = task_next(rest, task, context);
    let value = rest.values.last();
    let below = drop_value(rest);
    lemma_drop_value(rest);
    lemma_within_same(context.names);
    lemma_grown_same(rest);
    reveal_with_fuel(pushed_ok, 4);
    reveal_with_fuel(pushed_next, 4);
    match task {
        TaskView::Print => {
            lemma_dropped_stack(rest, less);
            lemma_rest_sound(below, less);
            if let ValueView::Callable(function) = value {
                assert(function_ok(rest, rest.functions[function as int]));
            }
        },
        TaskView::Discard => {
            lemma_dropped_stack(rest, less);
            lemma_rest_sound(below, less);
        },
        TaskView::Declare(variable) => {
            lemma_dropped_stack(rest, less);
            lemma_declare_sound(below, variable, value, less);
        },
        TaskView::Return => {
            lemma_dropped_stack(rest, less);
            lemma_rest_sound(below, less);
            let after = InterpreterView {
                signal: ControlSignalView::Return(value),
                ..below
            };
            assert(grown(below, after));
            assert(after.tasks.take(below.tasks.len() as int) =~= below.tasks);
            lemma_remainder(below, after, top_context(below), top_context(after));
            lemma_functions_ok_grown(below, after);
            assert(functions_ok(after));
        },
        TaskView::Branch { then_stmt, else_stmt } => {
            lemma_dropped_stack(rest, less);
            lemma_within_after_stmt(context.names, then_stmt);
            if value.is_truthy() {
                let pushed = seq![TaskView::Stmt(then_stmt)];
                assert(pushed.take(0) =~= Seq::<TaskView>::empty());
                assert(below.tasks + Seq::<TaskView>::empty() =~= below.tasks);
                lemma_pushed_sound(below, pushed, less);
                assert(below.tasks + pushed =~= below.tasks.push(TaskView::Stmt(then_stmt)));
            } else {
                match else_stmt {
                    Some(stmt) => {
                        lemma_within_after_stmt(context.names, stmt);
                        let pushed = seq![TaskView::Stmt(stmt)];
                        assert(pushed.take(0) =~= Seq::<TaskView>::empty());
                        assert(below.tasks + Seq::<TaskView>::empty() =~= below.tasks);
                        lemma_pushed_sound(below, pushed, less);
                        assert(below.tasks + pushed =~= below.tasks.push(TaskView::Stmt(stmt)));
                    },
                    None => {
                        lemma_rest_sound(below, less);
                    },
                }
            }
        },
        TaskView::Test { condition, body } => {
            lemma_dropped_stack(rest, less);
            lemma_within_after_stmt(context.names, body);
            if value.is_truthy() {
                let pushed = seq![TaskView::Loop { condition, body }, TaskView::Stmt(body)];
                assert(pushed.take(1) =~= seq![TaskView::Loop { condition, body }]);
                assert(pushed.take(0) =~= Seq::<TaskView>::empty());
                assert(below.tasks + Seq::<TaskView>::empty() =~= below.tasks);
                assert(below.tasks + seq![TaskView::Loop { condition, body }]
                    =~= below.tasks.push(TaskView::Loop { condition, body }));
                lemma_pushed_sound(below, pushed, less);
                assert(below.tasks + pushed =~= below.tasks.push(
                    TaskView::Loop { condition, body },
                ).push(TaskView::Stmt(body)));
            } else {
                lemma_rest_sound(below, less);
            }
        },
        TaskView::Unary(op) => {
            lemma_dropped_stack(rest, less);
            lemma_applied_ok(op, value, value);
            lemma_after_applied_sound(below, apply_unary(op, value), less);
        },
        TaskView::Binary(op) => {
            let lower = drop_value(below);
            lemma_drop_value(below);
            lemma_dropped_stack(rest, less);
            lemma_dropped_stack(below, less);
            lemma_applied_ok(op, below.values.last(), value);
            lemma_after_applied_sound(lower, apply_binary(below.values.last(), op, value), less);
        },
        TaskView::Logical { op, right } => {
            lemma_dropped_stack(rest, less);
            let pushed = seq![TaskView::Truth, TaskView::Expr(right)];
            assert(pushed.take(1) =~= seq![TaskView::Truth]);
            assert(pushed.take(0) =~= Seq::<TaskView>::empty());
            assert(below.tasks + pushed =~= below.tasks.push(TaskView::Truth).push(
                TaskView::Expr(right),
            ));
            if op.kind is Or {
                if value.is_truthy() {
                    lemma_push_value_sound(below, ValueView::Bool(true), less);
                } else {
                    lemma_pushed_sound(below, pushed, less);
                }
            } else {
                if value.is_falsy() {
                    lemma_push_value_sound(below, ValueView::Bool(false), less);
                } else {
                    lemma_pushed_sound(below, pushed, less);
                }
            }
        },
        TaskView::Truth => {
            lemma_dropped_stack(rest, less);
            lemma_push_value_sound(below, ValueView::Bool(value.is_truthy()), less);
        },
        TaskView::Assign { id, variable } => {
            lemma_use_found(rest, id, variable, context.names, value);
            lemma_assign_keeps_frames(rest, id, variable, value);
            let after = assign(rest, id, variable, value)->Some_0;
            super::environment::lemma_ancestor_is_frame(
                rest.environments,
                rest.environment,
                rest.bindings[id],
            );
            assert(grown(rest, after));
            assert(after.tasks.take(rest.tasks.len() as int) =~= rest.tasks);
            lemma_chain_grown(rest.environments, after.environments, rest.environment);
            lemma_remainder(rest, after, less, top_context(after));
            lemma_functions_ok_grown(rest, after);
            assert(functions_ok(after));
            assert(frames_values_ok(after.environments, after.functions.len()));
        },
        _ => {},
    }
}

/// Each of a run of expressions that are scoped is scoped.
pub proof fn lemma_each_expr_scoped(
    exprs: Seq<ExprView>,
    bindings: Map<nat, nat>,
    names: Names,
    place: int,
)
    requires
        exprs_scoped(exprs, bindings, names),
        0 <= place < exprs.len(),
    ensures
        expr_scoped(exprs[place], bindings, names),
    decreases exprs.len(),
{
    if place < exprs.len() - 1 {
        lemma_each_expr_scoped(exprs.drop_last(), bindings, names, place);
    }
}

/// The tasks that evaluate the first `left` of the arguments `args` can
/// be taken up above `tasks`, with `left` values fewer on the stack than
/// `tasks` take.
proof fn lemma_schedule_sound(
    base: InterpreterView,
    tasks: Seq<TaskView>,
    args: Seq<ExprView>,
    left: nat,
    context: Context,
)
    requires
        left <= args.len(),
        left <= context.height,
        exprs_formed(args),
        exprs_scoped(args, base.bindings, context.names),
        stack_ok(InterpreterView { tasks, ..base }, tasks.len(), context),
    ensures
        stack_ok(
            InterpreterView { tasks: schedule(tasks, args, left), ..base },
            schedule(tasks, args, left).len(),
            Context { height: (context.height - left) as nat, ..context },
        ),
        schedule(tasks, args, left).len() == tasks.len() + left,
        schedule(tasks, args, left).take(tasks.len() as int) == tasks,
    decreases left,
{
    if left == 0 {
        assert(tasks.take(tasks.len() as int) =~= tasks);
    } else {
        let arg = args[left - 1];
        let task = TaskView::Expr(arg);
        let more = tasks.push(task);
        let before = InterpreterView { tasks, ..base };
        let after = InterpreterView { tasks: more, ..base };
        let above = Context { height: (context.height - 1) as nat, ..context };
        crate::resolver::scoping::lemma_each_expr_formed(args, left - 1);
        lemma_each_expr_scoped(args, base.bindings, context.names, left - 1);
        lemma_grown_same(before);
        assert(grown(before, after));
        assert(more.take(tasks.len() as int) =~= tasks);
        lemma_within_same(context.names);
        lemma_remainder(before, after, context, task_next(after, task, above));
        assert(task_ok(after, task, above, tasks));
        assert(stack_ok(after, more.len(), above));
        lemma_schedule_sound(base, more, args, (left - 1) as nat, above);
        assert(schedule(tasks, args, left).take(tasks.len() as int) =~= schedule(
            more,
            args,
            (left - 1) as nat,
        ).take(more.len() as int).take(tasks.len() as int));
    }
}

/// A call keeps the state sound.
proof fn lemma_fun_call_sound(
    rest: InterpreterView,
    paren: crate::lexer::TokenView,
    args: Seq<ExprView>,
)
    requires
        ready(rest, TaskView::Call { paren, args }),
    ensures
        sound_step(perform(rest, TaskView::Call { paren, args })),
{
    let context = top_context(rest);
    let task = TaskView::Call { paren, args };
    let less = task_next(rest, task, context);
    let value = rest.values.last();
    let below = drop_value(rest);
    lemma_drop_value(rest);
    lemma_dropped_stack(rest, less);
    lemma_within_same(context.names);
    match value {
        ValueView::Callable(function) => {
            if below.functions[function as int].params.len() != args.len() {
                lemma_fail_sound(
                    below,
                    crate::interpreter::RuntimeErrorView::CallableBadArgsCount(paren),
                );
            } else {
                let invoke = TaskView::Invoke { function };
                let started = below.tasks.push(invoke);
                let middle = InterpreterView { tasks: started, ..below };
                let wide = Context {
                    height: (context.height - 1 + args.len()) as nat,
                    ..context
                };
                lemma_grown_same(below);
                assert(grown(below, middle));
                assert(started.take(below.tasks.len() as int) =~= below.tasks);
                lemma_remainder(below, middle, less, task_next(middle, invoke, wide));
                assert(task_ok(middle, invoke, wide, below.tasks));
                assert(stack_ok(middle, started.len(), wide));
                lemma_schedule_sound(below, started, args, args.len(), wide);
                let after = InterpreterView {
                    tasks: schedule(started, args, args.len()),
                    ..below
                };
                assert(top_context(after) == (Context {
                    height: (wide.height - args.len()) as nat,
                    ..wide
                }));
                assert(grown(below, after));
                lemma_functions_ok_grown(below, after);
                assert(functions_ok(after));
                assert(frames_wf(after)) by {
                    assert forall|i: int| 0 <= i < after.tasks.len() implies match #[trigger] after.tasks[i] {
                        TaskView::Leave { environment } => environment < after.environments.len(),
                        _ => true,
                    } by {
                        lemma_stack_leaves(after, after.tasks.len(), top_context(after), i);
                    }
                }
            }
        },
        _ => {
            lemma_fail_sound(below, crate::interpreter::RuntimeErrorView::ExpectedCallable(paren));
        },
    }
}

/// The parameters of a function that are identifiers take their
/// arguments: each is declared, and what is declared holds an argument
/// or what it held.
proof fn lemma_declare_params(
    params: Seq<crate::lexer::TokenView>,
    args: Seq<ValueView>,
    from: nat,
    held: Map<Seq<char>, ValueView>,
    functions: nat,
)
    requires
        are_identifiers(params),
        args.len() == params.len(),
        from <= params.len(),
        values_ok(args, functions),
        forall|name: Seq<char>| held.contains_key(name) ==> value_ok(#[trigger] held[name], functions),
    ensures
        declare_params(params, args, from, held) matches Some(variables) && {
            &&& held.dom().subset_of(variables.dom())
            &&& forall|i: int|
                from <= i < params.len() ==> variables.contains_key(
                    #[trigger] params[i].kind.identifier()->Some_0,
                )
            &&& forall|name: Seq<char>|
                variables.contains_key(name) ==> value_ok(#[trigger] variables[name], functions)
        },
    decreases params.len() - from,
{
    if from < params.len() {
        let name = params[from as int].kind.identifier()->Some_0;
        lemma_declare_params(
            params,
            args,
            from + 1,
            held.insert(name, args[from as int]),
            functions,
        );
    }
}

/// The names that the first `count` of `tokens` declare in the innermost
/// scope are among `names`, if those that were declared there are and
/// those of the tokens.
proof fn lemma_with_tokens_last(
    outer: Names,
    tokens: Seq<crate::lexer::TokenView>,
    count: nat,
    names: Set<Seq<char>>,
)
    requires
        count <= tokens.len(),
        are_identifiers(tokens),
        forall|i: int|
            0 <= i < tokens.len() ==> names.contains(
                #[trigger] tokens[i].kind.identifier()->Some_0,
            ),
    ensures
        names_within(with_tokens(outer.push(Set::empty()), tokens, count), outer.push(names)),
    decreases count,
{
    if count > 0 {
        lemma_with_tokens_last(outer, tokens, (count - 1) as nat, names);
        let before = with_tokens(outer.push(Set::empty()), tokens, (count - 1) as nat);
        crate::resolver::scoping::lemma_with_tokens_inner(
            outer.push(Set::empty()),
            tokens,
            (count - 1) as nat,
        );
        assert(names.contains(tokens[count - 1].kind.identifier()->Some_0));
    }
}

/// The entry into a function keeps the state sound.
proof fn lemma_call_sound(rest: InterpreterView, function: nat)
    requires
        ready(rest, TaskView::Invoke { function }),
    ensures
        sound_step(perform(rest, TaskView::Invoke { function })),
{
    let context = top_context(rest);
    let task = TaskView::Invoke { function };
    let less = task_next(rest, task, context);
    let callee = rest.functions[function as int];
    let count = callee.params.len();
    let base = rest.values.len() - count;
    let args = rest.values.subrange(base, rest.values.len() as int);
    assert(function_ok(rest, callee));
    assert(values_ok(args, rest.functions.len()));
    lemma_declare_params(callee.params, args, 0, Map::empty(), rest.functions.len());
    let variables = declare_params(callee.params, args, 0, Map::empty())->Some_0;
    let after = call(rest, function).state;
    lemma_call_keeps_frames(rest, function);
    let outer = chain_names(rest.environments, callee.environment);
    lemma_chain_same(rest.environments, after.environments, callee.environment);
    lemma_chain_same(rest.environments, after.environments, rest.environment);
    let inner = top_context(after);
    assert(inner.names =~= outer.push(variables.dom()));
    lemma_with_tokens_last(outer, callee.params, count, variables.dom());
    crate::resolver::scoping::lemma_stmt_scoped_within(
        callee.body,
        rest.bindings,
        body_names(rest.environments, callee),
        inner.names,
    );
    let body = TaskView::Stmt(callee.body);
    let back = TaskView::Leave { environment: rest.environment };
    assert(grown(rest, after));
    assert(after.tasks.take(rest.tasks.len() as int) =~= rest.tasks);
    assert(after.tasks.take(rest.tasks.len() as int + 1) =~= rest.tasks.push(back));
    lemma_within_after_stmt(inner.names, callee.body);
    let middle = task_next(after, body, inner);
    let next = task_next(after, back, middle);
    assert(next.names == context.names);
    lemma_within_same(context.names);
    lemma_remainder(rest, after, less, next);
    assert(task_ok(after, back, middle, rest.tasks));
    assert(stack_ok(after, (rest.tasks.len() + 1) as nat, middle));
    assert(task_ok(after, body, inner, rest.tasks.push(back)));
    assert(stack_ok(after, after.tasks.len(), inner));
    lemma_functions_ok_grown(rest, after);
    assert(functions_ok(after));
    assert(values_ok(after.values, after.functions.len()));
    assert(frames_values_ok(after.environments, after.functions.len()));
}

/// What a task asks for keeps a state sound that is ready for the task,
/// and does not get the machine stuck.
proof fn lemma_perform_sound(rest: InterpreterView, task: TaskView)
    requires
        ready(rest, task),
    ensures
        sound_step(perform(rest, task)),
{
    match task {
        TaskView::Program { stmts, next } => lemma_cursor_sound(rest, task),
        TaskView::Stmt(stmt) => lemma_eval_stmt_sound(rest, stmt),
        TaskView::Expr(expr) => lemma_eval_expr_sound(rest, expr),
        TaskView::Block { stmts, next } => lemma_cursor_sound(rest, task),
        TaskView::Leave { environment } => lemma_leave_sound(rest, environment),
        TaskView::Loop { condition, body } => lemma_loop_sound(rest, condition, body),
        TaskView::Invoke { function } => lemma_call_sound(rest, function),
        TaskView::Call { paren, args } => lemma_fun_call_sound(rest, paren, args),
        _ => lemma_consume_sound(rest, task),
    }
}

/// A sound state without its topmost task is ready for the task.
proof fn lemma_ready(state: InterpreterView)
    requires
        sound(state),
        state.tasks.len() > 0,
        state.signal is Normal,
        state.pending is None,
    ensures
        ready(drop_task(state), state.tasks.last()),
{
    let rest = drop_task(state);
    let task = state.tasks.last();
    let context = top_context(state);
    lemma_grown_same(state);
    assert(grown(state, rest));
    assert(rest.tasks =~= state.tasks.take(state.tasks.len() - 1));
    assert(rest.tasks.take(rest.tasks.len() as int) =~= rest.tasks);
    lemma_within_same(context.names);
    lemma_within_same(task_next(state, task, context).names);
    lemma_stack_ok_grown(
        state,
        rest,
        rest.tasks.len(),
        task_next(state, task, context),
        task_next(rest, task, context),
    );
    lemma_functions_ok_grown(state, rest);
    assert(functions_ok(rest));
    assert(frames_wf(rest));
}

/// A step on the way of a `return` keeps the state sound.
proof fn lemma_unwind_sound(state: InterpreterView, value: ValueView)
    requires
        sound(state),
        state.tasks.len() > 0,
        state.signal == ControlSignalView::Return(value),
    ensures
        sound_step(unwind(state, value)),
{
    let rest = drop_task(state);
    let task = state.tasks.last();
    let context = top_context(state);
    let less = task_next(state, task, context);
    lemma_grown_same(state);
    assert(grown(state, rest));
    assert(rest.tasks =~= state.tasks.take(state.tasks.len() - 1));
    assert(rest.tasks.take(rest.tasks.len() as int) =~= rest.tasks);
    lemma_within_same(context.names);
    lemma_within_same(less.names);
    lemma_stack_ok_grown(state, rest, rest.tasks.len(), less, less);
    lemma_functions_ok_grown(state, rest);
    assert(functions_ok(rest));
    assert(frames_wf(rest));
    match task {
        TaskView::Block { stmts, next } => {
            let after = end_scope(rest)->Some_0;
            lemma_scopes_keep_frames(rest);
            lemma_chain_base(rest.environments, rest.environment);
            assert(context.names.drop_last() =~= chain_names(
                after.environments,
                after.environment,
            ));
            assert(grown(rest, after));
            assert(after.tasks.take(rest.tasks.len() as int) =~= rest.tasks);
            lemma_remainder(rest, after, less, top_context(after));
            lemma_functions_ok_grown(rest, after);
            assert(functions_ok(after));
        },
        TaskView::Loop { condition, body } => {
            let after = InterpreterView { signal: ControlSignalView::Normal, ..state };
            assert(grown(state, after));
            assert(after.tasks.take(state.tasks.len() as int) =~= state.tasks);
            assert(state.tasks.take(state.tasks.len() as int) =~= state.tasks);
            lemma_stack_ok_grown(state, after, state.tasks.len(), context, top_context(after));
            lemma_functions_ok_grown(state, after);
            assert(functions_ok(after));
        },
        TaskView::Program { stmts, next } => {
            let after = InterpreterView { signal: ControlSignalView::Normal, ..state };
            assert(grown(state, after));
            assert(after.tasks.take(state.tasks.len() as int) =~= state.tasks);
            assert(state.tasks.take(state.tasks.len() as int) =~= state.tasks);
            lemma_stack_ok_grown(state, after, state.tasks.len(), context, top_context(after));
            lemma_functions_ok_grown(state, after);
            assert(functions_ok(after));
        },
        TaskView::Leave { environment } => {
            let back = InterpreterView {
                environment,
                signal: ControlSignalView::Normal,
                ..rest
            };
            let after = push_value(back, value);
            assert(grown(rest, after));
            assert(after.tasks.take(rest.tasks.len() as int) =~= rest.tasks);
            lemma_remainder(rest, after, less, top_context(after));
            lemma_functions_ok_grown(rest, after);
            assert(functions_ok(after));
            assert(values_ok(after.values, after.functions.len()));
        },
        _ => {},
    }
}

/// A step keeps a sound state sound and does not get the machine stuck.
pub proof fn lemma_step_sound(state: InterpreterView, event: Event)
    requires
        sound(state),
    ensures
        sound(step(state, event).state),
        !(step(state, event).action is Stuck),
{
    reveal(step);
    match state.pending {
        Some(request) => {
            match event {
                Event::Number(bits) => {
                    let waiting = InterpreterView { pending: None, ..state };
                    let after = push_value(waiting, ValueView::Number(bits));
                    lemma_grown_same(state);
                    assert(grown(state, after));
                    assert(after.tasks.take(state.tasks.len() as int) =~= state.tasks);
                    assert(state.tasks.take(state.tasks.len() as int) =~= state.tasks);
                    lemma_within_same(top_context(state).names);
                    lemma_stack_ok_grown(
                        state,
                        after,
                        state.tasks.len(),
                        top_context(state),
                        top_context(after),
                    );
                    lemma_functions_ok_grown(state, after);
                    assert(functions_ok(after));
                    assert(values_ok(after.values, after.functions.len()));
                },
                Event::Resume => {},
            }
        },
        None => {
            if state.tasks.len() > 0 {
                match state.signal {
                    ControlSignalView::Return(value) => lemma_unwind_sound(state, value),
                    ControlSignalView::Normal => {
                        lemma_ready(state);
                        lemma_perform_sound(drop_task(state), state.tasks.last());
                    },
                }
            }
        },
    }
}

/// A machine that starts on a program which is formed as the parser forms
/// programs, and in which the uses of variables are bound as the resolver
/// binds them, is in a sound state.
pub proof fn lemma_program_sound(bindings: Map<nat, nat>, stmts: Seq<StmtView>)
    requires
        stmts_formed(stmts),
        stmts_scoped(stmts, 0, bindings, seq![Set::empty(), Set::empty()]),
    ensures
        sound(
            push_task(super::initial(bindings), TaskView::Program { stmts, next: 0 }),
        ),
{
    let start = super::initial(bindings);
    let task = TaskView::Program { stmts, next: 0 };
    let state = push_task(start, task);
    let context = top_context(state);
    assert(context.names =~= seq![Set::empty(), Set::empty()]) by {
        assert(state.environments[0].variables.dom() =~= Set::<Seq<char>>::empty());
    }
    assert(stmts_formed_from(stmts, 0)) by {
        assert forall|i: int| 0 <= i < stmts.len() implies stmt_formed(#[trigger] stmts[i]) by {
            crate::resolver::scoping::lemma_each_formed(stmts, i);
        }
    }
    assert(state.tasks.len() == 1);
    assert(state.tasks[0] == task);
    assert(state.tasks.take(0) =~= Seq::<TaskView>::empty());
    assert(stmt_position(state.tasks.take(0)));
    assert(stmts_scoped(stmts, 0, state.bindings, context.names));
    assert(task_ok(state, task, context, state.tasks.take(0)));
    assert(stack_ok(state, 0, task_next(state, task, context)));
    assert(stack_ok(state, 1, context));
}

/// A run from a sound state never gets the machine stuck, whatever
/// numbers it is handed, and leads to a sound state.
pub proof fn lemma_drive_sound(
    state: InterpreterView,
    answer: spec_fn(RequestView) -> u64,
    count: nat,
)
    requires
        sound(state),
    ensures
        sound(drive(state, answer, count).state),
        !(drive(state, answer, count).last is Stuck),
    decreases count,
{
    if count > 0 {
        lemma_drive_sound(state, answer, (count - 1) as nat);
        let before = drive(state, answer, (count - 1) as nat);
        lemma_step_sound(before.state, answered(before.state, answer));
    }
}

} // verus!
