//! The evaluator as a machine: a state, and the step that leads from one
//! state to the next.
//!
//! The state holds the work that is left as a stack of tasks, the values
//! that tasks hand one another as a second stack, and the frames of the
//! environment. A step takes the topmost task and does what it asks for,
//! which may put further tasks on the stack. What the library does not
//! do itself, it asks of whoever runs the machine: to write a line, and
//! to compute with numbers.
use super::callable::LoxFunctionView;
use super::environment::{
    assigned_at_depth, held_at_depth, lemma_ancestor_is_frame, EnvironmentView,
};
use super::errors::RuntimeErrorView;
use crate::lexer::{TokenKindView, TokenView};
use crate::parser::{ControlSignalView, ExprView, LiteralView, StmtView, ValueView};
use crate::parser::value::{number_equal, number_less, number_negate, text_less};
use vstd::prelude::*;

verus! {

/// An operation on two numbers that the machine asks for.
#[derive(Debug, Clone, Copy, PartialEq, Eq)]
pub enum Arithmetic {
    Add,
    Subtract,
    Multiply,
    Divide,
}

/// A number that the machine asks for.
pub enum RequestView {
    /// The number that these digits, with at most one dot among them,
    /// stand for.
    Literal(Seq<char>),
    /// The result of an operation on two numbers.
    Arithmetic { operator: Arithmetic, left: u64, right: u64 },
}

/// What a `print` writes.
pub enum PrintedView {
    /// These characters.
    Text(Seq<char>),
    /// This number, written as shortly as it can be read back.
    Number(u64),
}

/// What the machine asks of whoever runs it, after a step.
pub enum ActionView {
    /// Nothing: take the next step.
    Continue,
    /// To write a line.
    Print(PrintedView),
    /// To hand in the number asked for with the next step.
    Number(RequestView),
    /// Nothing: the program has ended.
    Finished,
    /// Nothing: the program has failed.
    Failed(RuntimeErrorView),
    /// Nothing: the machine cannot go on. A variable is not where the
    /// resolver is to have found it, a value that a task needs is missing,
    /// or the tree is one that the parser does not build. A program that
    /// the parser has built and the resolver has resolved does not lead
    /// here.
    Stuck,
}

/// What is handed to the machine with a step.
#[derive(Debug, Clone, Copy, PartialEq, Eq)]
pub enum Event {
    /// Nothing.
    Resume,
    /// The number that the step before asked for.
    Number(u64),
}

/// A piece of work that is left.
pub enum TaskView {
    /// The statements of the program from `next` on.
    Program { stmts: Seq<StmtView>, next: nat },
    /// A statement.
    Stmt(StmtView),
    /// An expression, whose value goes on the stack of values.
    Expr(ExprView),
    /// The statements of a block from `next` on, and the end of its
    /// scope.
    Block { stmts: Seq<StmtView>, next: nat },
    /// To write the topmost value.
    Print,
    /// To drop the topmost value.
    Discard,
    /// To declare a variable with the topmost value.
    Declare(TokenView),
    /// To return the topmost value from the call that is running.
    Return,
    /// To run one of two statements, as the topmost value tells.
    Branch { then_stmt: StmtView, else_stmt: Option<StmtView> },
    /// To evaluate the condition of a loop, and then to test it.
    Loop { condition: ExprView, body: StmtView },
    /// To run the body of a loop and the loop again, if the topmost
    /// value tells so.
    Test { condition: ExprView, body: StmtView },
    /// To apply an operator to the topmost value.
    Unary(TokenView),
    /// To apply an operator to the two topmost values.
    Binary(TokenView),
    /// To decide, by the topmost value, whether the right operand of
    /// `and` or `or` is evaluated.
    Logical { op: TokenView, right: ExprView },
    /// To replace the topmost value by whether it counts as true.
    Truth,
    /// To assign the topmost value to a variable.
    Assign { id: nat, variable: TokenView },
    /// To call the topmost value with the arguments that are still to be
    /// evaluated.
    Call { paren: TokenView, args: Seq<ExprView> },
    /// To enter a function with the topmost values as its arguments.
    Invoke { function: nat },
    /// To leave a function that has come to its end, back to the frame
    /// from which it was called.
    Leave { environment: nat },
}

/// The state of the machine.
pub struct InterpreterView {
    /// The work that is left; the last task is the next.
    pub tasks: Seq<TaskView>,
    /// The values that tasks hand one another; the last is the topmost.
    pub values: Seq<ValueView>,
    /// All frames of the environment.
    pub environments: Seq<EnvironmentView>,
    /// The place of the frame of the scope that is running.
    pub environment: nat,
    /// All functions that were declared.
    pub functions: Seq<LoxFunctionView>,
    /// The value of a `return` that is on its way.
    pub signal: ControlSignalView,
    /// The number that the machine waits for.
    pub pending: Option<RequestView>,
    /// The depths that the resolver found, by the ids of the uses of
    /// variables.
    pub bindings: Map<nat, nat>,
}

/// The state after a step, and what the step asks for.
pub struct Stepped {
    pub state: InterpreterView,
    pub action: ActionView,
}

pub open spec fn push_task(state: InterpreterView, task: TaskView) -> InterpreterView {
    InterpreterView { tasks: state.tasks.push(task), ..state }
}

pub open spec fn drop_task(state: InterpreterView) -> InterpreterView {
    InterpreterView { tasks: state.tasks.drop_last(), ..state }
}

pub open spec fn push_value(state: InterpreterView, value: ValueView) -> InterpreterView {
    InterpreterView { values: state.values.push(value), ..state }
}

pub open spec fn drop_value(state: InterpreterView) -> InterpreterView {
    InterpreterView { values: state.values.drop_last(), ..state }
}

/// The state with no work left.
pub open spec fn halt(state: InterpreterView) -> InterpreterView {
    InterpreterView { tasks: Seq::empty(), ..state }
}

pub open spec fn go_on(state: InterpreterView) -> Stepped {
    Stepped { state, action: ActionView::Continue }
}

pub open spec fn stuck(state: InterpreterView) -> Stepped {
    Stepped { state: halt(state), action: ActionView::Stuck }
}

/// The frame that is running where `task` is given up on the way of an
/// error, when the frame at `environment` was running before: the end of
/// a block goes back to the frame around the block, and the way back from
/// a call to the frame from which the call was made.
pub open spec fn given_up(
    frames: Seq<EnvironmentView>,
    task: TaskView,
    environment: nat,
) -> nat {
    match task {
        TaskView::Block { stmts, next } => {
            if environment < frames.len() {
                match frames[environment as int].enclosing {
                    Some(around) => around,
                    None => environment,
                }
            } else {
                environment
            }
        },
        TaskView::Leave { environment: back } => back,
        _ => environment,
    }
}

/// The frame that is running where the first `count` of `tasks` are given
/// up, the topmost first.
pub open spec fn unwound(
    frames: Seq<EnvironmentView>,
    tasks: Seq<TaskView>,
    count: nat,
    environment: nat,
) -> nat
    decreases count,
{
    if count == 0 || count > tasks.len() {
        environment
    } else {
        unwound(
            frames,
            tasks,
            (count - 1) as nat,
            given_up(frames, tasks[count - 1], environment),
        )
    }
}

/// The end of a program in an error: all work is given up, and with it
/// every block and every call that was under way, so that the frame is
/// running again in which the work started.
pub open spec fn fail(state: InterpreterView, error: RuntimeErrorView) -> Stepped {
    Stepped {
        state: InterpreterView {
            tasks: Seq::empty(),
            environment: unwound(
                state.environments,
                state.tasks,
                state.tasks.len(),
                state.environment,
            ),
            ..state
        },
        action: ActionView::Failed(error),
    }
}

/// The step of a state in which the value that a task needs may be
/// missing.
pub open spec fn or_stuck(state: InterpreterView, next: Option<InterpreterView>) -> Stepped {
    match next {
        Some(next) => go_on(next),
        None => stuck(state),
    }
}

/// Opens a scope: a new frame inside the one that is running.
pub open spec fn begin_scope(state: InterpreterView) -> InterpreterView {
    InterpreterView {
        environments: state.environments.push(
            EnvironmentView { variables: Map::empty(), enclosing: Some(state.environment) },
        ),
        environment: state.environments.len(),
        ..state
    }
}

/// Closes a scope: goes back to the frame around the one that is
/// running, if there is one.
pub open spec fn end_scope(state: InterpreterView) -> Option<InterpreterView> {
    if state.environment < state.environments.len() {
        match state.environments[state.environment as int].enclosing {
            Some(around) => Some(InterpreterView { environment: around, ..state }),
            None => None,
        }
    } else {
        None
    }
}

/// Declares the variable `name` with `value` in the frame that is
/// running.
pub open spec fn declare_named(state: InterpreterView, name: Seq<char>, value: ValueView) -> Option<
    InterpreterView,
> {
    if state.environment < state.environments.len() {
        let frame = state.environments[state.environment as int];
        Some(
            InterpreterView {
                environments: state.environments.update(
                    state.environment as int,
                    EnvironmentView { variables: frame.variables.insert(name, value), ..frame },
                ),
                ..state
            },
        )
    } else {
        None
    }
}

/// Declares the variable of `token` with `value` in the frame that is
/// running.
pub open spec fn declare(state: InterpreterView, token: TokenView, value: ValueView) -> Option<
    InterpreterView,
> {
    match token.kind.identifier() {
        Some(name) => declare_named(state, name, value),
        None => None,
    }
}

/// What the variable `name` holds at its use `id`: it is looked for in
/// the frame that lies as many scopes around the one that is running as
/// the resolver found.
pub open spec fn get_named(state: InterpreterView, id: nat, name: Seq<char>) -> Option<ValueView> {
    if state.bindings.contains_key(id) {
        held_at_depth(state.environments, state.environment, state.bindings[id], name)
    } else {
        None
    }
}

/// What the variable of `token` holds at its use `id`.
pub open spec fn get(state: InterpreterView, id: nat, token: TokenView) -> Option<ValueView> {
    match token.kind.identifier() {
        Some(name) => get_named(state, id, name),
        None => None,
    }
}

/// Assigns `value` to the variable `name` at its use `id`.
pub open spec fn assign_named(
    state: InterpreterView,
    id: nat,
    name: Seq<char>,
    value: ValueView,
) -> Option<InterpreterView> {
    if state.bindings.contains_key(id) {
        match assigned_at_depth(
            state.environments,
            state.environment,
            state.bindings[id],
            name,
            value,
        ) {
            Some(environments) => Some(InterpreterView { environments, ..state }),
            None => None,
        }
    } else {
        None
    }
}

/// Assigns `value` to the variable of `token` at its use `id`.
pub open spec fn assign(
    state: InterpreterView,
    id: nat,
    token: TokenView,
    value: ValueView,
) -> Option<InterpreterView> {
    match token.kind.identifier() {
        Some(name) => assign_named(state, id, name, value),
        None => None,
    }
}

/// What a `print` of `value` writes.
pub open spec fn printed(state: InterpreterView, value: ValueView) -> Option<PrintedView> {
    match value {
        ValueView::Number(bits) => Some(PrintedView::Number(bits)),
        ValueView::Str(text) => Some(PrintedView::Text(text)),
        ValueView::Bool(b) => Some(
            PrintedView::Text(
                if b {
                    "true"@
                } else {
                    "false"@
                },
            ),
        ),
        ValueView::Nil => Some(PrintedView::Text("nil"@)),
        ValueView::Callable(function) => {
            if function < state.functions.len() {
                match state.functions[function as int].name.kind.identifier() {
                    Some(name) => Some(PrintedView::Text("<callable "@ + name + ">"@)),
                    None => None,
                }
            } else {
                None
            }
        },
    }
}

/// What an operator makes of its operands.
pub enum AppliedView {
    /// A value.
    Value(ValueView),
    /// Nothing yet: the result of an operation on two numbers.
    Arithmetic(Arithmetic, u64, u64),
    /// An error.
    Failed(RuntimeErrorView),
    /// Nothing: the token is no operator of this kind.
    Stuck,
}

/// What the unary operator `op` makes of `value`.
pub open spec fn apply_unary(op: TokenView, value: ValueView) -> AppliedView {
    match op.kind {
        TokenKindView::Minus => match value {
            ValueView::Number(bits) => AppliedView::Value(ValueView::Number(number_negate(bits))),
            _ => AppliedView::Failed(RuntimeErrorView::ExpectedNumber(op)),
        },
        TokenKindView::Bang => AppliedView::Value(ValueView::Bool(value.is_falsy())),
        _ => AppliedView::Stuck,
    }
}

/// What an arithmetic operator makes of its operands: of two numbers, a
/// request for the result.
pub open spec fn apply_arithmetic(
    operator: Arithmetic,
    left: ValueView,
    op: TokenView,
    right: ValueView,
) -> AppliedView {
    match (left, right) {
        (ValueView::Number(a), ValueView::Number(b)) => AppliedView::Arithmetic(operator, a, b),
        _ => AppliedView::Failed(RuntimeErrorView::UndefinedOpBetween(left, op, right)),
    }
}

/// What a comparison makes of its operands: of two numbers or two
/// strings, whether the first lies below the second (`less`) or is equal
/// to it (`equal`), with the two exchanged first if `swap` is set.
pub open spec fn apply_comparison(
    swap: bool,
    equal: bool,
    left: ValueView,
    op: TokenView,
    right: ValueView,
) -> AppliedView {
    match (left, right) {
        (ValueView::Number(a), ValueView::Number(b)) => {
            let (first, second) = if swap {
                (b, a)
            } else {
                (a, b)
            };
            AppliedView::Value(
                ValueView::Bool(
                    number_less(first, second) || (equal && number_equal(first, second)),
                ),
            )
        },
        (ValueView::Str(a), ValueView::Str(b)) => {
            let (first, second) = if swap {
                (b, a)
            } else {
                (a, b)
            };
            AppliedView::Value(ValueView::Bool(text_less(first, second) || (equal && a == b)))
        },
        _ => AppliedView::Failed(RuntimeErrorView::UndefinedOpBetween(left, op, right)),
    }
}

/// Whether two values are equal: two numbers, two strings, two booleans
/// or twice `nil` may be; other values are not.
pub open spec fn values_equal(left: ValueView, right: ValueView) -> bool {
    match (left, right) {
        (ValueView::Number(a), ValueView::Number(b)) => number_equal(a, b),
        (ValueView::Str(a), ValueView::Str(b)) => a == b,
        (ValueView::Bool(a), ValueView::Bool(b)) => a == b,
        (ValueView::Nil, ValueView::Nil) => true,
        _ => false,
    }
}

/// What the binary operator `op` makes of `left` and `right`.
pub open spec fn apply_binary(left: ValueView, op: TokenView, right: ValueView) -> AppliedView {
    match op.kind {
        TokenKindView::Star => apply_arithmetic(Arithmetic::Multiply, left, op, right),
        TokenKindView::Slash => apply_arithmetic(Arithmetic::Divide, left, op, right),
        TokenKindView::Minus => apply_arithmetic(Arithmetic::Subtract, left, op, right),
        TokenKindView::Plus => match (left, right) {
            (ValueView::Str(a), ValueView::Str(b)) => AppliedView::Value(ValueView::Str(a + b)),
            _ => apply_arithmetic(Arithmetic::Add, left, op, right),
        },
        TokenKindView::Greater => apply_comparison(true, false, left, op, right),
        TokenKindView::GreaterEqual => apply_comparison(true, true, left, op, right),
        TokenKindView::Less => apply_comparison(false, false, left, op, right),
        TokenKindView::LessEqual => apply_comparison(false, true, left, op, right),
        TokenKindView::EqualEqual => AppliedView::Value(
            ValueView::Bool(values_equal(left, right)),
        ),
        TokenKindView::BangEqual => AppliedView::Value(
            ValueView::Bool(!values_equal(left, right)),
        ),
        _ => AppliedView::Stuck,
    }
}

/// The step that `applied` leads to.
pub open spec fn after_applied(state: InterpreterView, applied: AppliedView) -> Stepped {
    match applied {
        AppliedView::Value(value) => go_on(push_value(state, value)),
        AppliedView::Arithmetic(operator, left, right) => {
            let request = RequestView::Arithmetic { operator, left, right };
            Stepped {
                state: InterpreterView { pending: Some(request), ..state },
                action: ActionView::Number(request),
            }
        },
        AppliedView::Failed(error) => fail(state, error),
        AppliedView::Stuck => stuck(state),
    }
}

/// The start of an expression.
pub open spec fn eval_expr(state: InterpreterView, expr: ExprView) -> Stepped {
    match expr {
        ExprView::Unary { op, right } => go_on(
            push_task(push_task(state, TaskView::Unary(op)), TaskView::Expr(*right)),
        ),
        ExprView::Binary { left, op, right } => go_on(
            push_task(
                push_task(push_task(state, TaskView::Binary(op)), TaskView::Expr(*right)),
                TaskView::Expr(*left),
            ),
        ),
        ExprView::Grouping(inner) => go_on(push_task(state, TaskView::Expr(*inner))),
        ExprView::Literal(literal) => match literal {
            LiteralView::Number(digits) => {
                let request = RequestView::Literal(digits);
                Stepped {
                    state: InterpreterView { pending: Some(request), ..state },
                    action: ActionView::Number(request),
                }
            },
            LiteralView::Str(text) => go_on(push_value(state, ValueView::Str(text))),
            LiteralView::Bool(b) => go_on(push_value(state, ValueView::Bool(b))),
            LiteralView::Nil => go_on(push_value(state, ValueView::Nil)),
        },
        ExprView::Variable { id, variable } => match get(state, id, variable) {
            Some(value) => go_on(push_value(state, value)),
            None => stuck(state),
        },
        ExprView::Assignment { id, variable, expr } => go_on(
            push_task(push_task(state, TaskView::Assign { id, variable }), TaskView::Expr(*expr)),
        ),
        ExprView::Logical { left, op, right } => go_on(
            push_task(
                push_task(state, TaskView::Logical { op, right: *right }),
                TaskView::Expr(*left),
            ),
        ),
        ExprView::FunCall { callee, paren, args } => go_on(
            push_task(push_task(state, TaskView::Call { paren, args }), TaskView::Expr(*callee)),
        ),
    }
}

/// The start of a statement.
pub open spec fn eval_stmt(state: InterpreterView, stmt: StmtView) -> Stepped {
    match stmt {
        StmtView::ExprStmt { expr } => go_on(
            push_task(push_task(state, TaskView::Discard), TaskView::Expr(expr)),
        ),
        StmtView::PrintStmt { expr } => go_on(
            push_task(push_task(state, TaskView::Print), TaskView::Expr(expr)),
        ),
        StmtView::VarDecl { variable, expr } => match expr {
            Some(expr) => go_on(
                push_task(push_task(state, TaskView::Declare(variable)), TaskView::Expr(expr)),
            ),
            None => or_stuck(state, declare(state, variable, ValueView::Nil)),
        },
        StmtView::Block { stmts } => go_on(
            push_task(begin_scope(state), TaskView::Block { stmts, next: 0 }),
        ),
        StmtView::If { condition, then_stmt, else_stmt } => go_on(
            push_task(
                push_task(
                    state,
                    TaskView::Branch {
                        then_stmt: *then_stmt,
                        else_stmt: match else_stmt {
                            Some(stmt) => Some(*stmt),
                            None => None,
                        },
                    },
                ),
                TaskView::Expr(condition),
            ),
        ),
        StmtView::While { condition, body } => go_on(
            push_task(state, TaskView::Loop { condition, body: *body }),
        ),
        StmtView::FunDecl { name, params, body } => {
            let function = LoxFunctionView {
                name,
                params,
                body: *body,
                environment: state.environment,
            };
            let known = InterpreterView { functions: state.functions.push(function), ..state };
            or_stuck(known, declare(known, name, ValueView::Callable(state.functions.len())))
        },
        StmtView::Return { expr } => go_on(
            push_task(push_task(state, TaskView::Return), TaskView::Expr(expr)),
        ),
    }
}

/// The next of a run of statements, before the run goes on; `task` is
/// the run from `next + 1` on.
pub open spec fn eval_next(
    state: InterpreterView,
    task: TaskView,
    stmts: Seq<StmtView>,
    next: nat,
) -> InterpreterView {
    push_task(push_task(state, task), TaskView::Stmt(stmts[next as int]))
}

/// The tasks that evaluate the first `left` of `args`, the first of them
/// on top.
pub open spec fn schedule(tasks: Seq<TaskView>, args: Seq<ExprView>, left: nat) -> Seq<TaskView>
    decreases left,
{
    if left == 0 || left > args.len() {
        tasks
    } else {
        schedule(tasks.push(TaskView::Expr(args[left - 1])), args, (left - 1) as nat)
    }
}

/// A call of the value `callee` with the arguments `args`, which are
/// still to be evaluated.
pub open spec fn eval_fun_call(
    state: InterpreterView,
    callee: ValueView,
    paren: TokenView,
    args: Seq<ExprView>,
) -> Stepped {
    match callee {
        ValueView::Callable(function) => {
            if function >= state.functions.len() {
                stuck(state)
            } else if state.functions[function as int].params.len() != args.len() {
                fail(state, RuntimeErrorView::CallableBadArgsCount(paren))
            } else {
                go_on(
                    InterpreterView {
                        tasks: schedule(
                            state.tasks.push(TaskView::Invoke { function }),
                            args,
                            args.len(),
                        ),
                        ..state
                    },
                )
            }
        },
        _ => fail(state, RuntimeErrorView::ExpectedCallable(paren)),
    }
}

/// What the parameters from `from` on hold when they are given the
/// arguments `args`, beside what `held` holds; nothing if one of them is
/// no identifier.
pub open spec fn declare_params(
    params: Seq<TokenView>,
    args: Seq<ValueView>,
    from: nat,
    held: Map<Seq<char>, ValueView>,
) -> Option<Map<Seq<char>, ValueView>>
    decreases params.len() - from,
{
    if from >= params.len() || from >= args.len() {
        Some(held)
    } else {
        match params[from as int].kind.identifier() {
            Some(name) => declare_params(
                params,
                args,
                from + 1,
                held.insert(name, args[from as int]),
            ),
            None => None,
        }
    }
}

/// The entry into a function: its parameters take the topmost values in
/// a new frame inside the frame in which the function was declared, and
/// its body runs there.
pub open spec fn call(state: InterpreterView, function: nat) -> Stepped {
    if function >= state.functions.len() {
        stuck(state)
    } else {
        let callee = state.functions[function as int];
        let count = callee.params.len();
        if state.values.len() < count {
            stuck(state)
        } else {
            let base = state.values.len() - count;
            let args = state.values.subrange(base, state.values.len() as int);
            match declare_params(callee.params, args, 0, Map::empty()) {
                None => stuck(state),
                Some(variables) => go_on(
                    InterpreterView {
                        tasks: state.tasks.push(
                            TaskView::Leave { environment: state.environment },
                        ).push(TaskView::Stmt(callee.body)),
                        values: state.values.subrange(0, base),
                        environments: state.environments.push(
                            EnvironmentView { variables, enclosing: Some(callee.environment) },
                        ),
                        environment: state.environments.len(),
                        ..state
                    },
                ),
            }
        }
    }
}

/// The step of `task`, the topmost task, which is off the stack in
/// `state`; no `return` is on its way.
pub open spec fn perform(state: InterpreterView, task: TaskView) -> Stepped {
    let top = if state.values.len() > 0 {
        Some(state.values.last())
    } else {
        None
    };
    let rest = drop_value(state);
    match task {
        TaskView::Program { stmts, next } => {
            if next < stmts.len() {
                go_on(eval_next(state, TaskView::Program { stmts, next: next + 1 }, stmts, next))
            } else {
                go_on(state)
            }
        },
        TaskView::Stmt(stmt) => eval_stmt(state, stmt),
        TaskView::Expr(expr) => eval_expr(state, expr),
        TaskView::Block { stmts, next } => {
            if next < stmts.len() {
                go_on(eval_next(state, TaskView::Block { stmts, next: next + 1 }, stmts, next))
            } else {
                or_stuck(state, end_scope(state))
            }
        },
        TaskView::Leave { environment } => go_on(
            push_value(InterpreterView { environment, ..state }, ValueView::Nil),
        ),
        TaskView::Loop { condition, body } => go_on(
            push_task(push_task(state, TaskView::Test { condition, body }), TaskView::Expr(condition)),
        ),
        TaskView::Invoke { function } => call(state, function),
        _ => match top {
            None => stuck(state),
            Some(value) => match task {
                TaskView::Print => match printed(state, value) {
                    Some(line) => Stepped { state: rest, action: ActionView::Print(line) },
                    None => stuck(rest),
                },
                TaskView::Discard => go_on(rest),
                TaskView::Declare(variable) => or_stuck(rest, declare(rest, variable, value)),
                TaskView::Return => go_on(
                    InterpreterView { signal: ControlSignalView::Return(value), ..rest },
                ),
                TaskView::Branch { then_stmt, else_stmt } => {
                    if value.is_truthy() {
                        go_on(push_task(rest, TaskView::Stmt(then_stmt)))
                    } else {
                        match else_stmt {
                            Some(stmt) => go_on(push_task(rest, TaskView::Stmt(stmt))),
                            None => go_on(rest),
                        }
                    }
                },
                TaskView::Test { condition, body } => {
                    if value.is_truthy() {
                        go_on(
                            push_task(
                                push_task(rest, TaskView::Loop { condition, body }),
                                TaskView::Stmt(body),
                            ),
                        )
                    } else {
                        go_on(rest)
                    }
                },
                TaskView::Unary(op) => after_applied(rest, apply_unary(op, value)),
                TaskView::Binary(op) => {
                    if rest.values.len() > 0 {
                        after_applied(
                            drop_value(rest),
                            apply_binary(rest.values.last(), op, value),
                        )
                    } else {
                        stuck(rest)
                    }
                },
                TaskView::Logical { op, right } => match op.kind {
                    TokenKindView::Or => {
                        if value.is_truthy() {
                            go_on(push_value(rest, ValueView::Bool(true)))
                        } else {
                            go_on(push_task(push_task(rest, TaskView::Truth), TaskView::Expr(right)))
                        }
                    },
                    TokenKindView::And => {
                        if value.is_falsy() {
                            go_on(push_value(rest, ValueView::Bool(false)))
                        } else {
                            go_on(push_task(push_task(rest, TaskView::Truth), TaskView::Expr(right)))
                        }
                    },
                    _ => stuck(rest),
                },
                TaskView::Truth => go_on(push_value(rest, ValueView::Bool(value.is_truthy()))),
                TaskView::Assign { id, variable } => or_stuck(
                    state,
                    assign(state, id, variable, value),
                ),
                TaskView::Call { paren, args } => eval_fun_call(rest, value, paren, args),
                _ => stuck(state),
            },
        },
    }
}

/// The step of a state in which the value `value` of a `return` is on
/// its way: the topmost task is given up, unless it is where the value
/// is going. A block is left on the way. The call that is running takes
/// the value as its result; a loop and the program drop the value and go
/// on.
pub open spec fn unwind(state: InterpreterView, value: ValueView) -> Stepped {
    let rest = drop_task(state);
    match state.tasks.last() {
        TaskView::Block { stmts, next } => or_stuck(state, end_scope(rest)),
        TaskView::Loop { condition, body } => go_on(
            InterpreterView { signal: ControlSignalView::Normal, ..state },
        ),
        TaskView::Program { stmts, next } => go_on(
            InterpreterView { signal: ControlSignalView::Normal, ..state },
        ),
        TaskView::Leave { environment } => go_on(
            push_value(
                InterpreterView { environment, signal: ControlSignalView::Normal, ..rest },
                value,
            ),
        ),
        _ => go_on(rest),
    }
}

/// One step of the machine. A machine that waits for a number takes it
/// from `event`, and asks again if `event` holds none. A machine with no
/// work left has finished.
#[verifier::opaque]
pub open spec fn step(state: InterpreterView, event: Event) -> Stepped {
    match state.pending {
        Some(request) => match event {
            Event::Number(bits) => go_on(
                push_value(InterpreterView { pending: None, ..state }, ValueView::Number(bits)),
            ),
            Event::Resume => Stepped { state, action: ActionView::Number(request) },
        },
        None => {
            if state.tasks.len() == 0 {
                Stepped { state, action: ActionView::Finished }
            } else {
                match state.signal {
                    ControlSignalView::Return(value) => unwind(state, value),
                    ControlSignalView::Normal => perform(drop_task(state), state.tasks.last()),
                }
            }
        },
    }
}

/// The state after `count` steps, each with the event of `events` at its
/// place; and what the last of them asked for.
pub open spec fn steps(state: InterpreterView, events: Seq<Event>, count: nat) -> Stepped
    decreases count,
{
    if count == 0 || count > events.len() {
        go_on(state)
    } else {
        step(steps(state, events, (count - 1) as nat).state, events[count - 1])
    }
}

/// A run of the machine: the state it has reached, the lines it has
/// written, and what its last step asked for, if that was not a line.
pub struct Run {
    pub state: InterpreterView,
    pub lines: Seq<PrintedView>,
    pub last: ActionView,
}

/// The event that a machine in `state` is handed when `answer` gives the
/// numbers: the number that the machine waits for, if it waits for one.
pub open spec fn answered(state: InterpreterView, answer: spec_fn(RequestView) -> u64) -> Event {
    match state.pending {
        Some(request) => Event::Number(answer(request)),
        None => Event::Resume,
    }
}

/// The run of `count` steps from `state` in which `answer` gives every
/// number that the machine asks for.
///
/// What a program writes is thus a function of the program and of the
/// arithmetic that it runs on.
pub open spec fn drive(
    state: InterpreterView,
    answer: spec_fn(RequestView) -> u64,
    count: nat,
) -> Run
    decreases count,
{
    if count == 0 {
        Run { state, lines: Seq::empty(), last: ActionView::Continue }
    } else {
        let before = drive(state, answer, (count - 1) as nat);
        let next = step(before.state, answered(before.state, answer));
        Run {
            state: next.state,
            lines: match next.action {
                ActionView::Print(line) => before.lines.push(line),
                _ => before.lines,
            },
            last: match next.action {
                ActionView::Print(_) => ActionView::Continue,
                other => other,
            },
        }
    }
}

/// The frames hang together: the frame that is running is one of them;
/// the frame around a frame is older than the frame; and the frames that
/// functions were declared in, and those that calls go back to, are among
/// them.
pub open spec fn frames_wf(state: InterpreterView) -> bool {
    &&& state.environment < state.environments.len()
    &&& forall|i: int|
        0 <= i < state.environments.len() ==> match (#[trigger] state.environments[i]).enclosing {
            Some(around) => around < i,
            None => true,
        }
    &&& forall|i: int|
        0 <= i < state.functions.len() ==> (#[trigger] state.functions[i]).environment
            < state.environments.len()
    &&& tasks_lead_back(state.tasks, state.environments.len())
}

/// Each way back from a call among `tasks` leads to one of `frames`
/// frames.
pub open spec fn tasks_lead_back(tasks: Seq<TaskView>, frames: nat) -> bool {
    forall|i: int|
        0 <= i < tasks.len() ==> match #[trigger] tasks[i] {
            TaskView::Leave { environment } => environment < frames,
            _ => true,
        }
}

/// No frame is given up, and the frame around a frame stays the same.
pub open spec fn frames_kept(before: InterpreterView, after: InterpreterView) -> bool {
    &&& before.environments.len() <= after.environments.len()
    &&& forall|i: int|
        0 <= i < before.environments.len() ==> (#[trigger] after.environments[i]).enclosing
            == before.environments[i].enclosing
}

/// The evaluation of arguments adds no way back from a call.
pub proof fn lemma_schedule_leads_back(
    tasks: Seq<TaskView>,
    args: Seq<ExprView>,
    left: nat,
    frames: nat,
)
    requires
        tasks_lead_back(tasks, frames),
    ensures
        tasks_lead_back(schedule(tasks, args, left), frames),
    decreases left,
{
    if left != 0 && left <= args.len() {
        lemma_schedule_leads_back(
            tasks.push(TaskView::Expr(args[left - 1])),
            args,
            (left - 1) as nat,
            frames,
        );
    }
}

/// What holds of the state `after` a step from `before`: the frames hang
/// together as they did, and none was given up or moved.
pub open spec fn frames_follow(before: InterpreterView, after: InterpreterView) -> bool {
    frames_wf(after) && frames_kept(before, after)
}

pub proof fn lemma_declare_keeps_frames(state: InterpreterView, token: TokenView, value: ValueView)
    requires
        frames_wf(state),
    ensures
        declare(state, token, value) matches Some(next) ==> frames_follow(state, next),
{
}

pub proof fn lemma_assign_keeps_frames(
    state: InterpreterView,
    id: nat,
    token: TokenView,
    value: ValueView,
)
    requires
        frames_wf(state),
    ensures
        assign(state, id, token, value) matches Some(next) ==> frames_follow(state, next),
{
    if state.bindings.contains_key(id) {
        lemma_ancestor_is_frame(state.environments, state.environment, state.bindings[id]);
    }
}

pub proof fn lemma_scopes_keep_frames(state: InterpreterView)
    requires
        frames_wf(state),
    ensures
        frames_follow(state, begin_scope(state)),
        end_scope(state) matches Some(next) ==> frames_follow(state, next),
{
}

pub proof fn lemma_eval_expr_keeps_frames(state: InterpreterView, expr: ExprView)
    requires
        frames_wf(state),
    ensures
        frames_follow(state, eval_expr(state, expr).state),
{
}

pub proof fn lemma_eval_stmt_keeps_frames(state: InterpreterView, stmt: StmtView)
    requires
        frames_wf(state),
    ensures
        frames_follow(state, eval_stmt(state, stmt).state),
{
    lemma_scopes_keep_frames(state);
    match stmt {
        StmtView::VarDecl { variable, expr } => {
            lemma_declare_keeps_frames(state, variable, ValueView::Nil);
        },
        StmtView::FunDecl { name, params, body } => {
            let function = LoxFunctionView {
                name,
                params,
                body: *body,
                environment: state.environment,
            };
            let known = InterpreterView { functions: state.functions.push(function), ..state };
            assert(frames_wf(known));
            lemma_declare_keeps_frames(known, name, ValueView::Callable(state.functions.len()));
        },
        _ => {},
    }
}

pub proof fn lemma_eval_fun_call_keeps_frames(
    state: InterpreterView,
    callee: ValueView,
    paren: TokenView,
    args: Seq<ExprView>,
)
    requires
        frames_wf(state),
    ensures
        frames_follow(state, eval_fun_call(state, callee, paren, args).state),
{
    if let ValueView::Callable(function) = callee {
        lemma_schedule_leads_back(
            state.tasks.push(TaskView::Invoke { function }),
            args,
            args.len(),
            state.environments.len(),
        );
    }
    lemma_fail_keeps_frames(state, RuntimeErrorView::CallableBadArgsCount(paren));
    lemma_fail_keeps_frames(state, RuntimeErrorView::ExpectedCallable(paren));
}

pub proof fn lemma_call_keeps_frames(state: InterpreterView, function: nat)
    requires
        frames_wf(state),
    ensures
        frames_follow(state, call(state, function).state),
{
}

/// Where work is given up, the frame that is running is one of the
/// frames.
pub proof fn lemma_unwound_is_frame(
    frames: Seq<EnvironmentView>,
    tasks: Seq<TaskView>,
    count: nat,
    environment: nat,
)
    requires
        environment < frames.len(),
        tasks_lead_back(tasks, frames.len()),
        forall|i: int|
            0 <= i < frames.len() ==> match (#[trigger] frames[i]).enclosing {
                Some(around) => around < i,
                None => true,
            },
    ensures
        unwound(frames, tasks, count, environment) < frames.len(),
    decreases count,
{
    if count != 0 && count <= tasks.len() {
        lemma_unwound_is_frame(
            frames,
            tasks,
            (count - 1) as nat,
            given_up(frames, tasks[count - 1], environment),
        );
    }
}

pub proof fn lemma_fail_keeps_frames(state: InterpreterView, error: RuntimeErrorView)
    requires
        frames_wf(state),
    ensures
        frames_follow(state, fail(state, error).state),
{
    lemma_unwound_is_frame(state.environments, state.tasks, state.tasks.len(), state.environment);
}

pub proof fn lemma_after_applied_keeps_frames(state: InterpreterView, applied: AppliedView)
    requires
        frames_wf(state),
    ensures
        frames_follow(state, after_applied(state, applied).state),
{
    if let AppliedView::Failed(error) = applied {
        lemma_fail_keeps_frames(state, error);
    }
}

pub proof fn lemma_perform_keeps_frames(state: InterpreterView, task: TaskView)
    requires
        frames_wf(state),
        task matches TaskView::Leave { environment } ==> environment < state.environments.len(),
    ensures
        frames_follow(state, perform(state, task).state),
{
    let rest = drop_value(state);
    lemma_scopes_keep_frames(state);
    match task {
        TaskView::Stmt(stmt) => lemma_eval_stmt_keeps_frames(state, stmt),
        TaskView::Expr(expr) => lemma_eval_expr_keeps_frames(state, expr),
        TaskView::Invoke { function } => lemma_call_keeps_frames(state, function),
        _ => {
            if state.values.len() > 0 {
                let value = state.values.last();
                assert(frames_wf(rest));
                match task {
                    TaskView::Declare(variable) => lemma_declare_keeps_frames(
                        rest,
                        variable,
                        value,
                    ),
                    TaskView::Unary(op) => lemma_after_applied_keeps_frames(
                        rest,
                        apply_unary(op, value),
                    ),
                    TaskView::Binary(op) => {
                        if rest.values.len() > 0 {
                            assert(frames_wf(drop_value(rest)));
                            lemma_after_applied_keeps_frames(
                                drop_value(rest),
                                apply_binary(rest.values.last(), op, value),
                            );
                        }
                    },
                    TaskView::Assign { id, variable } => lemma_assign_keeps_frames(
                        state,
                        id,
                        variable,
                        value,
                    ),
                    TaskView::Call { paren, args } => lemma_eval_fun_call_keeps_frames(
                        rest,
                        value,
                        paren,
                        args,
                    ),
                    _ => {},
                }
            }
        },
    }
}

pub proof fn lemma_unwind_keeps_frames(state: InterpreterView, value: ValueView)
    requires
        frames_wf(state),
        state.tasks.len() > 0,
    ensures
        frames_follow(state, unwind(state, value).state),
{
    let rest = drop_task(state);
    assert(frames_wf(rest));
    lemma_scopes_keep_frames(rest);
    assert(state.tasks[state.tasks.len() - 1] == state.tasks.last());
}

/// A step keeps the frames together, gives no frame up and leaves the
/// frame around each frame what it was: only what the variables of a
/// frame hold changes.
pub proof fn lemma_step_keeps_frames(state: InterpreterView, event: Event)
    requires
        frames_wf(state),
    ensures
        frames_wf(step(state, event).state),
        frames_kept(state, step(state, event).state),
{
    reveal(step);
    if state.pending is None && state.tasks.len() > 0 {
        let rest = drop_task(state);
        assert(frames_wf(rest));
        assert(state.tasks[state.tasks.len() - 1] == state.tasks.last());
        match state.signal {
            ControlSignalView::Return(value) => lemma_unwind_keeps_frames(state, value),
            ControlSignalView::Normal => lemma_perform_keeps_frames(rest, state.tasks.last()),
        }
    }
}

} // verus!
