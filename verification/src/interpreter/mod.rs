pub mod callable;
pub mod environment;
pub mod errors;
pub mod machine;
pub mod pairing;
pub mod progress;

pub use callable::{LoxCallable, LoxFunction, LoxFunctionView};
pub use environment::{Environment, EnvironmentView};
pub use errors::{RuntimeError, RuntimeErrorView};

pub use machine::{
    ActionView, AppliedView, Arithmetic, Event, InterpreterView, PrintedView, RequestView, Stepped,
    TaskView,
};

use crate::lexer::{Token, TokenKind};
use crate::parser::expr::exprs_view;
use crate::parser::stmt::stmts_view;
use crate::parser::value::{negate, numbers_equal, numbers_less, texts_less};
use crate::parser::{ControlSignal, ControlSignalView, Expr, Literal, Stmt, StmtView, Value, ValueView};
use crate::resolver::Resolver;
use environment::{assign_at_depth, frames_view, get_at_depth};
use pairing::{home, lemma_step_keeps_home};
use progress::{lemma_step_sound, sound};
use vstd::prelude::*;
use vstd::string::StringExecFns;

verus! {

/// A number that the machine asks for.
#[derive(Debug)]
pub enum Request {
    /// The number that these digits, with at most one dot among them,
    /// stand for.
    Literal(String),
    /// The result of an operation on two numbers.
    Arithmetic { operator: Arithmetic, left: u64, right: u64 },
}

impl View for Request {
    type V = RequestView;

    open spec fn view(&self) -> RequestView {
        match self {
            Request::Literal(digits) => RequestView::Literal(digits@),
            Request::Arithmetic { operator, left, right } => RequestView::Arithmetic {
                operator: *operator,
                left: *left,
                right: *right,
            },
        }
    }
}

impl Clone for Request {
    fn clone(&self) -> (copy: Request)
        ensures
            copy@ == self@,
    {
        match self {
            Request::Literal(digits) => Request::Literal(digits.clone()),
            Request::Arithmetic { operator, left, right } => Request::Arithmetic {
                operator: *operator,
                left: *left,
                right: *right,
            },
        }
    }
}

/// What a `print` writes.
#[derive(Debug)]
pub enum Printed {
    /// These characters.
    Text(String),
    /// This number, written as shortly as it can be read back.
    Number(u64),
}

impl View for Printed {
    type V = PrintedView;

    open spec fn view(&self) -> PrintedView {
        match self {
            Printed::Text(text) => PrintedView::Text(text@),
            Printed::Number(bits) => PrintedView::Number(*bits),
        }
    }
}

/// What the machine asks of whoever runs it, after a step.
#[derive(Debug)]
pub enum Action {
    /// Nothing: take the next step.
    Continue,
    /// To write a line.
    Print(Printed),
    /// To hand in the number asked for with the next step.
    Number(Request),
    /// Nothing: the program has ended.
    Finished,
    /// Nothing: the program has failed.
    Failed(RuntimeError),
    /// Nothing: the machine cannot go on. A variable is not where the
    /// resolver is to have found it, a value that a task needs is missing,
    /// or the tree is one that the parser does not build. A program that
    /// the parser has built and the resolver has resolved does not lead
    /// here.
    Stuck,
}

impl View for Action {
    type V = ActionView;

    open spec fn view(&self) -> ActionView {
        match self {
            Action::Continue => ActionView::Continue,
            Action::Print(printed) => ActionView::Print(printed@),
            Action::Number(request) => ActionView::Number(request@),
            Action::Finished => ActionView::Finished,
            Action::Failed(error) => ActionView::Failed(error@),
            Action::Stuck => ActionView::Stuck,
        }
    }
}

/// What an operator makes of its operands.
#[derive(Debug)]
pub enum Applied {
    /// A value.
    Value(Value),
    /// Nothing yet: the result of an operation on two numbers.
    Arithmetic(Arithmetic, u64, u64),
    /// An error.
    Failed(RuntimeError),
    /// Nothing: the token is no operator of this kind.
    Stuck,
}

impl View for Applied {
    type V = AppliedView;

    open spec fn view(&self) -> AppliedView {
        match self {
            Applied::Value(value) => AppliedView::Value(value@),
            Applied::Arithmetic(operator, left, right) => AppliedView::Arithmetic(
                *operator,
                *left,
                *right,
            ),
            Applied::Failed(error) => AppliedView::Failed(error@),
            Applied::Stuck => AppliedView::Stuck,
        }
    }
}

/// A piece of work that is left.
#[derive(Debug, Clone, Copy)]
pub enum Task<'a> {
    Program { stmts: &'a Vec<Stmt>, next: usize },
    Stmt(&'a Stmt),
    Expr(&'a Expr),
    Block { stmts: &'a Vec<Stmt>, next: usize },
    Print,
    Discard,
    Declare(&'a Token),
    Return,
    Branch { then_stmt: &'a Stmt, else_stmt: Option<&'a Stmt> },
    Loop { condition: &'a Expr, body: &'a Stmt },
    Test { condition: &'a Expr, body: &'a Stmt },
    Unary(&'a Token),
    Binary(&'a Token),
    Logical { op: &'a Token, right: &'a Expr },
    Truth,
    Assign { id: usize, variable: &'a Token },
    Call { paren: &'a Token, args: &'a Vec<Box<Expr>> },
    Invoke { function: usize },
    Leave { environment: usize },
}

impl<'a> View for Task<'a> {
    type V = TaskView;

    open spec fn view(&self) -> TaskView {
        match self {
            Task::Program { stmts, next } => TaskView::Program {
                stmts: stmts_view(stmts@),
                next: *next as nat,
            },
            Task::Stmt(stmt) => TaskView::Stmt(stmt@),
            Task::Expr(expr) => TaskView::Expr(expr@),
            Task::Block { stmts, next } => TaskView::Block {
                stmts: stmts_view(stmts@),
                next: *next as nat,
            },
            Task::Print => TaskView::Print,
            Task::Discard => TaskView::Discard,
            Task::Declare(variable) => TaskView::Declare(variable@),
            Task::Return => TaskView::Return,
            Task::Branch { then_stmt, else_stmt } => TaskView::Branch {
                then_stmt: then_stmt@,
                else_stmt: match else_stmt {
                    Some(stmt) => Some(stmt@),
                    None => None,
                },
            },
            Task::Loop { condition, body } => TaskView::Loop {
                condition: condition@,
                body: body@,
            },
            Task::Test { condition, body } => TaskView::Test {
                condition: condition@,
                body: body@,
            },
            Task::Unary(op) => TaskView::Unary(op@),
            Task::Binary(op) => TaskView::Binary(op@),
            Task::Logical { op, right } => TaskView::Logical { op: op@, right: right@ },
            Task::Truth => TaskView::Truth,
            Task::Assign { id, variable } => TaskView::Assign {
                id: *id as nat,
                variable: variable@,
            },
            Task::Call { paren, args } => TaskView::Call { paren: paren@, args: exprs_view(args@) },
            Task::Invoke { function } => TaskView::Invoke { function: *function as nat },
            Task::Leave { environment } => TaskView::Leave { environment: *environment as nat },
        }
    }
}

pub open spec fn tasks_view(tasks: Seq<Task>) -> Seq<TaskView> {
    Seq::new(tasks.len(), |i: int| tasks[i]@)
}

pub open spec fn values_view(values: Seq<Value>) -> Seq<ValueView> {
    Seq::new(values.len(), |i: int| values[i]@)
}

pub open spec fn functions_view(functions: Seq<LoxFunction>) -> Seq<LoxFunctionView> {
    Seq::new(functions.len(), |i: int| functions[i]@)
}

pub open spec fn request_view(request: Option<Request>) -> Option<RequestView> {
    match request {
        Some(request) => Some(request@),
        None => None,
    }
}

/// The state in which a machine starts: one frame, no work.
pub open spec fn initial(bindings: Map<nat, nat>) -> InterpreterView {
    InterpreterView {
        tasks: Seq::empty(),
        values: Seq::empty(),
        environments: seq![EnvironmentView { variables: Map::empty(), enclosing: None }],
        environment: 0,
        functions: Seq::empty(),
        signal: ControlSignalView::Normal,
        pending: None,
        bindings,
    }
}

/// A machine that starts on a program has its frames together.
pub proof fn lemma_start_keeps_frames(bindings: Map<nat, nat>, stmts: Seq<StmtView>)
    ensures
        machine::frames_wf(initial(bindings)),
        machine::frames_wf(
            machine::push_task(initial(bindings), TaskView::Program { stmts, next: 0 }),
        ),
{
}

/// The evaluator.
///
/// It takes a program with [`Interpreter::interpret`] and runs it step by
/// step: each call of [`Interpreter::step`] does a piece of the work and
/// returns what it asks of its caller.
pub struct Interpreter<'a> {
    environment: usize,
    environments: Vec<Environment>,
    resolver: Resolver,
    functions: Vec<LoxFunction<'a>>,
    tasks: Vec<Task<'a>>,
    values: Vec<Value>,
    signal: ControlSignal,
    pending: Option<Request>,
}

impl<'a> View for Interpreter<'a> {
    type V = InterpreterView;

    closed spec fn view(&self) -> InterpreterView {
        InterpreterView {
            tasks: tasks_view(self.tasks@),
            values: values_view(self.values@),
            environments: frames_view(self.environments@),
            environment: self.environment as nat,
            functions: functions_view(self.functions@),
            signal: self.signal@,
            pending: request_view(self.pending),
            bindings: self.resolver@.bindings,
        }
    }
}

impl<'a> Interpreter<'a> {
    /// The state that `self` is in, with what a step asked for.
    pub open spec fn stepped(&self, action: Action) -> Stepped {
        Stepped { state: self@, action: action@ }
    }

    /// A machine that looks up variables as `resolver` found them.
    pub fn new(resolver: Resolver) -> (interpreter: Interpreter<'a>)
        ensures
            interpreter@ == initial(resolver@.bindings),
    {
        let mut environments: Vec<Environment> = Vec::new();
        environments.push(Environment::new());
        let interpreter = Interpreter {
            environment: 0,
            environments,
            resolver,
            functions: Vec::new(),
            tasks: Vec::new(),
            values: Vec::new(),
            signal: ControlSignal::Normal,
            pending: None,
        };
        assert(interpreter@.tasks =~= Seq::empty());
        assert(interpreter@.values =~= Seq::empty());
        assert(interpreter@.functions =~= Seq::empty());
        assert(interpreter@.environments =~= seq![
            EnvironmentView { variables: Map::empty(), enclosing: None },
        ]);
        interpreter
    }

    /// Gives the machine the program `stmts` to run.
    pub fn interpret(&mut self, stmts: &'a Vec<Stmt>)
        ensures
            final(self)@ == machine::push_task(
                old(self)@,
                TaskView::Program { stmts: stmts_view(stmts@), next: 0 },
            ),
    {
        self.push_task(Task::Program { stmts, next: 0 });
    }

    fn push_task(&mut self, task: Task<'a>)
        ensures
            final(self)@ == machine::push_task(old(self)@, task@),
    {
        let ghost before = self@.tasks;
        self.tasks.push(task);
        assert(self@.tasks =~= before.push(task@));
    }

    fn pop_task(&mut self) -> (task: Option<Task<'a>>)
        ensures
            match task {
                Some(task) => {
                    &&& old(self)@.tasks.len() > 0
                    &&& task@ == old(self)@.tasks.last()
                    &&& final(self)@ == machine::drop_task(old(self)@)
                },
                None => old(self)@.tasks.len() == 0 && final(self)@ == old(self)@,
            },
    {
        let ghost before = self@.tasks;
        let task = self.tasks.pop();
        if task.is_some() {
            assert(self@.tasks =~= before.drop_last());
        } else {
            assert(self@.tasks =~= before);
        }
        task
    }

    fn push_value(&mut self, value: Value)
        ensures
            final(self)@ == machine::push_value(old(self)@, value@),
    {
        let ghost before = self@.values;
        self.values.push(value);
        assert(self@.values =~= before.push(value@));
    }

    fn pop_value(&mut self) -> (value: Option<Value>)
        ensures
            match value {
                Some(value) => {
                    &&& old(self)@.values.len() > 0
                    &&& value@ == old(self)@.values.last()
                    &&& final(self)@ == machine::drop_value(old(self)@)
                },
                None => old(self)@.values.len() == 0 && final(self)@ == old(self)@,
            },
    {
        let ghost before = self@.values;
        let value = self.values.pop();
        if value.is_some() {
            assert(self@.values =~= before.drop_last());
        } else {
            assert(self@.values =~= before);
        }
        value
    }

    /// Gives up all work.
    fn halt(&mut self)
        ensures
            final(self)@ == machine::halt(old(self)@),
    {
        self.tasks.clear();
        assert(self@.tasks =~= Seq::empty());
    }

    fn stuck(&mut self) -> (action: Action)
        ensures
            final(self).stepped(action) == machine::stuck(old(self)@),
    {
        self.halt();
        Action::Stuck
    }

    /// Ends the program in `error`: gives up all work, and on the way
    /// leaves every block and goes back from every call that was under
    /// way.
    fn fail(&mut self, error: RuntimeError) -> (action: Action)
        ensures
            final(self).stepped(action) == machine::fail(old(self)@, error@),
    {
        let ghost before = self@;
        assert(before.tasks.take(before.tasks.len() as int) =~= before.tasks);
        while self.tasks.len() > 0
            invariant
                self.tasks.len() <= before.tasks.len(),
                self@ == (InterpreterView {
                    tasks: before.tasks.take(self.tasks.len() as int),
                    environment: self@.environment,
                    ..before
                }),
                machine::unwound(
                    before.environments,
                    before.tasks,
                    before.tasks.len(),
                    before.environment,
                ) == machine::unwound(
                    before.environments,
                    before.tasks,
                    self.tasks.len() as nat,
                    self@.environment,
                ),
            decreases self.tasks.len(),
        {
            let ghost left = self.tasks.len();
            assert(before.tasks.take(left as int).drop_last() =~= before.tasks.take(left - 1));
            assert(before.tasks.take(left as int).last() == before.tasks[left - 1]);
            match self.pop_task() {
                Some(Task::Block { .. }) => {
                    self.end_scope();
                },
                Some(Task::Leave { environment }) => {
                    self.environment = environment;
                },
                _ => {},
            }
        }
        assert(self@.tasks =~= Seq::empty());
        Action::Failed(error)
    }

    /// Opens a scope: a new frame inside the one that is running.
    pub fn begin_scope(&mut self)
        ensures
            final(self)@ == machine::begin_scope(old(self)@),
    {
        let ghost before = self@.environments;
        let frame = Environment::with_enclosing(self.environment);
        let place = self.environments.len();
        self.environments.push(frame);
        self.environment = place;
        assert(self@.environments =~= before.push(frame@));
    }

    /// Closes a scope: goes back to the frame around the one that is
    /// running. Says whether there is one.
    pub fn end_scope(&mut self) -> (ended: bool)
        ensures
            match machine::end_scope(old(self)@) {
                Some(next) => ended && final(self)@ == next,
                None => !ended && final(self)@ == old(self)@,
            },
    {
        if self.environment < self.environments.len() {
            match self.environments[self.environment].enclosing() {
                Some(around) => {
                    self.environment = around;
                    true
                },
                None => false,
            }
        } else {
            false
        }
    }

    /// Makes the frame at `other` the one that is running, and returns
    /// the place of the one that was.
    pub fn swap_environment(&mut self, other: usize) -> (before: usize)
        ensures
            before == old(self)@.environment,
            final(self)@ == (InterpreterView { environment: other as nat, ..old(self)@ }),
    {
        let before = self.environment;
        self.environment = other;
        before
    }

    /// Declares the variable `name` with `value` in the frame that is
    /// running. Says whether there is such a frame.
    pub fn declare(&mut self, name: String, value: Value) -> (declared: bool)
        ensures
            match machine::declare_named(old(self)@, name@, value@) {
                Some(next) => declared && final(self)@ == next,
                None => !declared && final(self)@ == old(self)@,
            },
    {
        if self.environment < self.environments.len() {
            let ghost before = self@.environments;
            let ghost frame = before[self.environment as int];
            self.environments[self.environment].declare(name, value);
            assert(self@.environments =~= before.update(
                self.environment as int,
                EnvironmentView { variables: frame.variables.insert(name@, value@), ..frame },
            ));
            true
        } else {
            false
        }
    }

    /// What the variable `name` holds at its use `id`, if the use was
    /// resolved and the variable is where it was found.
    pub fn get(&self, id: usize, name: &String) -> (value: Option<Value>)
        ensures
            match value {
                Some(value) => machine::get_named(self@, id as nat, name@) == Some(value@),
                None => machine::get_named(self@, id as nat, name@) is None,
            },
    {
        match self.resolver.bound_depth(id) {
            Some(depth) => get_at_depth(&self.environments, self.environment, depth, name),
            None => None,
        }
    }

    /// Assigns `value` to the variable `name` at its use `id`. Says
    /// whether the use was resolved and the variable is where it was
    /// found.
    pub fn assign(&mut self, id: usize, name: &String, value: &Value) -> (assigned: bool)
        ensures
            match machine::assign_named(old(self)@, id as nat, name@, value@) {
                Some(next) => assigned && final(self)@ == next,
                None => !assigned && final(self)@ == old(self)@,
            },
    {
        match self.resolver.bound_depth(id) {
            Some(depth) => assign_at_depth(
                &mut self.environments,
                self.environment,
                depth,
                name,
                value,
            ),
            None => false,
        }
    }

    /// What a `print` of `value` writes.
    pub fn printed(&self, value: &Value) -> (line: Option<Printed>)
        ensures
            match line {
                Some(line) => machine::printed(self@, value@) == Some(line@),
                None => machine::printed(self@, value@) is None,
            },
    {
        match value {
            Value::Number(bits) => Some(Printed::Number(*bits)),
            Value::Str(text) => Some(Printed::Text(text.clone())),
            Value::Bool(b) => Some(
                Printed::Text(
                    if *b {
                        String::from_str("true")
                    } else {
                        String::from_str("false")
                    },
                ),
            ),
            Value::Nil => Some(Printed::Text(String::from_str("nil"))),
            Value::Callable(function) => {
                if *function < self.functions.len() {
                    match self.functions[*function].name() {
                        Some(name) => {
                            let mut text = String::from_str("<callable ");
                            text.append(name.as_str());
                            text.append(">");
                            Some(Printed::Text(text))
                        },
                        None => None,
                    }
                } else {
                    None
                }
            },
        }
    }

    /// What the unary operator `op` makes of `value`.
    pub fn eval_unary_expr(op: &Token, value: Value) -> (applied: Applied)
        ensures
            applied@ == machine::apply_unary(op@, value@),
    {
        match op.kind() {
            TokenKind::Minus => match value {
                Value::Number(bits) => Applied::Value(Value::Number(negate(bits))),
                _ => Applied::Failed(RuntimeError::ExpectedNumber(op.clone())),
            },
            TokenKind::Bang => Applied::Value(Value::Bool(value.is_falsy())),
            _ => Applied::Stuck,
        }
    }

    /// What an arithmetic operator makes of its operands.
    fn apply_arithmetic(operator: Arithmetic, left: Value, op: &Token, right: Value) -> (applied:
        Applied)
        ensures
            applied@ == machine::apply_arithmetic(operator, left@, op@, right@),
    {
        if let Value::Number(a) = left {
            if let Value::Number(b) = right {
                return Applied::Arithmetic(operator, a, b);
            }
        }
        Applied::Failed(RuntimeError::UndefinedOpBetween(left, op.clone(), right))
    }

    /// What a comparison makes of its operands.
    fn apply_comparison(swap: bool, equal: bool, left: Value, op: &Token, right: Value) -> (applied:
        Applied)
        ensures
            applied@ == machine::apply_comparison(swap, equal, left@, op@, right@),
    {
        if let Value::Number(a) = left {
            if let Value::Number(b) = right {
                let first = if swap {
                    b
                } else {
                    a
                };
                let second = if swap {
                    a
                } else {
                    b
                };
                let holds = numbers_less(first, second) || (equal && numbers_equal(first, second));
                return Applied::Value(Value::Bool(holds));
            }
        }
        if let Value::Str(a) = &left {
            if let Value::Str(b) = &right {
                let less = if swap {
                    texts_less(b.as_str(), a.as_str())
                } else {
                    texts_less(a.as_str(), b.as_str())
                };
                let holds = less || (equal && *a == *b);
                return Applied::Value(Value::Bool(holds));
            }
        }
        Applied::Failed(RuntimeError::UndefinedOpBetween(left, op.clone(), right))
    }

    /// Whether two values are equal.
    fn values_equal(left: &Value, right: &Value) -> (equal: bool)
        ensures
            equal == machine::values_equal(left@, right@),
    {
        match left {
            Value::Number(a) => match right {
                Value::Number(b) => numbers_equal(*a, *b),
                _ => false,
            },
            Value::Str(a) => match right {
                Value::Str(b) => *a == *b,
                _ => false,
            },
            Value::Bool(a) => match right {
                Value::Bool(b) => *a == *b,
                _ => false,
            },
            Value::Nil => match right {
                Value::Nil => true,
                _ => false,
            },
            Value::Callable(_) => false,
        }
    }

    /// What the binary operator `op` makes of `left` and `right`: the
    /// value of a comparison, of an equality or of two strings joined
    /// by `+`; a request for the result of an operation on two numbers;
    /// or the error of operands that the operator is not defined
    /// between.
    pub fn eval_binary_expr(left: Value, op: &Token, right: Value) -> (applied: Applied)
        ensures
            applied@ == machine::apply_binary(left@, op@, right@),
    {
        match op.kind() {
            TokenKind::Star => Self::apply_arithmetic(Arithmetic::Multiply, left, op, right),
            TokenKind::Slash => Self::apply_arithmetic(Arithmetic::Divide, left, op, right),
            TokenKind::Minus => Self::apply_arithmetic(Arithmetic::Subtract, left, op, right),
            TokenKind::Plus => {
                if let Value::Str(a) = &left {
                    if let Value::Str(b) = &right {
                        return Applied::Value(Value::Str(a.clone().concat(b.as_str())));
                    }
                }
                Self::apply_arithmetic(Arithmetic::Add, left, op, right)
            },
            TokenKind::Greater => Self::apply_comparison(true, false, left, op, right),
            TokenKind::GreaterEqual => Self::apply_comparison(true, true, left, op, right),
            TokenKind::Less => Self::apply_comparison(false, false, left, op, right),
            TokenKind::LessEqual => Self::apply_comparison(false, true, left, op, right),
            TokenKind::EqualEqual => Applied::Value(Value::Bool(Self::values_equal(&left, &right))),
            TokenKind::BangEqual => Applied::Value(Value::Bool(!Self::values_equal(&left, &right))),
            _ => Applied::Stuck,
        }
    }

    /// Takes up what an operator made of its operands.
    fn after_applied(&mut self, applied: Applied) -> (action: Action)
        requires
            old(self)@.pending is None,
        ensures
            final(self).stepped(action) == machine::after_applied(old(self)@, applied@),
    {
        match applied {
            Applied::Value(value) => {
                self.push_value(value);
                Action::Continue
            },
            Applied::Arithmetic(operator, left, right) => {
                self.pending = Some(Request::Arithmetic { operator, left, right });
                Action::Number(Request::Arithmetic { operator, left, right })
            },
            Applied::Failed(error) => self.fail(error),
            Applied::Stuck => self.stuck(),
        }
    }

    /// Starts on `expr`: puts its value on the stack, or the tasks that
    /// will do so.
    pub fn eval_expr(&mut self, expr: &'a Expr) -> (action: Action)
        ensures
            final(self).stepped(action) == machine::eval_expr(old(self)@, expr@),
    {
        match expr {
            Expr::Unary { op, right } => {
                self.push_task(Task::Unary(op));
                self.push_task(Task::Expr(&**right));
                Action::Continue
            },
            Expr::Binary { left, op, right } => {
                self.push_task(Task::Binary(op));
                self.push_task(Task::Expr(&**right));
                self.push_task(Task::Expr(&**left));
                Action::Continue
            },
            Expr::Grouping(inner) => {
                self.push_task(Task::Expr(&**inner));
                Action::Continue
            },
            Expr::Literal(literal) => match literal {
                Literal::Number(digits) => {
                    self.pending = Some(Request::Literal(digits.clone()));
                    Action::Number(Request::Literal(digits.clone()))
                },
                Literal::Str(text) => {
                    self.push_value(Value::Str(text.clone()));
                    Action::Continue
                },
                Literal::Bool(b) => {
                    self.push_value(Value::Bool(*b));
                    Action::Continue
                },
                Literal::Nil => {
                    self.push_value(Value::Nil);
                    Action::Continue
                },
            },
            Expr::Variable { id, variable } => self.eval_variable(*id, variable),
            Expr::Assignment { id, variable, expr } => {
                self.push_task(Task::Assign { id: *id, variable });
                self.push_task(Task::Expr(&**expr));
                Action::Continue
            },
            Expr::Logical { left, op, right } => {
                self.push_task(Task::Logical { op, right: &**right });
                self.push_task(Task::Expr(&**left));
                Action::Continue
            },
            Expr::FunCall { callee, paren, args } => {
                self.push_task(Task::Call { paren, args });
                self.push_task(Task::Expr(&**callee));
                proof {
                    assert(expr@->FunCall_args =~= exprs_view(args@));
                }
                Action::Continue
            },
        }
    }

    /// Puts what the variable of `variable` holds at its use `id` on the
    /// stack.
    fn eval_variable(&mut self, id: usize, variable: &Token) -> (action: Action)
        ensures
            final(self).stepped(action) == match machine::get(old(self)@, id as nat, variable@) {
                Some(value) => machine::go_on(machine::push_value(old(self)@, value)),
                None => machine::stuck(old(self)@),
            },
    {
        let found = match variable.identifier() {
            Some(name) => self.get(id, name),
            None => None,
        };
        match found {
            Some(value) => {
                self.push_value(value);
                Action::Continue
            },
            None => self.stuck(),
        }
    }

    /// Declares the variable of `variable` with `value` in the frame
    /// that is running.
    fn eval_var_decl(&mut self, variable: &Token, value: Value) -> (action: Action)
        ensures
            final(self).stepped(action) == machine::or_stuck(
                old(self)@,
                machine::declare(old(self)@, variable@, value@),
            ),
    {
        let declared = match variable.identifier() {
            Some(name) => self.declare(name.clone(), value),
            None => false,
        };
        if declared {
            Action::Continue
        } else {
            self.stuck()
        }
    }

    /// Declares a function: notes it with the frame that is running, and
    /// declares its name in that frame.
    fn eval_fun_decl(&mut self, name: &'a Token, params: &'a Vec<Token>, body: &'a Stmt) -> (action:
        Action)
        ensures
            final(self).stepped(action) == machine::eval_stmt(
                old(self)@,
                StmtView::FunDecl {
                    name: name@,
                    params: crate::lexer::tokens_view(params@),
                    body: Box::new(body@),
                },
            ),
    {
        let ghost before = self@.functions;
        let function = LoxFunction::new(name, params, body, self.environment);
        let place = self.functions.len();
        self.functions.push(function);
        assert(self@.functions =~= before.push(function@));
        self.eval_var_decl(name, Value::Callable(place))
    }

    /// Starts on `stmt`: does what it says, or puts the tasks on the
    /// stack that will do so.
    pub fn eval_stmt(&mut self, stmt: &'a Stmt) -> (action: Action)
        ensures
            final(self).stepped(action) == machine::eval_stmt(old(self)@, stmt@),
    {
        match stmt {
            Stmt::ExprStmt { expr } => {
                self.push_task(Task::Discard);
                self.push_task(Task::Expr(&**expr));
                Action::Continue
            },
            Stmt::PrintStmt { expr } => {
                self.push_task(Task::Print);
                self.push_task(Task::Expr(&**expr));
                Action::Continue
            },
            Stmt::VarDecl { variable, expr } => match expr {
                Some(expr) => {
                    self.push_task(Task::Declare(variable));
                    self.push_task(Task::Expr(&**expr));
                    Action::Continue
                },
                None => self.eval_var_decl(variable, Value::Nil),
            },
            Stmt::Block { stmts } => {
                self.begin_scope();
                self.push_task(Task::Block { stmts, next: 0 });
                proof {
                    assert(stmt@->Block_stmts =~= stmts_view(stmts@));
                }
                Action::Continue
            },
            Stmt::If { condition, then_stmt, else_stmt } => {
                let else_stmt: Option<&'a Stmt> = match else_stmt {
                    Some(stmt) => Some(&**stmt),
                    None => None,
                };
                self.push_task(Task::Branch { then_stmt: &**then_stmt, else_stmt });
                self.push_task(Task::Expr(&**condition));
                Action::Continue
            },
            Stmt::While { condition, body } => {
                self.push_task(Task::Loop { condition: &**condition, body: &**body });
                Action::Continue
            },
            Stmt::FunDecl { name, params, body } => self.eval_fun_decl(name, params, &**body),
            Stmt::Return { expr } => {
                self.push_task(Task::Return);
                self.push_task(Task::Expr(&**expr));
                Action::Continue
            },
        }
    }

    /// Calls `callee` with the arguments `args`, which are still to be
    /// evaluated: checks that it is a function and takes as many
    /// arguments, and puts the evaluation of the arguments and the entry
    /// into the function on the stack.
    fn eval_fun_call(&mut self, callee: Value, paren: &'a Token, args: &'a Vec<Box<Expr>>) -> (action:
        Action)
        ensures
            final(self).stepped(action) == machine::eval_fun_call(
                old(self)@,
                callee@,
                paren@,
                exprs_view(args@),
            ),
    {
        match callee {
            Value::Callable(function) => {
                if function >= self.functions.len() {
                    return self.stuck();
                }
                if self.functions[function].arity() != args.len() {
                    return self.fail(RuntimeError::CallableBadArgsCount(paren.clone()));
                }
                let ghost before = self@;
                let ghost list = exprs_view(args@);
                self.push_task(Task::Invoke { function });
                let ghost started = self@.tasks;
                let mut left = args.len();
                while left > 0
                    invariant
                        left <= args.len(),
                        list == exprs_view(args@),
                        self@ == (InterpreterView { tasks: self@.tasks, ..before }),
                        machine::schedule(started, list, list.len()) == machine::schedule(
                            self@.tasks,
                            list,
                            left as nat,
                        ),
                    decreases left,
                {
                    left -= 1;
                    self.push_task(Task::Expr(&*args[left]));
                }
                Action::Continue
            },
            _ => self.fail(RuntimeError::ExpectedCallable(paren.clone())),
        }
    }

    /// Enters the function at `function` with the topmost values as its
    /// arguments: its parameters take them in a new frame inside the
    /// frame in which the function was declared, and its body is put on
    /// the stack, with the way back behind it.
    #[verifier::loop_isolation(false)]
    fn call(&mut self, function: usize) -> (action: Action)
        ensures
            final(self).stepped(action) == machine::call(old(self)@, function as nat),
    {
        if function >= self.functions.len() {
            return self.stuck();
        }
        let callee = self.functions[function];
        let count = callee.arity();
        if self.values.len() < count {
            return self.stuck();
        }
        let base = self.values.len() - count;
        let params = callee.params();
        let ghost names = callee@.params;
        let ghost args = self@.values.subrange(base as int, self@.values.len() as int);
        let mut frame = Environment::with_enclosing(callee.environment());
        let mut from: usize = 0;
        while from < count
            invariant
                from <= count,
                count == params.len(),
                base + count == self.values.len(),
                names == crate::lexer::tokens_view(params@),
                args == self@.values.subrange(base as int, self@.values.len() as int),
                *self == *old(self),
                frame@.enclosing == Some(callee@.environment),
                machine::declare_params(names, args, 0, Map::empty()) == machine::declare_params(
                    names,
                    args,
                    from as nat,
                    frame@.variables,
                ),
            decreases count - from,
        {
            match params[from].identifier() {
                Some(name) => {
                    frame.declare(name.clone(), self.values[base + from].clone());
                },
                None => {
                    return self.stuck();
                },
            }
            from += 1;
        }
        let ghost before = self@;
        self.values.truncate(base);
        assert(self@.values =~= before.values.subrange(0, base as int));
        let place = self.environments.len();
        self.environments.push(frame);
        assert(self@.environments =~= before.environments.push(frame@));
        let around = self.environment;
        self.environment = place;
        self.push_task(Task::Leave { environment: around });
        self.push_task(Task::Stmt(callee.body()));
        Action::Continue
    }

    /// Goes on with a run of statements: puts the statement at `next` on
    /// the stack, behind it the run from the next statement on.
    fn eval_next(&mut self, task: Task<'a>, stmts: &'a Vec<Stmt>, next: usize)
        requires
            next < stmts.len(),
        ensures
            final(self)@ == machine::eval_next(
                old(self)@,
                task@,
                stmts_view(stmts@),
                next as nat,
            ),
    {
        self.push_task(task);
        self.push_task(Task::Stmt(&stmts[next]));
    }

    /// The end of a block: closes its scope.
    fn eval_block(&mut self) -> (action: Action)
        ensures
            final(self).stepped(action) == machine::or_stuck(
                old(self)@,
                machine::end_scope(old(self)@),
            ),
    {
        if self.end_scope() {
            Action::Continue
        } else {
            self.stuck()
        }
    }

    /// Writes `value`.
    fn eval_print_stmt(&mut self, value: Value) -> (action: Action)
        ensures
            final(self).stepped(action) == match machine::printed(old(self)@, value@) {
                Some(line) => Stepped { state: old(self)@, action: ActionView::Print(line) },
                None => machine::stuck(old(self)@),
            },
    {
        match self.printed(&value) {
            Some(line) => Action::Print(line),
            None => self.stuck(),
        }
    }

    /// Runs one of the two statements of an `if`, as `value` tells.
    fn eval_if_stmt(&mut self, value: Value, then_stmt: &'a Stmt, else_stmt: Option<&'a Stmt>)
        ensures
            final(self)@ == if value@.is_truthy() {
                machine::push_task(old(self)@, TaskView::Stmt(then_stmt@))
            } else {
                match else_stmt {
                    Some(stmt) => machine::push_task(old(self)@, TaskView::Stmt(stmt@)),
                    None => old(self)@,
                }
            },
    {
        if value.is_truthy() {
            self.push_task(Task::Stmt(then_stmt));
        } else if let Some(stmt) = else_stmt {
            self.push_task(Task::Stmt(stmt));
        }
    }

    /// Runs the body of a loop and the loop again, if `value` tells so.
    fn eval_while_stmt(&mut self, value: Value, condition: &'a Expr, body: &'a Stmt)
        ensures
            final(self)@ == if value@.is_truthy() {
                machine::push_task(
                    machine::push_task(
                        old(self)@,
                        TaskView::Loop { condition: condition@, body: body@ },
                    ),
                    TaskView::Stmt(body@),
                )
            } else {
                old(self)@
            },
    {
        if value.is_truthy() {
            self.push_task(Task::Loop { condition, body });
            self.push_task(Task::Stmt(body));
        }
    }

    /// Decides by `value`, the left operand of `and` or `or`, whether the
    /// right operand is evaluated. The result is `true` or `false`,
    /// whatever the operands are.
    fn eval_logical_expr(&mut self, value: Value, op: &Token, right: &'a Expr) -> (action: Action)
        ensures
            final(self).stepped(action) == match op@.kind {
                crate::lexer::TokenKindView::Or => {
                    if value@.is_truthy() {
                        machine::go_on(machine::push_value(old(self)@, ValueView::Bool(true)))
                    } else {
                        machine::go_on(
                            machine::push_task(
                                machine::push_task(old(self)@, TaskView::Truth),
                                TaskView::Expr(right@),
                            ),
                        )
                    }
                },
                crate::lexer::TokenKindView::And => {
                    if value@.is_falsy() {
                        machine::go_on(machine::push_value(old(self)@, ValueView::Bool(false)))
                    } else {
                        machine::go_on(
                            machine::push_task(
                                machine::push_task(old(self)@, TaskView::Truth),
                                TaskView::Expr(right@),
                            ),
                        )
                    }
                },
                _ => machine::stuck(old(self)@),
            },
    {
        match op.kind() {
            TokenKind::Or => {
                if value.is_truthy() {
                    self.push_value(Value::Bool(true));
                } else {
                    self.push_task(Task::Truth);
                    self.push_task(Task::Expr(right));
                }
                Action::Continue
            },
            TokenKind::And => {
                if value.is_falsy() {
                    self.push_value(Value::Bool(false));
                } else {
                    self.push_task(Task::Truth);
                    self.push_task(Task::Expr(right));
                }
                Action::Continue
            },
            _ => self.stuck(),
        }
    }

    /// Assigns the topmost value, which stays where it is, to the
    /// variable of `variable` at its use `id`.
    fn eval_assignment(&mut self, id: usize, variable: &Token) -> (action: Action)
        requires
            old(self)@.values.len() > 0,
        ensures
            final(self).stepped(action) == machine::or_stuck(
                old(self)@,
                machine::assign(old(self)@, id as nat, variable@, old(self)@.values.last()),
            ),
    {
        let value = self.values[self.values.len() - 1].clone();
        let assigned = match variable.identifier() {
            Some(name) => self.assign(id, name, &value),
            None => false,
        };
        if assigned {
            Action::Continue
        } else {
            self.stuck()
        }
    }

    /// Does what `task` asks for. The task is off the stack, and no
    /// `return` is on its way.
    fn perform(&mut self, task: Task<'a>) -> (action: Action)
        requires
            old(self)@.pending is None,
        ensures
            final(self).stepped(action) == machine::perform(old(self)@, task@),
    {
        match task {
            Task::Program { stmts, next } => {
                if next < stmts.len() {
                    self.eval_next(Task::Program { stmts, next: next + 1 }, stmts, next);
                }
                Action::Continue
            },
            Task::Stmt(stmt) => self.eval_stmt(stmt),
            Task::Expr(expr) => self.eval_expr(expr),
            Task::Block { stmts, next } => {
                if next < stmts.len() {
                    self.eval_next(Task::Block { stmts, next: next + 1 }, stmts, next);
                    Action::Continue
                } else {
                    self.eval_block()
                }
            },
            Task::Leave { environment } => {
                self.environment = environment;
                self.push_value(Value::Nil);
                Action::Continue
            },
            Task::Loop { condition, body } => {
                self.push_task(Task::Test { condition, body });
                self.push_task(Task::Expr(condition));
                Action::Continue
            },
            Task::Invoke { function } => self.call(function),
            Task::Assign { id, variable } => {
                if self.values.len() == 0 {
                    self.stuck()
                } else {
                    self.eval_assignment(id, variable)
                }
            },
            _ => {
                let value = match self.pop_value() {
                    Some(value) => value,
                    None => {
                        return self.stuck();
                    },
                };
                match task {
                    Task::Print => self.eval_print_stmt(value),
                    Task::Discard => Action::Continue,
                    Task::Declare(variable) => self.eval_var_decl(variable, value),
                    Task::Return => {
                        self.signal = ControlSignal::Return(value);
                        Action::Continue
                    },
                    Task::Branch { then_stmt, else_stmt } => {
                        self.eval_if_stmt(value, then_stmt, else_stmt);
                        Action::Continue
                    },
                    Task::Test { condition, body } => {
                        self.eval_while_stmt(value, condition, body);
                        Action::Continue
                    },
                    Task::Unary(op) => {
                        let applied = Self::eval_unary_expr(op, value);
                        self.after_applied(applied)
                    },
                    Task::Binary(op) => match self.pop_value() {
                        Some(left) => {
                            let applied = Self::eval_binary_expr(left, op, value);
                            self.after_applied(applied)
                        },
                        None => self.stuck(),
                    },
                    Task::Logical { op, right } => self.eval_logical_expr(value, op, right),
                    Task::Truth => {
                        self.push_value(Value::Bool(value.is_truthy()));
                        Action::Continue
                    },
                    Task::Call { paren, args } => self.eval_fun_call(value, paren, args),
                    _ => self.stuck(),
                }
            },
        }
    }

    /// Takes a step on the way of a `return`: gives up the topmost task,
    /// unless it is where the value is going.
    fn unwind(&mut self, value: Value) -> (action: Action)
        requires
            old(self)@.tasks.len() > 0,
            old(self)@.signal == ControlSignalView::Return(value@),
        ensures
            final(self).stepped(action) == machine::unwind(old(self)@, value@),
    {
        let task = self.tasks[self.tasks.len() - 1];
        match task {
            Task::Block { .. } => {
                self.pop_task();
                if self.end_scope() {
                    Action::Continue
                } else {
                    self.stuck()
                }
            },
            Task::Loop { .. } => {
                self.signal = ControlSignal::Normal;
                Action::Continue
            },
            Task::Program { .. } => {
                self.signal = ControlSignal::Normal;
                Action::Continue
            },
            Task::Leave { environment } => {
                self.pop_task();
                self.environment = environment;
                self.signal = ControlSignal::Normal;
                self.push_value(value);
                Action::Continue
            },
            _ => {
                self.pop_task();
                Action::Continue
            },
        }
    }

    /// Takes one step. A machine that waits for a number takes it from
    /// `event`, and asks again if `event` holds none. A machine with no
    /// work left has finished.
    ///
    /// A step in a sound state, such as the states of a program that
    /// [`crate::run_source_code`] has returned, leads to a sound state and
    /// does not get the machine stuck. It leaves the frame that the
    /// machine goes back to when its work is done or given up; where the
    /// step ends the program in an error, that frame is running again.
    pub fn step(&mut self, event: Event) -> (action: Action)
        ensures
            final(self).stepped(action) == machine::step(old(self)@, event),
            sound(old(self)@) ==> sound(final(self)@) && !(action@ is Stuck),
            sound(old(self)@) ==> home(final(self)@) == home(old(self)@),
            sound(old(self)@) && action@ is Failed ==> final(self)@.environment == home(
                old(self)@,
            ),
    {
        proof {
            reveal(machine::step);
            if sound(self@) {
                lemma_step_sound(self@, event);
                lemma_step_keeps_home(self@, event);
            }
        }
        if let Some(request) = &self.pending {
            return match event {
                Event::Number(bits) => {
                    self.pending = None;
                    self.push_value(Value::Number(bits));
                    Action::Continue
                },
                Event::Resume => Action::Number(request.clone()),
            };
        }
        if self.tasks.len() == 0 {
            return Action::Finished;
        }
        if let ControlSignal::Return(value) = &self.signal {
            let value = value.clone();
            return self.unwind(value);
        }
        match self.pop_task() {
            Some(task) => self.perform(task),
            None => Action::Finished,
        }
    }

    /// Runs the machine for up to `budget` steps, or until the program
    /// has ended: finished, failed or stuck. Every number that the
    /// machine asks for is taken from `compute`. Returns the lines
    /// written, what the last step asked for, and the number of steps
    /// taken.
    ///
    /// If `compute` gives the numbers that a function `answer` gives,
    /// the run is the one that [`machine::drive`] describes. A run from a
    /// sound state leads to a sound state and does not get the machine
    /// stuck; where an error ends it, the frame is running again that the
    /// machine goes back to when its work is done.
    #[verifier::rlimit(50)]
    pub fn run<F: Fn(&Request) -> u64>(&mut self, compute: &F, budget: usize) -> (outcome: (
        Vec<Printed>,
        Action,
        usize,
    ))
        requires
            forall|request: &Request| call_requires(compute, (request,)),
        ensures
            outcome.2 <= budget,
            outcome.2 < budget ==> (outcome.1@ is Finished || outcome.1@ is Failed
                || outcome.1@ is Stuck),
            sound(old(self)@) ==> sound(final(self)@) && !(outcome.1@ is Stuck),
            sound(old(self)@) ==> home(final(self)@) == home(old(self)@),
            sound(old(self)@) && outcome.1@ is Failed ==> final(self)@.environment == home(
                old(self)@,
            ),
            forall|answer: spec_fn(RequestView) -> u64| #[trigger]
                answers(compute, answer) ==> machine::drive(old(self)@, answer, outcome.2 as nat)
                    == (machine::Run {
                    state: final(self)@,
                    lines: lines_view(outcome.0@),
                    last: outcome.1@,
                }),
    {
        let ghost start = self@;
        let mut lines: Vec<Printed> = Vec::new();
        let mut last = Action::Continue;
        let mut steps: usize = 0;
        assert(lines_view(lines@) =~= Seq::empty());
        while steps < budget
            invariant
                steps <= budget,
                start == old(self)@,
                sound(start) ==> sound(self@) && !(last@ is Stuck),
                sound(start) ==> home(self@) == home(start),
                !(last@ is Failed),
                forall|request: &Request| call_requires(compute, (request,)),
                forall|answer: spec_fn(RequestView) -> u64| #[trigger]
                    answers(compute, answer) ==> machine::drive(start, answer, steps as nat)
                        == (machine::Run {
                        state: self@,
                        lines: lines_view(lines@),
                        last: last@,
                    }),
            decreases budget - steps,
        {
            let ghost before = self@;
            let ghost written = lines_view(lines@);
            let ghost count = steps as nat;
            let event = match &self.pending {
                Some(request) => Event::Number(compute(request)),
                None => Event::Resume,
            };
            proof {
                assert forall|answer: spec_fn(RequestView) -> u64| #[trigger]
                    answers(compute, answer) implies event == machine::answered(before, answer) by {
                    if let Some(request) = self.pending {
                        assert(call_ensures(compute, (&request,), event->Number_0));
                    }
                }
            }
            let action = self.step(event);
            steps += 1;
            let ghost taken = action@;
            proof {
                assert forall|answer: spec_fn(RequestView) -> u64| #[trigger]
                    answers(compute, answer) implies machine::drive(start, answer, count + 1)
                    == (machine::Run {
                    state: self@,
                    lines: match taken {
                        ActionView::Print(line) => written.push(line),
                        _ => written,
                    },
                    last: match taken {
                        ActionView::Print(_) => ActionView::Continue,
                        other => other,
                    },
                }) by {
                    assert(machine::drive(start, answer, count) == (machine::Run {
                        state: before,
                        lines: written,
                        last: last@,
                    }));
                    assert(event == machine::answered(before, answer));
                    assert(machine::step(before, event) == (Stepped { state: self@, action: taken }));
                }
            }
            match action {
                Action::Print(line) => {
                    last = Action::Continue;
                    lines.push(line);
                    assert(lines_view(lines@) =~= written.push(line@));
                },
                Action::Finished => {
                    return (lines, Action::Finished, steps);
                },
                Action::Failed(error) => {
                    return (lines, Action::Failed(error), steps);
                },
                Action::Stuck => {
                    return (lines, Action::Stuck, steps);
                },
                other => {
                    last = other;
                },
            }
        }
        (lines, last, steps)
    }
}

/// Whether `compute` gives the numbers that `answer` gives.
pub open spec fn answers<F: Fn(&Request) -> u64>(
    compute: &F,
    answer: spec_fn(RequestView) -> u64,
) -> bool {
    forall|request: Request, bits: u64|
        call_ensures(compute, (&request,), bits) ==> bits == answer(request@)
}

/// The mathematical values of the lines written.
pub open spec fn lines_view(lines: Seq<Printed>) -> Seq<PrintedView> {
    Seq::new(lines.len(), |i: int| lines[i]@)
}

} // verus!
