//! Scopes and calls are paired. Every block that is entered is left, and
//! every call goes back to the frame from which it was made: when the
//! block or the call ends, when a `return` is on its way, and when an
//! error ends the program. So the frame that is running when the work of
//! a machine is done or given up is the same after every step.
use super::environment::EnvironmentView;
use super::machine::{
    answered, drive, drop_task, frames_wf, given_up, lemma_perform_keeps_frames, perform,
    push_task, schedule, step, tasks_lead_back, unwind, unwound, Event, InterpreterView,
    RequestView, TaskView,
};
use super::progress::{frames_ordered, lemma_drive_sound, lemma_step_sound, sound};
use crate::parser::{ControlSignalView, ExprView, StmtView, ValueView};
use vstd::prelude::*;

verus! {

/// The frame that is running when all the work of `state` is done or
/// given up: every block that is under way has been left, and every call
/// has gone back to the frame from which it was made.
pub open spec fn home(state: InterpreterView) -> nat {
    unwound(state.environments, state.tasks, state.tasks.len(), state.environment)
}

/// Where work is given up depends on the tasks that are given up alone.
pub proof fn lemma_unwound_prefix(
    frames: Seq<EnvironmentView>,
    tasks: Seq<TaskView>,
    others: Seq<TaskView>,
    count: nat,
    environment: nat,
)
    requires
        count <= tasks.len(),
        count <= others.len(),
        forall|i: int| 0 <= i < count ==> tasks[i] == others[i],
    ensures
        unwound(frames, tasks, count, environment) == unwound(frames, others, count, environment),
    decreases count,
{
    if count > 0 {
        lemma_unwound_prefix(
            frames,
            tasks,
            others,
            (count - 1) as nat,
            given_up(frames, tasks[count - 1], environment),
        );
    }
}

/// To give up a task and the tasks below it is to give up the tasks
/// below it where the task has led.
pub proof fn lemma_unwound_pushed(frames: Seq<EnvironmentView>)
    ensures
        forall|tasks: Seq<TaskView>, task: TaskView, environment: nat|
            #[trigger] unwound(frames, tasks.push(task), tasks.push(task).len(), environment)
                == unwound(frames, tasks, tasks.len(), given_up(frames, task, environment)),
{
    assert forall|tasks: Seq<TaskView>, task: TaskView, environment: nat|
        #[trigger] unwound(frames, tasks.push(task), tasks.push(task).len(), environment)
            == unwound(frames, tasks, tasks.len(), given_up(frames, task, environment)) by {
        lemma_unwound_prefix(
            frames,
            tasks.push(task),
            tasks,
            tasks.len(),
            given_up(frames, task, environment),
        );
    }
}

/// Where work is given up stays the same when frames are added and the
/// variables of frames change.
pub proof fn lemma_unwound_kept(
    frames: Seq<EnvironmentView>,
    later: Seq<EnvironmentView>,
    tasks: Seq<TaskView>,
    count: nat,
    environment: nat,
)
    requires
        environment < frames.len(),
        frames_ordered(frames),
        tasks_lead_back(tasks, frames.len()),
        frames.len() <= later.len(),
        forall|i: int| 0 <= i < frames.len() ==> (#[trigger] later[i]).enclosing == frames[i].enclosing,
    ensures
        unwound(later, tasks, count, environment) == unwound(frames, tasks, count, environment),
    decreases count,
{
    if count != 0 && count <= tasks.len() {
        assert(later[environment as int].enclosing == frames[environment as int].enclosing);
        lemma_unwound_kept(
            frames,
            later,
            tasks,
            (count - 1) as nat,
            given_up(frames, tasks[count - 1], environment),
        );
    }
}

/// The evaluation of arguments is given up where it stands.
pub proof fn lemma_unwound_scheduled(
    frames: Seq<EnvironmentView>,
    tasks: Seq<TaskView>,
    args: Seq<ExprView>,
    left: nat,
    environment: nat,
)
    ensures
        unwound(
            frames,
            schedule(tasks, args, left),
            schedule(tasks, args, left).len(),
            environment,
        ) == unwound(frames, tasks, tasks.len(), environment),
    decreases left,
{
    if left != 0 && left <= args.len() {
        lemma_unwound_pushed(frames);
        lemma_unwound_scheduled(
            frames,
            tasks.push(TaskView::Expr(args[left - 1])),
            args,
            (left - 1) as nat,
            environment,
        );
    }
}

/// The step of a task leaves the frame that the machine goes back to.
pub proof fn lemma_perform_keeps_home(rest: InterpreterView, task: TaskView)
    requires
        frames_wf(push_task(rest, task)),
        !(perform(rest, task).action is Stuck),
    ensures
        home(perform(rest, task).state) == home(push_task(rest, task)),
{
    let frames = rest.environments;
    let after = perform(rest, task).state;
    let back = given_up(frames, task, rest.environment);
    assert(push_task(rest, task).tasks[rest.tasks.len() as int] == task);
    assert(frames_wf(rest)) by {
        assert forall|i: int| 0 <= i < rest.tasks.len() implies match #[trigger] rest.tasks[i] {
            TaskView::Leave { environment } => environment < frames.len(),
            _ => true,
        } by {
            assert(push_task(rest, task).tasks[i] == rest.tasks[i]);
        }
    }
    lemma_perform_keeps_frames(rest, task);
    lemma_unwound_pushed(frames);
    lemma_unwound_pushed(after.environments);
    lemma_unwound_kept(frames, after.environments, rest.tasks, rest.tasks.len(), back);
    assert(home(push_task(rest, task)) == unwound(frames, rest.tasks, rest.tasks.len(), back));
    if let TaskView::Call { paren, args } = task {
        if rest.values.len() > 0 {
            if let ValueView::Callable(function) = rest.values.last() {
                lemma_unwound_scheduled(
                    frames,
                    rest.tasks.push(TaskView::Invoke { function }),
                    args,
                    args.len(),
                    rest.environment,
                );
            }
        }
    }
}

/// The step of a `return` on its way leaves the frame that the machine
/// goes back to.
pub proof fn lemma_unwind_keeps_home(state: InterpreterView, value: ValueView)
    requires
        frames_wf(state),
        state.tasks.len() > 0,
        !(unwind(state, value).action is Stuck),
    ensures
        home(unwind(state, value).state) == home(state),
{
    let rest = drop_task(state);
    assert(state.tasks =~= rest.tasks.push(state.tasks.last()));
    lemma_unwound_pushed(state.environments);
}

/// Scopes and calls are paired: a step that does not get the machine
/// stuck leaves the frame that the machine goes back to when its work is
/// done or given up. A step that ends the program in an error has gone
/// back to it.
pub proof fn lemma_step_keeps_home(state: InterpreterView, event: Event)
    requires
        frames_wf(state),
        !(step(state, event).action is Stuck),
    ensures
        home(step(state, event).state) == home(state),
        step(state, event).action is Failed ==> step(state, event).state.environment == home(
            state,
        ),
{
    reveal(step);
    if state.pending is None && state.tasks.len() > 0 {
        let rest = drop_task(state);
        assert(state.tasks =~= rest.tasks.push(state.tasks.last()));
        assert(push_task(rest, state.tasks.last()) == state);
        match state.signal {
            ControlSignalView::Return(value) => lemma_unwind_keeps_home(state, value),
            ControlSignalView::Normal => lemma_perform_keeps_home(rest, state.tasks.last()),
        }
    }
}

/// A machine that starts on a program goes back to the outermost frame.
pub proof fn lemma_program_home(bindings: Map<nat, nat>, stmts: Seq<StmtView>)
    ensures
        home(push_task(super::initial(bindings), TaskView::Program { stmts, next: 0 })) == 0,
{
    let start = super::initial(bindings);
    lemma_unwound_pushed(start.environments);
    assert(start.tasks.len() == 0);
}

/// A run from a sound state leaves the frame that the machine goes back
/// to, whatever numbers it is handed. A run that an error has ended has
/// gone back to it.
pub proof fn lemma_drive_keeps_home(
    state: InterpreterView,
    answer: spec_fn(RequestView) -> u64,
    count: nat,
)
    requires
        sound(state),
    ensures
        home(drive(state, answer, count).state) == home(state),
        drive(state, answer, count).last is Failed ==> drive(state, answer, count).state.environment
            == home(state),
    decreases count,
{
    if count > 0 {
        lemma_drive_keeps_home(state, answer, (count - 1) as nat);
        lemma_drive_sound(state, answer, (count - 1) as nat);
        let before = drive(state, answer, (count - 1) as nat);
        lemma_step_sound(before.state, answered(before.state, answer));
        lemma_step_keeps_home(before.state, answered(before.state, answer));
    }
}

} // verus!
