//! The life of a task's process: when it is started, interrupted and killed, and
//! what is reported of it. The host runs the process and hands in what happens.

use crate::task::TaskEvent;
use crate::text::concat;
use vstd::prelude::*;

verus! {

/// Where a task is in its life.
#[derive(Debug, Clone, Copy, PartialEq, Eq, Structural)]
pub enum RunState {
    /// It waits for its turn to run.
    Waiting,
    /// Its process runs.
    Running,
    /// Its process was interrupted and may end by itself.
    Stopping,
    /// Its process was killed and has not been seen to end yet.
    Killed,
    /// It is over.
    Over,
}

/// What happens to a task.
#[derive(Debug)]
pub enum RunEvent {
    /// It is its turn.
    Turn,
    /// There will be no turn: the run is being shut down.
    NoTurn,
    /// Its process could not be started.
    SpawnFailed { error: String },
    /// Its process wrote a line.
    Line { line: String },
    /// Its process has ended.
    Exited { success: bool },
    /// It is to be interrupted.
    Interrupt,
    /// It is to be killed.
    Kill,
}

/// What the host has to do.
#[derive(Debug)]
pub enum RunAction {
    /// Report this to the engine.
    Report(TaskEvent),
    /// Start the process.
    Spawn,
    /// Interrupt the process.
    Interrupt,
    /// Kill the process.
    Kill,
}

/// What happens to a task, as text.
pub enum RunEventView {
    Turn,
    NoTurn,
    SpawnFailed(Seq<char>),
    Line(Seq<char>),
    Exited(bool),
    Interrupt,
    Kill,
}

impl View for RunEvent {
    type V = RunEventView;

    open spec fn view(&self) -> RunEventView {
        match self {
            RunEvent::Turn => RunEventView::Turn,
            RunEvent::NoTurn => RunEventView::NoTurn,
            RunEvent::SpawnFailed { error } => RunEventView::SpawnFailed(error@),
            RunEvent::Line { line } => RunEventView::Line(line@),
            RunEvent::Exited { success } => RunEventView::Exited(*success),
            RunEvent::Interrupt => RunEventView::Interrupt,
            RunEvent::Kill => RunEventView::Kill,
        }
    }
}

/// What the host has to do, as text.
pub enum RunActionView {
    Started(usize),
    Line(usize, Seq<char>),
    Finished(usize, bool),
    Spawn,
    Interrupt,
    Kill,
}

impl View for RunAction {
    type V = RunActionView;

    open spec fn view(&self) -> RunActionView {
        match self {
            RunAction::Report(TaskEvent::Started { task_id }) => RunActionView::Started(*task_id),
            RunAction::Report(TaskEvent::Line { task_id, line }) => RunActionView::Line(
                *task_id,
                line@,
            ),
            RunAction::Report(TaskEvent::Finished { task_id, success }) => RunActionView::Finished(
                *task_id,
                *success,
            ),
            RunAction::Spawn => RunActionView::Spawn,
            RunAction::Interrupt => RunActionView::Interrupt,
            RunAction::Kill => RunActionView::Kill,
        }
    }
}

/// The actions of a sequence.
pub open spec fn action_views(v: Seq<RunAction>) -> Seq<RunActionView> {
    v.map_values(|a: RunAction| a@)
}

/// The life of a task after an event, and what the host has to do.
///
/// A task that is stopped before its turn never starts. An interrupted process
/// may take its time to end; a killed one is waited for. Either way, and where
/// it cannot be started, the task has failed. Nothing happens to a task that is
/// over, and what does not fit its state is ignored.
pub open spec fn after_run_event(state: RunState, id: usize, event: RunEventView) -> (
    RunState,
    Seq<RunActionView>,
) {
    let failed = (RunState::Over, seq![RunActionView::Finished(id, false)]);
    let started = state == RunState::Running || state == RunState::Stopping || state
        == RunState::Killed;
    match event {
        RunEventView::Turn => if state == RunState::Waiting {
            (RunState::Running, seq![RunActionView::Started(id), RunActionView::Spawn])
        } else {
            (state, Seq::empty())
        },
        RunEventView::NoTurn => if state == RunState::Waiting {
            (RunState::Over, Seq::empty())
        } else {
            (state, Seq::empty())
        },
        RunEventView::SpawnFailed(error) => if started {
            (
                RunState::Over,
                seq![
                    RunActionView::Line(id, "error: failed to spawn: "@ + error),
                    RunActionView::Finished(id, false),
                ],
            )
        } else {
            (state, Seq::empty())
        },
        RunEventView::Line(line) => if started {
            (state, seq![RunActionView::Line(id, line)])
        } else {
            (state, Seq::empty())
        },
        RunEventView::Exited(success) => if started {
            (
                RunState::Over,
                seq![RunActionView::Finished(id, success && state == RunState::Running)],
            )
        } else {
            (state, Seq::empty())
        },
        RunEventView::Interrupt => match state {
            RunState::Waiting => failed,
            RunState::Running => (RunState::Stopping, seq![RunActionView::Interrupt]),
            _ => (state, Seq::empty()),
        },
        RunEventView::Kill => match state {
            RunState::Waiting => failed,
            RunState::Running => (RunState::Killed, seq![RunActionView::Kill]),
            RunState::Stopping => (RunState::Killed, seq![RunActionView::Kill]),
            _ => (state, Seq::empty()),
        },
    }
}

/// A task that the host runs.
#[derive(Debug)]
pub struct TaskRun {
    pub task_id: usize,
    pub state: RunState,
}

impl TaskRun {
    /// A task that waits for its turn.
    pub fn new(task_id: usize) -> (r: Self)
        ensures
            r.task_id == task_id,
            r.state == RunState::Waiting,
    {
        TaskRun { task_id, state: RunState::Waiting }
    }

    /// Takes in an event; returns what the host has to do, in order.
    pub fn step(&mut self, event: RunEvent) -> (r: Vec<RunAction>)
        ensures
            (final(self).state, action_views(r@)) == after_run_event(
                old(self).state,
                old(self).task_id,
                event@,
            ),
            final(self).task_id == old(self).task_id,
    {
        let ghost want = after_run_event(self.state, self.task_id, event@);
        let id = self.task_id;
        let state = self.state;
        let started = state == RunState::Running || state == RunState::Stopping || state
            == RunState::Killed;
        let mut out: Vec<RunAction> = Vec::new();
        match event {
            RunEvent::Turn => {
                if state == RunState::Waiting {
                    self.state = RunState::Running;
                    out.push(RunAction::Report(TaskEvent::Started { task_id: id }));
                    out.push(RunAction::Spawn);
                }
            },
            RunEvent::NoTurn => {
                if state == RunState::Waiting {
                    self.state = RunState::Over;
                }
            },
            RunEvent::SpawnFailed { error } => {
                if started {
                    self.state = RunState::Over;
                    let line = concat("error: failed to spawn: ", error.as_str());
                    out.push(RunAction::Report(TaskEvent::Line { task_id: id, line }));
                    out.push(
                        RunAction::Report(TaskEvent::Finished { task_id: id, success: false }),
                    );
                }
            },
            RunEvent::Line { line } => {
                if started {
                    out.push(RunAction::Report(TaskEvent::Line { task_id: id, line }));
                }
            },
            RunEvent::Exited { success } => {
                if started {
                    self.state = RunState::Over;
                    let success = success && state == RunState::Running;
                    out.push(RunAction::Report(TaskEvent::Finished { task_id: id, success }));
                }
            },
            RunEvent::Interrupt => {
                if state == RunState::Waiting {
                    self.state = RunState::Over;
                    out.push(
                        RunAction::Report(TaskEvent::Finished { task_id: id, success: false }),
                    );
                } else if state == RunState::Running {
                    self.state = RunState::Stopping;
                    out.push(RunAction::Interrupt);
                }
            },
            RunEvent::Kill => {
                if state == RunState::Waiting {
                    self.state = RunState::Over;
                    out.push(
                        RunAction::Report(TaskEvent::Finished { task_id: id, success: false }),
                    );
                } else if state == RunState::Running || state == RunState::Stopping {
                    self.state = RunState::Killed;
                    out.push(RunAction::Kill);
                }
            },
        }
        assert(action_views(out@) =~= want.1);
        out
    }
}

/// The life of a task after a sequence of events, and everything that the host
/// had to do.
pub open spec fn after_run_events(id: usize, events: Seq<RunEventView>) -> (
    RunState,
    Seq<RunActionView>,
)
    decreases events.len(),
{
    if events.len() == 0 {
        (RunState::Waiting, Seq::empty())
    } else {
        let before = after_run_events(id, events.drop_last());
        let last = after_run_event(before.0, id, events.last());
        (last.0, before.1 + last.1)
    }
}

/// What was done before the end of a task: it was started first, if at all.
spec fn begins_with_start(id: usize, state: RunState, done: Seq<RunActionView>) -> bool {
    if state == RunState::Waiting {
        done.len() == 0
    } else if state == RunState::Over {
        true
    } else {
        done.len() >= 2 && done[0] == RunActionView::Started(id) && done[1] == RunActionView::Spawn
    }
}

/// Whatever happens to a task, it is reported as over at most once, as the very
/// last thing; and a start, where there is one, comes before everything else.
/// So no line is reported before the start or after the end.
pub proof fn a_run_has_one_end(id: usize, events: Seq<RunEventView>)
    ensures
        ({
            let (state, done) = after_run_events(id, events);
            &&& forall|i: int|
                0 <= i < done.len() && (#[trigger] done[i]) is Finished ==> i == done.len() - 1
                    && state == RunState::Over
            &&& forall|i: int|
                0 <= i < done.len() && (#[trigger] done[i]) is Started ==> i == 0
            &&& forall|i: int|
                0 <= i < done.len() && (#[trigger] done[i]) is Line ==> done[0]
                    == RunActionView::Started(id)
        }),
    decreases events.len(),
{
    if events.len() > 0 {
        a_run_has_one_end(id, events.drop_last());
        starts_first(id, events.drop_last());
    }
}

proof fn starts_first(id: usize, events: Seq<RunEventView>)
    ensures
        begins_with_start(id, after_run_events(id, events).0, after_run_events(id, events).1),
        after_run_events(id, events).0 != RunState::Over ==> forall|i: int|
            0 <= i < after_run_events(id, events).1.len() ==> !((
            #[trigger] after_run_events(id, events).1[i]) is Finished),
    decreases events.len(),
{
    if events.len() > 0 {
        starts_first(id, events.drop_last());
    }
}

/// A task's process is started at most once, right after the task is reported as
/// started, and never before its turn has come.
pub proof fn a_process_waits_for_its_turn(id: usize, events: Seq<RunEventView>, k: int)
    requires
        0 <= k < after_run_events(id, events).1.len(),
        after_run_events(id, events).1[k] is Spawn || after_run_events(id, events).1[k] is Started,
    ensures
        after_run_events(id, events).1[k] == if k == 0 {
            RunActionView::Started(id)
        } else {
            RunActionView::Spawn
        },
        k <= 1,
        events.contains(RunEventView::Turn),
    decreases events.len(),
{
    let front = events.drop_last();
    let before = after_run_events(id, front).1;
    starts_first(id, front);
    if k < before.len() {
        assert(after_run_events(id, events).1[k] == before[k]);
        a_process_waits_for_its_turn(id, front, k);
        let j = choose|j: int| 0 <= j < front.len() && front[j] == RunEventView::Turn;
        assert(events[j] == RunEventView::Turn);
    } else {
        assert(events[events.len() - 1] == RunEventView::Turn);
    }
}

/// A task that was told to stop is never reported as a success.
pub proof fn a_stopped_run_fails(id: usize, events: Seq<RunEventView>, i: int, k: int)
    requires
        0 <= i < events.len(),
        events[i] is Interrupt || events[i] is Kill,
        0 <= k < after_run_events(id, events).1.len(),
        after_run_events(id, events.take(i)).0 != RunState::Over,
        after_run_events(id, events).1[k] is Finished,
    ensures
        after_run_events(id, events).1[k] == RunActionView::Finished(id, false),
    decreases events.len(),
{
    let front = events.drop_last();
    let before = after_run_events(id, front);
    starts_first(id, events.take(i));
    a_run_has_one_end(id, events);
    if i == events.len() - 1 {
        assert(events.take(i) =~= front);
        if k < before.1.len() {
            starts_first(id, front);
            assert(before.1[k] is Finished);
        }
    } else {
        assert(front.take(i) =~= events.take(i));
        if k < before.1.len() {
            assert(after_run_events(id, events).1[k] == before.1[k]);
            a_stopped_run_fails(id, front, i, k);
        } else {
            stopped_is_not_running(id, front, i);
        }
    }
}

proof fn stopped_is_not_running(id: usize, events: Seq<RunEventView>, i: int)
    requires
        0 <= i < events.len(),
        events[i] is Interrupt || events[i] is Kill,
    ensures
        after_run_events(id, events).0 != RunState::Running,
        after_run_events(id, events).0 != RunState::Waiting,
    decreases events.len(),
{
    if i < events.len() - 1 {
        stopped_is_not_running(id, events.drop_last(), i);
    }
}

} // verus!
