//! What becomes of a task: from the push to its end, in the engine and in its
//! process.

use crate::engine::{
    after_cancel, after_event, after_events, after_push, find_task, find_task_finds, new_task,
    ActionView, EngineUpdate, EngineView, SpecView,
};
use crate::engine_laws::{ids_sound, sound, waits};
use crate::paths::components;
use crate::plan_cache::{age_text, seconds_between, PlanView};
use crate::runner::{after_run_event, after_run_events, RunActionView, RunEventView, RunState};
use crate::task::{clean_line, summary_of, TaskEvent, TaskStatus, TaskView};
use crate::text::decimal;
use vstd::prelude::*;

verus! {

/// The position of the task with an id, in a sound engine, is the only one.
pub proof fn a_task_is_found_by_its_id(e: EngineView, i: int)
    requires
        ids_sound(e),
        0 <= i < e.tasks.len(),
    ensures
        find_task(e.tasks, e.tasks[i].id) == i,
{
    find_task_finds(e.tasks, e.tasks[i].id);
    let k = find_task(e.tasks, e.tasks[i].id);
    if k < i {
        assert(e.tasks[k].id != e.tasks[i].id);
    }
}

/// When the process of a task starts, the task runs from then on. Nothing else
/// changes.
pub proof fn a_started_task_runs(e: EngineView, i: int)
    requires
        ids_sound(e),
        0 <= i < e.tasks.len(),
    ensures
        ({
            let id = e.tasks[i].id;
            let (f, u) = after_event(e, TaskEvent::Started { task_id: id });
            let t = f.tasks[i];
            &&& t.status == TaskStatus::Running
            &&& t.started_at == Some(e.clock)
            &&& t == (TaskView { status: t.status, started_at: t.started_at, ..e.tasks[i] })
            &&& f.tasks == e.tasks.update(i, t)
            &&& f == (EngineView { tasks: f.tasks, ..e })
            &&& u == Some(EngineUpdate::Started { task_id: id })
        }),
{
    a_task_is_found_by_its_id(e, i);
}

/// A line of output goes behind the lines that its task has written before. A
/// summary line of a plan, an apply or a destroy sets the counts of the task;
/// every other line leaves them. Nothing else changes.
pub proof fn a_line_is_kept(e: EngineView, i: int, line: String)
    requires
        ids_sound(e),
        0 <= i < e.tasks.len(),
    ensures
        ({
            let id = e.tasks[i].id;
            let old_task = e.tasks[i];
            let (f, u) = after_event(e, TaskEvent::Line { task_id: id, line });
            let t = f.tasks[i];
            &&& t.output_lines.len() == old_task.output_lines.len() + 1
            &&& t.output_lines.drop_last() == old_task.output_lines
            &&& t.output_lines.last() == line@
            &&& summary_of(clean_line(line@)) is Some && (old_task.command == "plan"@
                || old_task.command == "apply"@ || old_task.command == "destroy"@)
                ==> t.resource_counts == summary_of(clean_line(line@))
            &&& summary_of(clean_line(line@)) is None ==> t.resource_counts
                == old_task.resource_counts
            &&& old_task.command != "plan"@ && old_task.command != "apply"@ && old_task.command
                != "destroy"@ ==> t.resource_counts == old_task.resource_counts
            &&& t == (TaskView {
                output_lines: t.output_lines,
                resource_counts: t.resource_counts,
                ..old_task
            })
            &&& f.tasks == e.tasks.update(i, t)
            &&& f == (EngineView { tasks: f.tasks, ..e })
            &&& u == Some(EngineUpdate::Line { task_id: id })
        }),
{
    a_task_is_found_by_its_id(e, i);
    assert(e.tasks[i].output_lines.push(line@).drop_last() =~= e.tasks[i].output_lines);
}

/// When the process of a task ends, the task is over: it succeeded or failed as
/// its process did, or is cancelled where that was asked for. No other task is
/// over on that account.
pub proof fn an_ended_task_is_over(e: EngineView, i: int, success: bool, j: int)
    requires
        sound(e),
        0 <= i < e.tasks.len(),
        e.tasks[i].status != TaskStatus::Cancelled,
        e.tasks[i].spawned,
        0 <= j < e.tasks.len(),
    ensures
        ({
            let old_task = e.tasks[i];
            let f = after_event(e, TaskEvent::Finished { task_id: old_task.id, success }).0;
            let t = f.tasks[i];
            &&& old_task.status == TaskStatus::Cancelling ==> t.status == TaskStatus::Cancelled
            &&& old_task.status != TaskStatus::Cancelling && success ==> t.status
                == TaskStatus::Success
            &&& old_task.status != TaskStatus::Cancelling && !success ==> t.status
                == TaskStatus::Failed
            &&& t.finished_at == Some(e.clock)
            &&& t.apply_plan is None
            &&& !t.spawned
            &&& t.output_lines == old_task.output_lines
            &&& t.resource_counts == old_task.resource_counts
            &&& t.started_at == old_task.started_at
            &&& f.tasks.len() == e.tasks.len()
            &&& j != i ==> f.tasks[j] == (TaskView { spawned: f.tasks[j].spawned, ..e.tasks[j] })
            &&& j != i && e.tasks[j].place() != old_task.place() ==> f.tasks[j] == e.tasks[j]
        }),
{
    let old_task = e.tasks[i];
    a_task_is_found_by_its_id(e, i);
    let f = after_event(e, TaskEvent::Finished { task_id: old_task.id, success }).0;
    let d = old_task.place();
    if e.queues.dom().contains(d) {
        let w = choose|w: int| #[trigger] waits(e, w, d);
        assert(waits(e, w, d));
        assert(w != i);
        let ended = e.tasks.update(
            i,
            TaskView {
                status: crate::engine::end_status(old_task.status, success),
                finished_at: Some(e.clock),
                apply_plan: None,
                spawned: false,
                ..old_task
            },
        );
        let q = e.queues[d].task_id;
        find_task_finds(ended, q);
        let k = find_task(ended, q);
        assert(ended[w].id == q);
        assert(k == w) by {
            assert(e.tasks[k].id == ended[k].id);
            if k < w {
                assert(e.tasks[k].id != e.tasks[w].id);
            }
        }
    }
}

/// When the process of a task ends, the task that waits for its module starts,
/// with the command and the arguments it was pushed with. Where none waits, the
/// module is idle. No other module is touched.
pub proof fn the_waiting_task_follows(e: EngineView, i: int, success: bool, d: Seq<Seq<char>>)
    requires
        sound(e),
        0 <= i < e.tasks.len(),
        e.tasks[i].status != TaskStatus::Cancelled,
        e.tasks[i].spawned,
    ensures
        ({
            let t = e.tasks[i];
            let f = after_event(e, TaskEvent::Finished { task_id: t.id, success }).0;
            let q = e.queues[t.place()];
            &&& e.queues.dom().contains(t.place()) ==> {
                &&& f.outbox.len() == e.outbox.len() + 1
                &&& f.outbox.drop_last() == e.outbox
                &&& f.outbox.last() == ActionView::Spawn {
                    task_id: q.task_id,
                    module_dir: t.module_dir,
                    command: q.command,
                    args: q.args,
                    plan: q.plan,
                }
                &&& f.running.contains(t.place())
            }
            &&& !e.queues.dom().contains(t.place()) ==> f.outbox == e.outbox
                && !f.running.contains(t.place())
            &&& !f.queues.dom().contains(t.place())
            &&& d != t.place() ==> {
                &&& f.running.contains(d) == e.running.contains(d)
                &&& f.queues.dom().contains(d) == e.queues.dom().contains(d)
                &&& f.queues.dom().contains(d) ==> f.queues[d] == e.queues[d]
            }
        }),
{
    a_task_is_found_by_its_id(e, i);
    let t = e.tasks[i];
    let f = after_event(e, TaskEvent::Finished { task_id: t.id, success }).0;
    if e.queues.dom().contains(t.place()) {
        assert(e.running.contains(t.place()));
        assert(f.outbox.drop_last() =~= e.outbox);
    }
}

/// A plan is cached exactly where its task succeeded and was not cancelled: for
/// the task's module, with the addresses it was restricted to. No other module's
/// plan changes.
pub proof fn a_successful_plan_is_cached(e: EngineView, i: int, success: bool, d: Seq<Seq<char>>)
    requires
        ids_sound(e),
        0 <= i < e.tasks.len(),
    ensures
        ({
            let t = e.tasks[i];
            let f = after_event(e, TaskEvent::Finished { task_id: t.id, success }).0;
            let made = success && t.plan_output is Some && t.status != TaskStatus::Cancelling
                && t.status != TaskStatus::Cancelled;
            &&& made ==> f.plans.dom().contains(t.place()) && f.plans[t.place()] == (PlanView {
                handle: t.plan_output->0,
                task_id: t.id,
                created_at: e.clock,
                targets: t.targets,
            })
            &&& !made ==> f.plans == e.plans
            &&& d != t.place() ==> {
                &&& f.plans.dom().contains(d) == e.plans.dom().contains(d)
                &&& f.plans.dom().contains(d) ==> f.plans[d] == e.plans[d]
            }
        }),
{
    a_task_is_found_by_its_id(e, i);
}

/// What a cancel does to a task: one that waits is cancelled at once, one that
/// runs is interrupted, and killed when it is cancelled again. A task that is
/// over stays as it is.
pub proof fn cancelling_goes_step_by_step(e: EngineView, i: int)
    requires
        sound(e),
        0 <= i < e.tasks.len(),
    ensures
        ({
            let t = e.tasks[i];
            let f = after_cancel(e, t.id);
            let g = after_cancel(f, t.id);
            &&& t.status.over() ==> f == e
            &&& !t.status.over() && !t.spawned ==> {
                &&& f.tasks[i].status == TaskStatus::Cancelled
                &&& f.tasks[i].finished_at == Some(e.clock)
                &&& f.tasks[i].apply_plan is None
                &&& !f.queues.dom().contains(t.place())
                &&& f.outbox == e.outbox
                &&& g == f
            }
            &&& t.spawned && t.status != TaskStatus::Cancelling ==> {
                &&& f.tasks[i].status == TaskStatus::Cancelling
                &&& f.outbox == e.outbox.push(ActionView::Interrupt { task_id: t.id })
                &&& g.tasks[i].status == TaskStatus::Cancelling
                &&& g.outbox == f.outbox.push(ActionView::ForceKill { task_id: t.id })
                &&& f.queues == e.queues
            }
            &&& t.spawned && t.status == TaskStatus::Cancelling ==> {
                &&& f.tasks == e.tasks
                &&& f.outbox == e.outbox.push(ActionView::ForceKill { task_id: t.id })
            }
            &&& f.running == e.running
            &&& f.plans == e.plans
            &&& f.next_id == e.next_id
            &&& f.tasks.len() == e.tasks.len()
        }),
{
    let t = e.tasks[i];
    let d = t.place();
    a_task_is_found_by_its_id(e, i);
    let f = after_cancel(e, t.id);
    if !t.status.over() {
        if t.spawned {
            if e.queues.dom().contains(d) && e.queues[d].task_id == t.id {
                let w = choose|w: int| #[trigger] waits(e, w, d);
                assert(waits(e, w, d));
                assert(w == i) by {
                    if w < i {
                        assert(e.tasks[w].id != e.tasks[i].id);
                    } else if i < w {
                        assert(e.tasks[i].id != e.tasks[w].id);
                    }
                }
            }
        }
        assert(ids_sound(f)) by {
            assert forall|x: int, y: int| 0 <= x < y < f.tasks.len() implies (
            #[trigger] f.tasks[x]).id != (#[trigger] f.tasks[y]).id by {
                assert(f.tasks[x].id == e.tasks[x].id);
                assert(f.tasks[y].id == e.tasks[y].id);
            }
            assert forall|x: int| 0 <= x < f.tasks.len() implies (#[trigger] f.tasks[x]).id
                < f.next_id by {
                assert(f.tasks[x].id == e.tasks[x].id);
            }
        }
        a_task_is_found_by_its_id(f, i);
    }
}

/// A cancel touches no other task.
pub proof fn cancelling_touches_one_task(e: EngineView, i: int, j: int)
    requires
        ids_sound(e),
        0 <= i < e.tasks.len(),
        0 <= j < e.tasks.len(),
        i != j,
    ensures
        after_cancel(e, e.tasks[i].id).tasks[j] == e.tasks[j],
{
    a_task_is_found_by_its_id(e, i);
}

/// Events are taken in one after the other: taking in two sequences is taking in
/// both as one.
pub proof fn events_are_taken_in_order(e: EngineView, a: Seq<TaskEvent>, b: Seq<TaskEvent>)
    ensures
        ({
            let (f, us) = after_events(e, a);
            let (g, vs) = after_events(f, b);
            after_events(e, a + b) == (g, us + vs)
        }),
    decreases b.len(),
{
    if b.len() == 0 {
        assert(a + b =~= a);
        let us = after_events(e, a).1;
        assert(us + Seq::<EngineUpdate>::empty() =~= us);
    } else {
        events_are_taken_in_order(e, a, b.drop_last());
        assert((a + b).drop_last() =~= a + b.drop_last());
        assert((a + b).last() == b.last());
        let (f, us) = after_events(e, a);
        let (g, vs) = after_events(f, b.drop_last());
        let last = after_event(g, b.last());
        let w = crate::engine::update_seq(last.1);
        assert(us + vs + w =~= us + (vs + w));
    }
}

/// The lines that a process writes.
pub open spec fn written(ls: Seq<Seq<char>>) -> Seq<RunEventView> {
    Seq::new(ls.len(), |i: int| RunEventView::Line(ls[i]))
}

/// The reports of the lines of a task.
pub open spec fn reported(id: usize, ls: Seq<Seq<char>>) -> Seq<RunActionView> {
    Seq::new(ls.len(), |i: int| RunActionView::Line(id, ls[i]))
}

/// An undisturbed run: the task starts with its turn, each line of its process
/// is reported, in order, and it ends as its process did.
pub proof fn an_undisturbed_run_is_reported(id: usize, ls: Seq<Seq<char>>, success: bool)
    ensures
        ({
            let events = seq![RunEventView::Turn] + written(ls);
            &&& after_run_events(id, events) == (
                RunState::Running,
                seq![RunActionView::Started(id), RunActionView::Spawn] + reported(id, ls),
            )
            &&& after_run_events(id, events.push(RunEventView::Exited(success))) == (
                RunState::Over,
                seq![RunActionView::Started(id), RunActionView::Spawn] + reported(id, ls)
                    + seq![RunActionView::Finished(id, success)],
            )
        }),
    decreases ls.len(),
{
    let events = seq![RunEventView::Turn] + written(ls);
    let head = seq![RunActionView::Started(id), RunActionView::Spawn];
    if ls.len() == 0 {
        assert(events =~= seq![RunEventView::Turn]);
        assert(events.drop_last() =~= Seq::<RunEventView>::empty());
        assert(after_run_events(id, events.drop_last()) == (
            RunState::Waiting,
            Seq::<RunActionView>::empty(),
        ));
        assert(after_run_events(id, events).1 =~= head + reported(id, ls));
    } else {
        let front = ls.drop_last();
        an_undisturbed_run_is_reported(id, front, success);
        assert(events.drop_last() =~= seq![RunEventView::Turn] + written(front));
        assert(events.last() == RunEventView::Line(ls.last()));
        assert(after_run_events(id, events).1 =~= head + reported(id, ls));
    }
    let all = events.push(RunEventView::Exited(success));
    assert(all.drop_last() =~= events);
    assert(after_run_events(id, all).1 =~= head + reported(id, ls) + seq![
        RunActionView::Finished(id, success),
    ]);
}

/// What stops a run: an interrupt is passed on to a running process, a kill to
/// one that runs or is stopping. A task that waits for its turn has failed
/// without a process. A process that could not be started is reported with its
/// error.
pub proof fn stopping_a_run(id: usize, error: Seq<char>)
    ensures
        after_run_event(RunState::Running, id, RunEventView::Interrupt) == (
            RunState::Stopping,
            seq![RunActionView::Interrupt],
        ),
        after_run_event(RunState::Running, id, RunEventView::Kill) == (
            RunState::Killed,
            seq![RunActionView::Kill],
        ),
        after_run_event(RunState::Stopping, id, RunEventView::Kill) == (
            RunState::Killed,
            seq![RunActionView::Kill],
        ),
        forall|ev: RunEventView|
            ev == RunEventView::Interrupt || ev == RunEventView::Kill
                ==> #[trigger] after_run_event(RunState::Waiting, id, ev) == (
                RunState::Over,
                seq![RunActionView::Finished(id, false)],
            ),
        after_run_event(RunState::Running, id, RunEventView::SpawnFailed(error)) == (
            RunState::Over,
            seq![
                RunActionView::Line(id, "error: failed to spawn: "@ + error),
                RunActionView::Finished(id, false),
            ],
        ),
{
}

/// The age of a plan is told in the largest unit of which a whole one has gone
/// by: seconds, minutes or hours.
pub proof fn ages_are_told_in_whole_units(then: u64, n: nat, rest: nat)
    ensures
        n < 60 && rest < 1000 && then + 1000 * n + rest <= u64::MAX ==> age_text(
            seconds_between(then, (then + 1000 * n + rest) as u64),
        ) == decimal(n) + "s ago"@,
        0 < n < 60 && rest < 60000 && then + 60000 * n + rest <= u64::MAX ==> age_text(
            seconds_between(then, (then + 60000 * n + rest) as u64),
        ) == decimal(n) + "m ago"@,
        0 < n && rest < 3600000 && then + 3600000 * n + rest <= u64::MAX ==> age_text(
            seconds_between(then, (then + 3600000 * n + rest) as u64),
        ) == decimal(n) + "h ago"@,
{
}

/// A task that is pushed takes the place of the one that waited for its module:
/// that one is cancelled, and all others are left as they were.
pub proof fn a_replaced_task_is_cancelled(e: EngineView, s: SpecView, i: int)
    requires
        sound(e),
        e.next_id < usize::MAX,
        0 <= i < e.tasks.len(),
    ensures
        ({
            let place = components(s.module_dir);
            let f = after_push(e, s);
            let waited = e.running.contains(place) && e.queues.dom().contains(place)
                && e.queues[place].task_id == e.tasks[i].id;
            &&& waited ==> f.tasks[i].status == TaskStatus::Cancelled && f.tasks[i].finished_at
                == Some(e.clock)
            &&& !waited ==> f.tasks[i] == e.tasks[i]
        }),
{
    let place = components(s.module_dir);
    let tasks = e.tasks.push(new_task(e.next_id, s));
    let n = e.tasks.len() as int;
    find_task_finds(tasks, e.next_id);
    let k = find_task(tasks, e.next_id);
    assert(k == n) by {
        assert(tasks[n].id == e.next_id);
        if k < n {
            assert(tasks[k] == e.tasks[k]);
            assert(e.tasks[k].id < e.next_id);
        }
    }
    if e.running.contains(place) && e.queues.dom().contains(place) {
        let o = e.queues[place].task_id;
        let w = choose|w: int| #[trigger] waits(e, w, place);
        assert(waits(e, w, place));
        assert(tasks[w].id == o);
        find_task_finds(tasks, o);
        let q = find_task(tasks, o);
        assert(q == w) by {
            if q < w {
                assert(tasks[q] == e.tasks[q]);
                assert(e.tasks[q].id != e.tasks[w].id);
            }
        }
        if e.tasks[i].id == o {
            assert(i == w) by {
                if i < w {
                    assert(e.tasks[i].id != e.tasks[w].id);
                } else if w < i {
                    assert(e.tasks[w].id != e.tasks[i].id);
                }
            }
        }
    }
}

} // verus!
