//! What the engine keeps, whatever it is asked to do.

use crate::engine::{
    after_cancel, after_end, after_event, after_push, dropped, find_task, find_task_finds, new_task,
    EngineView, SpecView,
};
use crate::paths::components;
use crate::task::{TaskEvent, TaskStatus, TaskView};
use vstd::prelude::*;

verus! {

/// Whether the task at `i` is with the runner, for module `d`.
pub open spec fn runs(e: EngineView, i: int, d: Seq<Seq<char>>) -> bool {
    0 <= i < e.tasks.len() && e.tasks[i].spawned && e.tasks[i].place() == d
}

/// Whether the task at `i` waits for module `d`.
pub open spec fn waits(e: EngineView, i: int, d: Seq<Seq<char>>) -> bool {
    &&& 0 <= i < e.tasks.len()
    &&& e.tasks[i].place() == d
    &&& !e.tasks[i].spawned
    &&& e.tasks[i].status == TaskStatus::Pending
    &&& e.tasks[i].id == e.queues[d].task_id
}

/// Task ids are distinct and were all handed out.
pub open spec fn ids_sound(e: EngineView) -> bool {
    &&& forall|i: int, j: int|
        0 <= i < j < e.tasks.len() ==> (#[trigger] e.tasks[i]).id != (#[trigger] e.tasks[j]).id
    &&& forall|i: int| 0 <= i < e.tasks.len() ==> (#[trigger] e.tasks[i]).id < e.next_id
}

/// A module is marked as running exactly where it has a task with the runner,
/// and has no more than one.
pub open spec fn running_sound(e: EngineView) -> bool {
    &&& forall|i: int|
        0 <= i < e.tasks.len() && (#[trigger] e.tasks[i]).spawned ==> !e.tasks[i].status.over()
            && e.running.contains(e.tasks[i].place())
    &&& forall|i: int, j: int|
        0 <= i < j < e.tasks.len() && (#[trigger] e.tasks[i]).spawned && (
        #[trigger] e.tasks[j]).spawned ==> e.tasks[i].place() != e.tasks[j].place()
    &&& forall|d: Seq<Seq<char>>| #[trigger]
        e.running.contains(d) ==> exists|i: int| #[trigger] runs(e, i, d)
}

/// A task waits only for a running module, and every task that is not over
/// either is with the runner or waits.
pub open spec fn queues_sound(e: EngineView) -> bool {
    &&& forall|d: Seq<Seq<char>>| #[trigger]
        e.queues.dom().contains(d) ==> e.running.contains(d) && exists|i: int| #[trigger]
            waits(e, i, d)
    &&& forall|i: int|
        0 <= i < e.tasks.len() && !(#[trigger] e.tasks[i]).status.over() && !e.tasks[i].spawned
            ==> e.queues.dom().contains(e.tasks[i].place())
            && e.queues[e.tasks[i].place()].task_id == e.tasks[i].id
}

/// The engine's bookkeeping is right.
pub open spec fn sound(e: EngineView) -> bool {
    ids_sound(e) && running_sound(e) && queues_sound(e)
}

/// An engine without tasks is sound.
pub proof fn new_engine_is_sound(e: EngineView)
    requires
        e.tasks.len() == 0,
        e.running == Set::<Seq<Seq<char>>>::empty(),
        e.queues.dom() == Set::<Seq<Seq<char>>>::empty(),
    ensures
        sound(e),
{
}

/// Per module directory, at most one task is with the runner and at most one
/// more waits. No other task of the module is still to come.
pub proof fn one_runs_and_one_waits(e: EngineView, i: int, j: int)
    requires
        sound(e),
        0 <= i < e.tasks.len(),
        0 <= j < e.tasks.len(),
        e.tasks[i].place() == e.tasks[j].place(),
        !e.tasks[i].status.over(),
        !e.tasks[j].status.over(),
        e.tasks[i].spawned == e.tasks[j].spawned,
    ensures
        i == j,
{
    if i != j {
        if i < j {
            assert(e.tasks[i].id != e.tasks[j].id);
        } else {
            assert(e.tasks[j].id != e.tasks[i].id);
        }
    }
}

/// A task never waits for an idle module.
pub proof fn waiting_means_running(e: EngineView, d: Seq<Seq<char>>)
    requires
        sound(e),
        e.queues.dom().contains(d),
    ensures
        exists|i: int| #[trigger] runs(e, i, d),
{
}

proof fn position_of(e: EngineView, i: int)
    requires
        ids_sound(e),
        0 <= i < e.tasks.len(),
    ensures
        find_task(e.tasks, e.tasks[i].id) == i,
{
    let id = e.tasks[i].id;
    find_task_finds(e.tasks, id);
    let k = find_task(e.tasks, id);
    if k < i {
        assert(e.tasks[k].id != e.tasks[i].id);
    } else if k > i {
        assert(e.tasks[i].id != id);
    }
}

/// Pushing a task keeps the engine sound.
pub proof fn push_keeps_sound(e: EngineView, s: SpecView)
    requires
        sound(e),
        e.next_id < usize::MAX,
    ensures
        sound(after_push(e, s)),
{
    let f = after_push(e, s);
    let id = e.next_id;
    let t = new_task(id, s);
    let n = e.tasks.len() as int;
    let tasks = e.tasks.push(t);
    let mid = EngineView { tasks, next_id: (id + 1) as usize, ..e };
    assert(ids_sound(mid));
    position_of(mid, n);
    let d = components(s.module_dir);
    if !e.running.contains(d) {
        assert(f.tasks =~= tasks.update(n, TaskView { spawned: true, ..t }));
        assert forall|x: Seq<Seq<char>>| #[trigger] f.running.contains(x) implies exists|i: int| #[trigger]
            runs(f, i, x) by {
            if x == d {
                assert(runs(f, n, x));
            } else {
                let i = choose|i: int| #[trigger] runs(e, i, x);
                assert(runs(f, i, x));
            }
        }
        assert forall|x: Seq<Seq<char>>| #[trigger] f.queues.dom().contains(x) implies f.running.contains(x)
            && exists|i: int| #[trigger] waits(f, i, x) by {
            let i = choose|i: int| #[trigger] waits(e, i, x);
            assert(waits(f, i, x));
        }
        assert(running_sound(f));
        assert(queues_sound(f));
        assert(ids_sound(f));
    } else {
        if e.queues.dom().contains(d) {
            let o = choose|o: int| #[trigger] waits(e, o, d);
            assert(mid.tasks[o] == e.tasks[o]);
            position_of(mid, o);
            assert(f.tasks =~= tasks.update(o, dropped(e.tasks[o], e.clock)));
        } else {
            assert(f.tasks == tasks);
        }
        assert(ids_sound(f));
        assert forall|x: Seq<Seq<char>>| #[trigger] f.running.contains(x) implies exists|i: int| #[trigger]
            runs(f, i, x) by {
            let i = choose|i: int| #[trigger] runs(e, i, x);
            assert(f.tasks[i] == e.tasks[i]);
            assert(runs(f, i, x));
        }
        assert(running_sound(f));
        assert forall|x: Seq<Seq<char>>| #[trigger] f.queues.dom().contains(x) implies f.running.contains(x)
            && exists|i: int| #[trigger] waits(f, i, x) by {
            if x == d {
                assert(f.tasks[n] == t);
                assert(waits(f, n, x));
            } else {
                let i = choose|i: int| #[trigger] waits(e, i, x);
                assert(f.tasks[i] == e.tasks[i]);
                assert(waits(f, i, x));
            }
        }
        assert(queues_sound(f));
    }
}

/// Cancelling a task keeps the engine sound.
pub proof fn cancel_keeps_sound(e: EngineView, id: usize)
    requires
        sound(e),
    ensures
        sound(after_cancel(e, id)),
{
    let f = after_cancel(e, id);
    find_task_finds(e.tasks, id);
    let k = find_task(e.tasks, id);
    if k < e.tasks.len() && !e.tasks[k].status.over() {
        let t = e.tasks[k];
        let d = t.place();
        assert forall|x: Seq<Seq<char>>| #[trigger] f.running.contains(x) implies exists|i: int| #[trigger]
            runs(f, i, x) by {
            let i = choose|i: int| #[trigger] runs(e, i, x);
            assert(f.tasks[i].spawned == e.tasks[i].spawned);
            assert(runs(f, i, x));
        }
        if e.queues.dom().contains(d) && e.queues[d].task_id == id {
            let w = choose|w: int| #[trigger] waits(e, w, d);
            position_of(e, w);
            assert(w == k);
            assert forall|x: Seq<Seq<char>>| #[trigger] f.queues.dom().contains(x) implies f.running.contains(
                x,
            ) && exists|i: int| #[trigger] waits(f, i, x) by {
                let i = choose|i: int| #[trigger] waits(e, i, x);
                assert(waits(f, i, x));
            }
            assert(running_sound(f));
            assert(queues_sound(f));
        } else {
            assert(t.spawned);
            assert forall|x: Seq<Seq<char>>| #[trigger] f.queues.dom().contains(x) implies f.running.contains(
                x,
            ) && exists|i: int| #[trigger] waits(f, i, x) by {
                let i = choose|i: int| #[trigger] waits(e, i, x);
                assert(i != k);
                assert(f.tasks[i] == e.tasks[i]);
                assert(waits(f, i, x));
            }
            assert(running_sound(f));
            assert(queues_sound(f));
        }
        assert(ids_sound(f));
    }
}

/// The task that an event reports on.
pub open spec fn event_task(event: TaskEvent) -> usize {
    match event {
        TaskEvent::Started { task_id } => task_id,
        TaskEvent::Line { task_id, .. } => task_id,
        TaskEvent::Finished { task_id, .. } => task_id,
    }
}

/// Whether an event reports on a task that is with the runner, as every event
/// of the runner does.
pub open spec fn event_is_due(e: EngineView, event: TaskEvent) -> bool {
    let k = find_task(e.tasks, event_task(event));
    k < e.tasks.len() && e.tasks[k].spawned
}

/// A task event keeps the engine sound.
pub proof fn event_keeps_sound(e: EngineView, event: TaskEvent)
    requires
        sound(e),
        event_is_due(e, event),
    ensures
        sound(after_event(e, event).0),
{
    let f = after_event(e, event).0;
    let id = event_task(event);
    find_task_finds(e.tasks, id);
    let k = find_task(e.tasks, id);
    match event {
        TaskEvent::Finished { task_id, success } => {
            assert(e.tasks[k].status != TaskStatus::Cancelled);
            end_keeps_sound(e, k, success);
        },
        _ => {
            assert(f.tasks =~= e.tasks.update(k, f.tasks[k]));
            assert(f.tasks[k].spawned && f.tasks[k].id == e.tasks[k].id && f.tasks[k].place()
                == e.tasks[k].place() && !f.tasks[k].status.over());
            assert forall|x: Seq<Seq<char>>| #[trigger] f.running.contains(x) implies exists|i: int| #[trigger]
                runs(f, i, x) by {
                let i = choose|i: int| #[trigger] runs(e, i, x);
                assert(runs(f, i, x));
            }
            assert forall|x: Seq<Seq<char>>| #[trigger] f.queues.dom().contains(x) implies f.running.contains(
                x,
            ) && exists|i: int| #[trigger] waits(f, i, x) by {
                let i = choose|i: int| #[trigger] waits(e, i, x);
                assert(waits(f, i, x));
            }
            assert(ids_sound(f));
            assert(running_sound(f));
            assert(queues_sound(f));
        },
    }
}

proof fn end_keeps_sound(e: EngineView, k: int, success: bool)
    requires
        sound(e),
        0 <= k < e.tasks.len(),
        e.tasks[k].spawned,
    ensures
        sound(after_end(e, k, success)),
{
    let f = after_end(e, k, success);
    let t = e.tasks[k];
    let d = t.place();
    let ended = TaskView {
        status: crate::engine::end_status(t.status, success),
        finished_at: Some(e.clock),
        apply_plan: None,
        spawned: false,
        ..t
    };
    let tasks = e.tasks.update(k, ended);
    let mid = EngineView { tasks, ..e };
    assert(ids_sound(mid));
    if e.queues.dom().contains(d) {
        let w = choose|w: int| #[trigger] waits(e, w, d);
        assert(mid.tasks[w] == e.tasks[w]);
        position_of(mid, w);
        assert(f.tasks =~= tasks.update(w, TaskView { spawned: true, ..e.tasks[w] }));
        assert forall|x: Seq<Seq<char>>| #[trigger] f.running.contains(x) implies exists|i: int| #[trigger]
            runs(f, i, x) by {
            if x == d {
                assert(runs(f, w, x));
            } else {
                let i = choose|i: int| #[trigger] runs(e, i, x);
                assert(i != k && i != w);
                assert(runs(f, i, x));
            }
        }
        assert forall|i: int, j: int|
            0 <= i < j < f.tasks.len() && (#[trigger] f.tasks[i]).spawned && (
            #[trigger] f.tasks[j]).spawned implies f.tasks[i].place() != f.tasks[j].place() by {
            if i == w {
                assert(j != k && e.tasks[j].spawned);
                if j < k {
                    assert(e.tasks[j].place() != e.tasks[k].place());
                } else {
                    assert(e.tasks[k].place() != e.tasks[j].place());
                }
            } else if j == w {
                assert(i != k && e.tasks[i].spawned);
                if i < k {
                    assert(e.tasks[i].place() != e.tasks[k].place());
                } else {
                    assert(e.tasks[k].place() != e.tasks[i].place());
                }
            } else {
                assert(e.tasks[i].spawned && e.tasks[j].spawned);
            }
        }
        assert(running_sound(f));
        assert forall|x: Seq<Seq<char>>| #[trigger] f.queues.dom().contains(x) implies f.running.contains(x)
            && exists|i: int| #[trigger] waits(f, i, x) by {
            let i = choose|i: int| #[trigger] waits(e, i, x);
            assert(i != w && i != k);
            assert(waits(f, i, x));
        }
        assert forall|i: int|
            0 <= i < f.tasks.len() && !(#[trigger] f.tasks[i]).status.over() && !f.tasks[i].spawned implies f.queues.dom().contains(
        f.tasks[i].place()) && f.queues[f.tasks[i].place()].task_id == f.tasks[i].id by {
            assert(i != k && i != w);
            assert(f.tasks[i] == e.tasks[i]);
            if e.tasks[i].place() == d {
                assert(e.tasks[i].id == e.tasks[w].id);
                if i < w {
                    assert(e.tasks[i].id != e.tasks[w].id);
                } else {
                    assert(e.tasks[w].id != e.tasks[i].id);
                }
            }
        }
        assert(queues_sound(f));
    } else {
        assert(f.tasks == tasks);
        assert forall|x: Seq<Seq<char>>| #[trigger] f.running.contains(x) implies exists|i: int| #[trigger]
            runs(f, i, x) by {
            let i = choose|i: int| #[trigger] runs(e, i, x);
            assert(i != k);
            assert(runs(f, i, x));
        }
        assert forall|i: int|
            0 <= i < f.tasks.len() && (#[trigger] f.tasks[i]).spawned implies !f.tasks[i].status.over()
            && f.running.contains(f.tasks[i].place()) by {
            assert(i != k);
            assert(f.tasks[i] == e.tasks[i]);
            if i < k {
                assert(e.tasks[i].place() != e.tasks[k].place());
            } else {
                assert(e.tasks[k].place() != e.tasks[i].place());
            }
        }
        assert(running_sound(f));
        assert forall|x: Seq<Seq<char>>| #[trigger] f.queues.dom().contains(x) implies f.running.contains(x)
            && exists|i: int| #[trigger] waits(f, i, x) by {
            let i = choose|i: int| #[trigger] waits(e, i, x);
            assert(i != k);
            assert(waits(f, i, x));
        }
        assert(queues_sound(f));
    }
    assert(ids_sound(f));
}

/// A task that is over stays as it is: no push, cancel or event of the runner
/// changes it.
pub proof fn over_is_over(e: EngineView, i: int, s: SpecView, id: usize, event: TaskEvent)
    requires
        sound(e),
        0 <= i < e.tasks.len(),
        e.tasks[i].status.over(),
        e.next_id < usize::MAX,
        event_is_due(e, event),
    ensures
        after_push(e, s).tasks[i] == e.tasks[i],
        after_cancel(e, id).tasks[i] == e.tasks[i],
        after_event(e, event).0.tasks[i] == e.tasks[i],
{
    find_task_finds(e.tasks, id);
    find_task_finds(e.tasks, event_task(event));
    let t = new_task(e.next_id, s);
    let tasks = e.tasks.push(t);
    let mid = EngineView { tasks, next_id: (e.next_id + 1) as usize, ..e };
    let d = components(s.module_dir);
    assert(ids_sound(mid));
    position_of(mid, e.tasks.len() as int);
    if e.queues.dom().contains(d) {
        let o = choose|o: int| #[trigger] waits(e, o, d);
        assert(mid.tasks[o] == e.tasks[o]);
        position_of(mid, o);
    }
    let k = find_task(e.tasks, event_task(event));
    if let TaskEvent::Finished { success, .. } = event {
        let kd = e.tasks[k].place();
        let ended = TaskView {
            status: crate::engine::end_status(e.tasks[k].status, success),
            finished_at: Some(e.clock),
            apply_plan: None,
            spawned: false,
            ..e.tasks[k]
        };
        let after = EngineView { tasks: e.tasks.update(k, ended), ..e };
        assert(ids_sound(after));
        if e.queues.dom().contains(kd) {
            let w = choose|w: int| #[trigger] waits(e, w, kd);
            assert(after.tasks[w] == e.tasks[w]);
            position_of(after, w);
        }
    }
}

/// The tasks that are not over.
pub open spec fn active_only(tasks: Seq<TaskView>) -> Seq<TaskView> {
    tasks.filter(|t: TaskView| !t.status.over())
}

/// Forgetting the tasks that are over keeps the engine sound.
pub proof fn clearing_keeps_sound(e: EngineView)
    requires
        sound(e),
    ensures
        sound(EngineView { tasks: active_only(e.tasks), ..e }),
{
    let f = EngineView { tasks: active_only(e.tasks), ..e };
    kept_in_order(e.tasks);
    let m = kept_positions(e.tasks);
    assert(ids_sound(f));
    assert forall|x: Seq<Seq<char>>| #[trigger] f.running.contains(x) implies exists|i: int| #[trigger]
        runs(f, i, x) by {
        let i = choose|i: int| #[trigger] runs(e, i, x);
        let j = kept_at(e.tasks, i);
        assert(runs(f, j, x));
    }
    assert(running_sound(f));
    assert forall|x: Seq<Seq<char>>| #[trigger] f.queues.dom().contains(x) implies f.running.contains(x)
        && exists|i: int| #[trigger] waits(f, i, x) by {
        let i = choose|i: int| #[trigger] waits(e, i, x);
        let j = kept_at(e.tasks, i);
        assert(waits(f, j, x));
    }
    assert(queues_sound(f));
}

/// Where the kept tasks stood.
spec fn kept_positions(tasks: Seq<TaskView>) -> Seq<int>
    decreases tasks.len(),
{
    if tasks.len() == 0 {
        Seq::empty()
    } else {
        let before = kept_positions(tasks.drop_last());
        if tasks.last().status.over() {
            before
        } else {
            before.push(tasks.len() - 1)
        }
    }
}

proof fn kept_in_order(tasks: Seq<TaskView>)
    ensures
        ({
            let m = kept_positions(tasks);
            let kept = active_only(tasks);
            &&& m.len() == kept.len()
            &&& forall|j: int| 0 <= j < m.len() ==> 0 <= #[trigger] m[j] < tasks.len()
            &&& forall|j: int| 0 <= j < m.len() ==> #[trigger] kept[j] == tasks[m[j]]
            &&& forall|j: int| 0 <= j < kept.len() ==> !(#[trigger] kept[j]).status.over()
            &&& forall|i: int, j: int| 0 <= i < j < m.len() ==> m[i] < m[j]
        }),
    decreases tasks.len(),
{
    reveal(Seq::filter);
    if tasks.len() > 0 {
        kept_in_order(tasks.drop_last());
        assert(active_only(tasks) == if tasks.last().status.over() {
            active_only(tasks.drop_last())
        } else {
            active_only(tasks.drop_last()).push(tasks.last())
        });
    }
}

proof fn kept_at(tasks: Seq<TaskView>, i: int) -> (j: int)
    requires
        0 <= i < tasks.len(),
        !tasks[i].status.over(),
    ensures
        0 <= j < active_only(tasks).len(),
        active_only(tasks)[j] == tasks[i],
    decreases tasks.len(),
{
    reveal(Seq::filter);
    let front = tasks.drop_last();
    assert(active_only(tasks) == if tasks.last().status.over() {
        active_only(front)
    } else {
        active_only(front).push(tasks.last())
    });
    if i == tasks.len() - 1 {
        active_only(front).len() as int
    } else {
        kept_at(front, i)
    }
}

} // verus!
