//! What a confirmation knows of the modules it asks about, and what a cancel
//! does.

use crate::app::command_laws::{after_key, is_usable};
use crate::app::model::AppView;
use crate::app::tasks::{cancelled_all, confirm_targets, newest_lock, target_of};
use crate::app::types::{ConfirmKind, ModalView};
use crate::discovery::ModuleView;
use crate::engine::{find_task, find_task_finds, EngineView};
use crate::engine_laws::{cancel_keeps_sound, sound};
use crate::lock::{lock_of, LockView};
use crate::paths::components;
use crate::plan_cache::{age_text, seconds_between};
use crate::run_laws::{
    a_task_is_found_by_its_id, cancelling_goes_step_by_step, cancelling_touches_one_task,
};
use crate::task::{TaskStatus, TaskView};
use vstd::prelude::*;

verus! {

/// Whether a task that is over reports a lock on a module.
pub open spec fn reports_lock(t: TaskView, dir: Seq<char>, l: LockView) -> bool {
    components(t.module_dir) == components(dir) && t.status.over() && lock_of(t.output_lines)
        == Some(l)
}

/// The lock that is known of a module is that of its task that ended last, of
/// those that are over and report one.
pub proof fn the_newest_lock_counts(
    tasks: Seq<TaskView>,
    dir: Seq<char>,
    i: int,
    l: LockView,
)
    requires
        0 <= i < tasks.len(),
        reports_lock(tasks[i], dir, l),
        tasks[i].finished_at is Some,
        forall|j: int|
            0 <= j < tasks.len() && j != i && components((#[trigger] tasks[j]).module_dir)
                == components(dir) && tasks[j].status.over() && lock_of(tasks[j].output_lines) is Some
                ==> tasks[j].finished_at is None || tasks[j].finished_at->0 < tasks[i].finished_at->0,
    ensures
        newest_lock(tasks, dir, tasks.len() as int) == Some((tasks[i].finished_at, l)),
{
    newest_is_kept(tasks, dir, i, l, tasks.len() as int);
}

proof fn newest_is_kept(tasks: Seq<TaskView>, dir: Seq<char>, i: int, l: LockView, n: int)
    requires
        0 <= i < tasks.len(),
        0 <= n <= tasks.len(),
        reports_lock(tasks[i], dir, l),
        tasks[i].finished_at is Some,
        forall|j: int|
            0 <= j < tasks.len() && j != i && components((#[trigger] tasks[j]).module_dir)
                == components(dir) && tasks[j].status.over() && lock_of(tasks[j].output_lines) is Some
                ==> tasks[j].finished_at is None || tasks[j].finished_at->0 < tasks[i].finished_at->0,
    ensures
        i < n ==> newest_lock(tasks, dir, n) == Some((tasks[i].finished_at, l)),
        i >= n && newest_lock(tasks, dir, n) is Some ==> (newest_lock(tasks, dir, n)->0).0 is None || (
        newest_lock(tasks, dir, n)->0).0->0 < tasks[i].finished_at->0,
    decreases n,
{
    if n > 0 {
        newest_is_kept(tasks, dir, i, l, n - 1);
        assert(tasks[n - 1].place() == components(tasks[n - 1].module_dir));
    }
}

/// Without a task that is over and reports a lock, no lock is known of a module.
pub proof fn no_report_no_lock(tasks: Seq<TaskView>, dir: Seq<char>, n: int)
    requires
        0 <= n <= tasks.len(),
        forall|j: int|
            0 <= j < n ==> components((#[trigger] tasks[j]).module_dir) != components(dir)
                || !tasks[j].status.over() || lock_of(tasks[j].output_lines) is None,
    ensures
        newest_lock(tasks, dir, n) is None,
    decreases n,
{
    if n > 0 {
        no_report_no_lock(tasks, dir, n - 1);
        assert(tasks[n - 1].place() == components(tasks[n - 1].module_dir));
    }
}

/// What a confirmation knows of a module. For an apply it is the plan that is
/// cached for it: its age, and what it is restricted to. For a force-unlock it is
/// the lock: the one that was read, else the newest one that was reported;
/// without either the module is left out. Otherwise it is the name.
pub proof fn a_confirmation_knows_the_plan_or_the_lock(
    e: EngineView,
    idx: usize,
    m: ModuleView,
    lock: Option<LockView>,
)
    ensures
        ({
            let t = target_of(e, ConfirmKind::Apply, idx, m, lock)->0;
            let place = components(m.path);
            &&& target_of(e, ConfirmKind::Apply, idx, m, lock) is Some
            &&& t.module_idx == idx && t.module_name == m.name
            &&& e.plans.dom().contains(place) ==> t.plan_targets == e.plans[place].targets
                && t.plan_age == Some(age_text(seconds_between(e.plans[place].created_at, e.clock)))
            &&& !e.plans.dom().contains(place) ==> t.plan_age is None && t.plan_targets.len() == 0
        }),
        forall|kind: ConfirmKind|
            kind == ConfirmKind::Destroy || kind == ConfirmKind::InitUpgrade ==> {
                let t = #[trigger] target_of(e, kind, idx, m, lock);
                t is Some && (t->0).module_idx == idx && (t->0).module_name == m.name
            },
        ({
            let t = target_of(e, ConfirmKind::ForceUnlock, idx, m, lock);
            let newest = newest_lock(e.tasks, m.path, e.tasks.len() as int);
            &&& lock is Some ==> t is Some && (t->0).lock_id == Some((lock->0).id) && (t->0).lock_who
                == Some((lock->0).who)
            &&& lock is None && newest is Some ==> t is Some && (t->0).lock_id == Some(
                (newest->0).1.id,
            ) && (t->0).lock_who == Some((newest->0).1.who)
            &&& lock is None && newest is None ==> t is None
            &&& t is Some ==> (t->0).module_idx == idx && (t->0).module_name == m.name
        }),
{
}

/// A force-unlock asks about every module of which a lock was read.
pub proof fn every_read_lock_is_asked_about(
    a: AppView,
    ts: Seq<usize>,
    locks: Seq<Option<LockView>>,
)
    requires
        a.are_modules(ts),
        ts.len() == locks.len(),
        forall|i: int| 0 <= i < locks.len() ==> (#[trigger] locks[i]) is Some,
        ts.len() > 0,
    ensures
        ({
            let b = a.confirm_staged(ConfirmKind::ForceUnlock, ts, locks);
            match b.modal {
                Some(ModalView::Confirm { kind, targets }) => {
                    &&& kind == ConfirmKind::ForceUnlock
                    &&& targets.len() == ts.len()
                    &&& forall|i: int|
                        0 <= i < ts.len() ==> (#[trigger] targets[i]).module_idx == ts[i]
                            && targets[i].lock_id == Some((locks[i]->0).id)
                },
                _ => false,
            }
        }),
{
    all_locks_are_shown(a, ts, locks, ts.len() as int);
}

proof fn all_locks_are_shown(
    a: AppView,
    ts: Seq<usize>,
    locks: Seq<Option<LockView>>,
    n: int,
)
    requires
        a.are_modules(ts),
        ts.len() == locks.len(),
        0 <= n <= ts.len(),
        forall|i: int| 0 <= i < locks.len() ==> (#[trigger] locks[i]) is Some,
    ensures
        ({
            let shown = confirm_targets(a, ConfirmKind::ForceUnlock, ts, locks, n);
            &&& shown.len() == n
            &&& forall|i: int|
                0 <= i < n ==> (#[trigger] shown[i]).module_idx == ts[i] && shown[i].lock_id == Some(
                    (locks[i]->0).id,
                )
        }),
    decreases n,
{
    if n > 0 {
        all_locks_are_shown(a, ts, locks, n - 1);
        assert(ts[n - 1] < a.modules.len());
        assert(locks[n - 1] is Some);
    }
}

/// Agreeing to a cancel cancels every task that was asked about: those that wait
/// are over at once, and those that run are interrupted. No other task is
/// touched.
#[verifier::rlimit(40)]
pub proof fn agreeing_to_cancel_cancels_each(
    a: AppView,
    size: Option<(u16, u16)>,
    ids: Seq<usize>,
    i: int,
)
    requires
        is_usable(size),
        a.session is Some ==> !(a.session->0).fullscreen,
        a.modal == Some(ModalView::CancelTasks(ids)),
        sound(a.engine),
        ids.no_duplicates(),
        0 <= i < a.engine.tasks.len(),
    ensures
        ({
            let t = a.engine.tasks[i];
            let b = after_key(a, size, 'y');
            let u = b.engine.tasks[i];
            &&& b.modal is None
            &&& b.engine.tasks.len() == a.engine.tasks.len()
            &&& !ids.contains(t.id) ==> u == t
            &&& ids.contains(t.id) && t.status.over() ==> u == t
            &&& ids.contains(t.id) && !t.status.over() && !t.spawned ==> u.status
                == TaskStatus::Cancelled
            &&& ids.contains(t.id) && t.spawned ==> u.status == TaskStatus::Cancelling
        }),
{
    reveal(after_key);
    assert(after_key(a, size, 'y') == a.staged_cancelled());
    each_is_cancelled(a.engine, ids, ids.len() as int, i);
    assert(ids.take(ids.len() as int) =~= ids);
}

#[verifier::rlimit(40)]
proof fn each_is_cancelled(e: EngineView, ids: Seq<usize>, n: int, i: int)
    requires
        sound(e),
        ids.no_duplicates(),
        0 <= n <= ids.len(),
        0 <= i < e.tasks.len(),
    ensures
        ({
            let f = cancelled_all(e, ids, n);
            let t = e.tasks[i];
            let u = f.tasks[i];
            let asked = ids.take(n).contains(t.id);
            &&& sound(f)
            &&& f.tasks.len() == e.tasks.len()
            &&& u.id == t.id
            &&& !asked ==> u == t
            &&& asked && t.status.over() ==> u == t
            &&& asked && !t.status.over() && !t.spawned ==> u.status == TaskStatus::Cancelled
            &&& asked && t.spawned ==> u.status == TaskStatus::Cancelling
        }),
    decreases n,
{
    let t = e.tasks[i];
    if n > 0 {
        each_is_cancelled(e, ids, n - 1, i);
        let g = cancelled_all(e, ids, n - 1);
        let x = ids[n - 1];
        assert(ids.take(n) =~= ids.take(n - 1).push(x));
        cancel_keeps_sound(g, x);
        find_task_finds(g.tasks, x);
        let k = find_task(g.tasks, x);
        if t.id == x {
            a_task_is_found_by_its_id(g, i);
            assert(k == i);
            cancelling_goes_step_by_step(g, i);
            assert(!ids.take(n - 1).contains(x)) by {
                if ids.take(n - 1).contains(x) {
                    let j = choose|j: int| 0 <= j < ids.take(n - 1).len() && #[trigger] ids.take(n - 1)[j] == x;
                    assert(ids[j] == x);
                }
            }
            assert(ids.take(n)[n - 1] == x);
            assert(ids.take(n).contains(x));
        } else {
            assert(ids.take(n).contains(t.id) == ids.take(n - 1).contains(t.id)) by {
                if ids.take(n).contains(t.id) {
                    let j = choose|j: int| 0 <= j < ids.take(n).len() && #[trigger] ids.take(n)[j] == t.id;
                    assert(ids.take(n - 1)[j] == t.id);
                }
                if ids.take(n - 1).contains(t.id) {
                    let j = choose|j: int| 0 <= j < ids.take(n - 1).len() && #[trigger] ids.take(n - 1)[j] == t.id;
                    assert(ids.take(n)[j] == t.id);
                }
            }
            if k < g.tasks.len() {
                assert(g.tasks[k].id == x);
                cancelling_touches_one_task(g, k, i);
            }
        }
    } else {
        assert(ids.take(0) =~= Seq::<usize>::empty());
    }
}

} // verus!
