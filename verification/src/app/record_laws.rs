//! That what was started from the run screen shows on its board.

use crate::app::choice_laws::the_last_recorded_task_is_the_latest;
use crate::app::command_laws::{after_key, is_bare, is_usable};
use crate::app::model::AppView;
use crate::app::tasks::{id_run, plan_args};
use crate::app::types::Screen;
use crate::discovery::ModuleView;
use crate::engine::{
    find_task, find_task_finds, free_plan, has_task, new_task, EngineView, SpecView,
};
use crate::engine_laws::{ids_sound, sound};
use crate::paths::components;
use crate::plan_cache::PlanHandle;
use crate::run_laws::a_task_is_found_by_its_id;
use crate::ui::key_laws::{apply_push_keeps, plan_push_keeps, push_keeps};
use vstd::prelude::*;

verus! {

/// Whether `b` has the tasks of `a`, and behind them one for each of the first
/// `n` of `ts`, in order, with the ids that come next.
pub open spec fn has_one_more_each(
    a: EngineView,
    b: EngineView,
    modules: Seq<ModuleView>,
    ts: Seq<usize>,
    n: int,
) -> bool {
    &&& b.tasks.len() == a.tasks.len() + n
    &&& forall|i: int|
        0 <= i < n ==> (#[trigger] b.tasks[a.tasks.len() + i]).id == a.next_id + i
            && b.tasks[a.tasks.len() + i].module_dir == modules[ts[i] as int].path
}

proof fn a_push_keeps_names(
    a: AppView,
    idx: int,
    command: Seq<char>,
    args: Seq<Seq<char>>,
    plan_output: Option<PlanHandle>,
    targets: Seq<Seq<char>>,
    apply_plan: Option<PlanHandle>,
)
    requires
        a.has_room(1),
    ensures
        ({
            let e = a.engine;
            let f = a.pushed(idx, command, args, plan_output, targets, apply_plan).engine;
            let n = e.tasks.len() as int;
            &&& f.tasks.len() == n + 1
            &&& f.tasks[n].id == e.next_id
            &&& f.tasks[n].module_dir == a.modules[idx].path
            &&& forall|i: int|
                0 <= i < n ==> (#[trigger] f.tasks[i]).id == e.tasks[i].id && f.tasks[i].module_dir
                    == e.tasks[i].module_dir
        }),
{
    let s = SpecView {
        module_dir: a.modules[idx].path,
        module_name: a.modules[idx].name,
        command,
        args,
        plan_output,
        targets,
        apply_plan,
    };
    let tasks = a.engine.tasks.push(new_task(a.engine.next_id, s));
    find_task_finds(tasks, a.engine.next_id);
    find_task_finds(tasks, a.engine.queues[components(s.module_dir)].task_id);
}

proof fn commands_add_one_each(
    a: AppView,
    command: Seq<char>,
    args: Seq<Seq<char>>,
    ts: Seq<usize>,
    n: int,
)
    requires
        sound(a.engine),
        0 <= n <= ts.len(),
        a.has_room(ts.len() as int),
    ensures
        ({
            let b = a.commands_pushed(command, args, ts, n);
            &&& b == (AppView { engine: b.engine, ..a })
            &&& b.engine.next_id == a.engine.next_id + n
            &&& sound(b.engine)
            &&& has_one_more_each(a.engine, b.engine, a.modules, ts, n)
        }),
    decreases n,
{
    if n > 0 {
        commands_add_one_each(a, command, args, ts, n - 1);
        let before = a.commands_pushed(command, args, ts, n - 1);
        push_keeps(before, ts[n - 1] as int, command, args, None, Seq::empty(), None);
        a_push_keeps_names(before, ts[n - 1] as int, command, args, None, Seq::empty(), None);
    }
}

proof fn plans_add_one_each(a: AppView, ts: Seq<usize>, n: int)
    requires
        sound(a.engine),
        0 <= n <= ts.len(),
        a.has_room(ts.len() as int),
    ensures
        ({
            let b = a.plans_pushed(ts, n);
            &&& b == (AppView { engine: b.engine, ..a })
            &&& b.engine.next_id == a.engine.next_id + n
            &&& sound(b.engine)
            &&& has_one_more_each(a.engine, b.engine, a.modules, ts, n)
        }),
    decreases n,
{
    if n > 0 {
        plans_add_one_each(a, ts, n - 1);
        let before = a.plans_pushed(ts, n - 1);
        let h = free_plan(before.engine);
        plan_push_keeps(before, ts[n - 1] as int, Seq::empty());
        a_push_keeps_names(
            before,
            ts[n - 1] as int,
            "plan"@,
            plan_args(h, Seq::empty()),
            Some(h),
            Seq::empty(),
            None,
        );
    }
}

proof fn an_apply_keeps_names(a: AppView, idx: int)
    requires
        a.has_room(1),
    ensures
        ({
            let e = a.engine;
            let f = a.apply_pushed(idx).engine;
            let n = e.tasks.len() as int;
            &&& f.tasks.len() == n + 1
            &&& f.tasks[n].id == e.next_id
            &&& f.tasks[n].module_dir == a.modules[idx].path
            &&& forall|i: int|
                0 <= i < n ==> (#[trigger] f.tasks[i]).id == e.tasks[i].id && f.tasks[i].module_dir
                    == e.tasks[i].module_dir
        }),
{
    let place = a.modules[idx].place();
    if a.engine.plans.dom().contains(place) {
        let h = a.engine.plans[place].handle;
        let taken = AppView {
            engine: EngineView { plans: a.engine.plans.remove(place), ..a.engine },
            ..a
        };
        a_push_keeps_names(
            taken,
            idx,
            "apply"@,
            seq![PlanHandle::path_of(h.fd)],
            None,
            Seq::empty(),
            Some(h),
        );
    } else {
        a_push_keeps_names(a, idx, "apply"@, seq!["-auto-approve"@], None, Seq::empty(), None);
    }
}

proof fn applies_add_one_each(a: AppView, ts: Seq<usize>, n: int)
    requires
        sound(a.engine),
        0 <= n <= ts.len(),
        a.has_room(ts.len() as int),
    ensures
        ({
            let b = a.applies_pushed(ts, n);
            &&& b == (AppView { engine: b.engine, ..a })
            &&& b.engine.next_id == a.engine.next_id + n
            &&& sound(b.engine)
            &&& has_one_more_each(a.engine, b.engine, a.modules, ts, n)
        }),
    decreases n,
{
    if n > 0 {
        applies_add_one_each(a, ts, n - 1);
        let before = a.applies_pushed(ts, n - 1);
        apply_push_keeps(before, ts[n - 1] as int);
        an_apply_keeps_names(before, ts[n - 1] as int);
    }
}

/// Whether the targets of a run lie in different directories.
pub open spec fn are_apart(modules: Seq<ModuleView>, ts: Seq<usize>) -> bool {
    forall|i: int, j: int|
        0 <= i < j < ts.len() ==> components(modules[#[trigger] ts[i] as int].path) != components(
            modules[#[trigger] ts[j] as int].path,
        )
}

/// Whether, on the board of `b`, the latest task of each target is the one that
/// was started for it since `a`.
pub open spec fn board_shows_each(a: AppView, b: AppView, ts: Seq<usize>) -> bool {
    &&& b.session is Some
    &&& forall|j: int|
        0 <= j < ts.len() ==> {
            let place = components(a.modules[#[trigger] ts[j] as int].path);
            (b.session->0).latest_task.dom().contains(place) && (b.session->0).latest_task[place]
                == a.engine.next_id + j
        }
}

proof fn recording_shows_each(a: AppView, b: AppView, ts: Seq<usize>)
    requires
        a.session is Some,
        b == (AppView { engine: b.engine, ..a }),
        ids_sound(b.engine),
        has_one_more_each(a.engine, b.engine, a.modules, ts, ts.len() as int),
        a.has_room(ts.len() as int),
        are_apart(a.modules, ts),
    ensures
        board_shows_each(a, b.tasks_recorded(id_run(a.engine.next_id, ts.len() as int)), ts),
{
    let n = ts.len() as int;
    let ids = id_run(a.engine.next_id, n);
    let tasks = b.engine.tasks;
    let base = a.engine.tasks.len() as int;
    assert forall|j: int| 0 <= j < n implies has_task(tasks, #[trigger] ids[j]) && tasks[find_task(
        tasks,
        ids[j],
    )].module_dir == a.modules[ts[j] as int].path by {
        assert(tasks[base + j].id == ids[j]);
        a_task_is_found_by_its_id(b.engine, base + j);
        find_task_finds(tasks, ids[j]);
    }
    let c = b.tasks_recorded(ids);
    assert forall|j: int| 0 <= j < n implies {
        let place = components(a.modules[#[trigger] ts[j] as int].path);
        (c.session->0).latest_task.dom().contains(place) && (c.session->0).latest_task[place]
            == a.engine.next_id + j
    } by {
        assert(has_task(tasks, ids[j]));
        assert forall|k: int| j < k < n && has_task(tasks, #[trigger] ids[k]) implies components(
            tasks[find_task(tasks, ids[k])].module_dir,
        ) != components(tasks[find_task(tasks, ids[j])].module_dir) by {
            assert(components(a.modules[ts[j] as int].path) != components(
                a.modules[ts[k] as int].path,
            ));
        }
        the_last_recorded_task_is_the_latest((a.session->0).latest_task, tasks, ids, n, j);
    }
}

/// What `i` and `p` start on the run screen shows on its board: the latest task of
/// every module in scope is the one that was started for it.
#[verifier::rlimit(40)]
pub proof fn started_tasks_show_on_the_board(a: AppView, size: Option<(u16, u16)>)
    requires
        is_usable(size),
        is_bare(a),
        a.screen == Screen::Run,
        a.session is Some,
        sound(a.engine),
        a.has_room(a.run_scope().len() as int),
        are_apart(a.modules, a.run_scope()),
    ensures
        board_shows_each(a, after_key(a, size, 'i'), a.run_scope()),
        board_shows_each(a, after_key(a, size, 'p'), a.run_scope()),
{
    reveal(after_key);
    let ts = a.run_scope();
    let n = ts.len() as int;
    commands_add_one_each(a, "init"@, Seq::empty(), ts, n);
    recording_shows_each(a, a.commands_pushed("init"@, Seq::empty(), ts, n), ts);
    plans_add_one_each(a, ts, n);
    recording_shows_each(a, a.plans_pushed(ts, n), ts);
}

/// What was agreed to shows on the board as well: the latest task of every module
/// that was asked about is the one that was started for it.
#[verifier::rlimit(40)]
pub proof fn confirmed_tasks_show_on_the_board(
    a: AppView,
    kind: crate::app::types::ConfirmKind,
    targets: Seq<crate::app::types::TargetView>,
)
    requires
        a.modal == Some(crate::app::types::ModalView::Confirm { kind, targets }),
        kind != crate::app::types::ConfirmKind::ForceUnlock,
        a.session is Some,
        sound(a.engine),
        a.has_room(targets.len() as int),
        are_apart(a.modules, Seq::new(targets.len(), |i: int| targets[i].module_idx)),
    ensures
        board_shows_each(
            a,
            a.confirmed(),
            Seq::new(targets.len(), |i: int| targets[i].module_idx),
        ),
{
    let ts = Seq::new(targets.len(), |i: int| targets[i].module_idx);
    let n = ts.len() as int;
    assert(crate::app::tasks::target_modules(targets) =~= ts);
    let bare = AppView { modal: None, ..a };
    applies_add_one_each(bare, ts, n);
    recording_shows_each(bare, bare.applies_pushed(ts, n), ts);
    commands_add_one_each(bare, "destroy"@, seq!["-auto-approve"@], ts, n);
    recording_shows_each(
        bare,
        bare.commands_pushed("destroy"@, seq!["-auto-approve"@], ts, n),
        ts,
    );
    commands_add_one_each(bare, "init"@, seq!["-upgrade"@], ts, n);
    recording_shows_each(bare, bare.commands_pushed("init"@, seq!["-upgrade"@], ts, n), ts);
}

} // verus!
