//! Which terraform command each operation runs, and on which modules.

use crate::app::explorer::{ExplorerView, RowView};
use crate::app::model::{AppView, RequestView};
use crate::app::tasks::{confirm_targets, lock_pairs, plan_args, target_flags, target_modules};
use crate::app::types::{ConfirmKind, ExplorerOpKind, ModalView, Screen, TargetView};
use crate::discovery::ModuleView;
use crate::engine::{
    a_new_plan_is_unused, find_task, find_task_finds, free_plan, is_plan_used, new_task, ActionView,
    EngineView, QueuedView, SpecView,
};
use crate::engine_laws::{sound, waits};
use crate::lock::LockView;
use crate::paths::components;
use crate::plan_cache::{PlanHandle, PlanUse};
use crate::task::TaskStatus;
use crate::text::signed_decimal;
use crate::ui::key_laws::{apply_push_keeps, plan_push_keeps, plans_do_not_matter, push_keeps};
use crate::ui::keys::{KeyCode, KeyEvent, ScreenAction};
use vstd::prelude::*;

verus! {

/// Whether between `a` and `b` one task was added, for module `m`, that runs
/// `command` with `args`: it was handed to the host where the module was idle;
/// else it waits behind the module's running task.
#[verifier::opaque]
pub open spec fn starts(
    a: EngineView,
    b: EngineView,
    m: ModuleView,
    command: Seq<char>,
    args: Seq<Seq<char>>,
    plan: PlanUse,
    targets: Seq<Seq<char>>,
) -> bool {
    let place = components(m.path);
    let t = b.tasks.last();
    &&& b.tasks.len() == a.tasks.len() + 1
    &&& t.id == a.next_id
    &&& t.module_dir == m.path
    &&& t.module_name == m.name
    &&& t.command == command
    &&& t.targets == targets
    &&& t.status == TaskStatus::Pending
    &&& b.next_id == a.next_id + 1
    &&& b.plans == a.plans
    &&& b.running == a.running.insert(place)
    &&& if a.running.contains(place) {
        &&& !t.spawned
        &&& b.outbox == a.outbox
        &&& b.queues == a.queues.insert(
            place,
            QueuedView { task_id: a.next_id, command, args, plan },
        )
    } else {
        &&& t.spawned
        &&& b.queues == a.queues
        &&& b.outbox == a.outbox.push(
            ActionView::Spawn { task_id: a.next_id, module_dir: m.path, command, args, plan },
        )
    }
}

/// The path under which a process reaches a plan.
pub open spec fn plan_path(h: PlanHandle) -> Seq<char> {
    "/dev/fd/"@ + signed_decimal(h.fd as int)
}

/// The arguments that restrict a command to addresses.
pub open spec fn restricted(xs: Seq<Seq<char>>) -> Seq<Seq<char>> {
    Seq::new(xs.len(), |i: int| "-target="@ + xs[i])
}

#[verifier::rlimit(40)]
proof fn pushing_starts(
    a: AppView,
    idx: int,
    command: Seq<char>,
    args: Seq<Seq<char>>,
    plan_output: Option<PlanHandle>,
    targets: Seq<Seq<char>>,
    apply_plan: Option<PlanHandle>,
)
    requires
        sound(a.engine),
        a.has_room(1),
    ensures
        starts(
            a.engine,
            a.pushed(idx, command, args, plan_output, targets, apply_plan).engine,
            a.modules[idx],
            command,
            args,
            match (plan_output, apply_plan) {
                (Some(h), _) => PlanUse::Write(h),
                (None, Some(h)) => PlanUse::Read(h),
                (None, None) => PlanUse::Unused,
            },
            targets,
        ),
        a.pushed(
            idx,
            command,
            args,
            plan_output,
            targets,
            apply_plan,
        ).engine.tasks.last().plan_output == plan_output,
{
    reveal(starts);
    let e = a.engine;
    let s = SpecView {
        module_dir: a.modules[idx].path,
        module_name: a.modules[idx].name,
        command,
        args,
        plan_output,
        targets,
        apply_plan,
    };
    let place = components(s.module_dir);
    let tasks = e.tasks.push(new_task(e.next_id, s));
    let n = e.tasks.len() as int;
    find_task_finds(tasks, e.next_id);
    let k = find_task(tasks, e.next_id);
    assert(k == n) by {
        assert(tasks[n].id == e.next_id);
        if k < n {
            assert(tasks[k] == e.tasks[k]);
            assert(e.tasks[k].id < e.next_id);
        }
    }
    if e.running.contains(place) {
        assert(e.running.insert(place) =~= e.running);
        if e.queues.dom().contains(place) {
            let o = e.queues[place].task_id;
            let i = choose|i: int| #[trigger] waits(e, i, place);
            assert(waits(e, i, place));
            assert(tasks[i].id == o);
            find_task_finds(tasks, o);
        }
    }
}

/// Whether the tasks that were added between `a` and `b` run one command, once
/// for each of `ts`, in order.
pub open spec fn runs_each(
    a: EngineView,
    b: EngineView,
    modules: Seq<ModuleView>,
    ts: Seq<usize>,
    command: Seq<char>,
    args: Seq<Seq<char>>,
) -> bool {
    exists|es: Seq<EngineView>| #[trigger] leads(es, a, b, ts.len() as int) && forall|i: int|
        0 <= i < ts.len() ==> starts(
            #[trigger] es[i],
            es[i + 1],
            modules[ts[i] as int],
            command,
            args,
            PlanUse::Unused,
            Seq::empty(),
        )
}

/// Whether `es` leads from `a` to `b` in `n` steps.
pub open spec fn leads(es: Seq<EngineView>, a: EngineView, b: EngineView, n: int) -> bool {
    es.len() == n + 1 && es[0] == a && es[n] == b
}

/// Whether the tasks that were added between `a` and `b` plan each of `ts`, in
/// order: each plan is written to a file that is not in use.
pub open spec fn plans_each(
    a: EngineView,
    b: EngineView,
    modules: Seq<ModuleView>,
    ts: Seq<usize>,
) -> bool {
    exists|es: Seq<EngineView>| #[trigger] leads(es, a, b, ts.len() as int) && forall|i: int|
        0 <= i < ts.len() ==> plans_one(
            #[trigger] es[i],
            es[i + 1],
            modules[ts[i] as int],
            Seq::empty(),
        )
}

/// Whether the task that was added between `a` and `b` plans a module, for the
/// addresses `xs` only where there are any.
pub open spec fn plans_one(a: EngineView, b: EngineView, m: ModuleView, xs: Seq<Seq<char>>) -> bool {
    let h = b.tasks.last().plan_output->0;
    &&& b.tasks.last().plan_output is Some
    &&& h.fd < i32::MAX ==> !is_plan_used(a, h)
    &&& starts(
        a,
        b,
        m,
        "plan"@,
        seq!["-out"@, plan_path(h)] + restricted(xs),
        PlanUse::Write(h),
        xs,
    )
}

/// Whether the tasks that were added between `a` and `b` apply each of `ts`, in
/// order: from its cached plan, which leaves the cache, or with approval given.
pub open spec fn applies_each(
    a: EngineView,
    b: EngineView,
    modules: Seq<ModuleView>,
    ts: Seq<usize>,
) -> bool {
    exists|es: Seq<EngineView>| #[trigger] leads(es, a, b, ts.len() as int) && forall|i: int|
        0 <= i < ts.len() ==> applies_one(#[trigger] es[i], es[i + 1], modules[ts[i] as int])
}

/// Whether the task that was added between `a` and `b` applies a module.
pub open spec fn applies_one(a: EngineView, b: EngineView, m: ModuleView) -> bool {
    let place = components(m.path);
    if a.plans.dom().contains(place) {
        let h = a.plans[place].handle;
        starts(
            EngineView { plans: a.plans.remove(place), ..a },
            b,
            m,
            "apply"@,
            seq![plan_path(h)],
            PlanUse::Read(h),
            Seq::empty(),
        )
    } else {
        starts(a, b, m, "apply"@, seq!["-auto-approve"@], PlanUse::Unused, Seq::empty())
    }
}

proof fn commands_start(
    a: AppView,
    command: Seq<char>,
    args: Seq<Seq<char>>,
    ts: Seq<usize>,
    n: int,
)
    requires
        sound(a.engine),
        0 <= n <= ts.len(),
        a.has_room(ts.len() as int),
    ensures
        ({
            let b = a.commands_pushed(command, args, ts, n);
            &&& b == (AppView { engine: b.engine, ..a })
            &&& b.engine.next_id == a.engine.next_id + n
            &&& sound(b.engine)
        }),
        n < ts.len() ==> starts(
            a.commands_pushed(command, args, ts, n).engine,
            a.commands_pushed(command, args, ts, n + 1).engine,
            a.modules[ts[n] as int],
            command,
            args,
            PlanUse::Unused,
            Seq::empty(),
        ),
    decreases n,
{
    if n > 0 {
        commands_start(a, command, args, ts, n - 1);
        let before = a.commands_pushed(command, args, ts, n - 1);
        push_keeps(before, ts[n - 1] as int, command, args, None, Seq::empty(), None);
    }
    if n < ts.len() {
        let here = a.commands_pushed(command, args, ts, n);
        pushing_starts(here, ts[n] as int, command, args, None, Seq::empty(), None);
    }
}

proof fn commands_run_each(a: AppView, command: Seq<char>, args: Seq<Seq<char>>, ts: Seq<usize>)
    requires
        sound(a.engine),
        a.has_room(ts.len() as int),
    ensures
        runs_each(
            a.engine,
            a.commands_pushed(command, args, ts, ts.len() as int).engine,
            a.modules,
            ts,
            command,
            args,
        ),
{
    let n = ts.len() as int;
    let es = Seq::new((n + 1) as nat, |i: int| a.commands_pushed(command, args, ts, i).engine);
    assert forall|i: int| 0 <= i < n implies starts(
        #[trigger] es[i],
        es[i + 1],
        a.modules[ts[i] as int],
        command,
        args,
        PlanUse::Unused,
        Seq::empty(),
    ) by {
        commands_start(a, command, args, ts, i);
    }
    assert(leads(
        es,
        a.engine,
        a.commands_pushed(command, args, ts, n).engine,
        n,
    ));
}

proof fn planning_one(a: AppView, idx: int, xs: Seq<Seq<char>>)
    requires
        sound(a.engine),
        a.has_room(1),
    ensures
        plans_one(a.engine, a.plan_pushed(idx, xs).engine, a.modules[idx], xs),
{
    let h = free_plan(a.engine);
    let args = plan_args(h, xs);
    a_new_plan_is_unused(a.engine);
    pushing_starts(a, idx, "plan"@, args, Some(h), xs, None);
    assert(args =~= seq!["-out"@, plan_path(h)] + restricted(xs));
}

proof fn plans_start(a: AppView, ts: Seq<usize>, n: int)
    requires
        sound(a.engine),
        0 <= n <= ts.len(),
        a.has_room(ts.len() as int),
    ensures
        ({
            let b = a.plans_pushed(ts, n);
            &&& b == (AppView { engine: b.engine, ..a })
            &&& b.engine.next_id == a.engine.next_id + n
            &&& sound(b.engine)
        }),
    decreases n,
{
    if n > 0 {
        plans_start(a, ts, n - 1);
        plan_push_keeps(a.plans_pushed(ts, n - 1), ts[n - 1] as int, Seq::empty());
    }
}

proof fn plans_plan_each(a: AppView, ts: Seq<usize>)
    requires
        sound(a.engine),
        a.has_room(ts.len() as int),
    ensures
        plans_each(a.engine, a.plans_pushed(ts, ts.len() as int).engine, a.modules, ts),
{
    let n = ts.len() as int;
    let es = Seq::new((n + 1) as nat, |i: int| a.plans_pushed(ts, i).engine);
    assert forall|i: int| 0 <= i < n implies plans_one(
        #[trigger] es[i],
        es[i + 1],
        a.modules[ts[i] as int],
        Seq::empty(),
    ) by {
        plans_start(a, ts, i);
        planning_one(a.plans_pushed(ts, i), ts[i] as int, Seq::empty());
    }
    assert(leads(es, a.engine, a.plans_pushed(ts, n).engine, n));
}

proof fn applying_one(a: AppView, idx: int)
    requires
        sound(a.engine),
        a.has_room(1),
    ensures
        applies_one(a.engine, a.apply_pushed(idx).engine, a.modules[idx]),
{
    let place = a.modules[idx].place();
    if a.engine.plans.dom().contains(place) {
        let h = a.engine.plans[place].handle;
        let taken = AppView {
            engine: EngineView { plans: a.engine.plans.remove(place), ..a.engine },
            ..a
        };
        plans_do_not_matter(a.engine, taken.engine);
        pushing_starts(
            taken,
            idx,
            "apply"@,
            seq![PlanHandle::path_of(h.fd)],
            None,
            Seq::empty(),
            Some(h),
        );
    } else {
        pushing_starts(a, idx, "apply"@, seq!["-auto-approve"@], None, Seq::empty(), None);
    }
}

proof fn applies_start(a: AppView, ts: Seq<usize>, n: int)
    requires
        sound(a.engine),
        0 <= n <= ts.len(),
        a.has_room(ts.len() as int),
    ensures
        ({
            let b = a.applies_pushed(ts, n);
            &&& b == (AppView { engine: b.engine, ..a })
            &&& b.engine.next_id == a.engine.next_id + n
            &&& sound(b.engine)
        }),
    decreases n,
{
    if n > 0 {
        applies_start(a, ts, n - 1);
        apply_push_keeps(a.applies_pushed(ts, n - 1), ts[n - 1] as int);
    }
}

proof fn applies_apply_each(a: AppView, ts: Seq<usize>)
    requires
        sound(a.engine),
        a.has_room(ts.len() as int),
    ensures
        applies_each(a.engine, a.applies_pushed(ts, ts.len() as int).engine, a.modules, ts),
{
    let n = ts.len() as int;
    let es = Seq::new((n + 1) as nat, |i: int| a.applies_pushed(ts, i).engine);
    assert forall|i: int| 0 <= i < n implies applies_one(
        #[trigger] es[i],
        es[i + 1],
        a.modules[ts[i] as int],
    ) by {
        applies_start(a, ts, i);
        applying_one(a.applies_pushed(ts, i), ts[i] as int);
    }
    assert(leads(es, a.engine, a.applies_pushed(ts, n).engine, n));
}

/// A plain key.
pub open spec fn typed(c: char) -> KeyEvent {
    KeyEvent { code: KeyCode::Char(c), control: false }
}

/// Whether a terminal is large enough for the screens, or its size is unknown.
pub open spec fn is_usable(size: Option<(u16, u16)>) -> bool {
    size is Some ==> (size->0).0 >= 40 && (size->0).1 >= 10
}

/// Whether nothing lies over the screen.
pub open spec fn is_bare(a: AppView) -> bool {
    &&& a.modal is None
    &&& a.explorer is None
    &&& a.session is Some ==> !(a.session->0).fullscreen
}

/// Whether the rows of the explorer take the keys.
pub open spec fn is_on_rows(a: AppView) -> bool {
    &&& a.modal is None
    &&& a.session is Some ==> !(a.session->0).fullscreen
    &&& a.explorer is Some
    &&& (a.explorer->0).op_result is None
    &&& !(a.explorer->0).plan_queued_notice
    &&& (a.explorer->0).op_confirm is None
    &&& (a.explorer->0).pending_op is None
    &&& (a.explorer->0).detail_view is None
    &&& !(a.explorer->0).filter_active
}

/// The application after a plain key.
#[verifier::opaque]
pub open spec fn after_key(a: AppView, size: Option<(u16, u16)>, c: char) -> AppView {
    a.key_pressed(size, typed(c)).0
}

/// The application after two plain keys.
pub open spec fn after_keys(a: AppView, size: Option<(u16, u16)>, c: char, d: char) -> AppView {
    after_key(after_key(a, size, c), size, d)
}

/// On the run screen, `i` runs `init` on the modules in scope, and `I` on the
/// highlighted one.
#[verifier::rlimit(40)]
pub proof fn init_keys_run_init(a: AppView, size: Option<(u16, u16)>)
    requires
        is_usable(size),
        is_bare(a),
        a.screen == Screen::Run,
        sound(a.engine),
        a.has_room(a.run_scope().len() as int),
        a.has_room(1),
    ensures
        runs_each(
            a.engine,
            after_key(a, size, 'i').engine,
            a.modules,
            a.run_scope(),
            "init"@,
            Seq::empty(),
        ),
        runs_each(
            a.engine,
            after_key(a, size, 'I').engine,
            a.modules,
            a.highlighted(),
            "init"@,
            Seq::empty(),
        ),
{
    reveal(after_key);
    commands_run_each(a, "init"@, Seq::empty(), a.run_scope());
    commands_run_each(a, "init"@, Seq::empty(), a.highlighted());
}

/// On the run screen, `p` plans the modules in scope, and `P` the highlighted
/// one.
#[verifier::rlimit(40)]
pub proof fn plan_keys_run_plan(a: AppView, size: Option<(u16, u16)>)
    requires
        is_usable(size),
        is_bare(a),
        a.screen == Screen::Run,
        sound(a.engine),
        a.has_room(a.run_scope().len() as int),
        a.has_room(1),
    ensures
        plans_each(
            a.engine,
            after_key(a, size, 'p').engine,
            a.modules,
            a.run_scope(),
        ),
        plans_each(
            a.engine,
            after_key(a, size, 'P').engine,
            a.modules,
            a.highlighted(),
        ),
{
    reveal(after_key);
    plans_plan_each(a, a.run_scope());
    plans_plan_each(a, a.highlighted());
}

proof fn all_are_asked_of(
    a: AppView,
    kind: ConfirmKind,
    ts: Seq<usize>,
    locks: Seq<Option<LockView>>,
    n: int,
)
    requires
        kind != ConfirmKind::ForceUnlock,
        a.are_modules(ts),
        0 <= n <= ts.len(),
    ensures
        ({
            let shown = confirm_targets(a, kind, ts, locks, n);
            &&& shown.len() == n
            &&& forall|i: int|
                0 <= i < n ==> (#[trigger] shown[i]).module_idx == ts[i] && shown[i].module_name
                    == a.modules[ts[i] as int].name
        }),
    decreases n,
{
    if n > 0 {
        all_are_asked_of(a, kind, ts, locks, n - 1);
        assert(ts[n - 1] < a.modules.len());
    }
}

/// Whether a question about an operation on the modules `ts`, in order, is open,
/// and nothing else has changed since `a`.
pub open spec fn asks(a: AppView, b: AppView, kind: ConfirmKind, ts: Seq<usize>) -> bool {
    &&& b == (AppView { modal: b.modal, ..a })
    &&& b.modal is Some
    &&& match b.modal->0 {
        ModalView::Confirm { kind: k, targets } => {
            &&& k == kind
            &&& targets.len() == ts.len()
            &&& forall|i: int|
                0 <= i < ts.len() ==> (#[trigger] targets[i]).module_idx == ts[i]
                    && targets[i].module_name == a.modules[ts[i] as int].name
        },
        _ => false,
    }
}

proof fn staging_asks(a: AppView, kind: ConfirmKind, ts: Seq<usize>)
    requires
        kind != ConfirmKind::ForceUnlock,
        a.are_modules(ts),
        ts.len() > 0,
    ensures
        asks(a, a.confirm_staged(kind, ts, Seq::empty()), kind, ts),
{
    all_are_asked_of(a, kind, ts, Seq::empty(), ts.len() as int);
}

proof fn agreeing_runs(a: AppView, b: AppView, kind: ConfirmKind, ts: Seq<usize>)
    requires
        asks(a, b, kind, ts),
        sound(a.engine),
        a.has_room(ts.len() as int),
        kind != ConfirmKind::ForceUnlock,
    ensures
        kind == ConfirmKind::Apply ==> applies_each(a.engine, b.confirmed().engine, a.modules, ts),
        kind == ConfirmKind::Destroy ==> runs_each(
            a.engine,
            b.confirmed().engine,
            a.modules,
            ts,
            "destroy"@,
            seq!["-auto-approve"@],
        ),
        kind == ConfirmKind::InitUpgrade ==> runs_each(
            a.engine,
            b.confirmed().engine,
            a.modules,
            ts,
            "init"@,
            seq!["-upgrade"@],
        ),
        b.confirmed().modal is None,
{
    match b.modal->0 {
        ModalView::Confirm { kind: k, targets } => {
            let c = AppView { modal: None, ..b };
            assert(target_modules(targets) =~= ts);
            applies_apply_each(c, ts);
            commands_run_each(c, "destroy"@, seq!["-auto-approve"@], ts);
            commands_run_each(c, "init"@, seq!["-upgrade"@], ts);
            applies_start(c, ts, ts.len() as int);
            commands_start(c, "destroy"@, seq!["-auto-approve"@], ts, ts.len() as int);
            commands_start(c, "init"@, seq!["-upgrade"@], ts, ts.len() as int);
        },
        _ => {},
    }
}

/// Whether a key starts the three operations that ask first on the modules `ts`:
/// the key asks, and `y` then runs the command on each of them.
pub open spec fn asks_then_runs(a: AppView, size: Option<(u16, u16)>, c: char, ts: Seq<usize>) -> bool {
    let b = after_key(a, size, c);
    let e = after_keys(a, size, c, 'y').engine;
    if c == 'a' || c == 'A' {
        asks(a, b, ConfirmKind::Apply, ts) && applies_each(a.engine, e, a.modules, ts)
    } else if c == 'd' || c == 'D' {
        asks(a, b, ConfirmKind::Destroy, ts) && runs_each(
            a.engine,
            e,
            a.modules,
            ts,
            "destroy"@,
            seq!["-auto-approve"@],
        )
    } else {
        asks(a, b, ConfirmKind::InitUpgrade, ts) && runs_each(
            a.engine,
            e,
            a.modules,
            ts,
            "init"@,
            seq!["-upgrade"@],
        )
    }
}

/// On the run screen, `a`, `d` and `u` ask before they apply, destroy or
/// init-upgrade the modules in scope, and `A` and `D` before they do so with the
/// highlighted one. Agreeing runs the command on exactly the modules that were
/// asked about.
#[verifier::rlimit(40)]
pub proof fn risky_keys_ask_and_run(a: AppView, size: Option<(u16, u16)>)
    requires
        is_usable(size),
        is_bare(a),
        a.screen == Screen::Run,
        a.session_sound(),
        sound(a.engine),
        a.has_room(a.run_scope().len() as int),
        a.has_room(1),
        a.run_scope().len() > 0,
        a.are_modules(a.run_scope()),
    ensures
        asks_then_runs(a, size, 'a', a.run_scope()),
        asks_then_runs(a, size, 'd', a.run_scope()),
        asks_then_runs(a, size, 'u', a.run_scope()),
        asks_then_runs(a, size, 'A', a.highlighted()),
        asks_then_runs(a, size, 'D', a.highlighted()),
{
    run_key_asks(a, size);
    risky_key(a, size, 'a', a.run_scope(), ConfirmKind::Apply);
    risky_key(a, size, 'd', a.run_scope(), ConfirmKind::Destroy);
    risky_key(a, size, 'u', a.run_scope(), ConfirmKind::InitUpgrade);
    assert(a.are_modules(a.highlighted()));
    risky_key(a, size, 'A', a.highlighted(), ConfirmKind::Apply);
    risky_key(a, size, 'D', a.highlighted(), ConfirmKind::Destroy);
}

#[verifier::rlimit(40)]
proof fn run_key_asks(a: AppView, size: Option<(u16, u16)>)
    requires
        is_usable(size),
        is_bare(a),
        a.screen == Screen::Run,
    ensures
        after_key(a, size, 'a') == a.confirm_staged(ConfirmKind::Apply, a.run_scope(), Seq::empty()),
        after_key(a, size, 'd') == a.confirm_staged(ConfirmKind::Destroy, a.run_scope(), Seq::empty()),
        after_key(a, size, 'u') == a.confirm_staged(ConfirmKind::InitUpgrade, a.run_scope(), Seq::empty()),
        after_key(a, size, 'A') == a.confirm_staged(ConfirmKind::Apply, a.highlighted(), Seq::empty()),
        after_key(a, size, 'D') == a.confirm_staged(ConfirmKind::Destroy, a.highlighted(), Seq::empty()),
{
    reveal(after_key);
}

#[verifier::rlimit(40)]
proof fn risky_key(
    a: AppView,
    size: Option<(u16, u16)>,
    c: char,
    ts: Seq<usize>,
    kind: ConfirmKind,
)
    requires
        is_usable(size),
        is_bare(a),
        a.screen == Screen::Run,
        sound(a.engine),
        a.has_room(ts.len() as int),
        ts.len() > 0,
        a.are_modules(ts),
        after_key(a, size, c) == a.confirm_staged(kind, ts, Seq::empty()),
        kind == if c == 'a' || c == 'A' {
            ConfirmKind::Apply
        } else if c == 'd' || c == 'D' {
            ConfirmKind::Destroy
        } else {
            ConfirmKind::InitUpgrade
        },
    ensures
        asks_then_runs(a, size, c, ts),
{
    staging_asks(a, kind, ts);
    reveal(after_key);
    let b = after_key(a, size, c);
    agreeing_runs(a, b, kind, ts);
    assert(after_keys(a, size, c, 'y') == b.confirmed());
}

/// Whether the tasks that were added between `a` and `b` release the locks of
/// `pairs`, each of its module, in order.
pub open spec fn unlocks_each(
    a: EngineView,
    b: EngineView,
    modules: Seq<ModuleView>,
    pairs: Seq<(usize, Seq<char>)>,
) -> bool {
    exists|es: Seq<EngineView>| #[trigger] leads(es, a, b, pairs.len() as int) && forall|i: int|
        0 <= i < pairs.len() ==> starts(
            #[trigger] es[i],
            es[i + 1],
            modules[pairs[i].0 as int],
            "force-unlock"@,
            seq!["-force"@, pairs[i].1],
            PlanUse::Unused,
            Seq::empty(),
        )
}

proof fn unlocks_start(a: AppView, pairs: Seq<(usize, Seq<char>)>, n: int)
    requires
        sound(a.engine),
        0 <= n <= pairs.len(),
        a.has_room(pairs.len() as int),
    ensures
        ({
            let b = a.unlocks_pushed(pairs, n);
            &&& b == (AppView { engine: b.engine, ..a })
            &&& b.engine.next_id == a.engine.next_id + n
            &&& sound(b.engine)
        }),
        n < pairs.len() ==> starts(
            a.unlocks_pushed(pairs, n).engine,
            a.unlocks_pushed(pairs, n + 1).engine,
            a.modules[pairs[n].0 as int],
            "force-unlock"@,
            seq!["-force"@, pairs[n].1],
            PlanUse::Unused,
            Seq::empty(),
        ),
    decreases n,
{
    if n > 0 {
        unlocks_start(a, pairs, n - 1);
        let before = a.unlocks_pushed(pairs, n - 1);
        push_keeps(
            before,
            pairs[n - 1].0 as int,
            "force-unlock"@,
            seq!["-force"@, pairs[n - 1].1],
            None,
            Seq::empty(),
            None,
        );
    }
    if n < pairs.len() {
        pushing_starts(
            a.unlocks_pushed(pairs, n),
            pairs[n].0 as int,
            "force-unlock"@,
            seq!["-force"@, pairs[n].1],
            None,
            Seq::empty(),
            None,
        );
    }
}

proof fn all_locked(ts: Seq<TargetView>, n: int)
    requires
        0 <= n <= ts.len(),
        forall|i: int| 0 <= i < ts.len() ==> (#[trigger] ts[i]).lock_id is Some,
    ensures
        lock_pairs(ts, n) == Seq::new(
            n as nat,
            |i: int| (ts[i].module_idx, ts[i].lock_id->0),
        ),
    decreases n,
{
    if n > 0 {
        all_locked(ts, n - 1);
        assert(ts[n - 1].lock_id is Some);
    }
    assert(lock_pairs(ts, n) =~= Seq::new(
        n as nat,
        |i: int| (ts[i].module_idx, ts[i].lock_id->0),
    ));
}

/// Agreeing to a force-unlock runs `force-unlock -force` with the lock that was
/// shown, in the module that it was shown for: for every one of them.
#[verifier::rlimit(40)]
pub proof fn agreeing_to_unlock_releases_the_locks(
    a: AppView,
    size: Option<(u16, u16)>,
    ts: Seq<TargetView>,
)
    requires
        is_usable(size),
        a.modal == Some(ModalView::Confirm { kind: ConfirmKind::ForceUnlock, targets: ts }),
        a.session is Some ==> !(a.session->0).fullscreen,
        sound(a.engine),
        a.has_room(ts.len() as int),
        forall|i: int| 0 <= i < ts.len() ==> (#[trigger] ts[i]).lock_id is Some,
    ensures
        unlocks_each(
            a.engine,
            after_key(a, size, 'y').engine,
            a.modules,
            Seq::new(ts.len(), |i: int| (ts[i].module_idx, ts[i].lock_id->0)),
        ),
{
    let pairs = lock_pairs(ts, ts.len() as int);
    all_locked(ts, ts.len() as int);
    let n = pairs.len() as int;
    let c = AppView { modal: None, ..a };
    let es = Seq::new((n + 1) as nat, |i: int| c.unlocks_pushed(pairs, i).engine);
    assert forall|i: int| 0 <= i < n implies starts(
        #[trigger] es[i],
        es[i + 1],
        a.modules[pairs[i].0 as int],
        "force-unlock"@,
        seq!["-force"@, pairs[i].1],
        PlanUse::Unused,
        Seq::empty(),
    ) by {
        unlocks_start(c, pairs, i);
    }
    unlocks_start(c, pairs, n);
    reveal(after_key);
    assert(after_key(a, size, 'y') == a.confirmed());
    assert(leads(es, a.engine, a.confirmed().engine, n));
}

/// What a run action is aimed at: every module of the session where no row is
/// selected; else those of the selected rows, in the order in which they were
/// selected. The capital letters are aimed at the row under the cursor.
pub proof fn the_scope_is_the_selection(a: AppView, i: int)
    requires
        a.session is Some,
        a.session_sound(),
        forall|k: int|
            0 <= k < (a.session->0).selected.len() ==> (#[trigger] (a.session->0).selected[k])
                < (a.session->0).modules.len(),
    ensures
        ({
            let s = a.session->0;
            let r = a.run_scope();
            &&& s.selected.len() == 0 ==> r.len() == s.modules.len()
            &&& s.selected.len() == 0 && 0 <= i < s.modules.len() ==> r[i]
                == s.modules[i].module_idx
            &&& s.selected.len() > 0 ==> r.len() == s.selected.len()
            &&& s.selected.len() > 0 && 0 <= i < s.selected.len() ==> r[i]
                == s.modules[s.selected[i] as int].module_idx
            &&& a.highlighted() == seq![s.modules[s.cursor as int].module_idx]
        }),
{
    let s = a.session->0;
    chosen_are(s.modules, s.selected, s.selected.len() as int);
}

proof fn chosen_are(
    modules: Seq<crate::app::types::SessionModuleView>,
    selected: Seq<usize>,
    n: int,
)
    requires
        0 <= n <= selected.len(),
        forall|k: int| 0 <= k < selected.len() ==> (#[trigger] selected[k]) < modules.len(),
    ensures
        ({
            let r = crate::app::session::chosen_indices(modules, selected, n);
            &&& r.len() == n
            &&& forall|i: int| 0 <= i < n ==> #[trigger] r[i] == modules[selected[i] as int].module_idx
        }),
    decreases n,
{
    if n > 0 {
        chosen_are(modules, selected, n - 1);
        assert(selected[n - 1] < modules.len());
    }
}

/// In the explorer, `D` and then `y` removes the first address from the state:
/// the task runs `state` with exactly `rm` and that address. `t` and then `y`
/// taints it: `taint` with the address alone. The addresses that follow wait for
/// it.
#[verifier::rlimit(40)]
pub proof fn removing_and_tainting_go_address_by_address(a: AppView, size: Option<(u16, u16)>)
    requires
        is_usable(size),
        is_on_rows(a),
        (a.explorer->0).module_idx < a.modules.len(),
        sound(a.engine),
        a.has_room(1),
    ensures
        ({
            let e = a.explorer->0;
            let m = a.modules[e.module_idx as int];
            let xs = e.targets();
            let ys = e.op_addresses(ExplorerOpKind::Taint);
            let removed = after_keys(a, size, 'D', 'y');
            let tainted = after_keys(a, size, 't', 'y');
            &&& xs.len() > 0 ==> starts(
                a.engine,
                removed.engine,
                m,
                "state"@,
                seq!["rm"@, xs[0]],
                PlanUse::Unused,
                seq![xs[0]],
            ) && ((removed.explorer->0).pending_op->0).queue == xs.skip(1)
            &&& ys.len() > 0 ==> starts(
                a.engine,
                tainted.engine,
                m,
                "taint"@,
                seq![ys[0]],
                PlanUse::Unused,
                seq![ys[0]],
            ) && ((tainted.explorer->0).pending_op->0).queue == ys.skip(1)
        }),
{
    let e = a.explorer->0;
    let xs = e.targets();
    let ys = e.op_addresses(ExplorerOpKind::Taint);
    if xs.len() > 0 {
        row_key_asks(a, size, 'D', ExplorerOpKind::StateRm);
        agreeing_starts_the_first(a, ExplorerOpKind::StateRm);
        assert(ExplorerOpKind::StateRm.lead_args().push(xs[0]) =~= seq!["rm"@, xs[0]]);
    }
    if ys.len() > 0 {
        row_key_asks(a, size, 't', ExplorerOpKind::Taint);
        agreeing_starts_the_first(a, ExplorerOpKind::Taint);
        assert(ExplorerOpKind::Taint.lead_args().push(ys[0]) =~= seq![ys[0]]);
    }
}

proof fn row_key_asks(a: AppView, size: Option<(u16, u16)>, c: char, kind: ExplorerOpKind)
    requires
        is_usable(size),
        is_on_rows(a),
        (a.explorer->0).op_addresses(kind).len() > 0,
        kind == match c {
            't' => ExplorerOpKind::Taint,
            'D' => ExplorerOpKind::StateRm,
            'a' => ExplorerOpKind::TargetedApply,
            _ => ExplorerOpKind::TargetedDestroy,
        },
        c == 't' || c == 'D' || c == 'a' || c == 'd',
    ensures
        after_keys(a, size, c, 'y') == a.op_requested(kind).op_started(),
{
    row_key_is_taken(a, size, c, kind);
    yes_is_taken(a.op_requested(kind), size);
}

#[verifier::rlimit(40)]
proof fn row_key_is_taken(a: AppView, size: Option<(u16, u16)>, c: char, kind: ExplorerOpKind)
    requires
        is_usable(size),
        is_on_rows(a),
        kind == match c {
            't' => ExplorerOpKind::Taint,
            'D' => ExplorerOpKind::StateRm,
            'a' => ExplorerOpKind::TargetedApply,
            _ => ExplorerOpKind::TargetedDestroy,
        },
        c == 't' || c == 'D' || c == 'a' || c == 'd',
    ensures
        after_key(a, size, c) == a.op_requested(kind),
{
    reveal(after_key);
    assert(a.key_pressed(size, typed(c)).0 == a.key_in_explorer(typed(c)));
    assert(a.key_in_explorer(typed(c)) == a.key_in_rows(typed(c)));
}

#[verifier::rlimit(40)]
proof fn yes_is_taken(a: AppView, size: Option<(u16, u16)>)
    requires
        is_usable(size),
        a.modal is None,
        a.session is Some ==> !(a.session->0).fullscreen,
        a.explorer is Some,
        (a.explorer->0).op_result is None,
        !(a.explorer->0).plan_queued_notice,
        (a.explorer->0).op_confirm is Some,
    ensures
        after_key(a, size, 'y') == a.op_started(),
{
    reveal(after_key);
    assert(a.key_pressed(size, typed('y')).0 == a.key_in_explorer(typed('y')));
}

#[verifier::rlimit(40)]
proof fn agreeing_starts_the_first(a: AppView, kind: ExplorerOpKind)
    requires
        is_on_rows(a),
        sound(a.engine),
        a.has_room(1),
        (a.explorer->0).op_addresses(kind).len() > 0,
        kind == ExplorerOpKind::StateRm || kind == ExplorerOpKind::Taint,
    ensures
        ({
            let e = a.explorer->0;
            let xs = e.op_addresses(kind);
            let b = a.op_requested(kind).op_started();
            &&& starts(
                a.engine,
                b.engine,
                a.modules[e.module_idx as int],
                kind.command_text(),
                kind.lead_args().push(xs[0]),
                PlanUse::Unused,
                seq![xs[0]],
            )
            &&& ((b.explorer->0).pending_op->0).queue == xs.skip(1)
        }),
{
    let e = a.explorer->0;
    let x = e.op_addresses(kind)[0];
    pushing_starts(
        a.op_requested(kind),
        e.module_idx as int,
        kind.command_text(),
        kind.lead_args().push(x),
        None,
        seq![x],
        None,
    );
}

/// When the task of an address has ended, whether well or not, the same command
/// runs on the next one.
#[verifier::rlimit(40)]
pub proof fn the_next_address_follows(a: AppView, success: bool)
    requires
        a.explorer is Some,
        (a.explorer->0).pending_op is Some,
        ((a.explorer->0).pending_op->0).running is Some,
        ((a.explorer->0).pending_op->0).queue.len() > 0,
        sound(a.engine),
        a.has_room(1),
    ensures
        ({
            let e = a.explorer->0;
            let op = e.pending_op->0;
            let m = a.modules[e.module_idx as int];
            let x = op.queue[0];
            let b = a.op_checked((op.running->0).0, success);
            &&& op.kind == ExplorerOpKind::StateRm ==> starts(
                a.engine,
                b.engine,
                m,
                "state"@,
                seq!["rm"@, x],
                PlanUse::Unused,
                seq![x],
            )
            &&& op.kind == ExplorerOpKind::Taint ==> starts(
                a.engine,
                b.engine,
                m,
                "taint"@,
                seq![x],
                PlanUse::Unused,
                seq![x],
            )
            &&& ((b.explorer->0).pending_op->0).queue == op.queue.skip(1)
            &&& ((b.explorer->0).pending_op->0).running == Some((a.engine.next_id, x))
            &&& ((b.explorer->0).pending_op->0).done == op.done.push(((op.running->0).1, success))
        }),
{
    let e = a.explorer->0;
    let op = e.pending_op->0;
    let x = op.queue[0];
    let idx = e.module_idx as int;
    pushing_starts(a, idx, "state"@, seq!["rm"@, x], None, seq![x], None);
    pushing_starts(a, idx, "taint"@, seq![x], None, seq![x], None);
    assert(ExplorerOpKind::StateRm.lead_args().push(x) =~= seq!["rm"@, x]);
    assert(ExplorerOpKind::Taint.lead_args().push(x) =~= seq![x]);
}

/// The end of the last address ends the operation: its result lists every address
/// with how it went, and the state is read anew. The end of any other task leaves
/// the operation alone.
#[verifier::rlimit(40)]
pub proof fn the_last_address_ends_the_operation(a: AppView, task_id: usize, success: bool)
    requires
        a.explorer is Some,
        (a.explorer->0).pending_op is Some,
        ((a.explorer->0).pending_op->0).running is Some,
        (a.explorer->0).module_idx < a.modules.len(),
        (a.explorer->0).loading is None,
    ensures
        ({
            let e = a.explorer->0;
            let op = e.pending_op->0;
            let b = a.op_checked(task_id, success);
            let f = b.explorer->0;
            &&& task_id != (op.running->0).0 ==> b == a
            &&& task_id == (op.running->0).0 && op.queue.len() == 0 ==> {
                &&& f.pending_op is None
                &&& f.op_result is Some
                &&& (f.op_result->0).kind == op.kind
                &&& (f.op_result->0).entries == op.done.push(((op.running->0).1, success))
                &&& b.requests == a.requests.push(
                    RequestView::ReadState {
                        load_id: a.load_count,
                        module_dir: a.modules[e.module_idx as int].path,
                    },
                )
                &&& b.engine == a.engine
            }
        }),
{
}

/// In the explorer, `a` and `d`, then `y`, run one `apply` or `destroy` that is
/// approved and restricted to exactly the targets; `p` runs one such plan, which
/// is kept.
#[verifier::rlimit(40)]
pub proof fn targeted_keys_run_targeted_commands(a: AppView, size: Option<(u16, u16)>)
    requires
        is_usable(size),
        is_on_rows(a),
        (a.explorer->0).module_idx < a.modules.len(),
        (a.explorer->0).targets().len() > 0,
        sound(a.engine),
        a.has_room(1),
    ensures
        ({
            let e = a.explorer->0;
            let m = a.modules[e.module_idx as int];
            let xs = e.targets();
            &&& starts(
                a.engine,
                after_keys(a, size, 'a', 'y').engine,
                m,
                "apply"@,
                seq!["-auto-approve"@] + restricted(xs),
                PlanUse::Unused,
                xs,
            )
            &&& starts(
                a.engine,
                after_keys(a, size, 'd', 'y').engine,
                m,
                "destroy"@,
                seq!["-auto-approve"@] + restricted(xs),
                PlanUse::Unused,
                xs,
            )
            &&& plans_one(a.engine, after_key(a, size, 'p').engine, m, xs)
        }),
{
    let e = a.explorer->0;
    let xs = e.targets();
    let idx = e.module_idx as int;
    agreeing_starts_one_for_all(a, ExplorerOpKind::TargetedApply);
    agreeing_starts_one_for_all(a, ExplorerOpKind::TargetedDestroy);
    row_key_asks(a, size, 'a', ExplorerOpKind::TargetedApply);
    row_key_asks(a, size, 'd', ExplorerOpKind::TargetedDestroy);
    planning_one(a, idx, xs);
    row_key_plans(a, size);
}

#[verifier::rlimit(40)]
proof fn row_key_plans(a: AppView, size: Option<(u16, u16)>)
    requires
        is_usable(size),
        is_on_rows(a),
        (a.explorer->0).module_idx < a.modules.len(),
        (a.explorer->0).targets().len() > 0,
    ensures
        after_key(a, size, 'p').engine == a.plan_pushed(
            (a.explorer->0).module_idx as int,
            (a.explorer->0).targets(),
        ).engine,
{
    reveal(after_key);
}

#[verifier::rlimit(40)]
proof fn agreeing_starts_one_for_all(a: AppView, kind: ExplorerOpKind)
    requires
        is_on_rows(a),
        sound(a.engine),
        a.has_room(1),
        (a.explorer->0).targets().len() > 0,
        kind == ExplorerOpKind::TargetedApply || kind == ExplorerOpKind::TargetedDestroy,
    ensures
        ({
            let e = a.explorer->0;
            let xs = e.targets();
            starts(
                a.engine,
                a.op_requested(kind).op_started().engine,
                a.modules[e.module_idx as int],
                kind.command_text(),
                seq!["-auto-approve"@] + restricted(xs),
                PlanUse::Unused,
                xs,
            )
        }),
{
    let e = a.explorer->0;
    let xs = e.targets();
    assert(target_flags(xs) =~= restricted(xs));
    pushing_starts(
        a.op_requested(kind),
        e.module_idx as int,
        kind.command_text(),
        seq!["-auto-approve"@] + target_flags(xs),
        None,
        xs,
        None,
    );
}

/// Any other key than `y` dismisses what the explorer asks, and nothing is
/// started.
#[verifier::rlimit(40)]
pub proof fn not_agreeing_starts_nothing(a: AppView, size: Option<(u16, u16)>, key: KeyEvent)
    requires
        is_usable(size),
        a.modal is None,
        a.session is Some ==> !(a.session->0).fullscreen,
        a.explorer is Some,
        (a.explorer->0).op_result is None,
        !(a.explorer->0).plan_queued_notice,
        (a.explorer->0).op_confirm is Some,
        key.code != KeyCode::Char('y'),
        key.code != KeyCode::Char('Y'),
        !key.control,
    ensures
        a.key_pressed(size, key).0.engine == a.engine,
        a.key_pressed(size, key).0.explorer is Some,
        (a.key_pressed(size, key).0.explorer->0).op_confirm is None,
        a.key_pressed(size, key).1 == ScreenAction::Stay,
{
}

/// With nothing selected, an explorer operation is aimed at the highlighted row:
/// at the resource, or at the whole module where a module is highlighted. With
/// selected resources it is aimed at those, and the highlight does not matter.
pub proof fn operations_are_aimed_at_the_selection(e: ExplorerView, i: int)
    requires
        e.content is Resources,
    ensures
        e.module_select.len() == 0 && e.multi_select.len() == 0 ==> match e.row() {
            Some(RowView::Resource { res_idx, .. }) => 0 <= res_idx < e.addrs().len()
                ==> e.targets() == seq![e.addrs()[res_idx]],
            Some(RowView::ModuleHeader { prefix, .. }) => e.targets() == seq![prefix],
            None => e.targets().len() == 0,
        },
        e.module_select.len() == 0 && e.multi_select.len() > 0 && (forall|k: int|
            0 <= k < e.multi_select.len() ==> (#[trigger] e.multi_select[k]) < e.addrs().len()) ==> {
            &&& e.targets().len() == e.multi_select.len()
            &&& 0 <= i < e.multi_select.len() ==> e.targets()[i]
                == e.addrs()[e.multi_select[i] as int]
        },
{
    if e.module_select.len() == 0 && e.multi_select.len() > 0 {
        let n = e.multi_select.len() as int;
        assert(crate::app::explorer::uncovered(e.module_select, 0).len() == 0);
        crate::text::sorted_texts_are_the_texts(
            crate::app::explorer::uncovered(e.module_select, 0),
        );
        let prefixes = e.target_prefixes();
        assert(prefixes.len() == 0) by {
            if prefixes.len() > 0 {
                assert(prefixes.contains(prefixes[0]));
            }
        }
        if forall|k: int|
            0 <= k < e.multi_select.len() ==> (#[trigger] e.multi_select[k]) < e.addrs().len() {
            loose_are_all(e.addrs(), e.multi_select, prefixes, n);
            assert(e.targets() =~= crate::app::explorer::loose_targets(
                e.addrs(),
                e.multi_select,
                prefixes,
                n,
            ));
        }
    }
}

proof fn loose_are_all(addrs: Seq<Seq<char>>, selected: Seq<usize>, prefixes: Seq<Seq<char>>, n: int)
    requires
        prefixes.len() == 0,
        0 <= n <= selected.len(),
        forall|k: int| 0 <= k < selected.len() ==> (#[trigger] selected[k]) < addrs.len(),
    ensures
        ({
            let r = crate::app::explorer::loose_targets(addrs, selected, prefixes, n);
            &&& r.len() == n
            &&& forall|i: int| 0 <= i < n ==> #[trigger] r[i] == addrs[selected[i] as int]
        }),
    decreases n,
{
    if n > 0 {
        loose_are_all(addrs, selected, prefixes, n - 1);
        assert(selected[n - 1] < addrs.len());
    }
}

} // verus!
