//! What holds whatever key is pressed.

use crate::app::model::{first_pos, first_pos_finds, toggled, with_items, without_items, AppView};
use crate::app::tasks::{
    cancelled_all, confirm_targets, lock_pairs, pending_ids, plan_args, target_modules,
};
use crate::app::types::{ConfirmKind, ExplorerOpKind, ModalView, Screen, TargetView};
use crate::app::valid::{entering_keeps_valid, scope_is_modules, visible_are_modules};
use crate::engine::{find_task_finds, free_plan, new_task, EngineView, SpecView};
use crate::engine_laws::{cancel_keeps_sound, clearing_keeps_sound, push_keeps_sound, sound};
use crate::lock::LockView;
use crate::paths::components;
use crate::plan_cache::PlanHandle;
use crate::ui::keys::{page_of, KeyCode, KeyEvent, ScreenAction};
use vstd::prelude::*;

verus! {

/// Whether an application that is in order stays so, and its engine sound.
#[verifier::opaque]
pub open spec fn stays_in_order(a: AppView, b: AppView) -> bool {
    &&& a.valid() ==> b.valid()
    &&& sound(a.engine) ==> sound(b.engine)
}

pub proof fn plans_do_not_matter(e: EngineView, f: EngineView)
    requires
        sound(e),
        e.tasks == f.tasks,
        e.next_id == f.next_id,
        e.running == f.running,
        e.queues == f.queues,
    ensures
        sound(f),
{
    assert forall|d: Seq<Seq<char>>| #[trigger] f.running.contains(d) implies exists|i: int| #[trigger]
        crate::engine_laws::runs(f, i, d) by {
        let i = choose|i: int| #[trigger] crate::engine_laws::runs(e, i, d);
        assert(crate::engine_laws::runs(f, i, d));
    }
    assert forall|d: Seq<Seq<char>>| #[trigger] f.queues.dom().contains(d) implies f.running.contains(d)
        && exists|i: int| #[trigger] crate::engine_laws::waits(f, i, d) by {
        let i = choose|i: int| #[trigger] crate::engine_laws::waits(e, i, d);
        assert(crate::engine_laws::waits(f, i, d));
    }
}

/// Pushing a task changes nothing but the engine, and keeps it sound.
pub proof fn push_keeps(
    a: AppView,
    idx: int,
    command: Seq<char>,
    args: Seq<Seq<char>>,
    plan_output: Option<PlanHandle>,
    targets: Seq<Seq<char>>,
    apply_plan: Option<PlanHandle>,
)
    requires
        a.has_room(1),
    ensures
        ({
            let b = a.pushed(idx, command, args, plan_output, targets, apply_plan);
            &&& b == (AppView { engine: b.engine, ..a })
            &&& b.engine.next_id == a.engine.next_id + 1
            &&& b.engine.tasks.len() == a.engine.tasks.len() + 1
            &&& sound(a.engine) ==> sound(b.engine)
        }),
{
    let spec = SpecView {
        module_dir: a.modules[idx].path,
        module_name: a.modules[idx].name,
        command,
        args,
        plan_output,
        targets,
        apply_plan,
    };
    let tasks = a.engine.tasks.push(new_task(a.engine.next_id, spec));
    find_task_finds(tasks, a.engine.next_id);
    find_task_finds(tasks, a.engine.queues[components(spec.module_dir)].task_id);
    if sound(a.engine) {
        push_keeps_sound(a.engine, spec);
    }
}

pub proof fn plan_push_keeps(a: AppView, idx: int, addrs: Seq<Seq<char>>)
    requires
        a.has_room(1),
    ensures
        ({
            let b = a.plan_pushed(idx, addrs);
            &&& b == (AppView { engine: b.engine, ..a })
            &&& b.engine.next_id == a.engine.next_id + 1
            &&& b.engine.tasks.len() == a.engine.tasks.len() + 1
            &&& sound(a.engine) ==> sound(b.engine)
        }),
{
    let plan = free_plan(a.engine);
    push_keeps(a, idx, "plan"@, plan_args(plan, addrs), Some(plan), addrs, None);
}

pub proof fn apply_push_keeps(a: AppView, idx: int)
    requires
        a.has_room(1),
    ensures
        ({
            let b = a.apply_pushed(idx);
            &&& b == (AppView { engine: b.engine, ..a })
            &&& b.engine.next_id == a.engine.next_id + 1
            &&& b.engine.tasks.len() == a.engine.tasks.len() + 1
            &&& sound(a.engine) ==> sound(b.engine)
        }),
{
    let dir = a.modules[idx].place();
    if a.engine.plans.dom().contains(dir) {
        let h = a.engine.plans[dir].handle;
        let taken = AppView {
            engine: EngineView { plans: a.engine.plans.remove(dir), ..a.engine },
            ..a
        };
        if sound(a.engine) {
            plans_do_not_matter(a.engine, taken.engine);
        }
        push_keeps(
            taken,
            idx,
            "apply"@,
            seq![PlanHandle::path_of(h.fd)],
            None,
            Seq::empty(),
            Some(h),
        );
    } else {
        push_keeps(a, idx, "apply"@, seq!["-auto-approve"@], None, Seq::empty(), None);
    }
}

proof fn pushes_keep(
    a: AppView,
    command: Seq<char>,
    args: Seq<Seq<char>>,
    targets: Seq<usize>,
    pairs: Seq<(usize, Seq<char>)>,
    n: int,
)
    requires
        0 <= n,
        a.has_room(n),
    ensures
        ({
            let b = a.plans_pushed(targets, n);
            &&& b == (AppView { engine: b.engine, ..a })
            &&& b.engine.next_id == a.engine.next_id + n
            &&& b.engine.tasks.len() == a.engine.tasks.len() + n
            &&& sound(a.engine) ==> sound(b.engine)
        }),
        ({
            let b = a.commands_pushed(command, args, targets, n);
            &&& b == (AppView { engine: b.engine, ..a })
            &&& b.engine.next_id == a.engine.next_id + n
            &&& b.engine.tasks.len() == a.engine.tasks.len() + n
            &&& sound(a.engine) ==> sound(b.engine)
        }),
        ({
            let b = a.applies_pushed(targets, n);
            &&& b == (AppView { engine: b.engine, ..a })
            &&& b.engine.next_id == a.engine.next_id + n
            &&& b.engine.tasks.len() == a.engine.tasks.len() + n
            &&& sound(a.engine) ==> sound(b.engine)
        }),
        ({
            let b = a.unlocks_pushed(pairs, n);
            &&& b == (AppView { engine: b.engine, ..a })
            &&& b.engine.next_id == a.engine.next_id + n
            &&& b.engine.tasks.len() == a.engine.tasks.len() + n
            &&& sound(a.engine) ==> sound(b.engine)
        }),
    decreases n,
{
    if n > 0 {
        pushes_keep(a, command, args, targets, pairs, n - 1);
        plan_push_keeps(a.plans_pushed(targets, n - 1), targets[n - 1] as int, Seq::empty());
        push_keeps(
            a.commands_pushed(command, args, targets, n - 1),
            targets[n - 1] as int,
            command,
            args,
            None,
            Seq::empty(),
            None,
        );
        apply_push_keeps(a.applies_pushed(targets, n - 1), targets[n - 1] as int);
        push_keeps(
            a.unlocks_pushed(pairs, n - 1),
            pairs[n - 1].0 as int,
            "force-unlock"@,
            seq!["-force"@, pairs[n - 1].1],
            None,
            Seq::empty(),
            None,
        );
    }
}

/// Asking to confirm an operation leaves an application in order.
pub proof fn staging_keeps(a: AppView, kind: ConfirmKind, targets: Seq<usize>, locks: Seq<Option<LockView>>)
    ensures
        stays_in_order(a, a.confirm_staged(kind, targets, locks)),
        a.confirm_staged(kind, targets, locks).engine == a.engine,
{
    reveal(stays_in_order);
    shown_are_modules(a, kind, targets, locks, targets.len() as int);
    let shown = confirm_targets(a, kind, targets, locks, targets.len() as int);
    let ts = target_modules(shown);
    assert forall|i: int| 0 <= i < ts.len() implies #[trigger] ts[i] < a.modules.len() by {
        assert(shown[i].module_idx < a.modules.len());
    }
}

proof fn shown_are_modules(
    a: AppView,
    kind: ConfirmKind,
    targets: Seq<usize>,
    locks: Seq<Option<LockView>>,
    n: int,
)
    ensures
        forall|i: int|
            0 <= i < confirm_targets(a, kind, targets, locks, n).len() ==> (
            #[trigger] confirm_targets(a, kind, targets, locks, n)[i]).module_idx
                < a.modules.len(),
    decreases n,
{
    if n > 0 {
        shown_are_modules(a, kind, targets, locks, n - 1);
    }
}

proof fn pairs_are_no_more(ts: Seq<TargetView>, n: int)
    requires
        0 <= n,
    ensures
        lock_pairs(ts, n).len() <= n,
    decreases n,
{
    if n > 0 {
        pairs_are_no_more(ts, n - 1);
    }
}

proof fn confirming_keeps(a: AppView)
    requires
        a.can_confirm(),
    ensures
        stays_in_order(a, a.confirmed()),
{
    reveal(stays_in_order);
    match a.modal {
        Some(ModalView::Confirm { kind, targets }) => {
            let bare = AppView { modal: None, ..a };
            let ts = target_modules(targets);
            let pairs = lock_pairs(targets, targets.len() as int);
            pairs_are_no_more(targets, targets.len() as int);
            pushes_keep(bare, "destroy"@, seq!["-auto-approve"@], ts, pairs, ts.len() as int);
            pushes_keep(bare, "init"@, seq!["-upgrade"@], ts, pairs, ts.len() as int);
            pushes_keep(bare, "init"@, seq!["-upgrade"@], ts, pairs, pairs.len() as int);
        },
        _ => {},
    }
}

proof fn cancelling_keeps(e: EngineView, ids: Seq<usize>, n: int)
    ensures
        sound(e) ==> sound(cancelled_all(e, ids, n)),
    decreases n,
{
    if n > 0 && sound(e) {
        cancelling_keeps(e, ids, n - 1);
        cancel_keeps_sound(cancelled_all(e, ids, n - 1), ids[n - 1]);
    }
}

proof fn clearing_keeps(a: AppView)
    ensures
        stays_in_order(a, a.completed_cleared()),
        stays_in_order(a, a.staged_cancelled()),
        stays_in_order(a, a.reset()),
{
    reveal(stays_in_order);
    if sound(a.engine) {
        clearing_keeps_sound(a.engine);
        match a.modal {
            Some(ModalView::CancelTasks(ids)) => {
                cancelling_keeps(a.engine, ids, ids.len() as int);
            },
            _ => {},
        }
        let ids = pending_ids(a.engine.tasks, a.engine.tasks.len() as int);
        cancelling_keeps(a.engine, ids, ids.len() as int);
        let e = cancelled_all(a.engine, ids, ids.len() as int);
        clearing_keeps_sound(e);
        plans_do_not_matter(
            EngineView { tasks: crate::engine_laws::active_only(e.tasks), ..e },
            a.reset().engine,
        );
    }
}

proof fn added_are_below(v: Seq<usize>, items: Seq<usize>, n: int, bound: nat)
    requires
        n <= items.len(),
        forall|i: int| 0 <= i < v.len() ==> #[trigger] v[i] < bound,
        forall|i: int| 0 <= i < items.len() ==> #[trigger] items[i] < bound,
    ensures
        forall|i: int|
            0 <= i < with_items(v, items, n).len() ==> #[trigger] with_items(v, items, n)[i]
                < bound,
    decreases n,
{
    if n > 0 {
        added_are_below(v, items, n - 1, bound);
        let before = with_items(v, items, n - 1);
        let after = with_items(v, items, n);
        assert(items[n - 1] < bound);
        assert forall|i: int| 0 <= i < after.len() implies #[trigger] after[i] < bound by {
            if i < before.len() {
                assert(before[i] < bound);
                assert(after[i] == before[i]);
            }
        }
    }
}

proof fn kept_are_below(v: Seq<usize>, out: Seq<usize>, bound: nat)
    requires
        forall|i: int| 0 <= i < v.len() ==> #[trigger] v[i] < bound,
    ensures
        forall|i: int|
            0 <= i < without_items(v, out).len() ==> #[trigger] without_items(v, out)[i] < bound,
    decreases v.len(),
{
    if v.len() > 0 {
        assert forall|i: int| 0 <= i < v.drop_last().len() implies #[trigger] v.drop_last()[i]
            < bound by {
            assert(v[i] < bound);
        }
        kept_are_below(v.drop_last(), out, bound);
        let before = without_items(v.drop_last(), out);
        let after = without_items(v, out);
        assert(v[v.len() - 1] < bound);
        assert forall|i: int| 0 <= i < after.len() implies #[trigger] after[i] < bound by {
            if i < before.len() {
                assert(before[i] < bound);
                assert(after[i] == before[i]);
            }
        }
    }
}

proof fn toggled_are_below(v: Seq<usize>, x: usize, bound: nat)
    requires
        forall|i: int| 0 <= i < v.len() ==> #[trigger] v[i] < bound,
        x < bound,
    ensures
        forall|i: int| 0 <= i < toggled(v, x).len() ==> #[trigger] toggled(v, x)[i] < bound,
{
    first_pos_finds(v, x);
    let k = first_pos(v, x);
    let t = toggled(v, x);
    assert forall|i: int| 0 <= i < t.len() implies #[trigger] t[i] < bound by {
        if k < v.len() {
            if i < k {
                assert(v[i] < bound);
            } else {
                assert(v[i + 1] < bound);
            }
        } else if i < v.len() {
            assert(v[i] < bound);
        }
    }
}

proof fn selecting_keeps(a: AppView)
    requires
        a.valid(),
    ensures
        stays_in_order(a, a.selection_toggled()),
        stays_in_order(a, a.range_selected()),
        stays_in_order(a, a.visible_toggled()),
        stays_in_order(a, a.cursor_explored()),
{
    reveal(stays_in_order);
    visible_are_modules(a.modules, a.filter, a.max_depth, a.modules.len() as int);
    let v = a.visible();
    let bound = a.modules.len();
    let k = a.selected_module as int;
    if k < v.len() {
        assert(v[k] < bound);
        toggled_are_below(a.multi_select, v[k], bound);
    }
    added_are_below(a.multi_select, v, v.len() as int, bound);
    kept_are_below(a.multi_select, v, bound);
    if a.multi_select_anchor is Some {
        let (lo, hi) = a.range_ends(a.multi_select_anchor->0);
        let part = v.subrange(lo, hi);
        assert forall|i: int| 0 <= i < part.len() implies #[trigger] part[i] < bound by {
            assert(v[lo + i] < bound);
        }
        added_are_below(a.multi_select, part, part.len() as int, bound);
    }
}

proof fn starting_ops_keeps(a: AppView)
    requires
        a.explorer_can_push(1),
    ensures
        stays_in_order(a, a.op_started()),
        stays_in_order(a, a.targeted_plan_pushed()),
{
    reveal(stays_in_order);
    match a.explorer {
        Some(e) => {
            plan_push_keeps(a, e.module_idx as int, e.targets());
            match e.op_confirm {
                Some(kind) => {
                    let ts = e.op_targets;
                    if ts.len() > 0 {
                        push_keeps(
                            a,
                            e.module_idx as int,
                            kind.command_text(),
                            kind.lead_args().push(ts[0]),
                            None,
                            seq![ts[0]],
                            None,
                        );
                        push_keeps(
                            a,
                            e.module_idx as int,
                            kind.command_text(),
                            seq!["-auto-approve"@] + crate::app::tasks::target_flags(ts),
                            None,
                            ts,
                            None,
                        );
                    }
                },
                None => {},
            }
        },
        None => {},
    }
}

proof fn same_keeps(a: AppView)
    ensures
        stays_in_order(a, a),
{
    reveal(stays_in_order);
}

proof fn explorer_step_keeps(a: AppView, n: int, kind: ExplorerOpKind, c: char)
    ensures
        stays_in_order(a, a.result_dismissed()),
        stays_in_order(a, a.notice_dismissed()),
        stays_in_order(a, a.op_dismissed()),
        stays_in_order(a, a.detail_closed()),
        stays_in_order(a, a.detail_opened()),
        stays_in_order(a, a.detail_scrolled(n)),
        stays_in_order(a, a.detail_at(n)),
        stays_in_order(a, a.explorer_closed()),
        stays_in_order(a, a.filter_cleared()),
        stays_in_order(a, a.filter_closed()),
        stays_in_order(a, a.filter_opened()),
        stays_in_order(a, a.filter_popped()),
        stays_in_order(a, a.filter_pushed(c)),
        stays_in_order(a, a.explorer_moved(n)),
        stays_in_order(a, a.explorer_first()),
        stays_in_order(a, a.explorer_last()),
        stays_in_order(a, a.explorer_deselected()),
        stays_in_order(a, a.op_requested(kind)),
        stays_in_order(a, a.load_started()),
{
    reveal(stays_in_order);
}

proof fn explorer_toggle_keeps(a: AppView)
    ensures
        stays_in_order(a, a.explorer_toggled()),
{
    reveal(stays_in_order);
}

proof fn explorer_rows_key_keeps(a: AppView, key: KeyEvent)
    requires
        a.explorer_can_push(1),
    ensures
        stays_in_order(a, a.key_in_rows(key)),
{
    same_keeps(a);
    starting_ops_keeps(a);
    explorer_toggle_keeps(a);
    let page = page_of(a.viewport.explorer);
    explorer_step_keeps(a, 1, ExplorerOpKind::Taint, 'a');
    explorer_step_keeps(a, -1, ExplorerOpKind::StateRm, 'a');
    explorer_step_keeps(a, page, ExplorerOpKind::TargetedApply, 'a');
    explorer_step_keeps(a, -page, ExplorerOpKind::TargetedDestroy, 'a');
}

proof fn explorer_key_keeps(a: AppView, key: KeyEvent)
    requires
        a.explorer_can_push(1),
    ensures
        stays_in_order(a, a.key_in_explorer(key)),
{
    same_keeps(a);
    starting_ops_keeps(a);
    explorer_rows_key_keeps(a, key);
    let page = page_of(a.viewport.explorer);
    explorer_step_keeps(a, 1, ExplorerOpKind::Taint, 'a');
    explorer_step_keeps(a, -1, ExplorerOpKind::Taint, 'a');
    explorer_step_keeps(a, page, ExplorerOpKind::Taint, 'a');
    explorer_step_keeps(a, -page, ExplorerOpKind::Taint, 'a');
    explorer_step_keeps(a, 0, ExplorerOpKind::Taint, 'a');
    explorer_step_keeps(a, a.detail_end(), ExplorerOpKind::Taint, 'a');
    match key.code {
        KeyCode::Char(c) => {
            explorer_step_keeps(a, 0, ExplorerOpKind::Taint, c);
        },
        _ => {},
    }
}

proof fn modal_step_keeps(a: AppView, m: ModalView)
    requires
        !(m is Confirm),
    ensures
        stays_in_order(a, a.no_modal()),
        stays_in_order(a, a.with_modal(m)),
{
    reveal(stays_in_order);
}

proof fn modal_key_keeps(a: AppView, key: KeyEvent)
    requires
        a.can_confirm(),
    ensures
        stays_in_order(a, a.key_in_modal(key).0),
{
    same_keeps(a);
    modal_step_keeps(a, ModalView::Quit);
    confirming_keeps(a);
    clearing_keeps(a);
}

proof fn output_step_keeps(a: AppView, n: int, text: Option<Seq<char>>, on: bool)
    ensures
        stays_in_order(a, a.output_scrolled(n)),
        stays_in_order(a, a.scrolled_to_top()),
        stays_in_order(a, a.scrolled_to_bottom()),
        stays_in_order(a, a.wrap_toggled()),
        stays_in_order(a, a.copy_asked(text)),
        stays_in_order(a, a.fullscreen_set(on)),
        stays_in_order(a, a.selection_cleared()),
{
    reveal(stays_in_order);
}

proof fn output_key_keeps(a: AppView, key: KeyEvent)
    ensures
        stays_in_order(a, a.key_in_output(key)),
{
    same_keeps(a);
    let page = page_of(a.viewport.output);
    output_step_keeps(a, 1, a.selected_text(), true);
    output_step_keeps(a, -1, a.output_text(), false);
    output_step_keeps(a, page, None, true);
    output_step_keeps(a, -page, None, true);
}

proof fn board_step_keeps(a: AppView, n: int, targets: Seq<usize>)
    ensures
        stays_in_order(a, a.board_cursor_moved(n)),
        stays_in_order(a, a.board_ranged()),
        stays_in_order(a, a.board_toggled()),
        stays_in_order(a, a.board_all_toggled()),
        stays_in_order(a, a.board_cleared()),
        stays_in_order(a, a.locks_asked(targets)),
        stays_in_order(a, a.cancel_requested(targets)),
        stays_in_order(a, a.clear_requested()),
        stays_in_order(a, a.highlight_explored()),
        stays_in_order(a, AppView { screen: Screen::Select, ..a }),
{
    reveal(stays_in_order);
}

proof fn running_keeps(a: AppView, targets: Seq<usize>)
    requires
        a.has_room(targets.len() as int),
    ensures
        stays_in_order(a, a.plans_run(targets)),
        stays_in_order(a, a.inits_run(targets)),
{
    reveal(stays_in_order);
    pushes_keep(a, "init"@, Seq::empty(), targets, Seq::empty(), targets.len() as int);
}

proof fn run_char_keeps(a: AppView, c: char, control: bool)
    requires
        a.can_run(),
    ensures
        stays_in_order(a, a.char_in_run(c, control)),
{
    scope_is_modules(a);
    let scope = a.run_scope();
    let one = a.highlighted();
    same_keeps(a);
    modal_step_keeps(a, ModalView::Help);
    board_step_keeps(a, 1, scope);
    board_step_keeps(a, -1, scope);
    board_step_keeps(a, a.board_len(), scope);
    board_step_keeps(a, -a.board_len(), scope);
    output_step_keeps(a, 0, None, true);
    running_keeps(a, scope);
    running_keeps(a, one);
    staging_keeps(a, ConfirmKind::Apply, scope, Seq::empty());
    staging_keeps(a, ConfirmKind::Apply, one, Seq::empty());
    staging_keeps(a, ConfirmKind::Destroy, scope, Seq::empty());
    staging_keeps(a, ConfirmKind::Destroy, one, Seq::empty());
    staging_keeps(a, ConfirmKind::InitUpgrade, scope, Seq::empty());
}

proof fn run_key_keeps(a: AppView, key: KeyEvent)
    requires
        a.can_run(),
    ensures
        stays_in_order(a, a.key_in_run(key).0),
{
    same_keeps(a);
    let page = page_of(a.viewport.output);
    output_step_keeps(a, page, None, true);
    output_step_keeps(a, -page, None, true);
    board_step_keeps(a, 1, Seq::empty());
    board_step_keeps(a, -1, Seq::empty());
    match key.code {
        KeyCode::Char(c) => {
            run_char_keeps(a, c, key.control);
        },
        _ => {},
    }
}

proof fn cursor_step_keeps(a: AppView, n: int, b: AppView)
    requires
        b == (AppView {
            filter: b.filter,
            filter_active: b.filter_active,
            max_depth: b.max_depth,
            selected_module: b.selected_module,
            requests: b.requests,
            ..a
        }),
    ensures
        stays_in_order(a, b),
        stays_in_order(a, b.cursor_held()),
        stays_in_order(a, a.cursor_moved(n)),
        stays_in_order(a, a.cursor_last()),
        stays_in_order(a, a.depth_decreased()),
        stays_in_order(a, a.depth_increased()),
        stays_in_order(a, a.run_resumed()),
        stays_in_order(a, AppView { multi_select: Seq::empty(), max_depth: None, ..a }),
{
    reveal(stays_in_order);
}

proof fn filter_key_keeps(a: AppView, key: KeyEvent)
    ensures
        stays_in_order(a, a.key_in_filter(key)),
{
    same_keeps(a);
    cursor_step_keeps(a, 0, AppView { filter_active: false, filter: Seq::empty(), ..a });
    cursor_step_keeps(a, 0, AppView { filter_active: false, ..a });
    cursor_step_keeps(
        a,
        0,
        AppView {
            filter: if a.filter.len() > 0 {
                a.filter.drop_last()
            } else {
                a.filter
            },
            ..a
        },
    );
    match key.code {
        KeyCode::Char(c) => {
            cursor_step_keeps(a, 0, AppView { filter: a.filter.push(c), ..a });
        },
        _ => {},
    }
}

proof fn select_char_keeps(a: AppView, c: char, control: bool)
    requires
        a.valid(),
    ensures
        stays_in_order(a, a.char_in_select(c, control)),
{
    same_keeps(a);
    selecting_keeps(a);
    modal_step_keeps(a, ModalView::Help);
    modal_step_keeps(a, ModalView::Reset);
    cursor_step_keeps(a, 1, AppView { selected_module: 0, ..a });
    cursor_step_keeps(a, -1, AppView { filter_active: true, filter: Seq::empty(), ..a });
    cursor_step_keeps(
        a,
        -1,
        AppView { requests: a.requests.push(crate::app::model::RequestView::Discover), ..a },
    );
}

proof fn then_keeps(a: AppView, b: AppView, c: AppView)
    requires
        stays_in_order(a, b),
        stays_in_order(b, c),
    ensures
        stays_in_order(a, c),
{
    reveal(stays_in_order);
}

proof fn entering_keeps(a: AppView)
    requires
        a.valid(),
    ensures
        stays_in_order(a, a.run_entered()),
{
    reveal(stays_in_order);
    entering_keeps_valid(a);
}

proof fn select_key_keeps(a: AppView, key: KeyEvent)
    requires
        a.can_take(),
    ensures
        stays_in_order(a, a.key_in_select(key).0),
{
    same_keeps(a);
    filter_key_keeps(a, key);
    entering_keeps_valid(a);
    entering_keeps(a);
    let page = page_of(a.viewport.list);
    cursor_step_keeps(a, 1, AppView { filter: Seq::empty(), ..a });
    cursor_step_keeps(a, -1, a);
    cursor_step_keeps(a, page, a);
    cursor_step_keeps(a, -page, a);
    match key.code {
        KeyCode::Char(c) => {
            select_char_keeps(a, c, key.control);
            if a.run_entered().screen == Screen::Run {
                run_key_keeps(a.run_entered(), key);
                then_keeps(a, a.run_entered(), a.run_entered().key_in_run(key).0);
            }
        },
        _ => {},
    }
}

proof fn quit_keeps(a: AppView, b: AppView)
    requires
        stays_in_order(a, b),
    ensures
        stays_in_order(a, b.quit_asked().0),
{
    modal_step_keeps(b, ModalView::Quit);
    then_keeps(a, b, b.with_modal(ModalView::Quit));
}

/// Whatever key is pressed, an application in order stays in order, so the next
/// key can be taken in as well; and the engine stays sound.
pub proof fn keys_keep_order(a: AppView, size: Option<(u16, u16)>, key: KeyEvent)
    requires
        a.can_take(),
    ensures
        a.key_pressed(size, key).0.valid(),
        sound(a.engine) ==> sound(a.key_pressed(size, key).0.engine),
{
    same_keeps(a);
    quit_keeps(a, a);
    output_key_keeps(a, key);
    modal_key_keeps(a, key);
    explorer_key_keeps(a, key);
    if a.screen == Screen::Select {
        select_key_keeps(a, key);
        quit_keeps(a, a.key_in_select(key).0);
    } else {
        run_key_keeps(a, key);
        quit_keeps(a, a.key_in_run(key).0);
    }
    assert(stays_in_order(a, a.key_pressed(size, key).0));
    reveal(stays_in_order);
}

/// What is confirmed starts one task per target: with their ids, in order. An
/// unlock leaves out a target without a lock.
pub proof fn confirming_starts_one_task_per_target(a: AppView)
    requires
        a.modal is Some,
        a.modal->0 is Confirm,
        a.can_confirm(),
    ensures
        ({
            let kind = (a.modal->0)->kind;
            let targets = (a.modal->0)->targets;
            let n = if kind == ConfirmKind::ForceUnlock {
                lock_pairs(targets, targets.len() as int).len()
            } else {
                targets.len()
            };
            &&& a.confirmed().engine.tasks.len() == a.engine.tasks.len() + n
            &&& a.confirmed().engine.next_id == a.engine.next_id + n
            &&& a.confirmed().modal is None
        }),
{
    let targets = (a.modal->0)->targets;
    let bare = AppView { modal: None, ..a };
    let ts = target_modules(targets);
    let pairs = lock_pairs(targets, targets.len() as int);
    pairs_are_no_more(targets, targets.len() as int);
    pushes_keep(bare, "destroy"@, seq!["-auto-approve"@], ts, pairs, ts.len() as int);
    pushes_keep(bare, "init"@, seq!["-upgrade"@], ts, pairs, ts.len() as int);
    pushes_keep(bare, "init"@, seq!["-upgrade"@], ts, pairs, pairs.len() as int);
}

/// While tasks are active no key quits, unless the question whether to quit is
/// open.
pub proof fn no_quit_while_busy(a: AppView, size: Option<(u16, u16)>, key: KeyEvent)
    requires
        a.is_busy(),
        a.modal != Some(ModalView::Quit),
    ensures
        a.key_pressed(size, key).1 == ScreenAction::Stay,
{
}

} // verus!
