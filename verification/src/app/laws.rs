//! What holds of the application across its operations.

use crate::app::explore::{not_covered, row_toggled, text_pos};
use crate::app::explorer::{ContentView, ExplorerView, RowView};
use crate::app::model::{with_items, without_items, AppView};
use crate::app::session::session_paths;
use crate::app::tasks::{cancelled_all, pending_ids, plan_args};
use crate::app::types::{ConfirmKind, ExplorerOpKind, PendingOpView, Screen, TargetView};
use crate::app::valid::visible_are_in_order;
use crate::engine::{
    a_new_plan_is_unused, after_end, after_events, after_push, find_task, find_task_finds,
    free_plan, is_plan_used, new_task, EngineUpdate, EngineView, SpecView,
};
use crate::engine_laws::{active_only, event_is_due, event_keeps_sound, ids_sound, sound};
use crate::paths::components;
use crate::state::covered;
use crate::task::{TaskEvent, TaskStatus, TaskView};
use crate::ui::confirm::{covered_line, restricted_to, restriction_lines, warned_of, with_new};
use crate::ui::keys::{KeyCode, KeyEvent, ScreenAction};
use vstd::prelude::*;

verus! {

/// Asking for an operation starts nothing: until it is confirmed there is no new
/// task, and dismissing the question leaves everything else as it was.
pub proof fn asking_starts_nothing(a: AppView, kind: ConfirmKind, op: ExplorerOpKind)
    ensures
        a.confirm_staged(kind, a.run_scope(), Seq::empty()).engine == a.engine,
        a.confirm_staged(kind, a.highlighted(), Seq::empty()).engine == a.engine,
        a.op_requested(op).engine == a.engine,
        a.modal is None ==> a.confirm_staged(kind, a.run_scope(), Seq::empty()).no_modal() == a,
        a.explorer is Some && (a.explorer->0).op_confirm is None && (
        a.explorer->0).op_targets.len() == 0 ==> a.op_requested(op).op_dismissed() == a,
{
    let b = a.confirm_staged(kind, a.run_scope(), Seq::empty()).no_modal();
    if a.modal is None {
        assert(b =~= a);
    }
    if a.explorer is Some && (a.explorer->0).op_confirm is None && (
    a.explorer->0).op_targets.len() == 0 {
        let e = a.explorer->0;
        assert(e.op_targets =~= Seq::<Seq<char>>::empty());
        assert(a.op_requested(op).op_dismissed().explorer->0 =~= e);
        assert(a.op_requested(op).op_dismissed() =~= a);
    }
}

/// On the run screen, no key that asks for an apply, a destroy, an upgrade or an
/// unlock starts a task.
pub proof fn risky_keys_only_ask(a: AppView, key: KeyEvent, c: char)
    requires
        key.code == KeyCode::Char(c),
        c == 'a' || c == 'A' || c == 'd' || c == 'D' || c == 'u' || c == 'U',
    ensures
        a.key_in_run(key).0.engine == a.engine,
{
}

/// Escape leaves the run screen with everything going on as it was, and Tab
/// leads back to the same session.
pub proof fn leaving_and_coming_back(a: AppView, esc: KeyEvent)
    requires
        a.screen == Screen::Run,
        a.session is Some,
        esc.code == KeyCode::Esc,
    ensures
        a.key_in_run(esc).0.engine == a.engine,
        a.key_in_run(esc).0.session == a.session,
        a.key_in_run(esc).0.screen == Screen::Select,
        a.key_in_run(esc).0.run_resumed() == a,
{
    assert(a.key_in_run(esc).0.run_resumed() =~= a);
}

/// Entering the run screen for the same modules goes on with the same session.
pub proof fn same_targets_same_session(a: AppView)
    ensures
        a.run_entered().run_entered() == a.run_entered(),
{
    let b = a.run_entered();
    assert(b.visible() == a.visible());
    assert(b.targets() == a.targets());
    assert(b.run_entered() =~= b);
}

/// In a terminal that is too small no key but a request to quit does anything.
pub proof fn small_terminal_swallows_keys(a: AppView, size: (u16, u16), key: KeyEvent)
    requires
        size.0 < crate::ui::layout::MIN_W || size.1 < crate::ui::layout::MIN_H,
        key.code != KeyCode::Char('q'),
        !(key.control && key.code == KeyCode::Char('c')),
    ensures
        a.key_pressed(Some(size), key) == (a, ScreenAction::Stay),
{
}

/// While the filter is typed, every character goes into it: none of them acts.
pub proof fn typing_only_filters(a: AppView, size: Option<(u16, u16)>, key: KeyEvent, c: char)
    requires
        a.filter_active,
        a.screen == Screen::Select,
        a.modal is None,
        a.explorer is None,
        !a.is_fullscreen(),
        size is None || !((size->0).0 < crate::ui::layout::MIN_W || (size->0).1
            < crate::ui::layout::MIN_H),
        key.code == KeyCode::Char(c),
        !(key.control && c == 'c'),
    ensures
        a.key_pressed(size, key) == (
            AppView { filter: a.filter.push(c), ..a }.cursor_held(),
            ScreenAction::Stay,
        ),
{
}

/// Selecting everything visible and then again gives the selection back, where
/// nothing visible was selected.
pub proof fn selecting_all_twice(a: AppView)
    requires
        forall|i: int|
            0 <= i < a.visible().len() ==> !a.multi_select.contains(#[trigger] a.visible()[i]),
        a.modules.len() <= usize::MAX,
    ensures
        a.visible_toggled().visible_toggled() == a,
{
    let v = a.visible();
    let b = a.visible_toggled();
    visible_are_in_order(a.modules, a.filter, a.max_depth, a.modules.len() as int);
    if v.len() > 0 {
        assert(!a.multi_select.contains(v[0]));
        assert(!a.all_visible_selected());
        added_is_appended(a.multi_select, v, v.len() as int);
        assert(v.take(v.len() as int) =~= v);
        assert(b.multi_select == a.multi_select + v);
        assert(b.visible() == v);
        assert forall|i: int| 0 <= i < b.visible().len() implies b.multi_select.contains(
            #[trigger] b.visible()[i],
        ) by {
            assert(b.multi_select[a.multi_select.len() + i] == v[i]);
        }
        assert(b.all_visible_selected());
        without_appended(a.multi_select, v, v.len() as int);
        assert(b.visible_toggled() =~= a);
    }
}

proof fn added_is_appended(s: Seq<usize>, v: Seq<usize>, n: int)
    requires
        0 <= n <= v.len(),
        v.no_duplicates(),
        forall|i: int| 0 <= i < v.len() ==> !s.contains(#[trigger] v[i]),
    ensures
        with_items(s, v, n) == s + v.take(n),
    decreases n,
{
    if n > 0 {
        added_is_appended(s, v, n - 1);
        let before = s + v.take(n - 1);
        assert(!before.contains(v[n - 1])) by {
            if before.contains(v[n - 1]) {
                let k = choose|k: int| 0 <= k < before.len() && before[k] == v[n - 1];
                if k < s.len() {
                    assert(s.contains(v[n - 1]));
                } else {
                    assert(v[k - s.len()] == v[n - 1]);
                }
            }
        }
        assert(before.push(v[n - 1]) =~= s + v.take(n));
    } else {
        assert(s + v.take(0) =~= s);
    }
}

proof fn without_appended(s: Seq<usize>, v: Seq<usize>, n: int)
    requires
        0 <= n <= v.len(),
        forall|i: int| 0 <= i < v.len() ==> !s.contains(#[trigger] v[i]),
    ensures
        without_items(s + v.take(n), v) == s,
    decreases n,
{
    let all = s + v.take(n);
    if n > 0 {
        without_appended(s, v, n - 1);
        assert(all.drop_last() =~= s + v.take(n - 1));
        assert(v.contains(v[n - 1]));
    } else {
        assert(all =~= s);
        without_none(s, v);
    }
}

proof fn without_none(s: Seq<usize>, v: Seq<usize>)
    requires
        forall|i: int| 0 <= i < v.len() ==> !s.contains(#[trigger] v[i]),
    ensures
        without_items(s, v) == s,
    decreases s.len(),
{
    if s.len() > 0 {
        assert forall|i: int| 0 <= i < v.len() implies !s.drop_last().contains(#[trigger] v[i]) by {
            if s.drop_last().contains(v[i]) {
                let k = choose|k: int| 0 <= k < s.drop_last().len() && s.drop_last()[k] == v[i];
                assert(s[k] == v[i]);
            }
        }
        without_none(s.drop_last(), v);
        assert(!v.contains(s.last())) by {
            if v.contains(s.last()) {
                let k = choose|k: int| 0 <= k < v.len() && v[k] == s.last();
                assert(s[s.len() - 1] == v[k]);
            }
        }
        assert(s.drop_last().push(s.last()) =~= s);
    }
}

/// The depth limit never hides the first level, and a step back from a limit
/// that was just set lifts it.
pub proof fn depth_steps_back(a: AppView)
    requires
        a.depth_levels() <= usize::MAX,
    ensures
        (a.depth_decreased().max_depth->0) >= 1,
        a.max_depth is None && 2 <= a.depth_levels() ==> a.depth_decreased().depth_increased()
            == a,
{
    if a.max_depth is None && 2 <= a.depth_levels() {
        assert(a.depth_decreased().depth_increased() =~= a);
    }
}

/// Every task started from the explorer shows on the run board: the session,
/// which is begun where there was none, has the module, and the task is its
/// latest. The user stays in the explorer, on the screen that it was opened
/// from.
pub proof fn explorer_tasks_show_on_the_board(a: AppView)
    requires
        a.explorer is Some,
        (a.explorer->0).module_idx < a.modules.len(),
    ensures
        (a.explorer->0).targets().len() > 0 ==> shows_on_board(a, a.targeted_plan_pushed()),
        (a.explorer->0).op_confirm is Some && (a.explorer->0).op_targets.len() > 0
            ==> shows_on_board(a, a.op_started()),
{
    let e = a.explorer->0;
    let path = a.modules[e.module_idx as int].path;
    let place = components(path);
    match a.session {
        Some(s) => {
            if !session_paths(s.modules).contains(place) {
                let sm = crate::app::types::SessionModuleView {
                    module_idx: e.module_idx,
                    path,
                    name: a.modules[e.module_idx as int].name,
                };
                let ms = s.modules.push(sm);
                assert(session_paths(ms)[s.modules.len() as int] == place);
                assert(session_paths(ms).contains(place));
            }
        },
        None => {
            let sm = crate::app::types::SessionModuleView {
                module_idx: e.module_idx,
                path,
                name: a.modules[e.module_idx as int].name,
            };
            assert(session_paths(seq![sm])[0] == place);
            assert(session_paths(seq![sm]).contains(place));
        },
    }
}

/// Whether the task that was pushed between `a` and `b` shows on the board.
pub open spec fn shows_on_board(a: AppView, b: AppView) -> bool {
    let path = a.modules[(a.explorer->0).module_idx as int].place();
    &&& b.session is Some
    &&& session_paths((b.session->0).modules).contains(path)
    &&& (b.session->0).latest_task.dom().contains(path)
    &&& (b.session->0).latest_task[path] == a.engine.next_id
    &&& b.screen == a.screen
    &&& b.explorer is Some
}

/// No operation of the explorer touches the cached plans: a targeted apply does
/// not consume one.
pub proof fn explorer_operations_keep_plans(a: AppView)
    ensures
        a.op_started().engine.plans == a.engine.plans,
        a.targeted_plan_pushed().engine.plans == a.engine.plans,
{
}

/// An apply consumes the cached plan of its module: the task gets it, and it is
/// no longer cached. Other modules keep theirs.
pub proof fn apply_consumes_the_plan(a: AppView, idx: int, dir: Seq<Seq<char>>)
    requires
        0 <= idx < a.modules.len(),
    ensures
        a.apply_pushed(idx).engine.plans == a.engine.plans.remove(a.modules[idx].place()),
        dir != a.modules[idx].place() && a.engine.plans.dom().contains(dir) ==> a.apply_pushed(
            idx,
        ).engine.plans.dom().contains(dir) && a.apply_pushed(idx).engine.plans[dir]
            == a.engine.plans[dir],
{
    let path = a.modules[idx].place();
    if !a.engine.plans.dom().contains(path) {
        assert(a.engine.plans.remove(path) =~= a.engine.plans);
    }
}

/// The answer to a read of state is taken in once, and only while the explorer
/// waits for it.
pub proof fn state_is_installed_once(a: AppView, id: u64, c: ContentView, d: ContentView)
    ensures
        a.state_installed(id, c).state_installed(id, d) == a.state_installed(id, c),
        a.explorer is None || (a.explorer->0).loading != Some(id) ==> a.state_installed(id, c) == a,
{
}

/// A module that gets selected in the explorer replaces the resources below it:
/// none of them stays selected beside it.
pub proof fn selected_module_replaces_its_resources(e: ExplorerView, prefix: Seq<char>)
    requires
        e.row() == Some(RowView::ModuleHeader { prefix, count: (e.row()->0)->count }),
        !e.module_select.contains(prefix),
    ensures
        row_toggled(e).module_select == e.module_select.push(prefix),
        forall|k: int|
            0 <= k < row_toggled(e).multi_select.len() ==> {
                let i = #[trigger] row_toggled(e).multi_select[k];
                e.multi_select.contains(i) && !(i < e.addrs().len() && covered(
                    e.addrs()[i as int],
                    prefix,
                ))
            },
{
    text_pos_finds(e.module_select, prefix);
    kept_are_not_covered(e.addrs(), e.multi_select, prefix);
}

proof fn text_pos_finds(v: Seq<Seq<char>>, p: Seq<char>)
    ensures
        0 <= text_pos(v, p) <= v.len(),
        text_pos(v, p) < v.len() ==> v.contains(p),
    decreases v.len(),
{
    if v.len() > 0 {
        text_pos_finds(v.drop_last(), p);
        if text_pos(v.drop_last(), p) < v.len() - 1 {
            let k = choose|k: int| 0 <= k < v.drop_last().len() && v.drop_last()[k] == p;
            assert(v[k] == p);
        } else if v.last() == p {
            assert(v[v.len() - 1] == p);
        }
    }
}

proof fn kept_are_not_covered(addrs: Seq<Seq<char>>, selected: Seq<usize>, prefix: Seq<char>)
    ensures
        forall|k: int|
            0 <= k < not_covered(addrs, selected, prefix).len() ==> {
                let i = #[trigger] not_covered(addrs, selected, prefix)[k];
                selected.contains(i) && !(i < addrs.len() && covered(addrs[i as int], prefix))
            },
    decreases selected.len(),
{
    if selected.len() > 0 {
        let front = selected.drop_last();
        kept_are_not_covered(addrs, front, prefix);
        let before = not_covered(addrs, front, prefix);
        let after = not_covered(addrs, selected, prefix);
        assert forall|k: int| 0 <= k < after.len() implies {
            let i = #[trigger] after[k];
            selected.contains(i) && !(i < addrs.len() && covered(addrs[i as int], prefix))
        } by {
            if k < before.len() {
                assert(after[k] == before[k]);
                let j = choose|j: int| 0 <= j < front.len() && front[j] == before[k];
                assert(selected[j] == before[k]);
            } else {
                assert(selected[selected.len() - 1] == after[k]);
            }
        }
    }
}

/// The addresses that an operation is about: done, worked on and to come.
pub open spec fn op_work(op: PendingOpView) -> Seq<Seq<char>> {
    op.done.map_values(|e: (Seq<char>, bool)| e.0) + (match op.running {
        Some((_, a)) => seq![a],
        None => Seq::empty(),
    }) + op.queue
}

/// An operation works through its addresses in order: each end of a task moves
/// on by one, nothing is lost or added, and the result lists them all.
pub proof fn op_works_through_its_addresses(a: AppView, task_id: usize, success: bool)
    requires
        a.explorer is Some,
        (a.explorer->0).pending_op is Some,
        ((a.explorer->0).pending_op->0).running is Some,
        (((a.explorer->0).pending_op->0).running->0).0 == task_id,
    ensures
        ({
            let op = (a.explorer->0).pending_op->0;
            let e = a.op_checked(task_id, success).explorer->0;
            if op.queue.len() > 0 {
                &&& e.pending_op is Some
                &&& op_work(e.pending_op->0) == op_work(op)
                &&& (e.pending_op->0).done.len() == op.done.len() + 1
            } else {
                &&& e.pending_op is None
                &&& e.op_result is Some
                &&& (e.op_result->0).entries.map_values(|x: (Seq<char>, bool)| x.0) == op_work(op)
            }
        }),
{
    let op = (a.explorer->0).pending_op->0;
    let addr = (op.running->0).1;
    let done = op.done.push((addr, success));
    let names = op.done.map_values(|e: (Seq<char>, bool)| e.0);
    assert(done.map_values(|e: (Seq<char>, bool)| e.0) =~= names.push(addr));
    if op.queue.len() > 0 {
        assert(names.push(addr) + seq![op.queue[0]] + op.queue.skip(1) =~= names + seq![addr]
            + op.queue);
    } else {
        assert(names.push(addr) =~= names + seq![addr] + op.queue);
    }
}

/// Every plan is kept for a later apply: its task writes to a plan of its own,
/// and once a task that writes a plan has succeeded, that plan is its module's
/// cached one.
pub proof fn plans_are_kept(a: AppView, idx: int, addrs: Seq<Seq<char>>, e: EngineView, k: int)
    requires
        0 <= k < e.tasks.len(),
        e.tasks[k].plan_output is Some,
        e.tasks[k].status != TaskStatus::Cancelling,
    ensures
        ({
            let t = a.plan_pushed(idx, addrs).engine.tasks.last();
            let plan = free_plan(a.engine);
            &&& t.plan_output == Some(plan)
            &&& t.targets == addrs
            &&& plan.fd < i32::MAX ==> !is_plan_used(a.engine, plan)
        }),
        ({
            let plans = after_end(e, k, true).plans;
            let t = e.tasks[k];
            &&& plans.dom().contains(t.place())
            &&& plans[t.place()].handle == t.plan_output->0
            &&& plans[t.place()].targets == t.targets
        }),
{
    a_new_plan_is_unused(a.engine);
    let plan = free_plan(a.engine);
    let spec = SpecView {
        module_dir: a.modules[idx].path,
        module_name: a.modules[idx].name,
        command: "plan"@,
        args: plan_args(plan, addrs),
        plan_output: Some(plan),
        targets: addrs,
        apply_plan: None,
    };
    let tasks = a.engine.tasks.push(new_task(a.engine.next_id, spec));
    find_task_finds(tasks, a.engine.next_id);
    find_task_finds(tasks, a.engine.queues[components(spec.module_dir)].task_id);
    assert(a.plan_pushed(idx, addrs).engine == after_push(a.engine, spec));
}

/// The confirmation of an apply of partial plans lists exactly the addresses
/// that the apply is restricted to: below the two lines that warn, there is a
/// line for every address of the plans, and there is no other line. It warns
/// exactly where there are any.
pub proof fn partial_plans_are_warned_of(ts: Seq<TargetView>)
    ensures
        ({
            let lines = restriction_lines(warned_of(ConfirmKind::Apply, ts));
            &&& forall|i: int, k: int|
                0 <= i < ts.len() && 0 <= k < (#[trigger] ts[i]).plan_targets.len()
                    ==> lines.skip(2).contains(covered_line(#[trigger] ts[i].plan_targets[k]))
            &&& forall|j: int|
                2 <= j < lines.len() ==> exists|i: int, k: int|
                    0 <= i < ts.len() && 0 <= k < (#[trigger] ts[i]).plan_targets.len()
                        && #[trigger] lines[j] == covered_line(#[trigger] ts[i].plan_targets[k])
            &&& lines.len() > 0 <==> exists|i: int|
                0 <= i < ts.len() && (#[trigger] ts[i]).plan_targets.len() > 0
        }),
{
    let n = ts.len() as int;
    restricted_are(ts, n);
    let all = warned_of(ConfirmKind::Apply, ts);
    if all.len() > 0 {
        assert(all.contains(all[0]));
        let i = choose|i: int| 0 <= i < n && (#[trigger] ts[i]).plan_targets.contains(all[0]);
        assert(ts[i].plan_targets.len() > 0);
    }
    let lines = restriction_lines(all);
    assert forall|i: int, k: int|
        0 <= i < ts.len() && 0 <= k < (
        #[trigger] ts[i]).plan_targets.len() implies lines.skip(2).contains(
        covered_line(#[trigger] ts[i].plan_targets[k]),
    ) by {
        let a = ts[i].plan_targets[k];
        assert(ts[i].plan_targets.contains(a));
        assert(all.contains(a));
        let j = choose|j: int| 0 <= j < all.len() && all[j] == a;
        assert(lines.skip(2)[j] == covered_line(a));
    }
    assert forall|j: int| 2 <= j < lines.len() implies exists|i: int, k: int|
        0 <= i < ts.len() && 0 <= k < (#[trigger] ts[i]).plan_targets.len()
            && #[trigger] lines[j] == covered_line(#[trigger] ts[i].plan_targets[k]) by {
        let a = all[j - 2];
        assert(all.contains(a));
        let i = choose|i: int| 0 <= i < n && (#[trigger] ts[i]).plan_targets.contains(a);
        let k = choose|k: int| 0 <= k < ts[i].plan_targets.len() && ts[i].plan_targets[k] == a;
        assert(lines[j] == covered_line(ts[i].plan_targets[k]));
    }
    if exists|i: int| 0 <= i < n && (#[trigger] ts[i]).plan_targets.len() > 0 {
        let i = choose|i: int| 0 <= i < n && (#[trigger] ts[i]).plan_targets.len() > 0;
        assert(ts[i].plan_targets.contains(ts[i].plan_targets[0]));
        assert(all.contains(ts[i].plan_targets[0]));
    }
}

proof fn new_are(acc: Seq<Seq<char>>, addrs: Seq<Seq<char>>, n: int)
    requires
        0 <= n <= addrs.len(),
    ensures
        forall|a: Seq<char>| #[trigger]
            with_new(acc, addrs, n).contains(a) <==> acc.contains(a) || addrs.take(n).contains(a),
    decreases n,
{
    if n > 0 {
        new_are(acc, addrs, n - 1);
        let before = with_new(acc, addrs, n - 1);
        let after = with_new(acc, addrs, n);
        let short = addrs.take(n - 1);
        let long = addrs.take(n);
        let x = addrs[n - 1];
        assert(long =~= short.push(x));
        assert forall|a: Seq<char>| #[trigger] after.contains(a) <==> acc.contains(a)
            || long.contains(a) by {
            assert(long[n - 1] == x);
            if short.contains(a) {
                let k = choose|k: int| 0 <= k < short.len() && short[k] == a;
                assert(long[k] == a);
            }
            if long.contains(a) && a != x {
                let k = choose|k: int| 0 <= k < long.len() && long[k] == a;
                assert(short[k] == a);
            }
            if before.contains(a) {
                let k = choose|k: int| 0 <= k < before.len() && before[k] == a;
                assert(after[k] == a);
            }
            if after.contains(a) && a != x {
                let k = choose|k: int| 0 <= k < after.len() && after[k] == a;
                assert(before[k] == a);
            }
            if !before.contains(x) {
                assert(after[before.len() as int] == x);
            }
        }
    } else {
        assert forall|a: Seq<char>| #[trigger] with_new(acc, addrs, n).contains(a)
            <==> acc.contains(a) || addrs.take(n).contains(a) by {}
    }
}

proof fn restricted_are(ts: Seq<TargetView>, n: int)
    requires
        0 <= n <= ts.len(),
    ensures
        forall|a: Seq<char>| #[trigger]
            restricted_to(ts, n).contains(a) <==> exists|i: int|
                0 <= i < n && (#[trigger] ts[i]).plan_targets.contains(a),
    decreases n,
{
    if n > 0 {
        restricted_are(ts, n - 1);
        let addrs = ts[n - 1].plan_targets;
        let before = restricted_to(ts, n - 1);
        let after = restricted_to(ts, n);
        new_are(before, addrs, addrs.len() as int);
        assert(addrs.take(addrs.len() as int) =~= addrs);
        assert forall|a: Seq<char>| #[trigger] after.contains(a) <==> exists|i: int|
            0 <= i < n && (#[trigger] ts[i]).plan_targets.contains(a) by {
            if after.contains(a) {
                if before.contains(a) {
                    let i = choose|i: int|
                        0 <= i < n - 1 && (#[trigger] ts[i]).plan_targets.contains(a);
                    assert(0 <= i < n && ts[i].plan_targets.contains(a));
                } else {
                    assert(ts[n - 1].plan_targets.contains(a));
                }
            }
            if exists|i: int| 0 <= i < n && (#[trigger] ts[i]).plan_targets.contains(a) {
                let i = choose|i: int| 0 <= i < n && (#[trigger] ts[i]).plan_targets.contains(a);
                if i < n - 1 {
                    assert(before.contains(a));
                }
            }
        }
    }
}

/// After a reset nothing waits and nothing is over: only what is executing, or
/// being cancelled, is kept. There is no plan, no selection, no filter, no depth
/// limit, no session and no overlay, and the select screen is shown.
pub proof fn reset_keeps_only_what_runs(a: AppView)
    requires
        ids_sound(a.engine),
    ensures
        forall|i: int|
            0 <= i < a.reset().engine.tasks.len() ==> {
                let t = #[trigger] a.reset().engine.tasks[i];
                t.status == TaskStatus::Running || t.status == TaskStatus::Cancelling
            },
        a.reset().engine.plans.dom() == Set::<Seq<Seq<char>>>::empty(),
        a.reset().multi_select.len() == 0,
        a.reset().filter.len() == 0,
        a.reset().max_depth is None,
        a.reset().session is None,
        a.reset().modal is None,
        a.reset().explorer is None,
        a.reset().screen == Screen::Select,
{
    let e = a.engine;
    let n = e.tasks.len() as int;
    let ids = pending_ids(e.tasks, n);
    pending_are(e.tasks, n);
    cancelled_are_not_pending(e, ids, ids.len() as int);
    let f = cancelled_all(e, ids, ids.len() as int);
    assert forall|i: int| 0 <= i < f.tasks.len() implies (#[trigger] f.tasks[i]).status
        != TaskStatus::Pending by {
        assert(f.tasks[i].id == e.tasks[i].id);
        if e.tasks[i].status == TaskStatus::Pending {
            assert(ids.contains(e.tasks[i].id));
            let k = choose|k: int| 0 <= k < ids.len() && ids[k] == e.tasks[i].id;
            assert(ids.take(ids.len() as int)[k] == e.tasks[i].id);
            assert(ids.take(ids.len() as int).contains(e.tasks[i].id));
        }
    }
    kept_are_active(f.tasks);
    assert(a.reset().engine.plans.dom() =~= Set::<Seq<Seq<char>>>::empty());
}

proof fn pending_are(tasks: Seq<TaskView>, n: int)
    requires
        0 <= n <= tasks.len(),
    ensures
        forall|i: int|
            0 <= i < n && (#[trigger] tasks[i]).status == TaskStatus::Pending ==> pending_ids(
                tasks,
                n,
            ).contains(tasks[i].id),
    decreases n,
{
    if n > 0 {
        pending_are(tasks, n - 1);
        let before = pending_ids(tasks, n - 1);
        let after = pending_ids(tasks, n);
        assert forall|i: int|
            0 <= i < n && (#[trigger] tasks[i]).status
                == TaskStatus::Pending implies after.contains(tasks[i].id) by {
            if i < n - 1 {
                let k = choose|k: int| 0 <= k < before.len() && before[k] == tasks[i].id;
                assert(after[k] == before[k]);
            } else {
                assert(after[before.len() as int] == tasks[i].id);
            }
        }
    }
}

proof fn cancelled_are_not_pending(e: EngineView, ids: Seq<usize>, n: int)
    requires
        ids_sound(e),
        0 <= n <= ids.len(),
    ensures
        ({
            let f = cancelled_all(e, ids, n);
            &&& f.tasks.len() == e.tasks.len()
            &&& ids_sound(f)
            &&& forall|i: int|
                0 <= i < e.tasks.len() ==> {
                    let t = #[trigger] f.tasks[i];
                    &&& t.id == e.tasks[i].id
                    &&& e.tasks[i].status != TaskStatus::Pending ==> t.status != TaskStatus::Pending
                    &&& ids.take(n).contains(t.id) ==> t.status != TaskStatus::Pending
                }
        }),
    decreases n,
{
    if n > 0 {
        cancelled_are_not_pending(e, ids, n - 1);
        let before = cancelled_all(e, ids, n - 1);
        let after = cancelled_all(e, ids, n);
        let id = ids[n - 1];
        find_task_finds(before.tasks, id);
        assert(ids.take(n) =~= ids.take(n - 1).push(id));
        assert forall|i: int| 0 <= i < e.tasks.len() implies {
            let t = #[trigger] after.tasks[i];
            &&& t.id == e.tasks[i].id
            &&& e.tasks[i].status != TaskStatus::Pending ==> t.status != TaskStatus::Pending
            &&& ids.take(n).contains(t.id) ==> t.status != TaskStatus::Pending
        } by {
            assert(before.tasks[i].id == e.tasks[i].id);
            if ids.take(n).contains(after.tasks[i].id) && after.tasks[i].id != id {
                let k = choose|k: int|
                    0 <= k < ids.take(n).len() && ids.take(n)[k] == after.tasks[i].id;
                assert(ids.take(n - 1)[k] == after.tasks[i].id);
            }
            if before.tasks[i].id == id {
                let f = find_task(before.tasks, id);
                if f < i {
                    assert(before.tasks[f].id != before.tasks[i].id);
                } else if f > i {
                    assert(before.tasks[i].id != id);
                }
            }
        }
    }
}

proof fn kept_are_active(tasks: Seq<TaskView>)
    ensures
        forall|i: int|
            0 <= i < active_only(tasks).len() ==> {
                let t = #[trigger] active_only(tasks)[i];
                !t.status.over() && tasks.contains(t)
            },
{
    let keep = |t: TaskView| !t.status.over();
    assert forall|i: int| 0 <= i < active_only(tasks).len() implies {
        let t = #[trigger] active_only(tasks)[i];
        !t.status.over() && tasks.contains(t)
    } by {
        tasks.lemma_filter_contains_rev(keep, active_only(tasks)[i]);
        tasks.lemma_filter_pred(keep, i);
    }
}

/// Whether each event reports on a task that is with the runner at that point.
pub open spec fn all_due(e: EngineView, events: Seq<TaskEvent>) -> bool
    decreases events.len(),
{
    if events.len() == 0 {
        true
    } else {
        all_due(e, events.drop_last()) && event_is_due(
            after_events(e, events.drop_last()).0,
            events.last(),
        )
    }
}

proof fn events_keep_sound(e: EngineView, events: Seq<TaskEvent>)
    requires
        sound(e),
        all_due(e, events),
    ensures
        sound(after_events(e, events).0),
    decreases events.len(),
{
    if events.len() > 0 {
        events_keep_sound(e, events.drop_last());
        event_keeps_sound(after_events(e, events.drop_last()).0, events.last());
    }
}

/// Task events leave an application in order, and its engine sound where they
/// are events of the runner.
pub proof fn events_keep_order(a: AppView, events: Seq<TaskEvent>)
    requires
        a.valid(),
        a.has_room(events.len() as int),
    ensures
        a.drained(events).valid(),
        sound(a.engine) && all_due(a.engine, events) ==> sound(a.drained(events).engine),
{
    let (e, us) = after_events(a.engine, events);
    crate::app::explore::updates_are_fewer(a.engine, events);
    let b = AppView {
        spinner_tick: (if a.spinner_tick == u8::MAX {
            0
        } else {
            a.spinner_tick + 1
        }) as u8,
        engine: e,
        ..a
    };
    if sound(a.engine) && all_due(a.engine, events) {
        events_keep_sound(a.engine, events);
    }
    assert(b.valid());
    checks_keep_order(b, us, us.len() as int);
}

proof fn checks_keep_order(a: AppView, us: Seq<EngineUpdate>, n: int)
    requires
        0 <= n <= us.len(),
        a.valid(),
        a.has_room(n),
    ensures
        a.ops_checked(us, n).valid(),
        a.ops_checked(us, n).engine.next_id <= a.engine.next_id + n,
        sound(a.engine) ==> sound(a.ops_checked(us, n).engine),
    decreases n,
{
    if n > 0 {
        checks_keep_order(a, us, n - 1);
        let b = a.ops_checked(us, n - 1);
        match us[n - 1] {
            EngineUpdate::Finished { task_id, success } => {
                check_keeps_order(b, task_id, success);
            },
            _ => {},
        }
    }
}

proof fn check_keeps_order(a: AppView, task_id: usize, success: bool)
    requires
        a.valid(),
        a.has_room(1),
    ensures
        a.op_checked(task_id, success).valid(),
        a.op_checked(task_id, success).engine.next_id <= a.engine.next_id + 1,
        sound(a.engine) ==> sound(a.op_checked(task_id, success).engine),
{
    if a.explorer is Some && (a.explorer->0).pending_op is Some {
        let e = a.explorer->0;
        let op = e.pending_op->0;
        if op.queue.len() > 0 {
            let next = op.queue[0];
            crate::ui::key_laws::push_keeps(
                a,
                e.module_idx as int,
                op.kind.command_text(),
                op.kind.lead_args().push(next),
                None,
                seq![next],
                None,
            );
        }
    }
}

/// What the host answers leaves an application in order: the state that was
/// read, the locks that were read, and, with no question open and the explorer
/// closed, the modules that were found.
pub proof fn answers_keep_order(
    a: AppView,
    id: u64,
    c: ContentView,
    targets: Seq<usize>,
    locks: Seq<Option<crate::lock::LockView>>,
    found: Seq<crate::discovery::ModuleView>,
)
    requires
        a.valid(),
        found.len() <= usize::MAX,
    ensures
        a.state_installed(id, c).valid(),
        a.state_installed(id, c).engine == a.engine,
        a.confirm_staged(ConfirmKind::ForceUnlock, targets, locks).valid(),
        a.confirm_staged(ConfirmKind::ForceUnlock, targets, locks).engine == a.engine,
        a.explorer is None && !(a.modal is Some && (a.modal->0) is Confirm)
            ==> a.modules_refreshed(found).valid(),
        a.modules_refreshed(found).engine == a.engine,
{
    crate::ui::key_laws::staging_keeps(a, ConfirmKind::ForceUnlock, targets, locks);
    reveal(crate::ui::key_laws::stays_in_order);
    crate::app::refresh::refresh_keeps_places(a, found);
}

} // verus!
