//! What the user sees and selects, and what a run is about.

use crate::app::model::{toggling_flips, with_items, without_items, AppView};
use crate::app::modules::{deepest, newest_active};
use crate::app::session::{
    ascending, ascending_keeps_all, cancel_ids, display_of, index_place, index_place_bounds,
    last_place, latest_with, new_row, remapped, session_modules_for, session_paths, surviving,
};
use crate::app::types::{Screen, SessionModuleView, SessionView};
use crate::app::valid::visible_are_in_order;
use crate::discovery::ModuleView;
use crate::engine::{find_task, find_task_finds, has_task};
use crate::paths::components;
use crate::task::TaskView;
use crate::text::{holds, lowercase};
use vstd::prelude::*;

verus! {

/// A module is shown exactly where its name holds the filter, whatever the case
/// of their letters, and has no more levels than the depth limit allows; which
/// other modules there are does not matter. The modules are shown in order.
pub proof fn what_is_shown_passes_the_filter_and_the_limit(a: AppView, i: usize)
    requires
        a.modules.len() <= usize::MAX,
    ensures
        a.visible().contains(i) <==> {
            &&& i < a.modules.len()
            &&& lowercase(a.filter).len() == 0 || holds(
                lowercase(a.modules[i as int].name),
                lowercase(a.filter),
            )
            &&& a.max_depth is Some ==> components(a.modules[i as int].name).len() <= a.max_depth->0
        },
        forall|j: int, k: int|
            0 <= j < k < a.visible().len() ==> #[trigger] a.visible()[j] < #[trigger] a.visible()[k],
{
    visible_are_in_order(a.modules, a.filter, a.max_depth, a.modules.len() as int);
    let v = a.visible();
    if v.contains(i) {
        let k = choose|k: int| 0 <= k < v.len() && v[k] == i;
        assert(v[k] < a.modules.len());
    }
    if i < a.modules.len() {
        let m = a.modules[i as int];
        assert(i as int as usize == i);
    }
}

/// The number of levels is that of the deepest module.
pub proof fn the_levels_reach_the_deepest_module(a: AppView, i: int)
    requires
        0 <= i < a.modules.len(),
    ensures
        components(a.modules[i].name).len() <= a.depth_levels(),
        exists|k: int|
            0 <= k < a.modules.len() && components((#[trigger] a.modules[k]).name).len()
                == a.depth_levels(),
{
    deepest_is_reached(a.modules, a.modules.len() as int);
}

proof fn deepest_is_reached(ms: Seq<ModuleView>, n: int)
    requires
        0 <= n <= ms.len(),
    ensures
        forall|i: int| 0 <= i < n ==> components((#[trigger] ms[i]).name).len() <= deepest(ms, n),
        n > 0 ==> exists|k: int|
            0 <= k < n && components((#[trigger] ms[k]).name).len() == deepest(ms, n),
    decreases n,
{
    if n > 0 {
        deepest_is_reached(ms, n - 1);
        assert(components(ms[n - 1].name).len() <= deepest(ms, n));
        if n == 1 {
            assert(deepest(ms, 0) == 0);
            assert(components(ms[0].name).len() == deepest(ms, 1));
        } else if components(ms[n - 1].name).len() > deepest(ms, n - 1) {
            assert(components(ms[n - 1].name).len() == deepest(ms, n));
        } else {
            let k = choose|k: int|
                0 <= k < n - 1 && components((#[trigger] ms[k]).name).len() == deepest(ms, n - 1);
            assert(components(ms[k].name).len() == deepest(ms, n));
        }
    }
}

/// The depth limit goes down level by level to the first, and up level by level
/// until every level shows.
pub proof fn the_limit_moves_by_one_level(a: AppView)
    requires
        a.depth_levels() <= usize::MAX,
    ensures
        a.max_depth is Some && a.max_depth->0 > 1 ==> a.depth_decreased().max_depth == Some(
            (a.max_depth->0 - 1) as usize,
        ),
        a.max_depth is None && a.depth_levels() > 1 ==> a.depth_decreased().max_depth == Some(
            (a.depth_levels() - 1) as usize,
        ),
        a.max_depth is Some && a.max_depth->0 <= 1 ==> a.depth_decreased().max_depth == Some(1usize),
        a.max_depth is Some && a.max_depth->0 + 1 < a.depth_levels() ==> a.depth_increased().max_depth
            == Some((a.max_depth->0 + 1) as usize),
        a.max_depth is Some && a.max_depth->0 + 1 >= a.depth_levels()
            ==> a.depth_increased().max_depth is None,
        a.max_depth is None ==> a.depth_increased() == a,
{
}

proof fn added_are_in(v: Seq<usize>, items: Seq<usize>, n: int)
    requires
        0 <= n <= items.len(),
    ensures
        forall|y: usize|
            #[trigger] with_items(v, items, n).contains(y) <==> v.contains(y) || items.take(
                n,
            ).contains(y),
    decreases n,
{
    let after = with_items(v, items, n);
    if n > 0 {
        added_are_in(v, items, n - 1);
        let before = with_items(v, items, n - 1);
        assert(items.take(n) =~= items.take(n - 1).push(items[n - 1]));
        assert forall|y: usize| #[trigger] after.contains(y) <==> v.contains(y) || items.take(
            n,
        ).contains(y) by {
            pushed_contains(items.take(n - 1), items[n - 1], y);
            pushed_contains(before, items[n - 1], y);
            assert(before.contains(y) <==> v.contains(y) || items.take(n - 1).contains(y));
        }
    } else {
        assert(items.take(0) =~= Seq::<usize>::empty());
    }
}

proof fn pushed_contains(v: Seq<usize>, x: usize, y: usize)
    ensures
        v.push(x).contains(y) <==> v.contains(y) || y == x,
{
    let w = v.push(x);
    if v.contains(y) {
        let k = choose|k: int| 0 <= k < v.len() && v[k] == y;
        assert(w[k] == y);
    }
    if y == x {
        assert(w[v.len() as int] == y);
    }
    if w.contains(y) && y != x {
        let k = choose|k: int| 0 <= k < w.len() && w[k] == y;
        assert(v[k] == y);
    }
}

proof fn taken_out(v: Seq<usize>, out: Seq<usize>)
    ensures
        forall|y: usize|
            #[trigger] without_items(v, out).contains(y) <==> v.contains(y) && !out.contains(y),
    decreases v.len(),
{
    if v.len() > 0 {
        let front = v.drop_last();
        taken_out(front, out);
        assert(v =~= front.push(v.last()));
        assert forall|y: usize| #[trigger] without_items(v, out).contains(y) <==> v.contains(y)
            && !out.contains(y) by {
            pushed_contains(front, v.last(), y);
            pushed_contains(without_items(front, out), v.last(), y);
            assert(without_items(front, out).contains(y) <==> front.contains(y) && !out.contains(y));
        }
    }
}

/// Toggling the selection flips the module under the cursor and no other.
pub proof fn toggling_selects_the_module_under_the_cursor(a: AppView, y: usize)
    requires
        a.selected_module < a.visible().len(),
        a.multi_select.no_duplicates(),
    ensures
        ({
            let x = a.visible()[a.selected_module as int];
            let b = a.selection_toggled();
            &&& b.multi_select.contains(x) != a.multi_select.contains(x)
            &&& y != x ==> b.multi_select.contains(y) == a.multi_select.contains(y)
            &&& b.multi_select_anchor == Some(a.selected_module)
            &&& b.selected_module == a.selected_module
        }),
{
    toggling_flips(a.multi_select, a.visible()[a.selected_module as int]);
}

/// Selecting a range adds exactly what is shown from the anchor to the cursor,
/// whichever of the two comes first, and takes nothing out.
pub proof fn a_range_goes_from_the_anchor_to_the_cursor(a: AppView, y: usize)
    requires
        a.multi_select_anchor is Some,
        a.multi_select_anchor->0 < a.visible().len(),
        a.selected_module < a.visible().len(),
    ensures
        ({
            let p = a.multi_select_anchor->0 as int;
            let q = a.selected_module as int;
            a.range_selected().multi_select.contains(y) <==> a.multi_select.contains(y) || exists|
                k: int,
            |
                (p <= k <= q || q <= k <= p) && #[trigger] a.visible()[k] == y
        }),
{
    let v = a.visible();
    let anchor = a.multi_select_anchor->0;
    let p = anchor as int;
    let q = a.selected_module as int;
    let (lo, hi) = a.range_ends(anchor);
    let part = v.subrange(lo, hi);
    added_are_in(a.multi_select, part, part.len() as int);
    assert(part.take(part.len() as int) =~= part);
    assert(a.range_selected().multi_select.contains(y) <==> a.multi_select.contains(y)
        || part.contains(y));
    if part.contains(y) {
        let k = choose|k: int| 0 <= k < part.len() && part[k] == y;
        assert(v[lo + k] == y);
    }
    if exists|k: int| (p <= k <= q || q <= k <= p) && #[trigger] v[k] == y {
        let k = choose|k: int| (p <= k <= q || q <= k <= p) && #[trigger] v[k] == y;
        assert(part[k - lo] == y);
    }
}

/// Selecting what is shown selects all of it, unless all of it is selected: that
/// is undone. What is not shown stays as it was.
pub proof fn all_that_is_shown_is_selected(a: AppView, y: usize)
    requires
        a.visible().len() > 0,
    ensures
        ({
            let b = a.visible_toggled();
            &&& !a.visible().contains(y) ==> b.multi_select.contains(y) == a.multi_select.contains(y)
            &&& a.visible().contains(y) && (exists|x: usize| #[trigger]
                a.visible().contains(x) && !a.multi_select.contains(x)) ==> b.multi_select.contains(y)
            &&& a.visible().contains(y) && (forall|x: usize| #[trigger]
                a.visible().contains(x) ==> a.multi_select.contains(x)) ==> !b.multi_select.contains(
                y,
            )
        }),
{
    let v = a.visible();
    added_are_in(a.multi_select, v, v.len() as int);
    assert(v.take(v.len() as int) =~= v);
    taken_out(a.multi_select, v);
    if exists|x: usize| #[trigger] v.contains(x) && !a.multi_select.contains(x) {
        let x = choose|x: usize| #[trigger] v.contains(x) && !a.multi_select.contains(x);
        let k = choose|k: int| 0 <= k < v.len() && v[k] == x;
        assert(!a.multi_select.contains(v[k]));
    }
    if forall|x: usize| #[trigger] v.contains(x) ==> a.multi_select.contains(x) {
        assert forall|k: int| 0 <= k < v.len() implies a.multi_select.contains(#[trigger] v[k]) by {
            assert(v.contains(v[k]));
        }
        assert(a.all_visible_selected());
    }
}

/// An action is aimed at the selected modules; without any, at the one under the
/// cursor.
pub proof fn an_action_is_aimed_at_what_is_selected(a: AppView)
    ensures
        a.multi_select.len() > 0 ==> a.targets() == a.multi_select,
        a.multi_select.len() == 0 && a.selected_module < a.visible().len() ==> a.targets() == seq![
            a.visible()[a.selected_module as int],
        ],
        a.multi_select.len() == 0 && a.selected_module >= a.visible().len() ==> a.targets().len() == 0,
{
}

proof fn places_split(sorted: Seq<usize>, x: usize)
    requires
        forall|i: int, j: int| 0 <= i < j < sorted.len() ==> #[trigger] sorted[i] < #[trigger] sorted[j],
    ensures
        forall|i: int| 0 <= i < index_place(sorted, x) ==> #[trigger] sorted[i] <= x,
        forall|i: int| index_place(sorted, x) <= i < sorted.len() ==> #[trigger] sorted[i] > x,
    decreases sorted.len(),
{
    if sorted.len() > 0 && sorted.last() > x {
        let front = sorted.drop_last();
        places_split(front, x);
        index_place_bounds(front, x);
        assert forall|i: int| 0 <= i < index_place(sorted, x) implies #[trigger] sorted[i] <= x by {
            assert(front[i] == sorted[i]);
        }
        assert forall|i: int| index_place(sorted, x) <= i < sorted.len() implies #[trigger] sorted[i]
            > x by {
            if i < front.len() {
                assert(front[i] == sorted[i]);
            }
        }
    }
}

proof fn ascending_ascends(v: Seq<usize>, n: int)
    requires
        0 <= n <= v.len(),
    ensures
        forall|i: int, j: int|
            0 <= i < j < ascending(v, n).len() ==> #[trigger] ascending(v, n)[i] < #[trigger] ascending(
                v,
                n,
            )[j],
    decreases n,
{
    if n > 0 {
        ascending_ascends(v, n - 1);
        let before = ascending(v, n - 1);
        let x = v[n - 1];
        if !before.contains(x) {
            let k = index_place(before, x);
            index_place_bounds(before, x);
            places_split(before, x);
            let after = before.insert(k, x);
            assert forall|i: int, j: int| 0 <= i < j < after.len() implies #[trigger] after[i]
                < #[trigger] after[j] by {
                if i < k {
                    assert(before[i] <= x);
                    assert(before.contains(before[i]));
                }
                if j > k {
                    assert(before[j - 1] > x || j - 1 < k);
                }
            }
        }
    }
}

/// A run that begins is about exactly the targets, each once, in the order of the
/// module list, with their names and paths; nothing is selected in it, and no
/// task is of it yet.
pub proof fn a_new_run_is_about_the_targets(a: AppView, i: usize, k: int)
    requires
        a.targets().len() > 0,
        a.session is None,
    ensures
        ({
            let b = a.run_entered();
            let s = b.session->0;
            &&& b.screen == Screen::Run
            &&& b.session is Some
            &&& a.targets().contains(i) <==> exists|j: int|
                0 <= j < s.modules.len() && (#[trigger] s.modules[j]).module_idx == i
            &&& forall|x: int, y: int|
                0 <= x < y < s.modules.len() ==> (#[trigger] s.modules[x]).module_idx < (
                #[trigger] s.modules[y]).module_idx
            &&& 0 <= k < s.modules.len() ==> {
                let m = s.modules[k];
                m.path == a.modules[m.module_idx as int].path && m.name
                    == a.modules[m.module_idx as int].name
            }
            &&& s.selected.len() == 0
            &&& s.cursor == 0
            &&& s.latest_task.dom() == Set::<Seq<Seq<char>>>::empty()
            &&& b.engine == a.engine
        }),
{
    let n = a.targets().len() as int;
    ascending_keeps_all(a.targets(), n);
    ascending_ascends(a.targets(), n);
    assert(a.targets().take(n) =~= a.targets());
    let ts = ascending(a.targets(), n);
    let s = a.run_entered().session->0;
    assert(s.modules.len() == ts.len());
    if a.targets().contains(i) {
        assert(ts.contains(i));
        let j = choose|j: int| 0 <= j < ts.len() && ts[j] == i;
        assert(s.modules[j].module_idx == i);
    }
    if exists|j: int| 0 <= j < s.modules.len() && (#[trigger] s.modules[j]).module_idx == i {
        let j = choose|j: int| 0 <= j < s.modules.len() && (#[trigger] s.modules[j]).module_idx == i;
        assert(ts[j] == i);
        assert(ts.contains(i));
    }
    assert(s.latest_task.dom() =~= Set::<Seq<Seq<char>>>::empty());
}

/// Whether a task of a module directory is still to end.
pub open spec fn is_active(t: TaskView, dir: Seq<char>) -> bool {
    components(t.module_dir) == components(dir) && !t.status.over()
}

/// The newest task of a module that is not over is the one with the greatest id;
/// there is none only where every task of the module is over.
pub proof fn the_newest_active_task_has_the_greatest_id(tasks: Seq<TaskView>, dir: Seq<char>, i: int)
    requires
        0 <= i < tasks.len(),
    ensures
        ({
            let r = newest_active(tasks, dir, tasks.len() as int);
            &&& r is Some ==> 0 <= r->0 < tasks.len() && is_active(tasks[r->0], dir)
            &&& is_active(tasks[i], dir) ==> r is Some && tasks[i].id <= tasks[r->0].id
        }),
{
    newest_is_greatest(tasks, dir, tasks.len() as int);
}

proof fn newest_is_greatest(tasks: Seq<TaskView>, dir: Seq<char>, n: int)
    requires
        0 <= n <= tasks.len(),
    ensures
        ({
            let r = newest_active(tasks, dir, n);
            &&& r is Some ==> 0 <= r->0 < n && is_active(tasks[r->0], dir)
            &&& forall|i: int|
                0 <= i < n && is_active(#[trigger] tasks[i], dir) ==> r is Some && tasks[i].id
                    <= tasks[r->0].id
        }),
    decreases n,
{
    if n > 0 {
        newest_is_greatest(tasks, dir, n - 1);
    }
}

/// What a module shows: the latest task that the session has started for it,
/// where that is still there; else the newest one that is not over.
pub proof fn a_module_shows_its_latest_task(a: AppView, path: Seq<char>, id: usize)
    requires
        a.session is Some,
    ensures
        ({
            let latest = (a.session->0).latest_task;
            let place = components(path);
            let r = display_of(a.engine, a.session, path);
            &&& latest.dom().contains(place) && latest[place] == id && (exists|k: int|
                0 <= k < a.engine.tasks.len() && (#[trigger] a.engine.tasks[k]).id == id) ==> r is Some
                && a.engine.tasks[(r->0).0].id == id && !(r->0).1
            &&& !latest.dom().contains(place) && r is Some ==> (r->0).1 && is_active(
                a.engine.tasks[(r->0).0],
                path,
            )
        }),
{
    find_task_finds(a.engine.tasks, id);
    newest_is_greatest(a.engine.tasks, path, a.engine.tasks.len() as int);
}

/// A task that is recorded is from then on the latest of its module, and of no
/// other.
pub proof fn a_recorded_task_is_the_latest(a: AppView, id: usize, k: int, d: Seq<Seq<char>>)
    requires
        a.session is Some,
        0 <= k < a.engine.tasks.len(),
        find_task(a.engine.tasks, id) == k,
    ensures
        ({
            let old_latest = (a.session->0).latest_task;
            let latest = (a.tasks_recorded(seq![id]).session->0).latest_task;
            let place = components(a.engine.tasks[k].module_dir);
            &&& latest.dom().contains(place) && latest[place] == id
            &&& d != place ==> latest.dom().contains(d) == old_latest.dom().contains(d)
                && latest[d] == old_latest[d]
        }),
{
    find_task_finds(a.engine.tasks, id);
    let latest = (a.session->0).latest_task;
    assert(latest_with(latest, a.engine.tasks, seq![id], 0) == latest);
}

/// A cancel is about exactly the tasks that the targets show and that are not
/// over.
pub proof fn a_cancel_is_about_what_is_shown(a: AppView, targets: Seq<usize>, n: int)
    requires
        0 <= n < targets.len(),
        targets[n] < a.modules.len(),
    ensures
        ({
            let shown = display_of(a.engine, a.session, a.modules[targets[n] as int].path);
            let ids = cancel_ids(a, targets, targets.len() as int);
            shown is Some && !a.engine.tasks[(shown->0).0].status.over() ==> ids.contains(
                a.engine.tasks[(shown->0).0].id,
            )
        }),
        forall|x: usize|
            #[trigger] cancel_ids(a, targets, targets.len() as int).contains(x) ==> exists|j: int|
                0 <= j < targets.len() && is_shown_active(a, #[trigger] targets[j], x),
{
    cancel_ids_are(a, targets, targets.len() as int);
    let shown = display_of(a.engine, a.session, a.modules[targets[n] as int].path);
    if shown is Some && !a.engine.tasks[(shown->0).0].status.over() {
        assert(is_shown_active(a, targets[n], a.engine.tasks[(shown->0).0].id));
    }
}

/// Whether module `i` shows task `id`, and the task is not over.
pub open spec fn is_shown_active(a: AppView, i: usize, id: usize) -> bool {
    let shown = display_of(a.engine, a.session, a.modules[i as int].path);
    i < a.modules.len() && shown is Some && a.engine.tasks[(shown->0).0].id == id
        && !a.engine.tasks[(shown->0).0].status.over()
}

proof fn cancel_ids_are(a: AppView, targets: Seq<usize>, n: int)
    requires
        0 <= n <= targets.len(),
    ensures
        forall|x: usize|
            #[trigger] cancel_ids(a, targets, n).contains(x) ==> exists|j: int|
                0 <= j < n && is_shown_active(a, #[trigger] targets[j], x),
        forall|j: int, x: usize|
            0 <= j < n && #[trigger] is_shown_active(a, targets[j], x) ==> cancel_ids(
                a,
                targets,
                n,
            ).contains(x),
    decreases n,
{
    let after = cancel_ids(a, targets, n);
    if n > 0 {
        cancel_ids_are(a, targets, n - 1);
        let before = cancel_ids(a, targets, n - 1);
        let i = targets[n - 1];
        let shown = display_of(a.engine, a.session, a.modules[i as int].path);
        let id = a.engine.tasks[(shown->0).0].id;
        if is_shown_active(a, i, id) {
            assert(after == before.push(id));
        } else {
            assert(after == before);
        }
        assert forall|x: usize| #[trigger] after.contains(x) implies exists|j: int|
            0 <= j < n && is_shown_active(a, #[trigger] targets[j], x) by {
            pushed_contains(before, id, x);
            if before.contains(x) {
                let j = choose|j: int| 0 <= j < n - 1 && is_shown_active(a, #[trigger] targets[j], x);
                assert(is_shown_active(a, targets[j], x));
            } else {
                assert(is_shown_active(a, targets[n - 1], x));
            }
        }
        assert forall|j: int, x: usize|
            0 <= j < n && #[trigger] is_shown_active(a, targets[j], x) implies after.contains(x) by {
            pushed_contains(before, id, x);
            if j < n - 1 {
                assert(before.contains(x));
            }
        }
    }
}

/// After a refresh, the session keeps exactly the modules that are still there,
/// in their order.
pub proof fn a_refresh_keeps_what_is_still_there(
    ms: Seq<SessionModuleView>,
    modules: Seq<ModuleView>,
    i: int,
)
    requires
        0 <= i < ms.len(),
        modules.len() <= usize::MAX,
    ensures
        ({
            let kept = surviving(ms, modules, ms.len() as int);
            let there = exists|k: int|
                0 <= k < modules.len() && components((#[trigger] modules[k]).path) == components(
                    ms[i].path,
                );
            let row = new_row(ms, modules, i as usize);
            i <= usize::MAX ==> {
                &&& there ==> row is Some && 0 <= row->0 < kept.len() && kept[row->0].path == ms[i].path
                    && kept[row->0].name == ms[i].name
                &&& !there ==> row is None
            }
        }),
        forall|j: int|
            0 <= j < surviving(ms, modules, ms.len() as int).len() ==> exists|k: int|
                0 <= k < ms.len() && (#[trigger] ms[k]).path == (#[trigger] surviving(
                    ms,
                    modules,
                    ms.len() as int,
                )[j]).path,
{
    last_place_finds(modules, ms[i].place(), modules.len() as int);
    survivors_come_from(ms, modules, ms.len() as int);
    if last_place(modules, ms[i].place(), modules.len() as int) is Some {
        survivors_are_kept(ms, modules, i + 1, ms.len() as int);
    }
}

proof fn last_place_finds(modules: Seq<ModuleView>, path: Seq<Seq<char>>, n: int)
    requires
        0 <= n <= modules.len(),
    ensures
        last_place(modules, path, n) is Some <==> exists|k: int|
            0 <= k < n && components((#[trigger] modules[k]).path) == path,
    decreases n,
{
    if n > 0 {
        last_place_finds(modules, path, n - 1);
        if components(modules[n - 1].path) == path {
            assert(modules[n - 1].place() == path);
        } else if last_place(modules, path, n - 1) is Some {
            let k = choose|k: int| 0 <= k < n - 1 && components((#[trigger] modules[k]).path) == path;
            assert(components(modules[k].path) == path);
        }
    }
}

proof fn survivors_are_kept(ms: Seq<SessionModuleView>, modules: Seq<ModuleView>, m: int, n: int)
    requires
        0 <= m <= n <= ms.len(),
    ensures
        surviving(ms, modules, m).len() <= surviving(ms, modules, n).len(),
        forall|j: int|
            0 <= j < surviving(ms, modules, m).len() ==> #[trigger] surviving(ms, modules, n)[j]
                == surviving(ms, modules, m)[j],
    decreases n - m,
{
    if m < n {
        survivors_are_kept(ms, modules, m, n - 1);
    }
}

proof fn survivors_come_from(ms: Seq<SessionModuleView>, modules: Seq<ModuleView>, n: int)
    requires
        0 <= n <= ms.len(),
    ensures
        forall|j: int|
            0 <= j < surviving(ms, modules, n).len() ==> exists|k: int|
                0 <= k < n && (#[trigger] ms[k]).path == (#[trigger] surviving(ms, modules, n)[j]).path,
    decreases n,
{
    if n > 0 {
        survivors_come_from(ms, modules, n - 1);
        let before = surviving(ms, modules, n - 1);
        let after = surviving(ms, modules, n);
        assert forall|j: int| 0 <= j < after.len() implies exists|k: int|
            0 <= k < n && (#[trigger] ms[k]).path == (#[trigger] after[j]).path by {
            if j < before.len() {
                assert(after[j] == before[j]);
                let k = choose|k: int| 0 <= k < n - 1 && (#[trigger] ms[k]).path == before[j].path;
                assert(ms[k].path == after[j].path);
            } else {
                assert(ms[n - 1].path == after[j].path);
            }
        }
    }
}

/// On the board: toggling flips the row under the cursor and no other; selecting
/// all selects every row, and none where all were selected; clearing leaves
/// none.
pub proof fn rows_are_selected_one_by_one_or_all(a: AppView, y: usize)
    requires
        a.session is Some,
        (a.session->0).selected.no_duplicates(),
        (a.session->0).modules.len() <= usize::MAX,
    ensures
        ({
            let s = a.session->0;
            let t = a.board_toggled().session->0;
            let u = a.board_all_toggled().session->0;
            &&& t.selected.contains(s.cursor) != s.selected.contains(s.cursor)
            &&& y != s.cursor ==> t.selected.contains(y) == s.selected.contains(y)
            &&& t.select_anchor == Some(s.cursor)
            &&& s.selected.len() < s.modules.len() ==> (u.selected.contains(y) <==> y
                < s.modules.len())
            &&& s.modules.len() > 0 && s.selected.len() == s.modules.len() ==> u.selected.len() == 0
            &&& (a.board_cleared().session->0).selected.len() == 0
        }),
{
    let s = a.session->0;
    toggling_flips(s.selected, s.cursor);
    if s.selected.len() < s.modules.len() {
        let u = a.board_all_toggled().session->0;
        if y < s.modules.len() {
            assert(u.selected[y as int] == y);
        }
        if u.selected.contains(y) {
            let k = choose|k: int| 0 <= k < u.selected.len() && u.selected[k] == y;
        }
    }
}

/// A range of board rows goes from the anchor to the cursor, whichever comes
/// first; without an anchor it is the row under the cursor.
pub proof fn a_range_of_rows_goes_from_the_anchor_to_the_cursor(a: AppView, y: usize)
    requires
        a.session is Some,
        (a.session->0).cursor < (a.session->0).modules.len(),
        (a.session->0).select_anchor is Some ==> (a.session->0).select_anchor->0
            < (a.session->0).modules.len(),
    ensures
        ({
            let s = a.session->0;
            let t = a.board_ranged().session->0;
            let p = if s.select_anchor is Some { s.select_anchor->0 } else { s.cursor };
            t.selected.contains(y) <==> s.selected.contains(y) || p <= y <= s.cursor || s.cursor <= y
                <= p
        }),
{
    let s = a.session->0;
    let t = a.board_ranged().session->0;
    match s.select_anchor {
        None => {
            let span = seq![s.cursor];
            added_are_in(s.selected, span, 1);
            assert(span.take(1) =~= span);
            assert(span[0] == s.cursor);
            assert(span.contains(s.cursor));
        },
        Some(p) => {
            let lo = if p < s.cursor { p as int } else { s.cursor as int };
            let hi = if p < s.cursor { s.cursor as int } else { p as int };
            let span = crate::app::session::row_span(lo, hi);
            added_are_in(s.selected, span, span.len() as int);
            assert(span.take(span.len() as int) =~= span);
            if lo <= y <= hi {
                assert(span[y - lo] == y);
                assert(span.contains(y));
            }
            if span.contains(y) {
                let k = choose|k: int| 0 <= k < span.len() && span[k] == y;
            }
            assert(t.selected == with_items(s.selected, span, span.len() as int));
        },
    }
}

/// A cursor moves by as many places as asked for, and stops at the ends.
pub proof fn a_cursor_moves_and_stops_at_the_ends(a: AppView, delta: int)
    requires
        a.visible().len() > 0,
        a.visible().len() <= usize::MAX,
    ensures
        ({
            let at = a.cursor_moved(delta).selected_module;
            let last = a.visible().len() - 1;
            &&& 0 <= a.selected_module + delta <= last ==> at == a.selected_module + delta
            &&& a.selected_module + delta < 0 ==> at == 0
            &&& a.selected_module + delta > last ==> at == last
            &&& a.cursor_moved(delta) == (AppView { selected_module: at, ..a })
        }),
        a.session is Some && 0 < (a.session->0).modules.len() <= usize::MAX ==> {
            let s = a.session->0;
            let t = a.board_cursor_moved(delta).session->0;
            let last = s.modules.len() - 1;
            &&& 0 <= s.cursor + delta <= last ==> t.cursor == s.cursor + delta
            &&& s.cursor + delta < 0 ==> t.cursor == 0
            &&& s.cursor + delta > last ==> t.cursor == last
            &&& t.cursor != s.cursor ==> t.output_scroll == 0 && t.selection is None
            &&& t.modules == s.modules && t.selected == s.selected && t.latest_task == s.latest_task
        },
{
}

/// A run that is entered again for the same modules goes on: nothing of it
/// changes. For other modules a new one begins.
pub proof fn a_run_goes_on_for_the_same_modules(a: AppView)
    requires
        a.targets().len() > 0,
        a.session is Some,
    ensures
        ({
            let ts = ascending(a.targets(), a.targets().len() as int);
            let ms = session_modules_for(a.modules, ts);
            let same = session_paths((a.session->0).modules).to_set() == session_paths(ms).to_set();
            let b = a.run_entered();
            &&& b.screen == Screen::Run
            &&& same ==> b == (AppView { screen: Screen::Run, ..a })
            &&& !same ==> b.session is Some && (b.session->0).modules == ms && (
            b.session->0).selected.len() == 0 && (b.session->0).created_at == a.engine.clock
            &&& b.engine == a.engine
        }),
{
}

/// Of several recorded tasks of one module the last is the latest.
pub proof fn the_last_recorded_task_is_the_latest(
    latest: Map<Seq<Seq<char>>, usize>,
    tasks: Seq<TaskView>,
    ids: Seq<usize>,
    n: int,
    j: int,
)
    requires
        0 <= j < n <= ids.len(),
        has_task(tasks, ids[j]),
        forall|k: int|
            j < k < n && has_task(tasks, #[trigger] ids[k]) ==> components(
                tasks[find_task(tasks, ids[k])].module_dir,
            ) != components(tasks[find_task(tasks, ids[j])].module_dir),
    ensures
        ({
            let place = components(tasks[find_task(tasks, ids[j])].module_dir);
            let r = latest_with(latest, tasks, ids, n);
            r.dom().contains(place) && r[place] == ids[j]
        }),
    decreases n,
{
    if j < n - 1 {
        the_last_recorded_task_is_the_latest(latest, tasks, ids, n - 1, j);
        if has_task(tasks, ids[n - 1]) {
            assert(components(tasks[find_task(tasks, ids[n - 1])].module_dir) != components(
                tasks[find_task(tasks, ids[j])].module_dir,
            ));
        }
    }
}

/// After a refresh, a module that is still there keeps its latest task, and one
/// that is gone has none.
pub proof fn a_refresh_keeps_the_latest_tasks(s: SessionView, modules: Seq<ModuleView>, d: Seq<Seq<char>>)
    ensures
        ({
            let there = exists|k: int|
                0 <= k < modules.len() && components((#[trigger] modules[k]).path) == d;
            let r = remapped(s, modules);
            &&& there && s.latest_task.dom().contains(d) ==> r.latest_task.dom().contains(d)
                && r.latest_task[d] == s.latest_task[d]
            &&& !there ==> !r.latest_task.dom().contains(d)
            &&& r.created_at == s.created_at
        }),
{
    last_place_finds(modules, d, modules.len() as int);
}

} // verus!
