//! The module list: what is visible, the cursor, and the selection.

use crate::app::model::{
    add_items, copy_indices, drop_items, find_pos, move_within, moved, toggle, toggled, with_items,
    without_items, App, AppView,
};
use crate::app::pane::min_of;
use crate::discovery::{module_view, module_views, ModuleView};
use crate::engine::{find_task, has_task};
use crate::module::Module;
use crate::paths::{components, components_of, same_path};
use crate::task::{task_views, ResourceCounts, TaskView};
use crate::text::{chars_of, contains, holds, lowercase};
use crate::ui::theme::{frame_at, SPINNER_FRAME_COUNT};
use vstd::prelude::*;

verus! {

/// How deep a module lies: the number of components of its name.
pub open spec fn depth_of(m: ModuleView) -> nat {
    components(m.name).len()
}

/// Whether a module is visible under a filter and a depth limit.
pub open spec fn is_visible(m: ModuleView, filter: Seq<char>, max_depth: Option<usize>) -> bool {
    &&& lowercase(filter).len() == 0 || holds(lowercase(m.name), lowercase(filter))
    &&& match max_depth {
        Some(d) => depth_of(m) <= d,
        None => true,
    }
}

/// The visible ones of the first `n` modules, in order.
pub open spec fn visible_of(
    modules: Seq<ModuleView>,
    filter: Seq<char>,
    max_depth: Option<usize>,
    n: int,
) -> Seq<usize>
    decreases n,
{
    if n <= 0 {
        Seq::empty()
    } else {
        let before = visible_of(modules, filter, max_depth, n - 1);
        if is_visible(modules[n - 1], filter, max_depth) {
            before.push((n - 1) as usize)
        } else {
            before
        }
    }
}

/// The deepest of the first `n` modules.
pub open spec fn deepest(modules: Seq<ModuleView>, n: int) -> nat
    decreases n,
{
    if n <= 0 {
        0
    } else {
        let before = deepest(modules, n - 1);
        let d = depth_of(modules[n - 1]);
        if d > before {
            d
        } else {
            before
        }
    }
}

/// The position of the newest task of `dir` that is not over, among the first
/// `n` tasks.
pub open spec fn newest_active(tasks: Seq<TaskView>, dir: Seq<char>, n: int) -> Option<int>
    decreases n,
{
    if n <= 0 {
        None
    } else {
        let before = newest_active(tasks, dir, n - 1);
        let t = tasks[n - 1];
        if t.place() == components(dir) && !t.status.over() {
            match before {
                Some(k) => if t.id >= tasks[k].id {
                    Some(n - 1)
                } else {
                    before
                },
                None => Some(n - 1),
            }
        } else {
            before
        }
    }
}

impl AppView {
    /// The visible modules, by index.
    pub open spec fn visible(self) -> Seq<usize> {
        visible_of(self.modules, self.filter, self.max_depth, self.modules.len() as int)
    }

    /// The deepest level among all modules; one where there are none.
    pub open spec fn depth_levels(self) -> nat {
        if self.modules.len() == 0 {
            1
        } else {
            deepest(self.modules, self.modules.len() as int)
        }
    }

    pub open spec fn depth_decreased(self) -> AppView {
        let current: nat = match self.max_depth {
            Some(d) => d as nat,
            None => self.depth_levels(),
        };
        AppView {
            max_depth: Some(
                (if current > 2 {
                    current - 1
                } else {
                    1
                }) as usize,
            ),
            ..self
        }
    }

    pub open spec fn depth_increased(self) -> AppView {
        match self.max_depth {
            Some(n) => AppView {
                max_depth: if n + 1 >= self.depth_levels() {
                    None
                } else {
                    Some((n + 1) as usize)
                },
                ..self
            },
            None => self,
        }
    }

    pub open spec fn cursor_set(self, pos: usize) -> AppView {
        if pos < self.visible().len() {
            AppView { selected_module: pos, ..self }
        } else {
            self
        }
    }

    pub open spec fn cursor_moved(self, delta: int) -> AppView {
        let count = self.visible().len();
        if count == 0 {
            self
        } else {
            AppView { selected_module: moved(self.selected_module, delta, count) as usize, ..self }
        }
    }

    pub open spec fn selection_toggled(self) -> AppView {
        let v = self.visible();
        if self.selected_module < v.len() {
            AppView {
                multi_select: toggled(self.multi_select, v[self.selected_module as int]),
                multi_select_anchor: Some(self.selected_module),
                ..self
            }
        } else {
            self
        }
    }

    /// The places of the visible list from the anchor to the cursor: from the
    /// first up to, but not including, the second. Both lie within the list.
    pub open spec fn range_ends(self, anchor: usize) -> (int, int) {
        let (lo, hi) = if anchor < self.selected_module {
            (anchor as int, self.selected_module + 1)
        } else {
            (self.selected_module as int, anchor + 1)
        };
        let n = self.visible().len() as int;
        (min_of(lo, n), min_of(hi, n))
    }

    pub open spec fn range_selected(self) -> AppView {
        match self.multi_select_anchor {
            None => self.selection_toggled(),
            Some(a) => {
                let (lo, hi) = self.range_ends(a);
                let part = self.visible().subrange(lo, hi);
                AppView {
                    multi_select: with_items(self.multi_select, part, part.len() as int),
                    multi_select_anchor: Some(self.selected_module),
                    ..self
                }
            },
        }
    }

    /// Whether every visible module is selected.
    pub open spec fn all_visible_selected(self) -> bool {
        forall|i: int|
            0 <= i < self.visible().len() ==> self.multi_select.contains(
                #[trigger] self.visible()[i],
            )
    }

    pub open spec fn visible_toggled(self) -> AppView {
        let v = self.visible();
        if v.len() == 0 {
            self
        } else if self.all_visible_selected() {
            AppView { multi_select: without_items(self.multi_select, v), ..self }
        } else {
            AppView { multi_select: with_items(self.multi_select, v, v.len() as int), ..self }
        }
    }

    /// The modules that the next action is aimed at: the selected ones, else
    /// the one under the cursor.
    pub open spec fn targets(self) -> Seq<usize> {
        if self.multi_select.len() > 0 {
            self.multi_select
        } else if self.selected_module < self.visible().len() {
            seq![self.visible()[self.selected_module as int]]
        } else {
            Seq::empty()
        }
    }
}

/// The number of path components of a module's name.
pub fn module_depth(module: &Module) -> (r: usize)
    ensures
        r == depth_of(module_view(*module)),
{
    let c = components_of(module.display_name.as_str());
    proof {
        assert(crate::text::texts(c@).len() == c@.len());
    }
    c.len()
}

impl App {
    /// The modules visible under the filter and the depth limit, by index.
    pub fn visible_module_indices(&self) -> (r: Vec<usize>)
        ensures
            r@ == self@.visible(),
            forall|i: int| 0 <= i < r@.len() ==> #[trigger] r@[i] < self@.modules.len(),
    {
        let filter = self.filter.as_str().to_lowercase();
        let ghost all = module_views(self.modules@);
        let mut out: Vec<usize> = Vec::new();
        let mut n: usize = 0;
        while n < self.modules.len()
            invariant
                n <= self.modules@.len(),
                all == module_views(self.modules@),
                filter@ == lowercase(self.filter@),
                out@ == visible_of(all, self.filter@, self.max_depth, n as int),
                forall|i: int| 0 <= i < out@.len() ==> #[trigger] out@[i] < n,
            decreases self.modules@.len() - n,
        {
            let m = &self.modules[n];
            assert(all[n as int] == module_view(*m));
            let named = filter.as_str().is_empty() || contains(
                chars_of(m.display_name.as_str().to_lowercase().as_str()).as_slice(),
                filter.as_str(),
            );
            let shallow = match self.max_depth {
                Some(d) => module_depth(m) <= d,
                None => true,
            };
            if named && shallow {
                out.push(n);
            }
            n += 1;
        }
        out
    }

    fn max_module_depth(&self) -> (r: usize)
        ensures
            r == self@.depth_levels(),
    {
        if self.modules.len() == 0 {
            return 1;
        }
        let ghost all = module_views(self.modules@);
        let mut best: usize = 0;
        let mut n: usize = 0;
        while n < self.modules.len()
            invariant
                n <= self.modules@.len(),
                all == module_views(self.modules@),
                best == deepest(all, n as int),
            decreases self.modules@.len() - n,
        {
            assert(all[n as int] == module_view(self.modules@[n as int]));
            let d = module_depth(&self.modules[n]);
            if d > best {
                best = d;
            }
            n += 1;
        }
        best
    }

    /// Shows one level less; at least one is shown.
    pub fn decrease_depth(&mut self)
        ensures
            final(self)@ == old(self)@.depth_decreased(),
    {
        let current: usize = match self.max_depth {
            Some(d) => d,
            None => self.max_module_depth(),
        };
        self.max_depth = Some(
            if current > 2 {
                current - 1
            } else {
                1
            },
        );
    }

    /// Shows one level more, and all of them once that is the deepest.
    pub fn increase_depth(&mut self)
        ensures
            final(self)@ == old(self)@.depth_increased(),
    {
        if let Some(n) = self.max_depth {
            let levels = self.max_module_depth();
            if levels == 0 || n >= levels - 1 {
                self.max_depth = None;
            } else {
                self.max_depth = Some(n + 1);
            }
        }
    }

    /// Sets the cursor to a place in the visible list, if there is one.
    pub fn set_module_cursor(&mut self, pos: usize)
        ensures
            final(self)@ == old(self)@.cursor_set(pos),
    {
        if pos < self.visible_module_indices().len() {
            self.selected_module = pos;
        }
    }

    /// Moves the cursor within the visible list; tells whether it moved.
    pub fn move_module_selection(&mut self, delta: i32) -> (r: bool)
        ensures
            final(self)@ == old(self)@.cursor_moved(delta as int),
            r == (final(self).selected_module != old(self).selected_module),
    {
        let count = self.visible_module_indices().len();
        if count == 0 {
            return false;
        }
        let new = move_within(self.selected_module, delta, count);
        let changed = new != self.selected_module;
        self.selected_module = new;
        changed
    }

    /// Selects the module under the cursor, or takes it out of the selection.
    pub fn toggle_multi_select(&mut self)
        ensures
            final(self)@ == old(self)@.selection_toggled(),
    {
        let visible = self.visible_module_indices();
        if self.selected_module < visible.len() {
            toggle(&mut self.multi_select, visible[self.selected_module]);
            self.multi_select_anchor = Some(self.selected_module);
        }
    }

    /// Selects everything visible between the anchor and the cursor: nothing,
    /// where no module is visible there. Without an anchor it only toggles.
    pub fn range_select(&mut self)
        ensures
            final(self)@ == old(self)@.range_selected(),
    {
        match self.multi_select_anchor {
            None => {
                self.toggle_multi_select();
            },
            Some(anchor) => {
                let visible = self.visible_module_indices();
                let n: usize = visible.len();
                let cur = self.selected_module;
                let near = if anchor < cur { anchor } else { cur };
                let far = if anchor < cur { cur } else { anchor };
                let lo: usize = if near < n { near } else { n };
                let hi: usize = if far < n { far + 1 } else { n };
                add_items(&mut self.multi_select, &visible, lo, hi);
                self.multi_select_anchor = Some(cur);
            },
        }
    }

    /// Selects every visible module, or takes them all out where all are
    /// selected. Selected modules that are not visible stay selected.
    pub fn toggle_select_all_visible(&mut self)
        ensures
            final(self)@ == old(self)@.visible_toggled(),
    {
        let visible = self.visible_module_indices();
        if visible.len() == 0 {
            return ;
        }
        let mut all = true;
        let mut i: usize = 0;
        while i < visible.len()
            invariant
                i <= visible@.len(),
                visible@ == self@.visible(),
                self@ == old(self)@,
                all == forall|j: int|
                    0 <= j < i ==> self.multi_select@.contains(#[trigger] visible@[j]),
            decreases visible@.len() - i,
        {
            if find_pos(&self.multi_select, visible[i]) >= self.multi_select.len() {
                all = false;
            }
            i += 1;
        }
        if all {
            self.multi_select = drop_items(&self.multi_select, &visible);
        } else {
            add_items(&mut self.multi_select, &visible, 0, visible.len());
            assert(visible@.subrange(0, visible@.len() as int) =~= visible@);
        }
    }

    /// The modules that the next action is aimed at: the selected ones, else
    /// the one under the cursor.
    pub fn target_indices(&self) -> (r: Vec<usize>)
        ensures
            r@ == self@.targets(),
    {
        if self.multi_select.len() > 0 {
            copy_indices(&self.multi_select)
        } else {
            let visible = self.visible_module_indices();
            let mut out: Vec<usize> = Vec::new();
            if self.selected_module < visible.len() {
                out.push(visible[self.selected_module]);
            }
            assert(out@ =~= self@.targets());
            out
        }
    }

    fn newest_active_task(&self, dir: &str) -> (r: Option<usize>)
        ensures
            match r {
                Some(k) => k < self.engine.tasks@.len() && newest_active(
                    self@.engine.tasks,
                    dir@,
                    self@.engine.tasks.len() as int,
                ) == Some(k as int),
                None => newest_active(self@.engine.tasks, dir@, self@.engine.tasks.len() as int)
                    is None,
            },
    {
        newest_active_in(&self.engine.tasks, dir)
    }

    /// The spinner frame and the command of the newest task of a module that is
    /// not over.
    pub fn module_activity(&self, path: &str) -> (r: Option<(usize, String)>)
        ensures
            match newest_active(self@.engine.tasks, path@, self@.engine.tasks.len() as int) {
                Some(k) => r is Some && (r->0).0 == frame_at(self.spinner_tick) && (r->0).1@
                    == self@.engine.tasks[k].command,
                None => r is None,
            },
    {
        match self.newest_active_task(path) {
            Some(k) => {
                assert(self@.engine.tasks[k as int] == self.engine.tasks@[k as int]@);
                let frame: usize = (self.spinner_tick as usize / 2) % SPINNER_FRAME_COUNT;
                Some((frame, self.engine.tasks[k].command.clone()))
            },
            None => None,
        }
    }

    /// The resource counts of the plan that is cached for a module, as the task
    /// that made it recorded them.
    pub fn ready_plan_counts(&self, path: &str) -> (r: Option<ResourceCounts>)
        ensures
            r == self@.plan_counts(path@),
    {
        match self.engine.plan_cache.get(path) {
            Some(entry) => match self.engine.task(entry.task_id) {
                Some(task) => task.resource_counts,
                None => None,
            },
            None => None,
        }
    }
}

impl AppView {
    /// The resource counts of the plan that is cached for a module.
    pub open spec fn plan_counts(self, path: Seq<char>) -> Option<ResourceCounts> {
        if self.engine.plans.dom().contains(components(path)) {
            let id = self.engine.plans[components(path)].task_id;
            if has_task(self.engine.tasks, id) {
                self.engine.tasks[find_task(self.engine.tasks, id)].resource_counts
            } else {
                None
            }
        } else {
            None
        }
    }
}

/// The newest task of `dir` that is not over.
pub fn newest_active_in(tasks: &Vec<crate::task::Task>, dir: &str) -> (r: Option<usize>)
    ensures
        match r {
            Some(k) => k < tasks@.len() && newest_active(
                task_views(tasks@),
                dir@,
                tasks@.len() as int,
            ) == Some(k as int),
            None => newest_active(task_views(tasks@), dir@, tasks@.len() as int) is None,
        },
{
    let ghost all = task_views(tasks@);
    let mut best: Option<usize> = None;
    let mut n: usize = 0;
    while n < tasks.len()
        invariant
            n <= tasks@.len(),
            all == task_views(tasks@),
            match best {
                Some(k) => k < n && newest_active(all, dir@, n as int) == Some(k as int),
                None => newest_active(all, dir@, n as int) is None,
            },
        decreases tasks@.len() - n,
    {
        assert(all[n as int] == tasks@[n as int]@);
        if same_path(tasks[n].module_dir.as_str(), dir) && !tasks[n].status.is_terminal() {
            match best {
                Some(k) => {
                    assert(all[k as int] == tasks@[k as int]@);
                    if tasks[n].id >= tasks[k].id {
                        best = Some(n);
                    }
                },
                None => {
                    best = Some(n);
                },
            }
        }
        n += 1;
    }
    best
}

} // verus!
