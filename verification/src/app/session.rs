//! The run session: entering it, its board, and which task it shows.

use crate::app::model::{
    find_pos, move_within, moved, toggle, toggled, with_items, App, AppView, LayoutView,
};
use crate::app::modules::{newest_active, newest_active_in};
use crate::app::types::{
    new_session, session_module_views, Modal, ModalView, RunSession, Screen, SessionModule,
    SessionModuleView, SessionView,
};
use crate::discovery::{module_view, module_views, ModuleView};
use crate::engine::{find_task, has_task, EngineView, TaskEngine};
use crate::module::{Module, ModuleKind};
use crate::paths::{components, same_path};
use crate::task::{Task, TaskView};
use crate::text::{same, texts};
use crate::ui::output_layout::{with_lines, LayoutKey};
use vstd::prelude::*;

verus! {

/// How many of the indices at the front of `sorted` are not above `x`.
pub open spec fn index_place(sorted: Seq<usize>, x: usize) -> int
    decreases sorted.len(),
{
    if sorted.len() == 0 || sorted.last() <= x {
        sorted.len() as int
    } else {
        index_place(sorted.drop_last(), x)
    }
}

/// The first `n` of `v` in ascending order, each once.
pub open spec fn ascending(v: Seq<usize>, n: int) -> Seq<usize>
    decreases n,
{
    if n <= 0 {
        Seq::empty()
    } else {
        let before = ascending(v, n - 1);
        if before.contains(v[n - 1]) {
            before
        } else {
            before.insert(index_place(before, v[n - 1]), v[n - 1])
        }
    }
}

/// A place among indices is one of theirs, or the one behind them.
pub proof fn index_place_bounds(sorted: Seq<usize>, x: usize)
    ensures
        0 <= index_place(sorted, x) <= sorted.len(),
    decreases sorted.len(),
{
    if sorted.len() > 0 && sorted.last() > x {
        index_place_bounds(sorted.drop_last(), x);
    }
}

/// Ordering indices keeps which indices there are.
pub proof fn ascending_keeps_all(v: Seq<usize>, n: int)
    requires
        0 <= n <= v.len(),
    ensures
        forall|x: usize| #[trigger] ascending(v, n).contains(x) <==> v.take(n).contains(x),
        n > 0 ==> ascending(v, n).len() > 0,
    decreases n,
{
    if n > 0 {
        ascending_keeps_all(v, n - 1);
        let before = ascending(v, n - 1);
        let after = ascending(v, n);
        let y = v[n - 1];
        index_place_bounds(before, y);
        let k = index_place(before, y);
        let short = v.take(n - 1);
        let long = v.take(n);
        assert(long =~= short.push(y));
        assert forall|x: usize| #[trigger] after.contains(x) <==> long.contains(x) by {
            assert(long[n - 1] == y);
            if short.contains(x) {
                let i = choose|i: int| 0 <= i < short.len() && short[i] == x;
                assert(long[i] == x);
            }
            if long.contains(x) && x != y {
                let i = choose|i: int| 0 <= i < long.len() && long[i] == x;
                assert(short[i] == x);
            }
            if !before.contains(y) {
                assert(after == before.insert(k, y));
                assert(after[k] == y);
                if after.contains(x) && x != y {
                    let i = choose|i: int| 0 <= i < after.len() && after[i] == x;
                    assert(before[if i < k {
                        i
                    } else {
                        i - 1
                    }] == x);
                }
                if before.contains(x) {
                    let m = choose|m: int| 0 <= m < before.len() && before[m] == x;
                    assert(after[if m < k {
                        m
                    } else {
                        m + 1
                    }] == x);
                }
            }
        }
        if before.contains(y) {
            let i = choose|i: int| 0 <= i < before.len() && before[i] == y;
        }
    }
}

/// The indices of `v` in ascending order, each once.
fn ascending_of(v: &Vec<usize>) -> (r: Vec<usize>)
    ensures
        r@ == ascending(v@, v@.len() as int),
{
    let mut out: Vec<usize> = Vec::new();
    let mut n: usize = 0;
    while n < v.len()
        invariant
            n <= v@.len(),
            out@ == ascending(v@, n as int),
        decreases v@.len() - n,
    {
        let x = v[n];
        if find_pos(&out, x) >= out.len() {
            let ghost all = out@;
            let mut k: usize = out.len();
            assert(all.take(k as int) =~= all);
            while k > 0 && out[k - 1] > x
                invariant
                    k <= out@.len(),
                    all == out@,
                    index_place(all, x) == index_place(all.take(k as int), x),
                decreases k,
            {
                assert(all.take(k as int).drop_last() =~= all.take(k - 1));
                k -= 1;
            }
            out.insert(k, x);
        }
        n += 1;
    }
    out
}

/// The session modules for module indices.
pub open spec fn session_modules_for(modules: Seq<ModuleView>, targets: Seq<usize>) -> Seq<
    SessionModuleView,
> {
    targets.map_values(
        |i: usize|
            SessionModuleView {
                module_idx: i,
                path: modules[i as int].path,
                name: modules[i as int].name,
            },
    )
}

/// The paths of session modules, component by component.
pub open spec fn session_paths(ms: Seq<SessionModuleView>) -> Seq<Seq<Seq<char>>> {
    ms.map_values(|m: SessionModuleView| m.place())
}

/// The task that is shown for `path`: the latest of this session, else the
/// newest one that is not over. The flag tells that it is not of this session.
pub open spec fn display_of(
    e: EngineView,
    session: Option<SessionView>,
    path: Seq<char>,
) -> Option<(int, bool)> {
    let place = components(path);
    if session is Some && (session->0).latest_task.dom().contains(place) && has_task(
        e.tasks,
        (session->0).latest_task[place],
    ) {
        Some((find_task(e.tasks, (session->0).latest_task[place]), false))
    } else {
        match newest_active(e.tasks, path, e.tasks.len() as int) {
            Some(k) => Some((k, true)),
            None => None,
        }
    }
}

/// The ids of the tasks to cancel for the first `n` targets: the shown tasks
/// that are not over.
pub open spec fn cancel_ids(a: AppView, targets: Seq<usize>, n: int) -> Seq<usize>
    decreases n,
{
    if n <= 0 {
        Seq::empty()
    } else {
        let before = cancel_ids(a, targets, n - 1);
        let i = targets[n - 1];
        if i < a.modules.len() {
            match display_of(a.engine, a.session, a.modules[i as int].path) {
                Some((k, _)) => if a.engine.tasks[k].status.over() {
                    before
                } else {
                    before.push(a.engine.tasks[k].id)
                },
                None => before,
            }
        } else {
            before
        }
    }
}

/// The board rows from `lo` to `hi`.
pub open spec fn row_span(lo: int, hi: int) -> Seq<usize> {
    Seq::new(
        (if lo <= hi {
            hi - lo + 1
        } else {
            0
        }) as nat,
        |i: int| (lo + i) as usize,
    )
}

/// The selected ones of the board rows, by module index.
pub open spec fn chosen_indices(
    modules: Seq<SessionModuleView>,
    selected: Seq<usize>,
    n: int,
) -> Seq<usize>
    decreases n,
{
    if n <= 0 {
        Seq::empty()
    } else {
        let before = chosen_indices(modules, selected, n - 1);
        let i = selected[n - 1];
        if i < modules.len() {
            before.push(modules[i as int].module_idx)
        } else {
            before
        }
    }
}

/// Latest tasks with those of the first `n` ids recorded.
pub open spec fn latest_with(
    latest: Map<Seq<Seq<char>>, usize>,
    tasks: Seq<TaskView>,
    ids: Seq<usize>,
    n: int,
) -> Map<Seq<Seq<char>>, usize>
    decreases n,
{
    if n <= 0 {
        latest
    } else {
        let before = latest_with(latest, tasks, ids, n - 1);
        let id = ids[n - 1];
        if has_task(tasks, id) {
            before.insert(tasks[find_task(tasks, id)].place(), id)
        } else {
            before
        }
    }
}

/// How many of the first `n` session modules have a task that is not over.
pub open spec fn active_modules(
    modules: Seq<SessionModuleView>,
    tasks: Seq<TaskView>,
    n: int,
) -> nat
    decreases n,
{
    if n <= 0 {
        0
    } else {
        active_modules(modules, tasks, n - 1) + if newest_active(
            tasks,
            modules[n - 1].path,
            tasks.len() as int,
        ) is Some {
            1nat
        } else {
            0
        }
    }
}

/// Whether a module with the path of these components is among `modules`, and
/// the last place it has there.
pub open spec fn last_place(modules: Seq<ModuleView>, path: Seq<Seq<char>>, n: int) -> Option<int>
    decreases n,
{
    if n <= 0 {
        None
    } else if modules[n - 1].place() == path {
        Some(n - 1)
    } else {
        last_place(modules, path, n - 1)
    }
}

/// Those of the first `n` session modules that are still among `modules`, with
/// their new places.
pub open spec fn surviving(
    ms: Seq<SessionModuleView>,
    modules: Seq<ModuleView>,
    n: int,
) -> Seq<SessionModuleView>
    decreases n,
{
    if n <= 0 {
        Seq::empty()
    } else {
        let before = surviving(ms, modules, n - 1);
        match last_place(modules, ms[n - 1].place(), modules.len() as int) {
            Some(i) => before.push(SessionModuleView { module_idx: i as usize, ..ms[n - 1] }),
            None => before,
        }
    }
}

/// Where the board row `old` goes when only surviving modules are kept.
pub open spec fn new_row(
    ms: Seq<SessionModuleView>,
    modules: Seq<ModuleView>,
    old: usize,
) -> Option<int> {
    if old < ms.len() && last_place(modules, ms[old as int].place(), modules.len() as int) is Some {
        Some(surviving(ms, modules, old as int).len() as int)
    } else {
        None
    }
}

/// The first `n` selected rows, moved to their new places.
pub open spec fn new_rows(
    ms: Seq<SessionModuleView>,
    modules: Seq<ModuleView>,
    selected: Seq<usize>,
    n: int,
) -> Seq<usize>
    decreases n,
{
    if n <= 0 {
        Seq::empty()
    } else {
        let before = new_rows(ms, modules, selected, n - 1);
        match new_row(ms, modules, selected[n - 1]) {
            Some(k) => before.push(k as usize),
            None => before,
        }
    }
}

/// The session after the module list has become `modules`.
pub open spec fn remapped(s: SessionView, modules: Seq<ModuleView>) -> SessionView {
    let kept = surviving(s.modules, modules, s.modules.len() as int);
    SessionView {
        modules: kept,
        selected: new_rows(s.modules, modules, s.selected, s.selected.len() as int),
        cursor: match new_row(s.modules, modules, s.cursor) {
            Some(k) => k as usize,
            None => 0,
        },
        select_anchor: None,
        latest_task: s.latest_task.restrict(
            Set::new(|p: Seq<Seq<char>>| last_place(modules, p, modules.len() as int) is Some),
        ),
        ..s
    }
}

/// The root modules among the first `n`.
pub open spec fn roots_of(ms: Seq<ModuleView>, n: int) -> Seq<ModuleView>
    decreases n,
{
    if n <= 0 {
        Seq::empty()
    } else {
        let before = roots_of(ms, n - 1);
        if ms[n - 1].kind == ModuleKind::Root {
            before.push(ms[n - 1])
        } else {
            before
        }
    }
}

/// The modules that the screens list of those found: all of them where library
/// modules are shown, else the root modules.
pub open spec fn listed(found: Seq<ModuleView>, libraries: bool) -> Seq<ModuleView> {
    if libraries {
        found
    } else {
        roots_of(found, found.len() as int)
    }
}

impl AppView {
    /// The application on the run screen for the current targets: the session
    /// goes on where it is about the same modules, else a new one begins.
    pub open spec fn run_entered(self) -> AppView {
        let targets = ascending(self.targets(), self.targets().len() as int);
        let ms = session_modules_for(self.modules, targets);
        if self.targets().len() == 0 {
            self
        } else if self.session is Some && session_paths((self.session->0).modules).to_set()
            == session_paths(ms).to_set() {
            AppView { screen: Screen::Run, ..self }
        } else {
            AppView {
                screen: Screen::Run,
                session: Some(new_session(ms, self.engine.clock)),
                ..self
            }
        }
    }

    /// Whether the targets are modules.
    pub open spec fn targets_exist(self) -> bool {
        forall|i: int|
            0 <= i < self.targets().len() ==> #[trigger] self.targets()[i] < self.modules.len()
    }

    /// The module indices that a run action is aimed at: the selected board
    /// rows, else all.
    pub open spec fn run_scope(self) -> Seq<usize> {
        match self.session {
            Some(s) => if s.selected.len() == 0 {
                s.modules.map_values(|m: SessionModuleView| m.module_idx)
            } else {
                chosen_indices(s.modules, s.selected, s.selected.len() as int)
            },
            None => Seq::empty(),
        }
    }

    /// The module of the board row under the cursor.
    pub open spec fn cursor_module(self) -> Option<SessionModuleView> {
        match self.session {
            Some(s) => if s.cursor < s.modules.len() {
                Some(s.modules[s.cursor as int])
            } else {
                None
            },
            None => None,
        }
    }

    /// The task shown for the board row under the cursor.
    pub open spec fn shown_task(self) -> Option<int> {
        match self.cursor_module() {
            Some(m) => match display_of(self.engine, self.session, m.path) {
                Some((k, _)) => Some(k),
                None => None,
            },
            None => None,
        }
    }

    /// The id of the shown task.
    pub open spec fn shown_id(self) -> Option<usize> {
        match self.shown_task() {
            Some(k) => Some(self.engine.tasks[k].id),
            None => None,
        }
    }

    /// The output of the shown task.
    pub open spec fn shown_lines(self) -> Seq<Seq<char>> {
        match self.shown_task() {
            Some(k) => self.engine.tasks[k].output_lines,
            None => Seq::empty(),
        }
    }

    /// The application once the output layout is up to date. A selection of
    /// another task's output is dropped.
    pub open spec fn layout_synced(self, width: u16, wrap: bool) -> AppView {
        let id = self.shown_id();
        AppView {
            layout: synced(self.layout, id, self.shown_lines(), width, wrap),
            session: match self.session {
                Some(s) => Some(
                    SessionView {
                        selection: if s.selection is Some && (s.selection->0).task != id {
                            None
                        } else {
                            s.selection
                        },
                        pending_sel: if s.pending_sel is Some && (s.pending_sel->0).task != id {
                            None
                        } else {
                            s.pending_sel
                        },
                        ..s
                    },
                ),
                None => None,
            },
            ..self
        }
    }

    pub open spec fn board_cursor_at(self, pos: int) -> AppView {
        match self.session {
            Some(s) => AppView {
                session: Some(
                    if pos == s.cursor {
                        s
                    } else {
                        SessionView {
                            cursor: pos as usize,
                            output_scroll: 0,
                            selection: None,
                            pending_sel: None,
                            ..s
                        }
                    },
                ),
                ..self
            },
            None => self,
        }
    }

    pub open spec fn board_cursor_moved(self, delta: int) -> AppView {
        match self.session {
            Some(s) => if s.modules.len() == 0 {
                self
            } else {
                self.board_cursor_at(moved(s.cursor, delta, s.modules.len()))
            },
            None => self,
        }
    }

    pub open spec fn board_cursor_set(self, pos: usize) -> AppView {
        match self.session {
            Some(s) => if pos < s.modules.len() {
                self.board_cursor_at(pos as int)
            } else {
                self
            },
            None => self,
        }
    }

    pub open spec fn with_session(self, s: SessionView) -> AppView {
        AppView { session: Some(s), ..self }
    }

    pub open spec fn board_toggled(self) -> AppView {
        match self.session {
            Some(s) => self.with_session(
                SessionView {
                    selected: toggled(s.selected, s.cursor),
                    select_anchor: Some(s.cursor),
                    ..s
                },
            ),
            None => self,
        }
    }

    pub open spec fn board_ranged(self) -> AppView {
        match self.session {
            Some(s) => {
                let span = match s.select_anchor {
                    None => seq![s.cursor],
                    Some(a) => {
                        let lo = if a < s.cursor {
                            a
                        } else {
                            s.cursor
                        };
                        let far = if a < s.cursor {
                            s.cursor
                        } else {
                            a
                        };
                        let last = if s.modules.len() == 0 {
                            0
                        } else {
                            s.modules.len() - 1
                        };
                        row_span(
                            lo as int,
                            if far < last {
                                far as int
                            } else {
                                last
                            },
                        )
                    },
                };
                self.with_session(
                    SessionView {
                        selected: with_items(s.selected, span, span.len() as int),
                        select_anchor: Some(s.cursor),
                        ..s
                    },
                )
            },
            None => self,
        }
    }

    pub open spec fn board_all_toggled(self) -> AppView {
        match self.session {
            Some(s) => self.with_session(
                SessionView {
                    selected: if s.modules.len() > 0 && s.selected.len() == s.modules.len() {
                        Seq::empty()
                    } else {
                        row_span(0, s.modules.len() - 1)
                    },
                    ..s
                },
            ),
            None => self,
        }
    }

    pub open spec fn board_cleared(self) -> AppView {
        match self.session {
            Some(s) => self.with_session(SessionView { selected: Seq::empty(), ..s }),
            None => self,
        }
    }

    pub open spec fn cancel_requested(self, targets: Seq<usize>) -> AppView {
        let ids = cancel_ids(self, targets, targets.len() as int);
        if ids.len() == 0 {
            self
        } else {
            AppView { modal: Some(ModalView::CancelTasks(ids)), ..self }
        }
    }

    pub open spec fn tasks_recorded(self, ids: Seq<usize>) -> AppView {
        match self.session {
            Some(s) => self.with_session(
                SessionView {
                    latest_task: latest_with(
                        s.latest_task,
                        self.engine.tasks,
                        ids,
                        ids.len() as int,
                    ),
                    ..s
                },
            ),
            None => self,
        }
    }

    /// The application once a task started from the explorer shows on the run
    /// board: its module is in the session, and the task is its latest.
    pub open spec fn explorer_task_recorded(self, module_idx: usize, id: usize) -> AppView {
        if module_idx >= self.modules.len() {
            self
        } else {
            let m = self.modules[module_idx as int];
            let sm = SessionModuleView { module_idx, path: m.path, name: m.name };
            let s = match self.session {
                Some(s) => if session_paths(s.modules).contains(m.place()) {
                    s
                } else {
                    SessionView { modules: s.modules.push(sm), ..s }
                },
                None => new_session(seq![sm], self.engine.clock),
            };
            self.with_session(SessionView { latest_task: s.latest_task.insert(m.place(), id), ..s })
        }
    }

    pub open spec fn session_remapped(self) -> AppView {
        match self.session {
            Some(s) => if surviving(s.modules, self.modules, s.modules.len() as int).len() == 0 {
                AppView { session: None, screen: Screen::Select, ..self }
            } else {
                self.with_session(remapped(s, self.modules))
            },
            None => self,
        }
    }

    pub open spec fn modules_refreshed(self, found: Seq<ModuleView>) -> AppView {
        let a = AppView {
            modules: listed(found, self.config.show_library_modules),
            multi_select: Seq::empty(),
            ..self
        };
        let count = a.visible().len();
        AppView {
            selected_module: if count == 0 {
                0
            } else if a.selected_module >= count {
                (count - 1) as usize
            } else {
                a.selected_module
            },
            ..a
        }.session_remapped()
    }
}

/// A layout brought up to date with `lines`.
pub open spec fn synced(
    l: LayoutView,
    task: Option<usize>,
    lines: Seq<Seq<char>>,
    width: u16,
    wrap: bool,
) -> LayoutView {
    let key = LayoutKey { task, width, wrap };
    let fresh = l.key != Some(key) || lines.len() < l.lines_seen;
    LayoutView {
        key: Some(key),
        lines_seen: lines.len() as usize,
        cum_rows: with_lines(
            if fresh {
                seq![0usize]
            } else {
                l.cum_rows
            },
            lines,
            if fresh {
                0
            } else {
                l.lines_seen as int
            },
            lines.len() as int,
            width,
            wrap,
        ),
    }
}

proof fn growing_keeps_counts(
    cum: Seq<usize>,
    lines: Seq<Seq<char>>,
    from: int,
    n: int,
    width: u16,
    wrap: bool,
)
    requires
        0 <= from <= n,
        cum.len() == from + 1,
        cum[0] == 0,
        forall|i: int, j: int| 0 <= i <= j < cum.len() ==> cum[i] <= cum[j],
    ensures
        ({
            let all = with_lines(cum, lines, from, n, width, wrap);
            &&& all.len() == n + 1
            &&& all[0] == 0
            &&& forall|i: int, j: int| 0 <= i <= j < all.len() ==> all[i] <= all[j]
        }),
    decreases n - from,
{
    if n > from {
        growing_keeps_counts(cum, lines, from, n - 1, width, wrap);
    }
}

/// A layout that is brought up to date stays well formed.
pub proof fn syncing_keeps_layout(
    l: LayoutView,
    task: Option<usize>,
    lines: Seq<Seq<char>>,
    width: u16,
    wrap: bool,
)
    requires
        l.wf(),
        lines.len() <= usize::MAX,
    ensures
        synced(l, task, lines, width, wrap).wf(),
{
    let key = LayoutKey { task, width, wrap };
    let fresh = l.key != Some(key) || lines.len() < l.lines_seen;
    if fresh {
        growing_keeps_counts(seq![0usize], lines, 0, lines.len() as int, width, wrap);
    } else {
        growing_keeps_counts(
            l.cum_rows,
            lines,
            l.lines_seen as int,
            lines.len() as int,
            width,
            wrap,
        );
    }
}

/// The task that is shown for `path`, and whether it is of an earlier session.
pub fn display_task(engine: &TaskEngine, session: &Option<RunSession>, path: &str) -> (r: Option<
    (usize, bool),
>)
    ensures
        match r {
            Some((k, prev)) => k < engine.tasks@.len() && display_of(
                engine@,
                crate::app::model::session_view(*session),
                path@,
            ) == Some((k as int, prev)),
            None => display_of(engine@, crate::app::model::session_view(*session), path@) is None,
        },
{
    if let Some(s) = session {
        if let Some(id) = s.latest_task.get(path) {
            let k = engine.position(*id);
            if k < engine.tasks.len() {
                return Some((k, false));
            }
        }
    }
    match newest_active_in(&engine.tasks, path) {
        Some(k) => Some((k, true)),
        None => None,
    }
}

fn subset_of(a: &Vec<SessionModule>, b: &Vec<SessionModule>) -> (r: bool)
    ensures
        r == session_paths(session_module_views(a@)).to_set().subset_of(
            session_paths(session_module_views(b@)).to_set(),
        ),
{
    let ghost pa = session_paths(session_module_views(a@));
    let ghost pb = session_paths(session_module_views(b@));
    let mut i: usize = 0;
    while i < a.len()
        invariant
            i <= a@.len(),
            pa == session_paths(session_module_views(a@)),
            pb == session_paths(session_module_views(b@)),
            forall|j: int| 0 <= j < i ==> pb.contains(#[trigger] pa[j]),
        decreases a@.len() - i,
    {
        assert(pa[i as int] == components(a@[i as int].path@));
        if !has_path(b, a[i].path.as_str()) {
            assert(pa.to_set().contains(pa[i as int]));
            assert(!pb.to_set().contains(pa[i as int]));
            return false;
        }
        i += 1;
    }
    assert forall|p: Seq<Seq<char>>| pa.to_set().contains(p) implies pb.to_set().contains(p) by {
        let j = choose|j: int| 0 <= j < pa.len() && pa[j] == p;
        assert(pb.contains(pa[j]));
    }
    true
}

fn has_path(ms: &Vec<SessionModule>, path: &str) -> (r: bool)
    ensures
        r == session_paths(session_module_views(ms@)).contains(components(path@)),
{
    let ghost ps = session_paths(session_module_views(ms@));
    let mut i: usize = 0;
    while i < ms.len()
        invariant
            i <= ms@.len(),
            ps == session_paths(session_module_views(ms@)),
            forall|j: int| 0 <= j < i ==> (#[trigger] ps[j]) != components(path@),
        decreases ms@.len() - i,
    {
        assert(ps[i as int] == components(ms@[i as int].path@));
        if same_path(ms[i].path.as_str(), path) {
            return true;
        }
        i += 1;
    }
    false
}

/// The last place of a module with this path.
pub fn last_place_of(modules: &Vec<Module>, path: &str) -> (r: Option<usize>)
    ensures
        match r {
            Some(i) => i < modules@.len() && last_place(
                module_views(modules@),
                components(path@),
                modules@.len() as int,
            ) == Some(i as int),
            None => last_place(module_views(modules@), components(path@), modules@.len() as int) is None,
        },
{
    let ghost all = module_views(modules@);
    let mut n: usize = modules.len();
    while n > 0
        invariant
            n <= modules@.len(),
            all == module_views(modules@),
            last_place(all, components(path@), modules@.len() as int) == last_place(
                all,
                components(path@),
                n as int,
            ),
        decreases n,
    {
        assert(all[n - 1] == module_view(modules@[n - 1]));
        if same_path(modules[n - 1].path.as_str(), path) {
            return Some(n - 1);
        }
        n -= 1;
    }
    None
}

fn all_rows(count: usize) -> (r: Vec<usize>)
    ensures
        r@ == row_span(0, count - 1),
{
    let mut v: Vec<usize> = Vec::new();
    let mut i: usize = 0;
    while i < count
        invariant
            i <= count,
            v@ == row_span(0, i - 1),
        decreases count - i,
    {
        v.push(i);
        i += 1;
        assert(v@ =~= row_span(0, i - 1));
    }
    v
}

impl App {
    /// Goes to the run screen for the current targets. A session about exactly
    /// these modules goes on; else a new one begins. Without targets nothing
    /// happens.
    pub fn enter_run(&mut self)
        requires
            old(self)@.targets_exist(),
        ensures
            final(self)@ == old(self)@.run_entered(),
    {
        let ghost before = self@;
        let found = self.target_indices();
        if found.len() == 0 {
            return ;
        }
        let targets = ascending_of(&found);
        proof {
            ascending_keeps_all(found@, found@.len() as int);
            assert(found@.take(found@.len() as int) =~= found@);
            assert forall|i: int| 0 <= i < targets@.len() implies #[trigger] targets@[i]
                < before.modules.len() by {
                assert(targets@.contains(targets@[i]));
                let m = choose|m: int| 0 <= m < found@.len() && found@[m] == targets@[i];
                assert(before.targets()[m] < before.modules.len());
            }
        }
        let mut modules: Vec<SessionModule> = Vec::new();
        let ghost want = session_modules_for(before.modules, targets@);
        let mut n: usize = 0;
        while n < targets.len()
            invariant
                n <= targets@.len(),
                self@ == before,
                want == session_modules_for(before.modules, targets@),
                forall|i: int|
                    0 <= i < targets@.len() ==> #[trigger] targets@[i] < before.modules.len(),
                session_module_views(modules@) == want.take(n as int),
            decreases targets@.len() - n,
        {
            let i = targets[n];
            let m = &self.modules[i];
            assert(before.modules[i as int] == module_view(*m));
            let sm = SessionModule {
                module_idx: i,
                path: m.path.clone(),
                name: m.display_name.clone(),
            };
            let ghost had = session_module_views(modules@);
            let ghost view = sm@;
            modules.push(sm);
            assert(session_module_views(modules@) =~= had.push(view));
            assert(want.take(n + 1) =~= want.take(n as int).push(want[n as int]));
            assert(want[n as int] == view);
            n += 1;
        }
        assert(want.take(n as int) =~= want);
        let same_set = match &self.session {
            Some(s) => subset_of(&s.modules, &modules) && subset_of(&modules, &s.modules),
            None => false,
        };
        proof {
            if before.session is Some {
                let x = session_paths((before.session->0).modules).to_set();
                let y = session_paths(want).to_set();
                assert(same_set == (x.subset_of(y) && y.subset_of(x)));
                if same_set {
                    assert(x =~= y);
                }
            }
        }
        self.screen = Screen::Run;
        if !same_set {
            let now: u64 = self.engine.clock;
            self.session = Some(RunSession::new(modules, now));
        }
        assert(self@ =~= before.run_entered());
    }

    /// The modules that a run action is aimed at: the selected board rows, else
    /// all of the session.
    pub fn run_scope_indices(&self) -> (r: Vec<usize>)
        ensures
            r@ == self@.run_scope(),
    {
        let mut out: Vec<usize> = Vec::new();
        if let Some(s) = &self.session {
            let ghost ms = session_module_views(s.modules@);
            if s.selected.len() == 0 {
                let ghost want = ms.map_values(|m: SessionModuleView| m.module_idx);
                let mut i: usize = 0;
                while i < s.modules.len()
                    invariant
                        i <= s.modules@.len(),
                        ms == session_module_views(s.modules@),
                        want == ms.map_values(|m: SessionModuleView| m.module_idx),
                        out@ == want.take(i as int),
                    decreases s.modules@.len() - i,
                {
                    assert(want[i as int] == s.modules@[i as int].module_idx);
                    out.push(s.modules[i].module_idx);
                    i += 1;
                    assert(out@ =~= want.take(i as int));
                }
                assert(want.take(i as int) =~= want);
            } else {
                let mut n: usize = 0;
                while n < s.selected.len()
                    invariant
                        n <= s.selected@.len(),
                        ms == session_module_views(s.modules@),
                        out@ == chosen_indices(ms, s.selected@, n as int),
                    decreases s.selected@.len() - n,
                {
                    let i = s.selected[n];
                    if i < s.modules.len() {
                        assert(ms[i as int] == s.modules@[i as int]@);
                        out.push(s.modules[i].module_idx);
                    }
                    n += 1;
                }
            }
        }
        out
    }

    /// The module index of the board row under the cursor.
    pub fn run_highlight_index(&self) -> (r: Option<usize>)
        ensures
            r == (match self@.cursor_module() {
                Some(m) => Some(m.module_idx),
                None => None,
            }),
    {
        match &self.session {
            Some(s) => if s.cursor < s.modules.len() {
                assert(session_module_views(s.modules@)[s.cursor as int]
                    == s.modules@[s.cursor as int]@);
                Some(s.modules[s.cursor].module_idx)
            } else {
                None
            },
            None => None,
        }
    }

    /// The path of the board row under the cursor.
    pub fn run_cursor_path(&self) -> (r: Option<String>)
        ensures
            crate::state::opt_text(r) == (match self@.cursor_module() {
                Some(m) => Some(m.path),
                None => None,
            }),
    {
        match &self.session {
            Some(s) => if s.cursor < s.modules.len() {
                assert(session_module_views(s.modules@)[s.cursor as int]
                    == s.modules@[s.cursor as int]@);
                Some(s.modules[s.cursor].path.clone())
            } else {
                None
            },
            None => None,
        }
    }

    /// The task shown for a module on the board, and whether it is of an
    /// earlier session.
    pub fn display_task_for(&self, path: &str) -> (r: Option<(&Task, bool)>)
        ensures
            match display_of(self@.engine, self@.session, path@) {
                Some((k, prev)) => r is Some && (r->0).0@ == self@.engine.tasks[k] && (r->0).1
                    == prev,
                None => r is None,
            },
    {
        match display_task(&self.engine, &self.session, path) {
            Some((k, prev)) => {
                assert(self@.engine.tasks[k as int] == self.engine.tasks@[k as int]@);
                Some((&self.engine.tasks[k], prev))
            },
            None => None,
        }
    }

    /// The position of the task shown for the board row under the cursor.
    pub fn shown_task_index(&self) -> (r: Option<usize>)
        ensures
            match r {
                Some(k) => k < self.engine.tasks@.len() && self@.shown_task() == Some(k as int),
                None => self@.shown_task() is None,
            },
    {
        match self.run_cursor_path() {
            Some(p) => match display_task(&self.engine, &self.session, p.as_str()) {
                Some((k, _)) => Some(k),
                None => None,
            },
            None => None,
        }
    }

    /// The id of the task whose output is shown.
    pub fn run_display_task_id(&self) -> (r: Option<usize>)
        ensures
            r == self@.shown_id(),
    {
        match self.shown_task_index() {
            Some(k) => {
                assert(self@.engine.tasks[k as int] == self.engine.tasks@[k as int]@);
                Some(self.engine.tasks[k].id)
            },
            None => None,
        }
    }

    /// The output of the task shown for the board row under the cursor; none
    /// where no task is shown.
    pub fn run_output_lines(&self) -> (r: Option<&Vec<String>>)
        ensures
            match r {
                Some(v) => texts(v@) == self@.shown_lines() && self@.shown_task() is Some,
                None => self@.shown_task() is None && self@.shown_lines().len() == 0,
            },
    {
        match self.shown_task_index() {
            Some(k) => {
                assert(self@.engine.tasks[k as int] == self.engine.tasks@[k as int]@);
                Some(&self.engine.tasks[k].output_lines)
            },
            None => None,
        }
    }

    /// Brings the output layout up to date with the shown task at the given
    /// geometry. A selection of another task's output is dropped.
    pub fn sync_output_layout(&mut self, width: u16, wrap: bool)
        requires
            old(self)@.layout.wf(),
        ensures
            final(self)@ == old(self)@.layout_synced(width, wrap),
            final(self)@.layout.wf(),
    {
        let ghost before = self@;
        let shown = self.shown_task_index();
        let id = self.run_display_task_id();
        match shown {
            Some(k) => {
                assert(before.engine.tasks[k as int] == self.engine.tasks@[k as int]@);
                self.output_layout.sync(
                    id,
                    self.engine.tasks[k].output_lines.as_slice(),
                    width,
                    wrap,
                );
            },
            None => {
                let none: Vec<String> = Vec::new();
                assert(texts(none@) =~= Seq::<Seq<char>>::empty());
                self.output_layout.sync(id, none.as_slice(), width, wrap);
            },
        }
        if let Some(s) = &mut self.session {
            if let Some(sel) = s.selection {
                if sel.task != id {
                    s.selection = None;
                }
            }
            if let Some(p) = s.pending_sel {
                if p.task != id {
                    s.pending_sel = None;
                }
            }
        }
        assert(self@ =~= before.layout_synced(width, wrap));
    }

    /// Moves the board cursor. Where it moves, the output follows the tail and
    /// nothing is selected in it. Tells whether it moved.
    pub fn run_move_cursor(&mut self, delta: i32) -> (r: bool)
        ensures
            final(self)@ == old(self)@.board_cursor_moved(delta as int),
            r == (final(self)@ != old(self)@),
    {
        let ghost before = self@;
        if let Some(s) = &mut self.session {
            let count = s.modules.len();
            if count == 0 {
                return false;
            }
            let new = move_within(s.cursor, delta, count);
            let changed = new != s.cursor;
            s.cursor = new;
            if changed {
                s.output_scroll = 0;
                s.selection = None;
                s.pending_sel = None;
            }
            assert(self@ =~= before.board_cursor_moved(delta as int));
            if changed {
                assert((self@.session->0).cursor != (before.session->0).cursor);
            }
            changed
        } else {
            false
        }
    }

    /// Sets the board cursor, if there is such a row. Where it moves, the
    /// output follows the tail and nothing is selected in it. Tells whether it
    /// moved.
    pub fn run_set_cursor(&mut self, pos: usize) -> (r: bool)
        ensures
            final(self)@ == old(self)@.board_cursor_set(pos),
            r == (final(self)@ != old(self)@),
    {
        let ghost before = self@;
        if let Some(s) = &mut self.session {
            if pos >= s.modules.len() {
                return false;
            }
            let changed = pos != s.cursor;
            s.cursor = pos;
            if changed {
                s.output_scroll = 0;
                s.selection = None;
                s.pending_sel = None;
            }
            assert(self@ =~= before.board_cursor_set(pos));
            if changed {
                assert((self@.session->0).cursor != (before.session->0).cursor);
            }
            changed
        } else {
            false
        }
    }

    /// Selects the board row under the cursor, or takes it out; it becomes the
    /// anchor.
    pub fn run_board_toggle(&mut self)
        ensures
            final(self)@ == old(self)@.board_toggled(),
    {
        let ghost before = self@;
        if let Some(s) = &mut self.session {
            let cur = s.cursor;
            toggle(&mut s.selected, cur);
            s.select_anchor = Some(cur);
        }
        assert(self@ =~= before.board_toggled());
    }

    /// Selects the board rows from the anchor to the cursor.
    pub fn run_board_range(&mut self)
        ensures
            final(self)@ == old(self)@.board_ranged(),
    {
        let ghost before = self@;
        if let Some(s) = &mut self.session {
            let ghost sel = s.selected@;
            let (lo, hi) = match s.select_anchor {
                None => (s.cursor, s.cursor),
                Some(a) => {
                    let lo = if a < s.cursor { a } else { s.cursor };
                    let far = if a < s.cursor { s.cursor } else { a };
                    let last: usize = if s.modules.len() == 0 { 0 } else { s.modules.len() - 1 };
                    (lo, if far < last { far } else { last })
                },
            };
            let ghost span = row_span(lo as int, hi as int);
            proof {
                if s.select_anchor is None {
                    assert(span =~= seq![s.cursor]);
                }
            }
            let ghost rest = *s;
            let mut done = lo > hi;
            let mut i: usize = lo;
            while !done
                invariant
                    span == row_span(lo as int, hi as int),
                    lo <= i,
                    !done ==> i <= hi && s.selected@ == with_items(sel, span, i - lo),
                    done ==> s.selected@ == with_items(sel, span, span.len() as int),
                    *s == (RunSession { selected: s.selected, ..rest }),
                decreases (if done { 0int } else { hi - i + 1 }),
            {
                assert(span[i - lo] == i);
                if find_pos(&s.selected, i) >= s.selected.len() {
                    s.selected.push(i);
                }
                if i == hi {
                    done = true;
                } else {
                    i += 1;
                }
            }
            s.select_anchor = Some(s.cursor);
        }
        assert(self@ =~= before.board_ranged());
    }

    /// Selects every board row, or none where all are selected.
    pub fn run_board_toggle_all(&mut self)
        ensures
            final(self)@ == old(self)@.board_all_toggled(),
    {
        let ghost before = self@;
        if let Some(s) = &mut self.session {
            if s.modules.len() > 0 && s.selected.len() == s.modules.len() {
                s.selected = Vec::new();
            } else {
                s.selected = all_rows(s.modules.len());
            }
        }
        assert(self@ =~= before.board_all_toggled());
    }

    /// Selects no board row.
    pub fn run_board_clear(&mut self)
        ensures
            final(self)@ == old(self)@.board_cleared(),
    {
        let ghost before = self@;
        if let Some(s) = &mut self.session {
            s.selected = Vec::new();
        }
        assert(self@ =~= before.board_cleared());
    }

    /// Asks whether the shown tasks of these modules are to be cancelled; those
    /// that are over do not count, and without any left nothing is asked.
    pub fn request_cancel_run_scope(&mut self, targets: &Vec<usize>)
        ensures
            final(self)@ == old(self)@.cancel_requested(targets@),
    {
        let ghost before = self@;
        let mut ids: Vec<usize> = Vec::new();
        let mut n: usize = 0;
        while n < targets.len()
            invariant
                n <= targets@.len(),
                self@ == before,
                ids@ == cancel_ids(before, targets@, n as int),
            decreases targets@.len() - n,
        {
            let i = targets[n];
            if i < self.modules.len() {
                assert(before.modules[i as int] == module_view(self.modules@[i as int]));
                if let Some((k, _)) = display_task(
                    &self.engine,
                    &self.session,
                    self.modules[i].path.as_str(),
                ) {
                    assert(before.engine.tasks[k as int] == self.engine.tasks@[k as int]@);
                    if !self.engine.tasks[k].status.is_terminal() {
                        ids.push(self.engine.tasks[k].id);
                    }
                }
            }
            n += 1;
        }
        if ids.len() > 0 {
            self.modal = Some(Modal::CancelTasks(ids));
        }
        assert(self@ =~= before.cancel_requested(targets@));
    }

    /// The number of modules of the session, and of those that have a task that
    /// is not over.
    pub fn session_indicator(&self) -> (r: Option<(usize, usize)>)
        ensures
            match self@.session {
                Some(s) => r is Some && (r->0).0 == s.modules.len() && (r->0).1 == active_modules(
                    s.modules,
                    self@.engine.tasks,
                    s.modules.len() as int,
                ),
                None => r is None,
            },
    {
        match &self.session {
            Some(s) => {
                let ghost ms = session_module_views(s.modules@);
                let mut running: usize = 0;
                let mut n: usize = 0;
                while n < s.modules.len()
                    invariant
                        n <= s.modules@.len(),
                        running <= n,
                        ms == session_module_views(s.modules@),
                        running == active_modules(ms, self@.engine.tasks, n as int),
                    decreases s.modules@.len() - n,
                {
                    assert(ms[n as int] == s.modules@[n as int]@);
                    if newest_active_in(&self.engine.tasks, s.modules[n].path.as_str()).is_some() {
                        running = running + 1;
                    }
                    n += 1;
                }
                Some((s.modules.len(), running))
            },
            None => None,
        }
    }

    /// Records tasks as the latest ones of their modules.
    pub fn record_session_tasks(&mut self, ids: &Vec<usize>)
        ensures
            final(self)@ == old(self)@.tasks_recorded(ids@),
    {
        let ghost before = self@;
        if let Some(s) = &mut self.session {
            let ghost latest = s.latest_task@;
            let ghost rest = *s;
            let mut n: usize = 0;
            while n < ids.len()
                invariant
                    n <= ids@.len(),
                    before.engine == self.engine@,
                    s.latest_task@ == latest_with(latest, before.engine.tasks, ids@, n as int),
                    *s == (RunSession { latest_task: s.latest_task, ..rest }),
                decreases ids@.len() - n,
            {
                let id = ids[n];
                if let Some(t) = self.engine.task(id) {
                    s.latest_task.insert(t.module_dir.clone(), id);
                }
                n += 1;
            }
        }
        assert(self@ =~= before.tasks_recorded(ids@));
    }

    /// Shows a task that was started from the explorer on the run board: its
    /// module becomes part of the session, and the task its latest. A session
    /// begins where there is none, but the screen stays.
    pub fn record_explorer_task(&mut self, module_idx: usize, task_id: usize)
        ensures
            final(self)@ == old(self)@.explorer_task_recorded(module_idx, task_id),
    {
        let ghost before = self@;
        if module_idx >= self.modules.len() {
            return ;
        }
        assert(before.modules[module_idx as int] == module_view(self.modules@[module_idx as int]));
        let path = self.modules[module_idx].path.clone();
        let name = self.modules[module_idx].display_name.clone();
        let ghost pv = path@;
        let ghost nv = name@;
        let now: u64 = self.engine.clock;
        let sm = SessionModule { module_idx, path: path.clone(), name };
        let ghost smv = sm@;
        match &mut self.session {
            Some(s) => {
                if !has_path(&s.modules, path.as_str()) {
                    let ghost had = session_module_views(s.modules@);
                    s.modules.push(sm);
                    assert(session_module_views(s.modules@) =~= had.push(smv));
                }
                s.latest_task.insert(path, task_id);
            },
            None => {
                let mut ms: Vec<SessionModule> = Vec::new();
                ms.push(sm);
                assert(session_module_views(ms@) =~= seq![smv]);
                let mut s = RunSession::new(ms, now);
                s.latest_task.insert(path, task_id);
                self.session = Some(s);
            },
        }
        assert(self@ =~= before.explorer_task_recorded(module_idx, task_id));
    }
}

} // verus!
