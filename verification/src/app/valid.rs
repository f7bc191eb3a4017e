//! What holds of the application between events.

use crate::app::model::{App, AppView};
use crate::app::modules::{is_visible, visible_of};
use crate::app::session::{ascending, ascending_keeps_all, chosen_indices, session_modules_for};
use crate::app::tasks::target_modules;
use crate::app::types::{Modal, ModalView, Screen, SessionModuleView};
use crate::discovery::ModuleView;
use vstd::prelude::*;

verus! {

impl AppView {
    /// The session has rows, its cursor is on one of them, and they stand for
    /// modules.
    pub open spec fn session_sound(self) -> bool {
        match self.session {
            Some(s) => {
                &&& s.cursor < s.modules.len()
                &&& forall|i: int|
                    0 <= i < s.modules.len() ==> (#[trigger] s.modules[i]).module_idx
                        < self.modules.len()
            },
            None => self.screen == Screen::Select,
        }
    }

    /// What waits for confirmation is about modules.
    pub open spec fn modal_sound(self) -> bool {
        match self.modal {
            Some(ModalView::Confirm { kind, targets }) => self.are_modules(
                target_modules(targets),
            ),
            _ => true,
        }
    }

    /// The application is in order: what it points at exists.
    pub open spec fn valid(self) -> bool {
        &&& self.layout.wf()
        &&& self.pane_has_cells()
        &&& self.are_modules(self.multi_select)
        &&& self.explorer is Some ==> (self.explorer->0).module_idx < self.modules.len()
        &&& self.session_sound()
        &&& self.modal_sound()
    }

    /// More tasks than any key can start.
    pub open spec fn key_tasks(self) -> nat {
        1 + self.targets().len() + (match self.session {
            Some(s) => s.modules.len() + s.selected.len(),
            None => 0,
        }) + (match self.modal {
            Some(ModalView::Confirm { targets, .. }) => targets.len(),
            _ => 0,
        })
    }

    /// Whether a key can be taken in: the application is in order, and there are
    /// ids for the tasks that a key may start.
    pub open spec fn can_take(self) -> bool {
        &&& self.valid()
        &&& self.has_room(self.key_tasks() as int)
    }

    /// Whether a key of the run screen can be taken in.
    pub open spec fn can_run(self) -> bool {
        &&& self.session_sound()
        &&& self.has_room(
            1 + match self.session {
                Some(s) => (s.modules.len() + s.selected.len()) as int,
                None => 0,
            },
        )
    }
}

/// The visible modules are modules.
pub proof fn visible_are_modules(
    modules: Seq<ModuleView>,
    filter: Seq<char>,
    max_depth: Option<usize>,
    n: int,
)
    requires
        n <= modules.len(),
    ensures
        forall|i: int|
            0 <= i < visible_of(modules, filter, max_depth, n).len() ==> (#[trigger] visible_of(
                modules,
                filter,
                max_depth,
                n,
            )[i]) < modules.len(),
    decreases n,
{
    if n > 0 {
        visible_are_modules(modules, filter, max_depth, n - 1);
        let before = visible_of(modules, filter, max_depth, n - 1);
        let after = visible_of(modules, filter, max_depth, n);
        assert(((n - 1) as usize) <= n - 1 || n - 1 > usize::MAX);
        assert forall|i: int| 0 <= i < after.len() implies #[trigger] after[i]
            < modules.len() by {
            if i < before.len() {
                assert(before[i] < modules.len());
                assert(after[i] == before[i]);
            }
        }
    }
}

/// The visible modules are listed in order, each once, and are exactly those
/// that the filter and the depth limit let through.
pub proof fn visible_are_in_order(
    modules: Seq<ModuleView>,
    filter: Seq<char>,
    max_depth: Option<usize>,
    n: int,
)
    requires
        0 <= n <= modules.len() <= usize::MAX,
    ensures
        ({
            let v = visible_of(modules, filter, max_depth, n);
            &&& forall|i: int, j: int| 0 <= i < j < v.len() ==> #[trigger] v[i] < #[trigger] v[j]
            &&& v.no_duplicates()
            &&& forall|k: int|
                0 <= k < v.len() ==> (#[trigger] v[k]) < n && is_visible(
                    modules[v[k] as int],
                    filter,
                    max_depth,
                )
            &&& forall|i: int|
                0 <= i < n && is_visible(#[trigger] modules[i], filter, max_depth) ==> v.contains(
                    i as usize,
                )
        }),
    decreases n,
{
    if n > 0 {
        visible_are_in_order(modules, filter, max_depth, n - 1);
        let before = visible_of(modules, filter, max_depth, n - 1);
        let v = visible_of(modules, filter, max_depth, n);
        assert forall|i: int|
            0 <= i < n && is_visible(#[trigger] modules[i], filter, max_depth) implies v.contains(
            i as usize,
        ) by {
            if i < n - 1 {
                let k = choose|k: int| 0 <= k < before.len() && before[k] == i as usize;
                assert(v[k] == i as usize);
            } else {
                assert(v[before.len() as int] == i as usize);
            }
        }
    }
}

/// The targets of an action are modules.
pub proof fn targets_are_modules(a: AppView)
    requires
        a.are_modules(a.multi_select),
    ensures
        a.targets_exist(),
        a.are_modules(a.targets()),
{
    visible_are_modules(a.modules, a.filter, a.max_depth, a.modules.len() as int);
    let n = a.selected_module as int;
    if n < a.visible().len() {
        assert(a.visible()[n] < a.modules.len());
    }
}

proof fn ascending_is_no_longer(v: Seq<usize>, n: int)
    requires
        n <= v.len(),
    ensures
        ascending(v, n).len() <= if n < 0 {
            0
        } else {
            n
        },
    decreases n,
{
    if n > 0 {
        ascending_is_no_longer(v, n - 1);
        crate::app::session::index_place_bounds(ascending(v, n - 1), v[n - 1]);
    }
}

/// Entering the run screen leaves the application in order, and its session has
/// no more rows than there were targets or rows before.
pub proof fn entering_keeps_valid(a: AppView)
    requires
        a.valid(),
    ensures
        a.run_entered().valid(),
        a.has_room(a.key_tasks() as int) && a.run_entered().screen == Screen::Run
            ==> a.run_entered().can_run(),
{
    targets_are_modules(a);
    let n = a.targets().len() as int;
    let ts = ascending(a.targets(), n);
    ascending_keeps_all(a.targets(), n);
    ascending_is_no_longer(a.targets(), n);
    let ms = session_modules_for(a.modules, ts);
    let b = a.run_entered();
    assert(b.visible() == a.visible());
    assert forall|i: int| 0 <= i < ms.len() implies (#[trigger] ms[i]).module_idx
        < a.modules.len() by {
        assert(ts.contains(ts[i]));
        assert(a.targets().take(n) =~= a.targets());
        let k = choose|k: int| 0 <= k < a.targets().len() && a.targets()[k] == ts[i];
        assert(a.targets()[k] < a.modules.len());
    }
}

proof fn chosen_are_modules(ms: Seq<SessionModuleView>, selected: Seq<usize>, n: int, bound: nat)
    requires
        n <= selected.len(),
        forall|i: int| 0 <= i < ms.len() ==> (#[trigger] ms[i]).module_idx < bound,
    ensures
        forall|i: int|
            0 <= i < chosen_indices(ms, selected, n).len() ==> (#[trigger] chosen_indices(
                ms,
                selected,
                n,
            )[i]) < bound,
        chosen_indices(ms, selected, n).len() <= if n < 0 {
            0
        } else {
            n
        },
    decreases n,
{
    if n > 0 {
        chosen_are_modules(ms, selected, n - 1, bound);
    }
}

/// What a key of the run screen acts on are modules, and no more of them than
/// rows.
pub proof fn scope_is_modules(a: AppView)
    requires
        a.can_run(),
    ensures
        a.are_modules(a.run_scope()),
        a.has_room(a.run_scope().len() as int),
        a.are_modules(a.highlighted()),
        a.has_room(a.highlighted().len() as int),
{
    match a.session {
        Some(s) => {
            chosen_are_modules(s.modules, s.selected, s.selected.len() as int, a.modules.len());
            let all = s.modules.map_values(|m: SessionModuleView| m.module_idx);
            assert forall|i: int| 0 <= i < all.len() implies #[trigger] all[i]
                < a.modules.len() by {
                assert(s.modules[i].module_idx < a.modules.len());
            }
        },
        None => {},
    }
}

impl App {
    /// Whether there are ids for all the tasks that a key may start.
    pub fn has_room_for_key(&self) -> (r: bool)
        ensures
            r == self@.has_room(self@.key_tasks() as int),
    {
        let targets = self.target_indices();
        let (rows, marked): (usize, usize) = match &self.session {
            Some(s) => (s.modules.len(), s.selected.len()),
            None => (0, 0),
        };
        let asked: usize = match &self.modal {
            Some(Modal::Confirm(c)) => c.targets.len(),
            _ => 0,
        };
        let count: usize = targets.len();
        let need: u128 = 1 + count as u128 + rows as u128 + marked as u128 + asked as u128;
        self.engine.next_task_id as u128 + need <= usize::MAX as u128
    }
}

} // verus!
