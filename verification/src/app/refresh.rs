//! Taking over a new module list.

use crate::app::model::{App, AppView};
use crate::app::session::{
    last_place, last_place_of, listed, new_row, new_rows, remapped, roots_of, surviving,
};
use crate::app::types::{session_module_views, RunSession, Screen, SessionModule, SessionModuleView};
use crate::discovery::{module_view, module_views, ModuleView};
use crate::module::Module;
use crate::pathmap::PathMap;
use vstd::prelude::*;

verus! {

/// The latest tasks of the modules that are still there.
fn kept_latest(latest: &PathMap<usize>, modules: &Vec<Module>) -> (r: PathMap<usize>)
    ensures
        r@ == latest@.restrict(
            Set::new(
                |p: Seq<Seq<char>>|
                    last_place(module_views(modules@), p, modules@.len() as int) is Some,
            ),
        ),
{
    let ghost ms = module_views(modules@);
    let ghost stays = Set::new(|p: Seq<Seq<char>>| last_place(ms, p, modules@.len() as int) is Some);
    let mut out: PathMap<usize> = PathMap::new();
    let n: usize = latest.len();
    let mut i: usize = 0;
    while i < n
        invariant
            i <= n,
            n == latest.size(),
            i > 0 ==> latest.keys().len() == n,
            ms == module_views(modules@),
            stays == Set::new(|p: Seq<Seq<char>>| last_place(ms, p, modules@.len() as int) is Some),
            forall|p: Seq<Seq<char>>| #[trigger]
                out@.dom().contains(p) ==> latest@.dom().contains(p) && stays.contains(p) && out@[p]
                    == latest@[p],
            forall|j: int|
                0 <= j < i && stays.contains(#[trigger] latest.keys()[j]) ==> out@.dom().contains(
                    latest.keys()[j],
                ),
        decreases n - i,
    {
        let (path, id) = latest.entry(i);
        if last_place_of(modules, path).is_some() {
            out.insert(path.to_owned(), *id);
        }
        i += 1;
    }
    proof {
        use_type_invariant(latest);
        assert forall|p: Seq<Seq<char>>| latest@.dom().contains(p) && stays.contains(p) implies #[trigger] out@.dom().contains(
        p) by {
            latest.keys_are_the_domain(p);
            let j = choose|j: int| 0 <= j < latest.keys().len() && latest.keys()[j] == p;
            assert(stays.contains(latest.keys()[j]));
        }
        assert(out@ =~= latest@.restrict(stays));
    }
    out
}

proof fn surviving_grows(ms: Seq<SessionModuleView>, modules: Seq<ModuleView>, n: int)
    requires
        0 <= n < ms.len(),
    ensures
        surviving(ms, modules, n).len() <= surviving(ms, modules, n + 1).len(),
        last_place(modules, ms[n].place(), modules.len() as int) is Some ==> surviving(
            ms,
            modules,
            n,
        ).len() < surviving(ms, modules, n + 1).len(),
{
}

impl App {
    /// Finds the session's modules again after a refresh. Those that are gone
    /// leave the session; cursor, selection and latest tasks follow. Where none
    /// is left there is no session, and the run screen is left too.
    pub fn remap_session(&mut self)
        ensures
            final(self)@ == old(self)@.session_remapped(),
    {
        let ghost before = self@;
        let taken = self.session.take();
        let session = match taken {
            Some(s) => s,
            None => {
                assert(self@ =~= before.session_remapped());
                return ;
            },
        };
        let ghost ms = session_module_views(session.modules@);
        let ghost mods = before.modules;
        let mut kept: Vec<SessionModule> = Vec::new();
        let mut rows: Vec<Option<usize>> = Vec::new();
        let mut n: usize = 0;
        assert(session_module_views(kept@) =~= surviving(ms, mods, 0));
        while n < session.modules.len()
            invariant
                n <= session.modules@.len(),
                ms == session_module_views(session.modules@),
                mods == module_views(self.modules@),
                session_module_views(kept@) == surviving(ms, mods, n as int),
                rows@.len() == n,
                forall|i: int|
                    0 <= i < n ==> match #[trigger] rows@[i] {
                        Some(k) => new_row(ms, mods, i as usize) == Some(k as int),
                        None => new_row(ms, mods, i as usize) is None,
                    },
                (AppView { session: before.session, ..self@ }) == before,
            decreases session.modules@.len() - n,
        {
            assert(ms[n as int] == session.modules@[n as int]@);
            match last_place_of(&self.modules, session.modules[n].path.as_str()) {
                Some(i) => {
                    rows.push(Some(kept.len()));
                    let sm = SessionModule {
                        module_idx: i,
                        path: session.modules[n].path.clone(),
                        name: session.modules[n].name.clone(),
                    };
                    let ghost had = session_module_views(kept@);
                    let ghost view = sm@;
                    kept.push(sm);
                    assert(session_module_views(kept@) =~= had.push(view));
                },
                None => {
                    rows.push(None);
                },
            }
            n += 1;
        }
        if kept.len() == 0 {
            if self.screen == Screen::Run {
                self.screen = Screen::Select;
            }
            assert(self@ =~= before.session_remapped());
            return ;
        }
        let ghost sel = session.selected@;
        let mut selected: Vec<usize> = Vec::new();
        let mut m: usize = 0;
        while m < session.selected.len()
            invariant
                m <= session.selected@.len(),
                ms == session_module_views(session.modules@),
                sel == session.selected@,
                rows@.len() == session.modules@.len(),
                forall|i: int|
                    0 <= i < rows@.len() ==> match #[trigger] rows@[i] {
                        Some(k) => new_row(ms, mods, i as usize) == Some(k as int),
                        None => new_row(ms, mods, i as usize) is None,
                    },
                selected@ == new_rows(ms, mods, sel, m as int),
            decreases session.selected@.len() - m,
        {
            let old_row = session.selected[m];
            if old_row < rows.len() {
                assert(rows@[old_row as int] is Some || rows@[old_row as int] is None);
                if let Some(k) = rows[old_row] {
                    selected.push(k);
                }
            }
            m += 1;
        }
        let cursor: usize = if session.cursor < rows.len() {
            assert(rows@[session.cursor as int] is Some || rows@[session.cursor as int] is None);
            match rows[session.cursor] {
                Some(k) => k,
                None => 0,
            }
        } else {
            0
        };
        let latest_task = kept_latest(&session.latest_task, &self.modules);
        let ghost sv = session@;
        let next = RunSession {
            modules: kept,
            cursor,
            selected,
            select_anchor: None,
            latest_task,
            fullscreen: session.fullscreen,
            output_scroll: session.output_scroll,
            output_wrap: session.output_wrap,
            selection: session.selection,
            pending_sel: session.pending_sel,
            created_at: session.created_at,
        };
        assert(next@ =~= remapped(sv, mods));
        self.session = Some(next);
        assert(self@ =~= before.session_remapped());
    }

    /// Takes over the modules that a new search found: the root modules, and
    /// library modules where they are shown. Nothing stays selected, the cursor
    /// stays within the visible list, and the session follows its modules.
    pub fn refresh_modules(&mut self, found: Vec<Module>)
        ensures
            final(self)@ == old(self)@.modules_refreshed(module_views(found@)),
    {
        let ghost before = self@;
        let ghost all = module_views(found@);
        let modules = if self.config.show_library_modules {
            found
        } else {
            root_modules(&found)
        };
        self.modules = modules;
        self.multi_select = Vec::new();
        let ghost mid = AppView {
            modules: listed(all, before.config.show_library_modules),
            multi_select: Seq::empty(),
            ..before
        };
        assert(self@ =~= mid);
        let count = self.visible_module_indices().len();
        if count == 0 {
            self.selected_module = 0;
        } else if self.selected_module >= count {
            self.selected_module = count - 1;
        }
        self.remap_session();
    }
}

/// The root modules of those found.
fn root_modules(found: &Vec<Module>) -> (r: Vec<Module>)
    ensures
        module_views(r@) == roots_of(module_views(found@), found@.len() as int),
{
    let ghost all = module_views(found@);
    let mut modules: Vec<Module> = Vec::new();
    let mut n: usize = 0;
    assert(module_views(modules@) =~= roots_of(all, 0));
    while n < found.len()
        invariant
            n <= found@.len(),
            all == module_views(found@),
            module_views(modules@) == roots_of(all, n as int),
        decreases found@.len() - n,
    {
        assert(all[n as int] == module_view(found@[n as int]));
        if found[n].is_root() {
            let m = found[n].clone();
            let ghost had = module_views(modules@);
            let ghost view = module_view(m);
            modules.push(m);
            assert(module_views(modules@) =~= had.push(view));
        }
        n += 1;
    }
    modules
}

/// After a refresh the cursor stays within the visible list, and every module
/// index of the session is a module with that path.
pub proof fn refresh_keeps_places(a: AppView, found: Seq<ModuleView>)
    requires
        found.len() <= usize::MAX,
    ensures
        ({
            let r = a.modules_refreshed(found);
            &&& r.visible().len() == 0 ==> r.selected_module == 0
            &&& r.visible().len() > 0 ==> r.selected_module < r.visible().len()
            &&& r.multi_select.len() == 0
            &&& r.session is Some ==> forall|i: int|
                0 <= i < (r.session->0).modules.len() ==> {
                    let m = #[trigger] (r.session->0).modules[i];
                    m.module_idx < r.modules.len() && r.modules[m.module_idx as int].place() == m.place()
                }
            &&& r.session is Some ==> (r.session->0).cursor < (r.session->0).modules.len()
            &&& r.session is None && a.screen == Screen::Run && a.session is Some ==> r.screen
                == Screen::Select
        }),
{
    let r = a.modules_refreshed(found);
    let mods = listed(found, a.config.show_library_modules);
    roots_are_fewer(found, found.len() as int);
    if a.session is Some {
        let s = a.session->0;
        let n = s.modules.len() as int;
        surviving_are_modules(s.modules, mods, n);
        if s.cursor < n {
            surviving_monotone(s.modules, mods, s.cursor as int + 1, n);
            surviving_grows(s.modules, mods, s.cursor as int);
            surviving_are_modules(s.modules, mods, s.cursor as int);
        }
    }
}

proof fn roots_are_fewer(ms: Seq<ModuleView>, n: int)
    requires
        0 <= n <= ms.len(),
    ensures
        roots_of(ms, n).len() <= n,
    decreases n,
{
    if n > 0 {
        roots_are_fewer(ms, n - 1);
    }
}

proof fn last_place_has_path(modules: Seq<ModuleView>, path: Seq<Seq<char>>, n: int)
    requires
        0 <= n <= modules.len(),
    ensures
        match last_place(modules, path, n) {
            Some(i) => 0 <= i < n && modules[i].place() == path,
            None => true,
        },
    decreases n,
{
    if n > 0 {
        last_place_has_path(modules, path, n - 1);
    }
}

proof fn surviving_are_modules(ms: Seq<SessionModuleView>, modules: Seq<ModuleView>, n: int)
    requires
        0 <= n <= ms.len(),
        modules.len() <= usize::MAX,
    ensures
        surviving(ms, modules, n).len() <= n,
        forall|i: int|
            0 <= i < surviving(ms, modules, n).len() ==> {
                let m = #[trigger] surviving(ms, modules, n)[i];
                m.module_idx < modules.len() && modules[m.module_idx as int].place() == m.place()
            },
    decreases n,
{
    if n > 0 {
        surviving_are_modules(ms, modules, n - 1);
        last_place_has_path(modules, ms[n - 1].place(), modules.len() as int);
    }
}

proof fn surviving_monotone(ms: Seq<SessionModuleView>, modules: Seq<ModuleView>, i: int, n: int)
    requires
        0 <= i <= n <= ms.len(),
    ensures
        surviving(ms, modules, i).len() <= surviving(ms, modules, n).len(),
    decreases n - i,
{
    if i < n {
        surviving_monotone(ms, modules, i, n - 1);
    }
}

} // verus!
