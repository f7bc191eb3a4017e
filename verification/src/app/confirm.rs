//! Confirmations, cancelling, clearing and resetting.

use crate::app::model::{App, AppView};
use crate::app::tasks::{
    cancelled_all, confirm_targets, lock_pairs, lock_views, newest_lock, over_count, pair_views,
    pending_ids, target_modules, target_of,
};
use crate::app::types::{
    target_views, ConfirmKind, ConfirmTarget, Modal, ModalView, PendingConfirm, Screen, TargetView,
};
use crate::discovery::module_view;
use crate::engine::EngineView;
use crate::engine_laws::active_only;
use crate::lock::{lock_view, parse_lock_from_output, LockInfo, LockView};
use crate::module::Module;
use crate::paths::same_path;
use crate::plan_cache::PlanEntry;
use crate::task::{task_views, Task, TaskStatus, TaskView};
use crate::text::{copy_strings, same, texts};
use vstd::prelude::*;

verus! {

/// Whether `t` made the plan that is cached for its module.
pub open spec fn made_cached_plan(e: EngineView, t: TaskView) -> bool {
    &&& e.plans.dom().contains(t.place())
    &&& t.command == "plan"@
    &&& t.status == TaskStatus::Success
    &&& t.plan_output == Some(e.plans[t.place()].handle)
    &&& t.id == e.plans[t.place()].task_id
}

impl App {
    /// The cached plan that `task` made: an apply of its module would use it.
    pub fn ready_plan_for_task(&self, task: &Task) -> (r: Option<&PlanEntry>)
        ensures
            match r {
                Some(p) => made_cached_plan(self@.engine, task@) && p@
                    == self@.engine.plans[task@.place()],
                None => !made_cached_plan(self@.engine, task@),
            },
    {
        match self.engine.plan_cache.get(task.module_dir.as_str()) {
            Some(plan) => if same(task.command.as_str(), "plan") && task.status
                == TaskStatus::Success && task.plan_output == Some(plan.handle) && plan.task_id
                == task.id {
                Some(plan)
            } else {
                None
            },
            None => None,
        }
    }

    /// The lock that the newest task of a module reports: of the tasks that are
    /// over and print a lock, the one that ended last.
    pub fn detect_lock_from_tasks(&self, dir: &str) -> (r: Option<LockInfo>)
        ensures
            lock_view(r) == (match newest_lock(
                self@.engine.tasks,
                dir@,
                self@.engine.tasks.len() as int,
            ) {
                Some((_, l)) => Some(l),
                None => None,
            }),
    {
        let ghost all = self@.engine.tasks;
        let mut best: Option<(Option<u64>, LockInfo)> = None;
        let mut n: usize = 0;
        while n < self.engine.tasks.len()
            invariant
                n <= self.engine.tasks@.len(),
                all == task_views(self.engine.tasks@),
                newest_lock(all, dir@, n as int) == (match best {
                    Some((at, l)) => Some((at, l@)),
                    None => None,
                }),
            decreases self.engine.tasks@.len() - n,
        {
            let t = &self.engine.tasks[n];
            assert(all[n as int] == t@);
            if same_path(t.module_dir.as_str(), dir) && t.status.is_terminal() {
                if let Some(lock) = parse_lock_from_output(t.output_lines.as_slice()) {
                    let earlier = match &best {
                        Some((at, _)) => match (t.finished_at, *at) {
                            (Some(x), Some(y)) => x < y,
                            (None, Some(_)) => true,
                            _ => false,
                        },
                        None => false,
                    };
                    if !earlier {
                        best = Some((t.finished_at, lock));
                    }
                }
            }
            n += 1;
        }
        match best {
            Some((_, l)) => Some(l),
            None => None,
        }
    }

    /// What a confirmation of `kind` shows of a module. `lock` is the lock that
    /// its lock file names. A module without a lock is left out of a
    /// force-unlock.
    pub fn annotate_confirm_target(
        &self,
        kind: ConfirmKind,
        idx: usize,
        m: &Module,
        lock: &Option<LockInfo>,
    ) -> (r: Option<ConfirmTarget>)
        ensures
            (match r {
                Some(t) => Some(t@),
                None => None,
            }) == target_of(self@.engine, kind, idx, module_view(*m), lock_view(*lock)),
    {
        let none: Vec<String> = Vec::new();
        assert(texts(none@) =~= Seq::<Seq<char>>::empty());
        match kind {
            ConfirmKind::Apply => {
                let (plan_age, plan_targets) = match self.engine.plan_cache.get(m.path.as_str()) {
                    Some(e) => (
                        Some(e.age_str(self.engine.clock)),
                        copy_strings(&e.targets),
                    ),
                    None => (None, none),
                };
                let t = ConfirmTarget {
                    module_idx: idx,
                    module_name: m.display_name.clone(),
                    plan_age,
                    plan_targets,
                    lock_id: None,
                    lock_who: None,
                };
                assert(Some(t@) == target_of(
                    self@.engine,
                    kind,
                    idx,
                    module_view(*m),
                    lock_view(*lock),
                ));
                Some(t)
            },
            ConfirmKind::Destroy | ConfirmKind::InitUpgrade => Some(
                ConfirmTarget {
                    module_idx: idx,
                    module_name: m.display_name.clone(),
                    plan_age: None,
                    plan_targets: none,
                    lock_id: None,
                    lock_who: None,
                },
            ),
            ConfirmKind::ForceUnlock => {
                let found = match lock {
                    Some(l) => Some((l.id.clone(), l.who.clone())),
                    None => match self.detect_lock_from_tasks(m.path.as_str()) {
                        Some(l) => Some((l.id, l.who)),
                        None => None,
                    },
                };
                match found {
                    Some((id, who)) => Some(
                        ConfirmTarget {
                            module_idx: idx,
                            module_name: m.display_name.clone(),
                            plan_age: None,
                            plan_targets: none,
                            lock_id: Some(id),
                            lock_who: Some(who),
                        },
                    ),
                    None => None,
                }
            },
        }
    }

    /// Asks to confirm `kind` for `targets`. What is no module, and what has
    /// nothing to unlock, is left out; where nothing is left, nothing is asked.
    pub fn stage_module_confirm(
        &mut self,
        kind: ConfirmKind,
        targets: &Vec<usize>,
        locks: &Vec<Option<LockInfo>>,
    )
        ensures
            final(self)@ == old(self)@.confirm_staged(kind, targets@, lock_views(locks@)),
    {
        let ghost before = self@;
        let ghost lv = lock_views(locks@);
        let mut shown: Vec<ConfirmTarget> = Vec::new();
        let mut n: usize = 0;
        assert(target_views(shown@) =~= Seq::<TargetView>::empty());
        while n < targets.len()
            invariant
                n <= targets@.len(),
                self@ == before,
                lv == lock_views(locks@),
                target_views(shown@) == confirm_targets(before, kind, targets@, lv, n as int),
            decreases targets@.len() - n,
        {
            let i = targets[n];
            if i < self.modules.len() {
                assert(before.modules[i as int] == module_view(self.modules@[i as int]));
                let unread: Option<LockInfo> = None;
                let lock = if n < locks.len() {
                    assert(lv[n as int] == lock_view(locks@[n as int]));
                    &locks[n]
                } else {
                    &unread
                };
                if let Some(t) = self.annotate_confirm_target(kind, i, &self.modules[i], lock) {
                    let ghost had = target_views(shown@);
                    let ghost view = t@;
                    shown.push(t);
                    assert(target_views(shown@) =~= had.push(view));
                }
            }
            n += 1;
        }
        if shown.len() > 0 {
            self.modal = Some(Modal::Confirm(PendingConfirm { kind, targets: shown }));
        }
        assert(self@ =~= before.confirm_staged(kind, targets@, lv));
    }

    /// Asks to confirm an apply.
    pub fn request_apply_confirm(&mut self, targets: &Vec<usize>)
        ensures
            final(self)@ == old(self)@.confirm_staged(ConfirmKind::Apply, targets@, Seq::empty()),
    {
        let none: Vec<Option<LockInfo>> = Vec::new();
        assert(lock_views(none@) =~= Seq::<Option<LockView>>::empty());
        self.stage_module_confirm(ConfirmKind::Apply, targets, &none);
    }

    /// Asks to confirm a destroy.
    pub fn request_destroy_confirm(&mut self, targets: &Vec<usize>)
        ensures
            final(self)@ == old(self)@.confirm_staged(ConfirmKind::Destroy, targets@, Seq::empty()),
    {
        let none: Vec<Option<LockInfo>> = Vec::new();
        assert(lock_views(none@) =~= Seq::<Option<LockView>>::empty());
        self.stage_module_confirm(ConfirmKind::Destroy, targets, &none);
    }

    /// Asks to confirm an `init -upgrade`.
    pub fn request_init_upgrade_confirm(&mut self, targets: &Vec<usize>)
        ensures
            final(self)@ == old(self)@.confirm_staged(
                ConfirmKind::InitUpgrade,
                targets@,
                Seq::empty(),
            ),
    {
        let none: Vec<Option<LockInfo>> = Vec::new();
        assert(lock_views(none@) =~= Seq::<Option<LockView>>::empty());
        self.stage_module_confirm(ConfirmKind::InitUpgrade, targets, &none);
    }

    /// Asks to confirm a force-unlock. `locks` holds what the lock files of
    /// `targets` say; where they say nothing, the output of recent tasks counts.
    pub fn request_force_unlock_confirm(
        &mut self,
        targets: &Vec<usize>,
        locks: &Vec<Option<LockInfo>>,
    )
        ensures
            final(self)@ == old(self)@.confirm_staged(
                ConfirmKind::ForceUnlock,
                targets@,
                lock_views(locks@),
            ),
    {
        self.stage_module_confirm(ConfirmKind::ForceUnlock, targets, locks);
    }

    /// Starts what was confirmed.
    pub fn confirm_execute(&mut self)
        requires
            old(self)@.can_confirm(),
        ensures
            final(self)@ == old(self)@.confirmed(),
    {
        let ghost before = self@;
        let taken = self.modal.take();
        match taken {
            Some(Modal::Confirm(confirm)) => {
                let ghost a = AppView { modal: None, ..before };
                let ghost tv = target_views(confirm.targets@);
                assert(self@ =~= a);
                let ghost ts = target_modules(tv);
                let mut indices: Vec<usize> = Vec::new();
                let mut pairs: Vec<(usize, String)> = Vec::new();
                let mut n: usize = 0;
                assert(pair_views(pairs@) =~= Seq::<(usize, Seq<char>)>::empty());
                while n < confirm.targets.len()
                    invariant
                        n <= confirm.targets@.len(),
                        self@ == a,
                        a.modules == before.modules,
                        tv == target_views(confirm.targets@),
                        ts == target_modules(tv),
                        before.are_modules(ts),
                        indices@ == ts.take(n as int),
                        pair_views(pairs@) == lock_pairs(tv, n as int),
                        pairs@.len() <= n,
                        forall|i: int|
                            0 <= i < pairs@.len() ==> (#[trigger] pairs@[i]).0
                                < before.modules.len(),
                    decreases confirm.targets@.len() - n,
                {
                    let t = &confirm.targets[n];
                    assert(tv[n as int] == t@);
                    assert(ts[n as int] == t.module_idx);
                    indices.push(t.module_idx);
                    if let Some(id) = &t.lock_id {
                        let pair = (t.module_idx, id.clone());
                        let ghost had = pair_views(pairs@);
                        let ghost view = (pair.0, pair.1@);
                        pairs.push(pair);
                        assert(pair_views(pairs@) =~= had.push(view));
                    }
                    n += 1;
                    assert(indices@ =~= ts.take(n as int));
                }
                assert(ts.take(n as int) =~= ts);
                let ids = match confirm.kind {
                    ConfirmKind::Apply => self.enqueue_apply_for(&indices),
                    ConfirmKind::Destroy => self.enqueue_destroy_for(&indices),
                    ConfirmKind::InitUpgrade => self.enqueue_init_upgrade_for(&indices),
                    ConfirmKind::ForceUnlock => self.enqueue_force_unlock_for(&pairs),
                };
                self.record_session_tasks(&ids);
            },
            other => {
                self.modal = other;
                assert(self@ =~= before);
            },
        }
    }

    /// Closes the overlay.
    pub fn cancel_confirm(&mut self)
        ensures
            final(self)@ == (AppView { modal: None, ..old(self)@ }),
    {
        let ghost before = self@;
        self.modal = None;
        assert(self@ =~= (AppView { modal: None, ..before }));
    }

    /// Cancels the tasks that were asked about.
    pub fn cancel_staged_tasks(&mut self)
        ensures
            final(self)@ == old(self)@.staged_cancelled(),
    {
        let ghost before = self@;
        let taken = self.modal.take();
        match taken {
            Some(Modal::CancelTasks(ids)) => {
                self.cancel_all(&ids);
            },
            _ => {},
        }
        assert(self@ =~= before.staged_cancelled());
    }

    fn cancel_all(&mut self, ids: &Vec<usize>)
        ensures
            final(self)@ == (AppView {
                engine: cancelled_all(old(self)@.engine, ids@, ids@.len() as int),
                ..old(self)@
            }),
    {
        let ghost before = self@;
        let mut n: usize = 0;
        while n < ids.len()
            invariant
                n <= ids@.len(),
                self@ == (AppView {
                    engine: cancelled_all(before.engine, ids@, n as int),
                    ..before
                }),
            decreases ids@.len() - n,
        {
            let ghost here = self@;
            self.engine.cancel_task(ids[n]);
            n += 1;
            assert(self@ =~= (AppView {
                engine: cancelled_all(before.engine, ids@, n as int),
                ..before
            }));
        }
    }

    /// The number of tasks that are over.
    pub fn completed_task_count(&self) -> (r: usize)
        ensures
            r == over_count(self@.engine.tasks, self@.engine.tasks.len() as int),
            r <= self.engine.tasks@.len(),
    {
        let ghost all = self@.engine.tasks;
        let mut count: usize = 0;
        let mut n: usize = 0;
        while n < self.engine.tasks.len()
            invariant
                n <= self.engine.tasks@.len(),
                count <= n,
                all == task_views(self.engine.tasks@),
                count == over_count(all, n as int),
            decreases self.engine.tasks@.len() - n,
        {
            assert(all[n as int] == self.engine.tasks@[n as int]@);
            if self.engine.tasks[n].status.is_terminal() {
                count = count + 1;
            }
            n += 1;
        }
        count
    }

    /// Asks whether the tasks that are over are to be cleared, if there are any.
    pub fn request_clear_tasks_confirm(&mut self)
        ensures
            final(self)@ == old(self)@.clear_requested(),
    {
        let ghost before = self@;
        if self.completed_task_count() > 0 {
            self.modal = Some(Modal::ClearTasks);
        }
        assert(self@ =~= before.clear_requested());
    }

    /// Forgets the tasks that are over. Active tasks stay: their events are
    /// still to come.
    pub fn clear_completed_tasks(&mut self)
        ensures
            final(self)@ == old(self)@.completed_cleared(),
    {
        let ghost before = self@;
        self.modal = None;
        self.keep_active();
        assert(self@ =~= before.completed_cleared());
    }

    fn keep_active(&mut self)
        ensures
            final(self)@ == (AppView {
                engine: EngineView {
                    tasks: active_only(old(self)@.engine.tasks),
                    ..old(self)@.engine
                },
                ..old(self)@
            }),
    {
        let ghost before = self@;
        let mut all: Vec<Task> = Vec::new();
        std::mem::swap(&mut self.engine.tasks, &mut all);
        self.engine.tasks = only_active(all);
        assert(self@ =~= (AppView {
            engine: EngineView { tasks: active_only(before.engine.tasks), ..before.engine },
            ..before
        }));
    }

    /// Asks whether the session is to be reset.
    pub fn request_reset_confirm(&mut self)
        ensures
            final(self)@ == (AppView { modal: Some(ModalView::Reset), ..old(self)@ }),
    {
        let ghost before = self@;
        self.modal = Some(Modal::Reset);
        assert(self@ =~= (AppView { modal: Some(ModalView::Reset), ..before }));
    }

    /// What a reset would clear: cached plans, waiting tasks, finished tasks.
    pub fn reset_summary(&self) -> (r: (usize, usize, usize))
        ensures
            self@.engine.plans.dom().finite(),
            r.0 == self@.engine.plans.dom().len(),
            r.1 == pending_ids(self@.engine.tasks, self@.engine.tasks.len() as int).len(),
            r.2 == over_count(self@.engine.tasks, self@.engine.tasks.len() as int),
    {
        let plans = self.engine.plan_cache.entry_count();
        let queued = self.pending_task_ids().len();
        (plans, queued, self.completed_task_count())
    }

    fn pending_task_ids(&self) -> (r: Vec<usize>)
        ensures
            r@ == pending_ids(self@.engine.tasks, self@.engine.tasks.len() as int),
    {
        let ghost all = self@.engine.tasks;
        let mut ids: Vec<usize> = Vec::new();
        let mut n: usize = 0;
        while n < self.engine.tasks.len()
            invariant
                n <= self.engine.tasks@.len(),
                all == task_views(self.engine.tasks@),
                ids@ == pending_ids(all, n as int),
            decreases self.engine.tasks@.len() - n,
        {
            assert(all[n as int] == self.engine.tasks@[n as int]@);
            if self.engine.tasks[n].status == TaskStatus::Pending {
                ids.push(self.engine.tasks[n].id);
            }
            n += 1;
        }
        ids
    }

    /// Starts over, but for what is executing: waiting tasks are cancelled,
    /// finished ones forgotten, cached plans dropped, selection, filter and
    /// session cleared, and every overlay closed.
    pub fn reset_session(&mut self)
        ensures
            final(self)@ == old(self)@.reset(),
    {
        let ghost before = self@;
        let ids = self.pending_task_ids();
        self.cancel_all(&ids);
        self.keep_active();
        self.engine.plan_cache.clear();
        self.multi_select = Vec::new();
        self.multi_select_anchor = None;
        self.filter = String::new();
        self.filter_active = false;
        self.max_depth = None;
        self.selected_module = 0;
        self.modal = None;
        self.state_explorer = None;
        self.session = None;
        self.screen = Screen::Select;
        assert(self@ =~= before.reset());
    }

    /// The tasks that are not over, by position.
    pub fn active_tasks(&self) -> (r: Vec<usize>)
        ensures
            r@ == active_positions(self@.engine.tasks, self@.engine.tasks.len() as int),
            r@.len() == active_only(self@.engine.tasks).len(),
    {
        let ghost all = self@.engine.tasks;
        let mut out: Vec<usize> = Vec::new();
        let mut n: usize = 0;
        while n < self.engine.tasks.len()
            invariant
                n <= self.engine.tasks@.len(),
                all == task_views(self.engine.tasks@),
                out@ == active_positions(all, n as int),
            decreases self.engine.tasks@.len() - n,
        {
            assert(all[n as int] == self.engine.tasks@[n as int]@);
            if !self.engine.tasks[n].status.is_terminal() {
                out.push(n);
            }
            n += 1;
        }
        proof {
            positions_count(all, all.len() as int);
            assert(all.take(all.len() as int) =~= all);
        }
        out
    }
}

/// The positions of those of the first `n` tasks that are not over.
pub open spec fn active_positions(tasks: Seq<TaskView>, n: int) -> Seq<usize>
    decreases n,
{
    if n <= 0 {
        Seq::empty()
    } else {
        let before = active_positions(tasks, n - 1);
        if tasks[n - 1].status.over() {
            before
        } else {
            before.push((n - 1) as usize)
        }
    }
}

proof fn positions_count(tasks: Seq<TaskView>, n: int)
    requires
        0 <= n <= tasks.len(),
    ensures
        active_positions(tasks, n).len() == active_only(tasks.take(n)).len(),
    decreases n,
{
    reveal(Seq::filter);
    if n > 0 {
        positions_count(tasks, n - 1);
        assert(tasks.take(n).drop_last() =~= tasks.take(n - 1));
    }
}

fn only_active(tasks: Vec<Task>) -> (r: Vec<Task>)
    ensures
        task_views(r@) == active_only(task_views(tasks@)),
{
    let ghost all = task_views(tasks@);
    let ghost keep = |t: TaskView| !t.status.over();
    let mut rest = tasks;
    let mut out: Vec<Task> = Vec::new();
    let ghost mut n: int = 0;
    assert(all.take(0).filter(keep) =~= Seq::<TaskView>::empty()) by {
        reveal(Seq::filter);
    }
    assert(task_views(out@) =~= Seq::<TaskView>::empty());
    while rest.len() > 0
        invariant
            0 <= n <= all.len(),
            keep == (|t: TaskView| !t.status.over()),
            task_views(rest@) == all.skip(n),
            task_views(out@) == all.take(n).filter(keep),
        decreases rest@.len(),
    {
        let ghost rest_views = task_views(rest@);
        assert(rest_views[0] == rest@[0]@);
        let t = rest.remove(0);
        let ghost view = t@;
        proof {
            assert(rest_views.len() == all.skip(n).len());
            assert(view == all[n]);
            assert(all.take(n + 1) =~= all.take(n).push(view));
            all.take(n).lemma_filter_push(view, keep);
        }
        let ghost had = task_views(out@);
        if !t.status.is_terminal() {
            out.push(t);
            assert(task_views(out@) =~= had.push(view));
        }
        proof {
            assert(task_views(rest@) =~= rest_views.skip(1));
            n = n + 1;
            assert(all.skip(n - 1).skip(1) =~= all.skip(n));
        }
    }
    proof {
        assert(task_views(rest@).len() == 0);
        assert(all.take(n) =~= all);
    }
    out
}

} // verus!
