//! Starting tasks, asking for confirmation, and clearing up.

use crate::app::model::{App, AppView};
use crate::app::types::{ConfirmKind, ModalView, Screen, TargetView};
use crate::discovery::{module_view, ModuleView};
use crate::engine::{after_cancel, after_push, free_plan, EngineView, SpecView, TaskSpec};
use crate::engine_laws::active_only;
use crate::lock::{lock_of, lock_view, LockInfo, LockView};
use crate::paths::components;
use crate::plan_cache::{age_text, seconds_between, PlanHandle};
use crate::task::{TaskStatus, TaskView};
use crate::text::{copy_strings, texts};
use vstd::prelude::*;

verus! {

/// The ids of `n` tasks that are pushed one after the other.
pub open spec fn id_run(first: usize, n: int) -> Seq<usize> {
    Seq::new(n as nat, |i: int| (first + i) as usize)
}

/// The arguments of a plan that is written to `plan`, for `addrs` only.
pub open spec fn plan_args(plan: PlanHandle, addrs: Seq<Seq<char>>) -> Seq<Seq<char>> {
    seq!["-out"@, PlanHandle::path_of(plan.fd)] + target_flags(addrs)
}

/// One target flag per address.
pub open spec fn target_flags(addrs: Seq<Seq<char>>) -> Seq<Seq<char>> {
    addrs.map_values(|a: Seq<char>| "-target="@ + a)
}

/// The newest lock that the tasks of `dir` report, among the first `n` tasks:
/// of those that are over, the one that ended last.
pub open spec fn newest_lock(tasks: Seq<TaskView>, dir: Seq<char>, n: int) -> Option<
    (Option<u64>, LockView),
>
    decreases n,
{
    if n <= 0 {
        None
    } else {
        let before = newest_lock(tasks, dir, n - 1);
        let t = tasks[n - 1];
        if t.place() == components(dir) && t.status.over() && lock_of(t.output_lines) is Some {
            let found = Some((t.finished_at, lock_of(t.output_lines)->0));
            match before {
                Some((at, _)) => if ended_before(t.finished_at, at) {
                    before
                } else {
                    found
                },
                None => found,
            }
        } else {
            before
        }
    }
}

/// Whether `a` comes before `b`; no time comes first.
pub open spec fn ended_before(a: Option<u64>, b: Option<u64>) -> bool {
    match (a, b) {
        (Some(x), Some(y)) => x < y,
        (None, Some(_)) => true,
        _ => false,
    }
}

/// What a confirmation of `kind` shows of a module; none where the module is
/// left out of it.
pub open spec fn target_of(
    e: EngineView,
    kind: ConfirmKind,
    idx: usize,
    m: ModuleView,
    lock: Option<LockView>,
) -> Option<TargetView> {
    let bare = TargetView {
        module_idx: idx,
        module_name: m.name,
        plan_age: None,
        plan_targets: Seq::empty(),
        lock_id: None,
        lock_who: None,
    };
    match kind {
        ConfirmKind::Apply => Some(
            if e.plans.dom().contains(m.place()) {
                TargetView {
                    plan_age: Some(
                        age_text(seconds_between(e.plans[m.place()].created_at, e.clock)),
                    ),
                    plan_targets: e.plans[m.place()].targets,
                    ..bare
                }
            } else {
                bare
            },
        ),
        ConfirmKind::Destroy | ConfirmKind::InitUpgrade => Some(bare),
        ConfirmKind::ForceUnlock => {
            let found = match lock {
                Some(l) => Some(l),
                None => match newest_lock(e.tasks, m.path, e.tasks.len() as int) {
                    Some((_, l)) => Some(l),
                    None => None,
                },
            };
            match found {
                Some(l) => Some(
                    TargetView { lock_id: Some(l.id), lock_who: Some(l.who), ..bare },
                ),
                None => None,
            }
        },
    }
}

/// The locks that were read, as text.
pub open spec fn lock_views(v: Seq<Option<LockInfo>>) -> Seq<Option<LockView>> {
    v.map_values(|l: Option<LockInfo>| lock_view(l))
}

/// The `i`-th lock; none where none was read.
pub open spec fn lock_at(locks: Seq<Option<LockView>>, i: int) -> Option<LockView> {
    if i < locks.len() {
        locks[i]
    } else {
        None
    }
}

/// What a confirmation of `kind` shows of the first `n` targets.
pub open spec fn confirm_targets(
    a: AppView,
    kind: ConfirmKind,
    targets: Seq<usize>,
    locks: Seq<Option<LockView>>,
    n: int,
) -> Seq<TargetView>
    decreases n,
{
    if n <= 0 {
        Seq::empty()
    } else {
        let before = confirm_targets(a, kind, targets, locks, n - 1);
        let i = targets[n - 1];
        if i < a.modules.len() {
            match target_of(a.engine, kind, i, a.modules[i as int], lock_at(locks, n - 1)) {
                Some(t) => before.push(t),
                None => before,
            }
        } else {
            before
        }
    }
}

/// How many of the first `n` tasks are over.
pub open spec fn over_count(tasks: Seq<TaskView>, n: int) -> nat
    decreases n,
{
    if n <= 0 {
        0
    } else {
        over_count(tasks, n - 1) + if tasks[n - 1].status.over() {
            1nat
        } else {
            0
        }
    }
}

/// The ids of the pending ones among the first `n` tasks.
pub open spec fn pending_ids(tasks: Seq<TaskView>, n: int) -> Seq<usize>
    decreases n,
{
    if n <= 0 {
        Seq::empty()
    } else {
        let before = pending_ids(tasks, n - 1);
        if tasks[n - 1].status == TaskStatus::Pending {
            before.push(tasks[n - 1].id)
        } else {
            before
        }
    }
}

/// The engine after the first `n` ids were cancelled.
pub open spec fn cancelled_all(e: EngineView, ids: Seq<usize>, n: int) -> EngineView
    decreases n,
{
    if n <= 0 {
        e
    } else {
        after_cancel(cancelled_all(e, ids, n - 1), ids[n - 1])
    }
}

impl AppView {
    /// The application once a task was pushed for a module.
    pub open spec fn pushed(
        self,
        idx: int,
        command: Seq<char>,
        args: Seq<Seq<char>>,
        plan_output: Option<PlanHandle>,
        targets: Seq<Seq<char>>,
        apply_plan: Option<PlanHandle>,
    ) -> AppView {
        AppView {
            engine: after_push(
                self.engine,
                SpecView {
                    module_dir: self.modules[idx].path,
                    module_name: self.modules[idx].name,
                    command,
                    args,
                    plan_output,
                    targets,
                    apply_plan,
                },
            ),
            ..self
        }
    }

    /// The application once a plan was pushed for a module, restricted to
    /// `addrs` where there are any. The plan is kept for a later apply: it is
    /// written to a file that nothing else uses.
    pub open spec fn plan_pushed(self, idx: int, addrs: Seq<Seq<char>>) -> AppView {
        let plan = free_plan(self.engine);
        self.pushed(idx, "plan"@, plan_args(plan, addrs), Some(plan), addrs, None)
    }

    pub open spec fn plans_pushed(self, targets: Seq<usize>, n: int) -> AppView
        decreases n,
    {
        if n <= 0 {
            self
        } else {
            self.plans_pushed(targets, n - 1).plan_pushed(targets[n - 1] as int, Seq::empty())
        }
    }

    pub open spec fn commands_pushed(
        self,
        command: Seq<char>,
        args: Seq<Seq<char>>,
        targets: Seq<usize>,
        n: int,
    ) -> AppView
        decreases n,
    {
        if n <= 0 {
            self
        } else {
            self.commands_pushed(command, args, targets, n - 1).pushed(
                targets[n - 1] as int,
                command,
                args,
                None,
                Seq::empty(),
                None,
            )
        }
    }

    /// The application once an apply was pushed for a module: of its cached
    /// plan, which leaves the cache, or of everything.
    pub open spec fn apply_pushed(self, idx: int) -> AppView {
        let dir = self.modules[idx].place();
        if self.engine.plans.dom().contains(dir) {
            let h = self.engine.plans[dir].handle;
            let taken = AppView {
                engine: EngineView { plans: self.engine.plans.remove(dir), ..self.engine },
                ..self
            };
            taken.pushed(
                idx,
                "apply"@,
                seq![PlanHandle::path_of(h.fd)],
                None,
                Seq::empty(),
                Some(h),
            )
        } else {
            self.pushed(idx, "apply"@, seq!["-auto-approve"@], None, Seq::empty(), None)
        }
    }

    pub open spec fn applies_pushed(self, targets: Seq<usize>, n: int) -> AppView
        decreases n,
    {
        if n <= 0 {
            self
        } else {
            self.applies_pushed(targets, n - 1).apply_pushed(targets[n - 1] as int)
        }
    }

    pub open spec fn unlocks_pushed(self, pairs: Seq<(usize, Seq<char>)>, n: int) -> AppView
        decreases n,
    {
        if n <= 0 {
            self
        } else {
            self.unlocks_pushed(pairs, n - 1).pushed(
                pairs[n - 1].0 as int,
                "force-unlock"@,
                seq!["-force"@, pairs[n - 1].1],
                None,
                Seq::empty(),
                None,
            )
        }
    }

    /// Whether `n` more tasks can be pushed.
    pub open spec fn has_room(self, n: int) -> bool {
        self.engine.next_id + n <= usize::MAX
    }

    /// Whether all of these are modules.
    pub open spec fn are_modules(self, targets: Seq<usize>) -> bool {
        forall|i: int| 0 <= i < targets.len() ==> #[trigger] targets[i] < self.modules.len()
    }

    pub open spec fn confirm_staged(
        self,
        kind: ConfirmKind,
        targets: Seq<usize>,
        locks: Seq<Option<LockView>>,
    ) -> AppView {
        let shown = confirm_targets(self, kind, targets, locks, targets.len() as int);
        if shown.len() == 0 {
            self
        } else {
            AppView { modal: Some(ModalView::Confirm { kind, targets: shown }), ..self }
        }
    }
}

/// The module indices of targets.
pub open spec fn target_modules(ts: Seq<TargetView>) -> Seq<usize> {
    ts.map_values(|t: TargetView| t.module_idx)
}

/// The modules and locks of the first `n` targets that have a lock.
pub open spec fn lock_pairs(ts: Seq<TargetView>, n: int) -> Seq<(usize, Seq<char>)>
    decreases n,
{
    if n <= 0 {
        Seq::empty()
    } else {
        let before = lock_pairs(ts, n - 1);
        match ts[n - 1].lock_id {
            Some(id) => before.push((ts[n - 1].module_idx, id)),
            None => before,
        }
    }
}

impl AppView {
    /// The application once what was confirmed has been started.
    pub open spec fn confirmed(self) -> AppView {
        match self.modal {
            Some(ModalView::Confirm { kind, targets }) => {
                let a = AppView { modal: None, ..self };
                let ts = target_modules(targets);
                let n = ts.len() as int;
                let pairs = lock_pairs(targets, targets.len() as int);
                let b = match kind {
                    ConfirmKind::Apply => a.applies_pushed(ts, n),
                    ConfirmKind::Destroy => a.commands_pushed(
                        "destroy"@,
                        seq!["-auto-approve"@],
                        ts,
                        n,
                    ),
                    ConfirmKind::InitUpgrade => a.commands_pushed(
                        "init"@,
                        seq!["-upgrade"@],
                        ts,
                        n,
                    ),
                    ConfirmKind::ForceUnlock => a.unlocks_pushed(pairs, pairs.len() as int),
                };
                b.tasks_recorded(
                    id_run(
                        self.engine.next_id,
                        if kind == ConfirmKind::ForceUnlock {
                            pairs.len() as int
                        } else {
                            n
                        },
                    ),
                )
            },
            _ => self,
        }
    }

    /// Whether what waits for confirmation can be started.
    pub open spec fn can_confirm(self) -> bool {
        match self.modal {
            Some(ModalView::Confirm { kind, targets }) => self.has_room(targets.len() as int)
                && self.are_modules(target_modules(targets)),
            _ => true,
        }
    }

    pub open spec fn staged_cancelled(self) -> AppView {
        match self.modal {
            Some(ModalView::CancelTasks(ids)) => AppView {
                modal: None,
                engine: cancelled_all(self.engine, ids, ids.len() as int),
                ..self
            },
            _ => AppView { modal: None, ..self },
        }
    }

    pub open spec fn completed_cleared(self) -> AppView {
        AppView {
            modal: None,
            engine: EngineView { tasks: active_only(self.engine.tasks), ..self.engine },
            ..self
        }
    }

    pub open spec fn clear_requested(self) -> AppView {
        if over_count(self.engine.tasks, self.engine.tasks.len() as int) > 0 {
            AppView { modal: Some(ModalView::ClearTasks), ..self }
        } else {
            self
        }
    }

    /// The application after a reset: only what is executing is kept.
    pub open spec fn reset(self) -> AppView {
        let ids = pending_ids(self.engine.tasks, self.engine.tasks.len() as int);
        let e = cancelled_all(self.engine, ids, ids.len() as int);
        AppView {
            engine: EngineView { tasks: active_only(e.tasks), plans: Map::empty(), ..e },
            multi_select: Seq::empty(),
            multi_select_anchor: None,
            filter: Seq::empty(),
            filter_active: false,
            max_depth: None,
            selected_module: 0,
            modal: None,
            explorer: None,
            session: None,
            screen: Screen::Select,
            ..self
        }
    }
}

impl App {
    /// Pushes a task for a module, and returns its id.
    pub fn push_task_for(
        &mut self,
        module_idx: usize,
        command: &str,
        args: Vec<String>,
        plan_output: Option<PlanHandle>,
        targets: Vec<String>,
        apply_plan: Option<PlanHandle>,
    ) -> (r: usize)
        requires
            module_idx < old(self)@.modules.len(),
            old(self)@.has_room(1),
        ensures
            final(self)@ == old(self)@.pushed(
                module_idx as int,
                command@,
                texts(args@),
                plan_output,
                texts(targets@),
                apply_plan,
            ),
            r == old(self)@.engine.next_id,
            final(self)@.engine.next_id == old(self)@.engine.next_id + 1,
    {
        let ghost before = self@;
        assert(before.modules[module_idx as int] == module_view(self.modules@[module_idx as int]));
        let spec = TaskSpec {
            module_dir: self.modules[module_idx].path.clone(),
            module_name: self.modules[module_idx].display_name.clone(),
            command: command.to_owned(),
            args,
            plan_output,
            targets,
            apply_plan,
        };
        let ghost sv = spec@;
        let id = self.engine.push_task(spec);
        assert(self@ =~= (AppView { engine: after_push(before.engine, sv), ..before }));
        id
    }

    /// Pushes a plan for a module, restricted to `addrs` where there are any.
    pub fn push_plan_for(&mut self, module_idx: usize, addrs: &Vec<String>) -> (r: usize)
        requires
            module_idx < old(self)@.modules.len(),
            old(self)@.has_room(1),
        ensures
            final(self)@ == old(self)@.plan_pushed(module_idx as int, texts(addrs@)),
            r == old(self)@.engine.next_id,
            final(self)@.engine.next_id == old(self)@.engine.next_id + 1,
    {
        let ghost before = self@;
        let ghost av = texts(addrs@);
        let plan = self.engine.new_plan();
        let mut args: Vec<String> = Vec::new();
        args.push("-out".to_owned());
        args.push(plan.dev_fd_path());
        let ghost lead = plan_args(plan, Seq::empty());
        assert(texts(args@) =~= lead);
        push_target_flags(&mut args, addrs);
        assert(texts(args@) =~= plan_args(plan, av));
        self.push_task_for(module_idx, "plan", args, Some(plan), copy_strings(addrs), None)
    }

    /// Plans the modules `targets`. Each plan is written to a file of its own,
    /// for a later apply. Returns the ids of the tasks.
    pub fn enqueue_plan(&mut self, targets: &Vec<usize>) -> (r: Vec<usize>)
        requires
            old(self)@.are_modules(targets@),
            old(self)@.has_room(targets@.len() as int),
        ensures
            final(self)@ == old(self)@.plans_pushed(targets@, targets@.len() as int),
            r@ == id_run(old(self)@.engine.next_id, targets@.len() as int),
    {
        let ghost before = self@;
        let none: Vec<String> = Vec::new();
        assert(texts(none@) =~= Seq::<Seq<char>>::empty());
        let mut ids: Vec<usize> = Vec::new();
        let mut n: usize = 0;
        assert(ids@ =~= id_run(before.engine.next_id, 0));
        while n < targets.len()
            invariant
                n <= targets@.len(),
                before.are_modules(targets@),
                before.has_room(targets@.len() as int),
                texts(none@) == Seq::<Seq<char>>::empty(),
                self@ == before.plans_pushed(targets@, n as int),
                self@.modules == before.modules,
                self@.engine.next_id == before.engine.next_id + n,
                ids@ == id_run(before.engine.next_id, n as int),
            decreases targets@.len() - n,
        {
            let id = self.push_plan_for(targets[n], &none);
            ids.push(id);
            n += 1;
            assert(ids@ =~= id_run(before.engine.next_id, n as int));
        }
        ids
    }

    /// Runs a command on the modules `targets`. Returns the ids of the tasks.
    pub fn enqueue_command(
        &mut self,
        command: &str,
        extra_args: &Vec<String>,
        targets: &Vec<usize>,
    ) -> (r: Vec<usize>)
        requires
            old(self)@.are_modules(targets@),
            old(self)@.has_room(targets@.len() as int),
        ensures
            final(self)@ == old(self)@.commands_pushed(
                command@,
                texts(extra_args@),
                targets@,
                targets@.len() as int,
            ),
            r@ == id_run(old(self)@.engine.next_id, targets@.len() as int),
    {
        let ghost before = self@;
        let ghost args = texts(extra_args@);
        let mut ids: Vec<usize> = Vec::new();
        let mut n: usize = 0;
        assert(ids@ =~= id_run(before.engine.next_id, 0));
        while n < targets.len()
            invariant
                n <= targets@.len(),
                before.are_modules(targets@),
                before.has_room(targets@.len() as int),
                args == texts(extra_args@),
                self@ == before.commands_pushed(command@, args, targets@, n as int),
                self@.modules == before.modules,
                self@.engine.next_id == before.engine.next_id + n,
                ids@ == id_run(before.engine.next_id, n as int),
            decreases targets@.len() - n,
        {
            let none: Vec<String> = Vec::new();
            assert(texts(none@) =~= Seq::<Seq<char>>::empty());
            let id = self.push_task_for(
                targets[n],
                command,
                copy_strings(extra_args),
                None,
                none,
                None,
            );
            ids.push(id);
            n += 1;
            assert(ids@ =~= id_run(before.engine.next_id, n as int));
        }
        ids
    }

    /// Applies the modules `targets`: the cached plan where there is one, which
    /// then leaves the cache, else everything. Returns the ids of the tasks.
    pub fn enqueue_apply_for(&mut self, targets: &Vec<usize>) -> (r: Vec<usize>)
        requires
            old(self)@.are_modules(targets@),
            old(self)@.has_room(targets@.len() as int),
        ensures
            final(self)@ == old(self)@.applies_pushed(targets@, targets@.len() as int),
            r@ == id_run(old(self)@.engine.next_id, targets@.len() as int),
    {
        let ghost before = self@;
        let mut ids: Vec<usize> = Vec::new();
        let mut n: usize = 0;
        assert(ids@ =~= id_run(before.engine.next_id, 0));
        while n < targets.len()
            invariant
                n <= targets@.len(),
                before.are_modules(targets@),
                before.has_room(targets@.len() as int),
                self@ == before.applies_pushed(targets@, n as int),
                self@.modules == before.modules,
                self@.engine.next_id == before.engine.next_id + n,
                ids@ == id_run(before.engine.next_id, n as int),
            decreases targets@.len() - n,
        {
            let idx = targets[n];
            let ghost here = self@;
            assert(here.modules[idx as int] == module_view(self.modules@[idx as int]));
            let mut args: Vec<String> = Vec::new();
            let plan = self.engine.plan_cache.take(self.modules[idx].path.as_str());
            proof {
                let dir = here.modules[idx as int].place();
                assert(self@ =~= (AppView {
                    engine: EngineView { plans: here.engine.plans.remove(dir), ..here.engine },
                    ..here
                }));
                if plan is None {
                    assert(here.engine.plans.remove(dir) =~= here.engine.plans);
                    assert(self@ =~= here);
                }
            }
            match plan {
                Some(h) => {
                    args.push(h.dev_fd_path());
                    assert(texts(args@) =~= seq![PlanHandle::path_of(h.fd)]);
                },
                None => {
                    args.push("-auto-approve".to_owned());
                    assert(texts(args@) =~= seq!["-auto-approve"@]);
                },
            }
            let none: Vec<String> = Vec::new();
            assert(texts(none@) =~= Seq::<Seq<char>>::empty());
            let id = self.push_task_for(idx, "apply", args, None, none, plan);
            ids.push(id);
            n += 1;
            assert(ids@ =~= id_run(before.engine.next_id, n as int));
        }
        ids
    }

    /// Destroys the modules `targets`. Returns the ids of the tasks.
    pub fn enqueue_destroy_for(&mut self, targets: &Vec<usize>) -> (r: Vec<usize>)
        requires
            old(self)@.are_modules(targets@),
            old(self)@.has_room(targets@.len() as int),
        ensures
            final(self)@ == old(self)@.commands_pushed(
                "destroy"@,
                seq!["-auto-approve"@],
                targets@,
                targets@.len() as int,
            ),
            r@ == id_run(old(self)@.engine.next_id, targets@.len() as int),
    {
        let mut args: Vec<String> = Vec::new();
        args.push("-auto-approve".to_owned());
        assert(texts(args@) =~= seq!["-auto-approve"@]);
        self.enqueue_command("destroy", &args, targets)
    }

    /// Runs `init -upgrade` on the modules `targets`. Returns the ids of the
    /// tasks.
    pub fn enqueue_init_upgrade_for(&mut self, targets: &Vec<usize>) -> (r: Vec<usize>)
        requires
            old(self)@.are_modules(targets@),
            old(self)@.has_room(targets@.len() as int),
        ensures
            final(self)@ == old(self)@.commands_pushed(
                "init"@,
                seq!["-upgrade"@],
                targets@,
                targets@.len() as int,
            ),
            r@ == id_run(old(self)@.engine.next_id, targets@.len() as int),
    {
        let mut args: Vec<String> = Vec::new();
        args.push("-upgrade".to_owned());
        assert(texts(args@) =~= seq!["-upgrade"@]);
        self.enqueue_command("init", &args, targets)
    }

    /// Releases locks: one `force-unlock` per module and lock. Returns the ids
    /// of the tasks.
    pub fn enqueue_force_unlock_for(&mut self, pairs: &Vec<(usize, String)>) -> (r: Vec<usize>)
        requires
            forall|i: int|
                0 <= i < pairs@.len() ==> (#[trigger] pairs@[i]).0 < old(self)@.modules.len(),
            old(self)@.has_room(pairs@.len() as int),
        ensures
            final(self)@ == old(self)@.unlocks_pushed(pair_views(pairs@), pairs@.len() as int),
            r@ == id_run(old(self)@.engine.next_id, pairs@.len() as int),
    {
        let ghost before = self@;
        let ghost pv = pair_views(pairs@);
        let mut ids: Vec<usize> = Vec::new();
        let mut n: usize = 0;
        assert(ids@ =~= id_run(before.engine.next_id, 0));
        while n < pairs.len()
            invariant
                n <= pairs@.len(),
                pv == pair_views(pairs@),
                forall|i: int|
                    0 <= i < pairs@.len() ==> (#[trigger] pairs@[i]).0 < before.modules.len(),
                before.has_room(pairs@.len() as int),
                self@ == before.unlocks_pushed(pv, n as int),
                self@.modules == before.modules,
                self@.engine.next_id == before.engine.next_id + n,
                ids@ == id_run(before.engine.next_id, n as int),
            decreases pairs@.len() - n,
        {
            assert(pv[n as int] == (pairs@[n as int].0, pairs@[n as int].1@));
            let mut args: Vec<String> = Vec::new();
            args.push("-force".to_owned());
            args.push(pairs[n].1.clone());
            assert(texts(args@) =~= seq!["-force"@, pv[n as int].1]);
            let none: Vec<String> = Vec::new();
            assert(texts(none@) =~= Seq::<Seq<char>>::empty());
            let id = self.push_task_for(pairs[n].0, "force-unlock", args, None, none, None);
            ids.push(id);
            n += 1;
            assert(ids@ =~= id_run(before.engine.next_id, n as int));
        }
        ids
    }
}

/// Modules and locks as text.
pub open spec fn pair_views(v: Seq<(usize, String)>) -> Seq<(usize, Seq<char>)> {
    v.map_values(|p: (usize, String)| (p.0, p.1@))
}

/// Appends one target flag per address.
pub fn push_target_flags(args: &mut Vec<String>, addrs: &Vec<String>)
    ensures
        texts(final(args)@) == texts(old(args)@) + target_flags(texts(addrs@)),
{
    broadcast use crate::text::texts_push;

    let ghost lead = texts(args@);
    let ghost flags = target_flags(texts(addrs@));
    let mut n: usize = 0;
    assert(lead + flags.take(0) =~= lead);
    while n < addrs.len()
        invariant
            n <= addrs@.len(),
            flags == target_flags(texts(addrs@)),
            texts(args@) == lead + flags.take(n as int),
        decreases addrs@.len() - n,
    {
        let flag = crate::text::concat("-target=", addrs[n].as_str());
        assert(texts(addrs@)[n as int] == addrs@[n as int]@);
        assert(flags[n as int] == flag@);
        assert(lead + flags.take(n + 1) =~= (lead + flags.take(n as int)).push(flag@));
        args.push(flag);
        n += 1;
    }
    assert(flags.take(n as int) =~= flags);
}

} // verus!
