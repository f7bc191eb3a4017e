//! Task execution: the task list, the plan cache, and what keeps at most one
//! task running, and at most one more waiting, per module directory.
//!
//! The engine decides; a host performs. What has to be done outside stands in
//! the outbox, and what happened there comes back as task events.

use crate::pathmap::PathMap;
use crate::paths::components;
use crate::plan_cache::{PlanCache, PlanHandle, PlanUse, PlanView, FIRST_PLAN};
use crate::task::{
    clean_line, parse_counts_from_line, summary_of, task_views, Task, TaskEvent, TaskStatus,
    TaskView,
};
use crate::text::{copy_strings, same, texts, texts_push};
use vstd::prelude::*;

verus! {

/// Something for the host to do.
#[derive(Debug)]
pub enum Action {
    /// Run a task's command, with a plan that it writes or reads, if any.
    Spawn {
        task_id: usize,
        module_dir: String,
        command: String,
        args: Vec<String>,
        plan: PlanUse,
    },
    /// Interrupt a task's process and let it end by itself.
    Interrupt { task_id: usize },
    /// Kill a task's process.
    ForceKill { task_id: usize },
}

/// An action as text.
pub enum ActionView {
    Spawn {
        task_id: usize,
        module_dir: Seq<char>,
        command: Seq<char>,
        args: Seq<Seq<char>>,
        plan: PlanUse,
    },
    Interrupt { task_id: usize },
    ForceKill { task_id: usize },
}

impl View for Action {
    type V = ActionView;

    open spec fn view(&self) -> ActionView {
        match self {
            Action::Spawn { task_id, module_dir, command, args, plan } => ActionView::Spawn {
                task_id: *task_id,
                module_dir: module_dir@,
                command: command@,
                args: texts(args@),
                plan: *plan,
            },
            Action::Interrupt { task_id } => ActionView::Interrupt { task_id: *task_id },
            Action::ForceKill { task_id } => ActionView::ForceKill { task_id: *task_id },
        }
    }
}

/// The actions of a sequence.
pub open spec fn action_views(v: Seq<Action>) -> Seq<ActionView> {
    v.map_values(|a: Action| a@)
}

/// A task that waits behind a running one of the same module.
pub struct QueuedTask {
    pub task_id: usize,
    pub command: String,
    pub args: Vec<String>,
    pub plan: PlanUse,
}

/// A waiting task as text.
pub struct QueuedView {
    pub task_id: usize,
    pub command: Seq<char>,
    pub args: Seq<Seq<char>>,
    pub plan: PlanUse,
}

impl View for QueuedTask {
    type V = QueuedView;

    open spec fn view(&self) -> QueuedView {
        QueuedView {
            task_id: self.task_id,
            command: self.command@,
            args: texts(self.args@),
            plan: self.plan,
        }
    }
}

/// Everything needed to enqueue a new task.
#[derive(Debug)]
pub struct TaskSpec {
    pub module_dir: String,
    pub module_name: String,
    pub command: String,
    pub args: Vec<String>,
    /// For plan tasks: where the plan is written.
    pub plan_output: Option<PlanHandle>,
    /// The resource addresses the task is restricted to; none for all.
    pub targets: Vec<String>,
    /// For apply tasks made from a cached plan: that plan.
    pub apply_plan: Option<PlanHandle>,
}

/// What a new task is made of, as text.
pub struct SpecView {
    pub module_dir: Seq<char>,
    pub module_name: Seq<char>,
    pub command: Seq<char>,
    pub args: Seq<Seq<char>>,
    pub plan_output: Option<PlanHandle>,
    pub targets: Seq<Seq<char>>,
    pub apply_plan: Option<PlanHandle>,
}

impl View for TaskSpec {
    type V = SpecView;

    open spec fn view(&self) -> SpecView {
        SpecView {
            module_dir: self.module_dir@,
            module_name: self.module_name@,
            command: self.command@,
            args: texts(self.args@),
            plan_output: self.plan_output,
            targets: texts(self.targets@),
            apply_plan: self.apply_plan,
        }
    }
}

/// A processed task event, for the caller to react to.
#[derive(Debug, Clone, Copy, PartialEq, Eq, Structural)]
pub enum EngineUpdate {
    Started { task_id: usize },
    Line { task_id: usize },
    Finished { task_id: usize, success: bool },
}

/// The engine: tasks, cached plans, and per module what runs and what waits.
pub struct TaskEngine {
    pub tasks: Vec<Task>,
    pub plan_cache: PlanCache,
    pub next_task_id: usize,
    /// Path to the terraform binary.
    pub binary: String,
    /// How many tasks the host runs at once.
    pub parallelism: usize,
    /// Modules that have a task with the runner.
    pub running_modules: PathMap<bool>,
    /// At most one waiting task per module.
    pub module_queues: PathMap<QueuedTask>,
    /// Milliseconds since the start of the run, kept by the host.
    pub clock: u64,
    /// What the host has to do, in order.
    pub outbox: Vec<Action>,
}

/// The state of an engine.
#[verifier::ext_equal]
pub struct EngineView {
    pub binary: Seq<char>,
    pub parallelism: usize,
    pub tasks: Seq<TaskView>,
    /// The cached plans, what runs and what waits: by the components of the
    /// module directory.
    pub plans: Map<Seq<Seq<char>>, PlanView>,
    pub next_id: usize,
    pub running: Set<Seq<Seq<char>>>,
    pub queues: Map<Seq<Seq<char>>, QueuedView>,
    pub clock: u64,
    pub outbox: Seq<ActionView>,
}

impl View for TaskEngine {
    type V = EngineView;

    open spec fn view(&self) -> EngineView {
        EngineView {
            binary: self.binary@,
            parallelism: self.parallelism,
            tasks: task_views(self.tasks@),
            plans: self.plan_cache@,
            next_id: self.next_task_id,
            running: self.running_modules@.dom(),
            queues: Map::new(
                |d: Seq<Seq<char>>| self.module_queues@.dom().contains(d),
                |d: Seq<Seq<char>>| self.module_queues@[d]@,
            ),
            clock: self.clock,
            outbox: action_views(self.outbox@),
        }
    }
}

/// The position of the first task with `id`, or the number of tasks.
pub open spec fn find_task(tasks: Seq<TaskView>, id: usize) -> int
    decreases tasks.len(),
{
    if tasks.len() == 0 {
        0
    } else {
        let k = find_task(tasks.drop_last(), id);
        if k < tasks.len() - 1 {
            k
        } else if tasks.last().id == id {
            tasks.len() - 1
        } else {
            tasks.len() as int
        }
    }
}

/// Whether there is a task with `id`.
pub open spec fn has_task(tasks: Seq<TaskView>, id: usize) -> bool {
    find_task(tasks, id) < tasks.len()
}

/// What the position of a task is.
pub proof fn find_task_finds(tasks: Seq<TaskView>, id: usize)
    ensures
        0 <= find_task(tasks, id) <= tasks.len(),
        has_task(tasks, id) ==> tasks[find_task(tasks, id)].id == id,
        forall|j: int| 0 <= j < find_task(tasks, id) ==> (#[trigger] tasks[j]).id != id,
    decreases tasks.len(),
{
    if tasks.len() > 0 {
        find_task_finds(tasks.drop_last(), id);
        assert forall|j: int| 0 <= j < find_task(tasks, id) implies (#[trigger] tasks[j]).id
            != id by {
            if j < tasks.len() - 1 {
                assert(tasks.drop_last()[j] == tasks[j]);
            }
        }
    }
}

proof fn found_at(tasks: Seq<TaskView>, id: usize, k: int)
    requires
        0 <= k <= tasks.len(),
        k < tasks.len() ==> tasks[k].id == id,
        forall|j: int| 0 <= j < k ==> (#[trigger] tasks[j]).id != id,
    ensures
        find_task(tasks, id) == k,
{
    find_task_finds(tasks, id);
    let f = find_task(tasks, id);
    if f < k {
        assert(tasks[f].id != id);
    }
}

/// The tasks with the one that has `id` marked as handed to the runner.
pub open spec fn mark_spawned(tasks: Seq<TaskView>, id: usize) -> Seq<TaskView> {
    let k = find_task(tasks, id);
    if k < tasks.len() {
        tasks.update(k, TaskView { spawned: true, ..tasks[k] })
    } else {
        tasks
    }
}

/// A task that was cancelled before it started.
pub open spec fn dropped(t: TaskView, clock: u64) -> TaskView {
    TaskView {
        status: TaskStatus::Cancelled,
        finished_at: Some(clock),
        apply_plan: None,
        ..t
    }
}

/// The tasks with the one that has `id` cancelled before it started.
pub open spec fn drop_task(tasks: Seq<TaskView>, id: usize, clock: u64) -> Seq<TaskView> {
    let k = find_task(tasks, id);
    if k < tasks.len() {
        tasks.update(k, dropped(tasks[k], clock))
    } else {
        tasks
    }
}

/// How a task's process uses a plan.
pub open spec fn plan_of(output: Option<PlanHandle>, apply: Option<PlanHandle>) -> PlanUse {
    match (output, apply) {
        (Some(h), _) => PlanUse::Write(h),
        (None, Some(h)) => PlanUse::Read(h),
        (None, None) => PlanUse::Unused,
    }
}

/// Whether a plan is referred to: by the cache, or by a task.
pub open spec fn is_plan_used(e: EngineView, handle: PlanHandle) -> bool {
    ||| exists|d: Seq<Seq<char>>| #[trigger] e.plans.dom().contains(d) && e.plans[d].handle == handle
    ||| exists|i: int|
        0 <= i < e.tasks.len() && ((#[trigger] e.tasks[i]).plan_output == Some(handle)
            || e.tasks[i].apply_plan == Some(handle))
}

/// The first plan from number `n` on that is not in use; the last one there is,
/// where all are.
pub open spec fn free_plan_from(e: EngineView, n: i32) -> PlanHandle
    decreases i32::MAX - n,
{
    if n == i32::MAX || !is_plan_used(e, PlanHandle { fd: n }) {
        PlanHandle { fd: n }
    } else {
        free_plan_from(e, (n + 1) as i32)
    }
}

/// The plan that the next plan task writes.
pub open spec fn free_plan(e: EngineView) -> PlanHandle {
    free_plan_from(e, FIRST_PLAN)
}

/// A new plan is not in use, as long as there are numbers left.
pub proof fn a_new_plan_is_unused(e: EngineView)
    ensures
        free_plan(e).fd >= FIRST_PLAN,
        free_plan(e).fd < i32::MAX ==> !is_plan_used(e, free_plan(e)),
{
    free_plan_is(e, FIRST_PLAN);
}

proof fn free_plan_is(e: EngineView, n: i32)
    ensures
        free_plan_from(e, n).fd >= n,
        free_plan_from(e, n).fd < i32::MAX ==> !is_plan_used(e, free_plan_from(e, n)),
    decreases i32::MAX - n,
{
    if n < i32::MAX && is_plan_used(e, PlanHandle { fd: n }) {
        free_plan_is(e, (n + 1) as i32);
    }
}

/// The task that `s` describes, when it is new.
pub open spec fn new_task(id: usize, s: SpecView) -> TaskView {
    TaskView {
        id,
        module_dir: s.module_dir,
        module_name: s.module_name,
        command: s.command,
        status: TaskStatus::Pending,
        output_lines: Seq::empty(),
        started_at: None,
        finished_at: None,
        plan_output: s.plan_output,
        targets: s.targets,
        apply_plan: s.apply_plan,
        resource_counts: None,
        spawned: false,
    }
}

/// An engine that has done nothing yet.
pub open spec fn fresh_engine(binary: Seq<char>, parallelism: usize) -> EngineView {
    EngineView {
        binary,
        parallelism,
        tasks: Seq::empty(),
        plans: Map::empty(),
        next_id: 0,
        running: Set::empty(),
        queues: Map::empty(),
        clock: 0,
        outbox: Seq::empty(),
    }
}

/// The engine after a task was pushed: it starts at once where its module is
/// idle; else it waits, in place of the one that waited before, which is
/// cancelled.
pub open spec fn after_push(e: EngineView, s: SpecView) -> EngineView {
    let id = e.next_id;
    let place = components(s.module_dir);
    let tasks = e.tasks.push(new_task(id, s));
    let pushed = EngineView { tasks, next_id: (id + 1) as usize, ..e };
    if !e.running.contains(place) {
        EngineView {
            tasks: mark_spawned(tasks, id),
            running: e.running.insert(place),
            outbox: e.outbox.push(
                ActionView::Spawn {
                    task_id: id,
                    module_dir: s.module_dir,
                    command: s.command,
                    args: s.args,
                    plan: plan_of(s.plan_output, s.apply_plan),
                },
            ),
            ..pushed
        }
    } else {
        EngineView {
            tasks: if e.queues.dom().contains(place) {
                drop_task(tasks, e.queues[place].task_id, e.clock)
            } else {
                tasks
            },
            queues: e.queues.insert(
                place,
                QueuedView {
                    task_id: id,
                    command: s.command,
                    args: s.args,
                    plan: plan_of(s.plan_output, s.apply_plan),
                },
            ),
            ..pushed
        }
    }
}

/// Whether resource counts are read from the output of `command`.
pub open spec fn is_counted(command: Seq<char>) -> bool {
    command == "plan"@ || command == "apply"@ || command == "destroy"@
}

/// The task `t` once it has written `line`: the line is kept, and a summary
/// replaces the counts seen before.
pub open spec fn with_line(t: TaskView, line: Seq<char>) -> TaskView {
    let counts = summary_of(clean_line(line));
    TaskView {
        output_lines: t.output_lines.push(line),
        resource_counts: if is_counted(t.command) && counts is Some {
            counts
        } else {
            t.resource_counts
        },
        ..t
    }
}

/// How a task ends.
pub open spec fn end_status(status: TaskStatus, success: bool) -> TaskStatus {
    if status == TaskStatus::Cancelling {
        TaskStatus::Cancelled
    } else if success {
        TaskStatus::Success
    } else {
        TaskStatus::Failed
    }
}

/// The engine once the process of the task at position `k` has ended: the task
/// is over, a plan that succeeded is cached, and the module's waiting task
/// starts, or the module is idle.
pub open spec fn after_end(e: EngineView, k: int, success: bool) -> EngineView {
    let t = e.tasks[k];
    let d = t.place();
    let tasks = e.tasks.update(
        k,
        TaskView {
            status: end_status(t.status, success),
            finished_at: Some(e.clock),
            apply_plan: None,
            spawned: false,
            ..t
        },
    );
    let plans = if success && t.status != TaskStatus::Cancelling && t.plan_output is Some {
        e.plans.insert(
            d,
            PlanView {
                handle: t.plan_output->0,
                task_id: t.id,
                created_at: e.clock,
                targets: t.targets,
            },
        )
    } else {
        e.plans
    };
    if e.queues.dom().contains(d) {
        let q = e.queues[d];
        EngineView {
            tasks: mark_spawned(tasks, q.task_id),
            plans,
            queues: e.queues.remove(d),
            outbox: e.outbox.push(
                ActionView::Spawn {
                    task_id: q.task_id,
                    module_dir: t.module_dir,
                    command: q.command,
                    args: q.args,
                    plan: q.plan,
                },
            ),
            ..e
        }
    } else {
        EngineView { tasks, plans, running: e.running.remove(d), ..e }
    }
}

/// The engine after a task event, and the update that the event gives.
pub open spec fn after_event(e: EngineView, event: TaskEvent) -> (
    EngineView,
    Option<EngineUpdate>,
) {
    match event {
        TaskEvent::Started { task_id } => {
            let k = find_task(e.tasks, task_id);
            let tasks = if k < e.tasks.len() {
                e.tasks.update(
                    k,
                    TaskView {
                        status: TaskStatus::Running,
                        started_at: Some(e.clock),
                        ..e.tasks[k]
                    },
                )
            } else {
                e.tasks
            };
            (EngineView { tasks, ..e }, Some(EngineUpdate::Started { task_id }))
        },
        TaskEvent::Line { task_id, line } => {
            let k = find_task(e.tasks, task_id);
            let tasks = if k < e.tasks.len() {
                e.tasks.update(k, with_line(e.tasks[k], line@))
            } else {
                e.tasks
            };
            (EngineView { tasks, ..e }, Some(EngineUpdate::Line { task_id }))
        },
        TaskEvent::Finished { task_id, success } => {
            let k = find_task(e.tasks, task_id);
            if k >= e.tasks.len() {
                (e, Some(EngineUpdate::Finished { task_id, success }))
            } else if e.tasks[k].status == TaskStatus::Cancelled {
                (e, None)
            } else {
                (after_end(e, k, success), Some(EngineUpdate::Finished { task_id, success }))
            }
        },
    }
}

/// The engine after a task was cancelled. A waiting task is dropped; one with
/// the runner is interrupted, and killed when it is cancelled again.
pub open spec fn after_cancel(e: EngineView, id: usize) -> EngineView {
    let k = find_task(e.tasks, id);
    if k >= e.tasks.len() || e.tasks[k].status.over() {
        e
    } else {
        let t = e.tasks[k];
        if e.queues.dom().contains(t.place()) && e.queues[t.place()].task_id == id {
            EngineView {
                tasks: e.tasks.update(k, dropped(t, e.clock)),
                queues: e.queues.remove(t.place()),
                ..e
            }
        } else if t.status == TaskStatus::Cancelling {
            EngineView {
                outbox: if t.spawned {
                    e.outbox.push(ActionView::ForceKill { task_id: id })
                } else {
                    e.outbox
                },
                ..e
            }
        } else {
            EngineView {
                tasks: e.tasks.update(k, TaskView { status: TaskStatus::Cancelling, ..t }),
                outbox: if t.spawned {
                    e.outbox.push(ActionView::Interrupt { task_id: id })
                } else {
                    e.outbox
                },
                ..e
            }
        }
    }
}

impl TaskEngine {
    /// An engine without tasks.
    pub fn new(binary: String, parallelism: usize) -> (r: Self)
        ensures
            r@ == fresh_engine(binary@, parallelism),
    {
        let ghost path = binary@;
        let r = TaskEngine {
            tasks: Vec::new(),
            plan_cache: PlanCache::new(),
            next_task_id: 0,
            binary,
            parallelism,
            running_modules: PathMap::new(),
            module_queues: PathMap::new(),
            clock: 0,
            outbox: Vec::new(),
        };
        assert(r@ =~= fresh_engine(path, parallelism));
        r
    }

    /// The position of the first task with `id`, or the number of tasks.
    pub fn position(&self, id: usize) -> (r: usize)
        ensures
            r == find_task(self@.tasks, id),
            r <= self.tasks@.len(),
    {
        let ghost all = task_views(self.tasks@);
        let mut i: usize = 0;
        while i < self.tasks.len() && self.tasks[i].id != id
            invariant
                i <= self.tasks@.len(),
                all == task_views(self.tasks@),
                forall|j: int| 0 <= j < i ==> (#[trigger] all[j]).id != id,
            decreases self.tasks@.len() - i,
        {
            assert(all[i as int].id == self.tasks@[i as int].id);
            i += 1;
        }
        proof {
            if i < self.tasks@.len() {
                assert(all[i as int].id == self.tasks@[i as int].id);
            }
            found_at(all, id, i as int);
        }
        i
    }

    /// The task with `id`.
    pub fn task(&self, id: usize) -> (r: Option<&Task>)
        ensures
            match r {
                Some(t) => has_task(self@.tasks, id) && t@ == self@.tasks[find_task(
                    self@.tasks,
                    id,
                )],
                None => !has_task(self@.tasks, id),
            },
    {
        let k = self.position(id);
        proof {
            find_task_finds(self@.tasks, id);
        }
        if k < self.tasks.len() {
            Some(&self.tasks[k])
        } else {
            None
        }
    }

    /// Whether some task is not over.
    pub fn has_active_tasks(&self) -> (r: bool)
        ensures
            r == exists|i: int| 0 <= i < self@.tasks.len() && !(#[trigger] self@.tasks[i]).status.over(),
    {
        let ghost all = self@.tasks;
        let mut i: usize = 0;
        while i < self.tasks.len()
            invariant
                i <= self.tasks@.len(),
                all == task_views(self.tasks@),
                forall|j: int| 0 <= j < i ==> (#[trigger] all[j]).status.over(),
            decreases self.tasks@.len() - i,
        {
            assert(all[i as int].status == self.tasks@[i as int].status);
            if !self.tasks[i].status.is_terminal() {
                return true;
            }
            i += 1;
        }
        false
    }

    /// Whether a plan is still referred to: by a task, or by the cache.
    pub fn plan_in_use(&self, handle: PlanHandle) -> (r: bool)
        ensures
            r == is_plan_used(self@, handle),
    {
        if self.plan_cache.holds_plan(handle) {
            proof {
                let d = choose|d: Seq<Seq<char>>| #[trigger]
                    self.plan_cache@.dom().contains(d) && self.plan_cache@[d].handle == handle;
                assert(self@.plans.dom().contains(d) && self@.plans[d].handle == handle);
            }
            return true;
        }
        let ghost all = self@.tasks;
        let mut i: usize = 0;
        while i < self.tasks.len()
            invariant
                i <= self.tasks@.len(),
                all == task_views(self.tasks@),
                forall|j: int|
                    0 <= j < i ==> (#[trigger] all[j]).plan_output != Some(handle)
                        && all[j].apply_plan != Some(handle),
            decreases self.tasks@.len() - i,
        {
            assert(all[i as int] == self.tasks@[i as int]@);
            if self.tasks[i].plan_output == Some(handle) || self.tasks[i].apply_plan == Some(
                handle,
            ) {
                return true;
            }
            i += 1;
        }
        false
    }

    /// A plan for the next plan task to write: the first that is not in use.
    pub fn new_plan(&self) -> (r: PlanHandle)
        ensures
            r == free_plan(self@),
    {
        let mut plan = PlanHandle { fd: FIRST_PLAN };
        while plan.fd < i32::MAX && self.plan_in_use(plan)
            invariant
                free_plan(self@) == free_plan_from(self@, plan.fd),
            decreases i32::MAX - plan.fd,
        {
            plan = PlanHandle { fd: plan.fd + 1 };
        }
        plan
    }

    /// Marks the task with `id` as handed to the runner.
    fn set_spawned(&mut self, id: usize)
        ensures
            final(self)@ == (EngineView { tasks: mark_spawned(old(self)@.tasks, id), ..old(self)@ }),
    {
        let ghost before = self@;
        let k = self.position(id);
        if k < self.tasks.len() {
            self.tasks[k].spawned = true;
        }
        assert(self@.tasks =~= mark_spawned(before.tasks, id));
        assert(self@ =~= (EngineView { tasks: mark_spawned(before.tasks, id), ..before }));
    }

    /// Cancels the task at position `k` before it started.
    fn drop_at(&mut self, k: usize)
        requires
            k < old(self).tasks@.len(),
        ensures
            final(self)@ == (EngineView {
                tasks: old(self)@.tasks.update(
                    k as int,
                    dropped(old(self)@.tasks[k as int], old(self)@.clock),
                ),
                ..old(self)@
            }),
    {
        let ghost before = self@;
        let now: u64 = self.clock;
        self.tasks[k].status = TaskStatus::Cancelled;
        self.tasks[k].finished_at = Some(now);
        self.tasks[k].apply_plan = None;
        assert(self@.tasks =~= before.tasks.update(
            k as int,
            dropped(before.tasks[k as int], before.clock),
        ));
        assert(self@ =~= (EngineView { tasks: self@.tasks, ..before }));
    }

    /// Pushes a task. It starts at once if its module is idle; else it becomes
    /// the module's waiting task, and the one that waited before is cancelled.
    /// Returns the new task's id.
    pub fn push_task(&mut self, spec: TaskSpec) -> (r: usize)
        requires
            old(self).next_task_id < usize::MAX,
        ensures
            r == old(self).next_task_id,
            final(self)@ == after_push(old(self)@, spec@),
    {
        let ghost before = self@;
        let ghost sv = spec@;
        let ghost want = after_push(before, sv);
        let id = self.next_task_id;
        self.next_task_id = id + 1;
        let plan = match (spec.plan_output, spec.apply_plan) {
            (Some(h), _) => PlanUse::Write(h),
            (None, Some(h)) => PlanUse::Read(h),
            (None, None) => PlanUse::Unused,
        };
        let task = Task {
            id,
            module_dir: spec.module_dir.clone(),
            module_name: spec.module_name,
            command: spec.command.clone(),
            status: TaskStatus::Pending,
            output_lines: Vec::new(),
            started_at: None,
            finished_at: None,
            plan_output: spec.plan_output,
            targets: spec.targets,
            apply_plan: spec.apply_plan,
            resource_counts: None,
            spawned: false,
        };
        assert(task@ =~= new_task(id, sv));
        let ghost tv = task@;
        self.tasks.push(task);
        let ghost tasks = before.tasks.push(tv);
        assert(self@.tasks =~= tasks);
        if !self.running_modules.contains_key(spec.module_dir.as_str()) {
            self.running_modules.insert(spec.module_dir.clone(), true);
            let action = Action::Spawn {
                task_id: id,
                module_dir: spec.module_dir,
                command: spec.command,
                args: spec.args,
                plan,
            };
            let ghost av = action@;
            self.outbox.push(action);
            assert(self@.outbox =~= before.outbox.push(av));
            self.set_spawned(id);
            assert(self@ =~= want);
        } else {
            let ghost dir = components(spec.module_dir@);
            let queued = QueuedTask { task_id: id, command: spec.command, args: spec.args, plan };
            let ghost qv = queued@;
            let displaced = self.module_queues.insert(spec.module_dir, queued);
            assert(self@.queues =~= before.queues.insert(dir, qv));
            assert(self@.running =~= before.running);
            if let Some(o) = displaced {
                assert(before.queues[dir].task_id == o.task_id);
                let k = self.position(o.task_id);
                if k < self.tasks.len() {
                    self.drop_at(k);
                }
            }
            assert(self@ =~= want);
        }
        id
    }

    /// Applies a task event to the task list, the plan cache and the queues.
    /// The end of a task that was already cancelled gives no update.
    pub fn apply_event(&mut self, event: TaskEvent) -> (r: Option<EngineUpdate>)
        ensures
            (final(self)@, r) == after_event(old(self)@, event),
    {
        match event {
            TaskEvent::Started { task_id } => {
                self.mark_running(task_id);
                Some(EngineUpdate::Started { task_id })
            },
            TaskEvent::Line { task_id, line } => {
                self.append_line(task_id, line);
                Some(EngineUpdate::Line { task_id })
            },
            TaskEvent::Finished { task_id, success } => {
                let k = self.position(task_id);
                if k >= self.tasks.len() {
                    return Some(EngineUpdate::Finished { task_id, success });
                }
                assert(self@.tasks[k as int] == self.tasks@[k as int]@);
                if self.tasks[k].status == TaskStatus::Cancelled {
                    return None;
                }
                self.finish_at(k, success);
                Some(EngineUpdate::Finished { task_id, success })
            },
        }
    }

    fn mark_running(&mut self, task_id: usize)
        ensures
            final(self)@ == after_event(old(self)@, (TaskEvent::Started { task_id })).0,
    {
        let ghost before = self@;
        let k = self.position(task_id);
        if k < self.tasks.len() {
            let now: u64 = self.clock;
            self.tasks[k].status = TaskStatus::Running;
            self.tasks[k].started_at = Some(now);
            let ghost t = TaskView {
                status: TaskStatus::Running,
                started_at: Some(before.clock),
                ..before.tasks[k as int]
            };
            assert(self@.tasks =~= before.tasks.update(k as int, t));
            assert(self@ =~= (EngineView { tasks: before.tasks.update(k as int, t), ..before }));
        }
    }

    fn append_line(&mut self, task_id: usize, line: String)
        ensures
            final(self)@ == after_event(old(self)@, (TaskEvent::Line { task_id, line })).0,
    {
        broadcast use texts_push;

        let ghost before = self@;
        let ghost text = line@;
        let k = self.position(task_id);
        if k < self.tasks.len() {
            let ghost old_task = self.tasks@[k as int]@;
            assert(before.tasks[k as int] == old_task);
            let counts = parse_counts_from_line(line.as_str());
            let counted = same(self.tasks[k].command.as_str(), "plan") || same(
                self.tasks[k].command.as_str(),
                "apply",
            ) || same(self.tasks[k].command.as_str(), "destroy");
            if counted && counts.is_some() {
                self.tasks[k].resource_counts = counts;
            }
            self.tasks[k].output_lines.push(line);
            proof {
                let t = self.tasks@[k as int]@;
                assert(t =~= with_line(old_task, text));
                assert(self@.tasks =~= before.tasks.update(k as int, t));
                assert(self@ =~= (EngineView { tasks: before.tasks.update(k as int, t), ..before }));
            }
        }
    }

    fn finish_at(&mut self, k: usize, success: bool)
        requires
            k < old(self).tasks@.len(),
        ensures
            final(self)@ == after_end(old(self)@, k as int, success),
    {
        let ghost before = self@;
        let ghost want = after_end(before, k as int, success);
        let ghost t = before.tasks[k as int];
        assert(t == self.tasks@[k as int]@);
        let now: u64 = self.clock;
        let cancelling = self.tasks[k].status == TaskStatus::Cancelling;
        let dir = self.tasks[k].module_dir.clone();
        let plan = if success && !cancelling { self.tasks[k].plan_output } else { None };
        self.tasks[k].apply_plan = None;
        self.tasks[k].spawned = false;
        self.tasks[k].status = if cancelling {
            TaskStatus::Cancelled
        } else if success {
            TaskStatus::Success
        } else {
            TaskStatus::Failed
        };
        self.tasks[k].finished_at = Some(now);
        let ghost ended = TaskView {
            status: end_status(t.status, success),
            finished_at: Some(before.clock),
            apply_plan: None,
            spawned: false,
            ..t
        };
        assert(self.tasks@[k as int]@ =~= ended);
        assert(self@.tasks =~= before.tasks.update(k as int, ended));
        if let Some(handle) = plan {
            let targets = copy_strings(&self.tasks[k].targets);
            let id = self.tasks[k].id;
            self.plan_cache.register(dir.clone(), handle, id, targets, now);
        }
        assert(self@.plans =~= want.plans);
        match self.module_queues.remove(dir.as_str()) {
            Some(queued) => {
                assert(before.queues[t.place()] == queued@);
                let id = queued.task_id;
                assert(self@.queues =~= before.queues.remove(t.place()));
                let action = Action::Spawn {
                    task_id: id,
                    module_dir: dir,
                    command: queued.command,
                    args: queued.args,
                    plan: queued.plan,
                };
                let ghost av = action@;
                self.outbox.push(action);
                assert(self@.outbox =~= before.outbox.push(av));
                self.set_spawned(id);
                assert(self@ =~= want);
            },
            None => {
                self.running_modules.remove(dir.as_str());
                assert(self@.queues =~= before.queues);
                assert(self@.running =~= before.running.remove(t.place()));
                assert(self@ =~= want);
            },
        }
    }

    /// Cancels a task. A waiting task is dropped at once. One with the runner is
    /// interrupted, and its module is cleaned up when its process has ended; a
    /// second cancel kills the process. A task that is over is left alone.
    pub fn cancel_task(&mut self, task_id: usize)
        ensures
            final(self)@ == after_cancel(old(self)@, task_id),
    {
        let ghost before = self@;
        let ghost want = after_cancel(before, task_id);
        let k = self.position(task_id);
        if k >= self.tasks.len() {
            return ;
        }
        let ghost t = before.tasks[k as int];
        assert(t == self.tasks@[k as int]@);
        if self.tasks[k].status.is_terminal() {
            return ;
        }
        let dir = self.tasks[k].module_dir.clone();
        let waits = match self.module_queues.get(dir.as_str()) {
            Some(q) => q.task_id == task_id,
            None => false,
        };
        if waits {
            self.module_queues.remove(dir.as_str());
            assert(self@.queues =~= before.queues.remove(t.place()));
            self.drop_at(k);
            assert(self@ =~= want);
            return ;
        }
        if self.tasks[k].status == TaskStatus::Cancelling {
            if self.tasks[k].spawned {
                self.outbox.push(Action::ForceKill { task_id });
                assert(self@.outbox =~= before.outbox.push(ActionView::ForceKill { task_id }));
            }
            assert(self@ =~= want);
            return ;
        }
        if self.tasks[k].spawned {
            self.outbox.push(Action::Interrupt { task_id });
            assert(self@.outbox =~= before.outbox.push(ActionView::Interrupt { task_id }));
        }
        self.tasks[k].status = TaskStatus::Cancelling;
        assert(self.tasks@[k as int]@ =~= (TaskView { status: TaskStatus::Cancelling, ..t }));
        assert(self@.tasks =~= before.tasks.update(
            k as int,
            TaskView { status: TaskStatus::Cancelling, ..t },
        ));
        assert(self@ =~= want);
    }

    /// Applies the task events that have come in, in order, and returns the
    /// updates they gave.
    pub fn drain_events(&mut self, events: Vec<TaskEvent>) -> (r: Vec<EngineUpdate>)
        ensures
            (final(self)@, r@) == after_events(old(self)@, events@),
    {
        let ghost all = events@;
        let ghost start = self@;
        let mut rest = events;
        let mut updates: Vec<EngineUpdate> = Vec::new();
        let ghost mut n: int = 0;
        assert((self@, updates@) == after_events(start, all.take(0)));
        while rest.len() > 0
            invariant
                0 <= n <= all.len(),
                rest@ == all.skip(n),
                (self@, updates@) == after_events(start, all.take(n)),
            decreases rest@.len(),
        {
            let ghost had = updates@;
            let event = rest.remove(0);
            let ghost ev = event;
            let u = self.apply_event(event);
            if let Some(update) = u {
                updates.push(update);
            }
            proof {
                assert(ev == all[n]);
                assert(all.take(n + 1).drop_last() =~= all.take(n));
                assert(updates@ =~= had + update_seq(u));
                n = n + 1;
                assert(rest@ =~= all.skip(n));
            }
        }
        assert(all.take(n) =~= all);
        updates
    }
}

/// The updates that one event gives.
pub open spec fn update_seq(u: Option<EngineUpdate>) -> Seq<EngineUpdate> {
    match u {
        Some(x) => seq![x],
        None => Seq::empty(),
    }
}

/// The engine after task events, in order, and the updates that they give.
pub open spec fn after_events(e: EngineView, events: Seq<TaskEvent>) -> (
    EngineView,
    Seq<EngineUpdate>,
)
    decreases events.len(),
{
    if events.len() == 0 {
        (e, Seq::empty())
    } else {
        let before = after_events(e, events.drop_last());
        let last = after_event(before.0, events.last());
        (last.0, before.1 + update_seq(last.1))
    }
}

} // verus!
