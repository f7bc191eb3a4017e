//! Tasks, their status, and the resource counts read from their output.

use crate::paths::components;
use crate::plan_cache::PlanHandle;
use crate::text::{
    begins, begins_with, chars_of, concat, copy_range, decimal, decimal_of, is_text, parse_u32,
    pieces, split_chars, split_on, texts, trim, trim_chars, trim_end_chars, trim_end_of, u32_value,
    words, words_of,
};
use crate::util::{strip_ansi, stripped};
use vstd::prelude::*;

verus! {

/// Status of a task.
#[derive(Debug, Clone, Copy, PartialEq, Eq, Structural)]
pub enum TaskStatus {
    /// Waiting to start.
    Pending,
    Running,
    /// Interrupted, but its process has not exited yet.
    Cancelling,
    Success,
    Failed,
    Cancelled,
}

impl TaskStatus {
    /// Whether the task is over.
    pub open spec fn over(self) -> bool {
        self == TaskStatus::Success || self == TaskStatus::Failed || self == TaskStatus::Cancelled
    }

    /// The icon of the status.
    pub fn icon(&self) -> (r: &'static str)
        ensures
            r@ == crate::ui::theme::icon_of_status(*self),
    {
        crate::ui::theme::status_icon(self)
    }

    /// Whether the task is over.
    pub fn is_terminal(&self) -> (r: bool)
        ensures
            r == self.over(),
    {
        match self {
            TaskStatus::Success | TaskStatus::Failed | TaskStatus::Cancelled => true,
            _ => false,
        }
    }
}

/// Counts of resource operations, taken from a plan or apply summary line.
#[derive(Debug, Clone, Copy, PartialEq, Eq, Structural)]
pub struct ResourceCounts {
    /// Resources to create.
    pub add: u32,
    /// Resources to update in place.
    pub change: u32,
    /// Resources to delete.
    pub destroy: u32,
    /// Resources to import.
    pub import: u32,
    /// Resources to remove from state without destroying them.
    pub forget: u32,
    /// A `No changes.` line was seen.
    pub no_changes: bool,
    /// A summary line was read, even one that counts nothing.
    pub has_summary: bool,
}

/// No operation counted and no summary seen.
pub open spec fn no_counts() -> ResourceCounts {
    ResourceCounts {
        add: 0,
        change: 0,
        destroy: 0,
        import: 0,
        forget: 0,
        no_changes: false,
        has_summary: false,
    }
}

impl Default for ResourceCounts {
    fn default() -> (r: Self)
        ensures
            r == no_counts(),
    {
        ResourceCounts {
            add: 0,
            change: 0,
            destroy: 0,
            import: 0,
            forget: 0,
            no_changes: false,
            has_summary: false,
        }
    }
}

impl ResourceCounts {
    /// Whether no operation is counted.
    pub open spec fn counts_nothing(self) -> bool {
        self.add == 0 && self.change == 0 && self.destroy == 0 && self.import == 0 && self.forget
            == 0
    }

    /// Whether no operation is counted.
    pub fn all_zero(&self) -> (r: bool)
        ensures
            r == self.counts_nothing(),
    {
        self.add == 0 && self.change == 0 && self.destroy == 0 && self.import == 0 && self.forget
            == 0
    }
}

/// `c` with the count that `verb` stands for set to `n`.
pub open spec fn with_count(c: ResourceCounts, verb: Seq<char>, n: u32) -> ResourceCounts {
    if verb == "add"@ || verb == "added"@ {
        ResourceCounts { add: n, ..c }
    } else if verb == "change"@ || verb == "changed"@ {
        ResourceCounts { change: n, ..c }
    } else if verb == "destroy"@ || verb == "destroyed"@ {
        ResourceCounts { destroy: n, ..c }
    } else if verb == "import"@ || verb == "imported"@ {
        ResourceCounts { import: n, ..c }
    } else if verb == "forget"@ || verb == "forgotten"@ || verb == "remove"@ || verb == "removed"@ {
        ResourceCounts { forget: n, ..c }
    } else {
        c
    }
}

/// `c` after one part of a summary: `N sep verb`, or `N verb` where `sep` is
/// empty. A part of another form changes nothing.
pub open spec fn with_part(c: ResourceCounts, part: Seq<char>, sep: Seq<char>) -> ResourceCounts {
    let w = words(trim_end_of(trim(part), '.'));
    let verb_at: int = if sep.len() == 0 { 1 } else { 2 };
    if w.len() > verb_at && (sep.len() == 0 || w[1] == sep) {
        match u32_value(w[0]) {
            Some(n) => with_count(c, w[verb_at], n),
            None => c,
        }
    } else {
        c
    }
}

/// The counts of a list of summary parts; of two that set the same count, the
/// later one wins.
pub open spec fn part_counts(parts: Seq<Seq<char>>, sep: Seq<char>) -> ResourceCounts
    decreases parts.len(),
{
    if parts.len() == 0 {
        no_counts()
    } else {
        with_part(part_counts(parts.drop_last(), sep), parts.last(), sep)
    }
}

/// The counts of a comma-separated summary.
pub open spec fn segment_counts(text: Seq<char>, sep: Seq<char>) -> ResourceCounts {
    part_counts(split_on(text, ','), sep)
}

/// The text of an output line that summaries are looked for in.
pub open spec fn clean_line(line: Seq<char>) -> Seq<char> {
    trim(stripped(line))
}

/// The counts that a cleaned line reports, if it is a summary.
pub open spec fn summary_of(clean: Seq<char>) -> Option<ResourceCounts> {
    if begins(clean, "No changes."@) {
        Some(ResourceCounts { no_changes: true, has_summary: true, ..no_counts() })
    } else if begins(clean, "Plan: "@) {
        Some(
            ResourceCounts {
                has_summary: true,
                ..segment_counts(clean.skip("Plan: "@.len() as int), "to"@)
            },
        )
    } else if begins(clean, "Apply complete! Resources: "@) {
        Some(completed(clean.skip("Apply complete! Resources: "@.len() as int)))
    } else if begins(clean, "Destroy complete! Resources: "@) {
        Some(completed(clean.skip("Destroy complete! Resources: "@.len() as int)))
    } else {
        None
    }
}

/// The counts of a summary of what was done.
pub open spec fn completed(text: Seq<char>) -> ResourceCounts {
    ResourceCounts { has_summary: true, ..segment_counts(text, ""@) }
}

/// Reads the resource counts of one output line.
///
/// Summary lines are `No changes. ...`, `Plan: N to add, ...`,
/// `Apply complete! Resources: N added, ...` and
/// `Destroy complete! Resources: N destroyed.`. Every other line gives none.
pub fn parse_counts_from_line(line: &str) -> (r: Option<ResourceCounts>)
    ensures
        r == summary_of(clean_line(line@)),
{
    let bare = strip_ansi(line);
    let cs = chars_of(bare.as_str());
    let clean = trim_chars(cs.as_slice());
    if begins_with(clean.as_slice(), "No changes.") {
        return Some(
            ResourceCounts { no_changes: true, has_summary: true, ..ResourceCounts::default() },
        );
    }
    proof {
        reveal_strlit("Plan: ");
        reveal_strlit("Apply complete! Resources: ");
        reveal_strlit("Destroy complete! Resources: ");
    }
    if begins_with(clean.as_slice(), "Plan: ") {
        let rest = copy_range(clean.as_slice(), 6, clean.len());
        assert(rest@ == clean@.skip(6));
        let mut counts = parse_segment(rest.as_slice(), "to");
        counts.has_summary = true;
        return Some(counts);
    }
    if begins_with(clean.as_slice(), "Apply complete! Resources: ") {
        return Some(completed_counts(clean.as_slice(), 27));
    }
    if begins_with(clean.as_slice(), "Destroy complete! Resources: ") {
        return Some(completed_counts(clean.as_slice(), 29));
    }
    None
}

fn completed_counts(clean: &[char], at: usize) -> (r: ResourceCounts)
    requires
        at <= clean@.len(),
    ensures
        r == completed(clean@.skip(at as int)),
{
    proof {
        reveal_strlit("");
    }
    let rest = copy_range(clean, at, clean.len());
    assert(rest@ == clean@.skip(at as int));
    let mut counts = parse_segment(rest.as_slice(), "");
    counts.has_summary = true;
    counts
}

/// Reads a comma-separated list of counts. `sep` is the word between number and
/// verb; it is empty where the verb follows the number directly.
pub fn parse_segment(text: &[char], sep: &str) -> (r: ResourceCounts)
    ensures
        r == segment_counts(text@, sep@),
{
    let parts = split_chars(text, ',');
    let ghost all = pieces(parts@);
    let mut counts = ResourceCounts::default();
    let mut i: usize = 0;
    while i < parts.len()
        invariant
            i <= parts.len(),
            all == pieces(parts@),
            counts == part_counts(all.take(i as int), sep@),
        decreases parts.len() - i,
    {
        assert(all.take(i + 1).drop_last() == all.take(i as int));
        assert(all[i as int] == parts@[i as int]@);
        let part = trim_chars(parts[i].as_slice());
        let part = trim_end_chars(part.as_slice(), '.');
        let w = words_of(part.as_slice());
        let ghost ws = pieces(w@);
        let direct = sep.is_empty();
        let verb_at: usize = if direct { 1 } else { 2 };
        if w.len() > verb_at && (direct || is_text(w[1].as_slice(), sep)) {
            assert(ws[0] == w@[0]@ && ws[1] == w@[1]@ && ws[verb_at as int] == w@[verb_at as int]@);
            if let Some(n) = parse_u32(w[0].as_slice()) {
                counts = set_count(counts, w[verb_at].as_slice(), n);
            }
        } else {
            assert(w.len() > verb_at ==> ws[1] == w@[1]@);
        }
        i += 1;
    }
    assert(all.take(i as int) == all);
    counts
}

fn set_count(c: ResourceCounts, verb: &[char], n: u32) -> (r: ResourceCounts)
    ensures
        r == with_count(c, verb@, n),
{
    let mut r = c;
    if is_text(verb, "add") || is_text(verb, "added") {
        r.add = n;
    } else if is_text(verb, "change") || is_text(verb, "changed") {
        r.change = n;
    } else if is_text(verb, "destroy") || is_text(verb, "destroyed") {
        r.destroy = n;
    } else if is_text(verb, "import") || is_text(verb, "imported") {
        r.import = n;
    } else if is_text(verb, "forget") || is_text(verb, "forgotten") || is_text(verb, "remove")
        || is_text(verb, "removed") {
        r.forget = n;
    }
    r
}

/// A single unit of work: one terraform command in a module directory.
#[derive(Debug)]
pub struct Task {
    pub id: usize,
    pub module_dir: String,
    pub module_name: String,
    pub command: String,
    pub status: TaskStatus,
    pub output_lines: Vec<String>,
    /// When its process started, in milliseconds.
    pub started_at: Option<u64>,
    /// When it was over, in milliseconds.
    pub finished_at: Option<u64>,
    /// For plan tasks: where the plan is written. Cached when the task succeeds.
    pub plan_output: Option<PlanHandle>,
    /// The resource addresses that the task was restricted to.
    pub targets: Vec<String>,
    /// For apply tasks: the cached plan that is applied.
    pub apply_plan: Option<PlanHandle>,
    /// Counts of the last summary line in the output.
    pub resource_counts: Option<ResourceCounts>,
    /// Whether it was handed to the runner and has not come back.
    pub spawned: bool,
}

/// A task as text.
#[verifier::ext_equal]
pub struct TaskView {
    pub id: usize,
    pub module_dir: Seq<char>,
    pub module_name: Seq<char>,
    pub command: Seq<char>,
    pub status: TaskStatus,
    pub output_lines: Seq<Seq<char>>,
    pub started_at: Option<u64>,
    pub finished_at: Option<u64>,
    pub plan_output: Option<PlanHandle>,
    pub targets: Seq<Seq<char>>,
    pub apply_plan: Option<PlanHandle>,
    pub resource_counts: Option<ResourceCounts>,
    pub spawned: bool,
}

impl TaskView {
    /// The module directory, component by component: two tasks are of the same
    /// module where this is the same.
    pub open spec fn place(self) -> Seq<Seq<char>> {
        components(self.module_dir)
    }
}

impl View for Task {
    type V = TaskView;

    open spec fn view(&self) -> TaskView {
        TaskView {
            id: self.id,
            module_dir: self.module_dir@,
            module_name: self.module_name@,
            command: self.command@,
            status: self.status,
            output_lines: texts(self.output_lines@),
            started_at: self.started_at,
            finished_at: self.finished_at,
            plan_output: self.plan_output,
            targets: texts(self.targets@),
            apply_plan: self.apply_plan,
            resource_counts: self.resource_counts,
            spawned: self.spawned,
        }
    }
}

/// The tasks of a sequence.
pub open spec fn task_views(tasks: Seq<Task>) -> Seq<TaskView> {
    tasks.map_values(|t: Task| t@)
}

/// The milliseconds that a task has run, or ran; none before it started.
pub open spec fn run_time(t: TaskView, now: u64) -> Option<nat> {
    match t.started_at {
        Some(s) => {
            let end = match t.finished_at {
                Some(f) => f,
                None => now,
            };
            Some(
                if end > s {
                    (end - s) as nat
                } else {
                    0
                },
            )
        },
        None => None,
    }
}

impl Task {
    /// The milliseconds that the task has run, or ran; none before it started.
    pub fn elapsed(&self, now: u64) -> (r: Option<u64>)
        ensures
            match r {
                Some(ms) => run_time(self@, now) == Some(ms as nat),
                None => run_time(self@, now) is None,
            },
    {
        match (self.started_at, self.finished_at) {
            (Some(s), Some(f)) => Some(f.saturating_sub(s)),
            (Some(s), None) => Some(now.saturating_sub(s)),
            _ => None,
        }
    }

    /// The run time in whole seconds, such as `12s`; empty before the start.
    pub fn elapsed_str(&self, now: u64) -> (r: String)
        ensures
            r@ == match run_time(self@, now) {
                Some(ms) => decimal(ms / 1000) + "s"@,
                None => Seq::empty(),
            },
    {
        match self.elapsed(now) {
            Some(ms) => concat(decimal_of(ms / 1000).as_str(), "s"),
            None => String::new(),
        }
    }
}

/// What the runner reports of a task.
#[derive(Debug)]
pub enum TaskEvent {
    Started { task_id: usize },
    Line { task_id: usize, line: String },
    Finished { task_id: usize, success: bool },
}

} // verus!
