//! Commands without a screen: which modules they run on, what the user is asked,
//! what is printed, and how it ends.

use crate::app::session::{listed, roots_of};
use crate::config::Config;
use crate::discovery::{module_view, module_views, ModuleView};
use crate::engine::{
    after_event, after_push, find_task, find_task_finds, fresh_engine, has_task, ActionView,
    EngineUpdate, EngineView, SpecView, TaskEngine, TaskSpec,
};
use crate::engine_laws::ids_sound;
use crate::headless_laws::{every_failure_counts, failed_places, has_failed, matching_are};
use crate::module::{Module, ModuleKind};
use crate::paths::components;
use crate::plan_cache::PlanUse;
use crate::state::opt_text;
use crate::task::{TaskEvent, TaskStatus};
use crate::text::{
    chars_of, concat, contains, copy_strings, decimal, holds, lowercase, same, texts, texts_push,
    trim, trim_chars, uppercase,
};
use crate::ui::frame::{number, say3, say4, say5};
use vstd::prelude::*;

verus! {

/// Whether a command runs on a module: a root module whose name holds the filter.
pub open spec fn is_matching(m: ModuleView, filter: Seq<char>) -> bool {
    m.kind == ModuleKind::Root && (filter.len() == 0 || holds(m.name, filter))
}

/// Those of the first `n` modules that a command runs on, by index.
pub open spec fn matching(modules: Seq<ModuleView>, filter: Seq<char>, n: int) -> Seq<usize>
    decreases n,
{
    if n <= 0 {
        Seq::empty()
    } else {
        let before = matching(modules, filter, n - 1);
        if is_matching(modules[n - 1], filter) {
            before.push((n - 1) as usize)
        } else {
            before
        }
    }
}

/// The modules that a command runs on, by index: the root modules whose names
/// hold the filter. An error where there are none.
pub fn matching_modules(modules: &Vec<Module>, filter: &str) -> (r: Result<Vec<usize>, String>)
    ensures
        ({
            let all = matching(module_views(modules@), filter@, modules@.len() as int);
            match r {
                Ok(v) => v@ == all && all.len() > 0,
                Err(e) => all.len() == 0 && e@ == "no matching root modules found"@,
            }
        }),
        r is Ok ==> forall|i: int| 0 <= i < r->Ok_0@.len() ==> #[trigger] r->Ok_0@[i] < modules@.len(),
        r is Ok ==> forall|i: int, j: int|
            0 <= i < j < r->Ok_0@.len() ==> #[trigger] r->Ok_0@[i] < #[trigger] r->Ok_0@[j],
        r is Ok ==> forall|i: usize|
            i < modules@.len() ==> (#[trigger] r->Ok_0@.contains(i) <==> {
                let m = module_views(modules@)[i as int];
                m.kind == ModuleKind::Root && (filter@.len() == 0 || holds(m.name, filter@))
            }),
        r is Err ==> forall|i: int|
            0 <= i < modules@.len() ==> {
                let m = #[trigger] module_views(modules@)[i];
                m.kind != ModuleKind::Root || (filter@.len() > 0 && !holds(m.name, filter@))
            },
{
    let ghost ms = module_views(modules@);
    let mut out: Vec<usize> = Vec::new();
    let mut n: usize = 0;
    while n < modules.len()
        invariant
            n <= modules@.len(),
            ms == module_views(modules@),
            out@ == matching(ms, filter@, n as int),
            forall|i: int| 0 <= i < out@.len() ==> #[trigger] out@[i] < modules@.len(),
        decreases modules@.len() - n,
    {
        assert(ms[n as int] == module_view(modules@[n as int]));
        let m = &modules[n];
        if m.is_root() && (filter.is_empty() || contains(
            chars_of(m.display_name.as_str()).as_slice(),
            filter,
        )) {
            out.push(n);
        }
        n += 1;
    }
    proof {
        assert(ms.len() == n);
        matching_are(ms, filter@, n as int);
        assert forall|i: usize| i < n implies (#[trigger] out@.contains(i) <==> {
            let m = ms[i as int];
            m.kind == ModuleKind::Root && (filter@.len() == 0 || holds(m.name, filter@))
        }) by {
            assert(ms[i as int].kind == ms[i as int].kind);
        }
    }
    if out.len() == 0 {
        Err("no matching root modules found".to_owned())
    } else {
        Ok(out)
    }
}

/// The names of the first `n` targets, each on a line of its own.
pub open spec fn bullet_lines(modules: Seq<ModuleView>, targets: Seq<usize>, n: int) -> Seq<char>
    decreases n,
{
    if n <= 0 {
        Seq::empty()
    } else {
        bullet_lines(modules, targets, n - 1) + ("  • "@ + modules[targets[n - 1] as int].name
            + "\n"@)
    }
}

/// The question before a command that changes things.
pub open spec fn prompt_text(
    command: Seq<char>,
    modules: Seq<ModuleView>,
    targets: Seq<usize>,
) -> Seq<char> {
    "\nAbout to run "@ + uppercase(command) + " on "@ + decimal(targets.len()) + " "@ + (
    if targets.len() == 1 {
        "module"@
    } else {
        "modules"@
    }) + ":\n"@ + bullet_lines(modules, targets, targets.len() as int) + "\nContinue? [y/N] "@
}

/// The question before a command that changes things: what is run, and on which
/// modules.
pub fn confirm_prompt(command: &str, modules: &Vec<Module>, targets: &Vec<usize>) -> (r: String)
    requires
        forall|i: int| 0 <= i < targets@.len() ==> #[trigger] targets@[i] < modules@.len(),
    ensures
        r@ == prompt_text(command@, module_views(modules@), targets@),
{
    let ghost ms = module_views(modules@);
    let n: usize = targets.len();
    let mut names = String::new();
    assert(names@ =~= Seq::<char>::empty());
    let mut i: usize = 0;
    while i < n
        invariant
            i <= n,
            n == targets@.len(),
            ms == module_views(modules@),
            forall|k: int| 0 <= k < targets@.len() ==> #[trigger] targets@[k] < modules@.len(),
            names@ == bullet_lines(ms, targets@, i as int),
        decreases n - i,
    {
        assert(targets@[i as int] < modules@.len());
        assert(ms[targets@[i as int] as int] == module_view(modules@[targets@[i as int] as int]));
        let name = modules[targets[i]].display_name.as_str();
        names.append(say3("  • ", name, "\n").as_str());
        i += 1;
    }
    let mut text = say5(
        "\nAbout to run ",
        command.to_uppercase().as_str(),
        " on ",
        number(n).as_str(),
        " ",
    );
    text.append(
        if n == 1 {
            "module"
        } else {
            "modules"
        },
    );
    text.append(":\n");
    text.append(names.as_str());
    text.append("\nContinue? [y/N] ");
    text
}

/// Whether the user's line agrees.
pub open spec fn says_yes(line: Seq<char>) -> bool {
    lowercase(trim(line)) == "y"@ || lowercase(trim(line)) == "yes"@
}

/// Takes in the user's answer: an error unless it is `y` or `yes`.
pub fn confirm_headless(line: &str) -> (r: Result<(), String>)
    ensures
        match r {
            Ok(_) => says_yes(line@),
            Err(e) => !says_yes(line@) && e@ == "aborted by user"@,
        },
{
    let trimmed = crate::text::string_of(trim_chars(chars_of(line).as_slice()).as_slice());
    let answer = trimmed.to_lowercase();
    if same(answer.as_str(), "y") || same(answer.as_str(), "yes") {
        Ok(())
    } else {
        Err("aborted by user".to_owned())
    }
}

/// The lines of the module list.
pub open spec fn list_text(
    source: Option<Seq<char>>,
    root: Seq<char>,
    modules: Seq<ModuleView>,
) -> Seq<Seq<char>> {
    seq![
        match source {
            Some(p) => "config: "@ + p,
            None => "config: (defaults)"@,
        },
    ] + (if modules.len() == 0 {
        seq!["No modules found under "@ + root]
    } else {
        modules.map_values(
            |m: ModuleView|
                if m.kind == ModuleKind::Root {
                    m.name + ""@
                } else {
                    m.name + " (library)"@
                },
        )
    })
}

/// The lines of the module list: where the configuration came from, and every
/// module with a tag on libraries.
pub fn list_modules(config: &Config, root: &str, modules: &Vec<Module>) -> (r: Vec<String>)
    ensures
        texts(r@) == list_text(opt_text(config.source), root@, module_views(modules@)),
{
    broadcast use texts_push;

    let ghost ms = module_views(modules@);
    let mut out: Vec<String> = Vec::new();
    let n: usize = modules.len();
    match &config.source {
        Some(p) => {
            out.push(concat("config: ", p.as_str()));
        },
        None => {
            out.push("config: (defaults)".to_owned());
        },
    }
    let ghost head = texts(out@);
    if n == 0 {
        out.push(concat("No modules found under ", root));
        assert(texts(out@) =~= list_text(opt_text(config.source), root@, ms));
        return out;
    }
    let mut i: usize = 0;
    while i < n
        invariant
            i <= n,
            n == modules@.len(),
            ms == module_views(modules@),
            texts(out@) =~= head + ms.take(i as int).map_values(
                |m: ModuleView|
                    if m.kind == ModuleKind::Root {
                        m.name + ""@
                    } else {
                        m.name + " (library)"@
                    },
            ),
        decreases n - i,
    {
        assert(ms[i as int] == module_view(modules@[i as int]));
        let ghost had = texts(out@);
        let m = &modules[i];
        let tag = if m.is_root() {
            ""
        } else {
            " (library)"
        };
        out.push(concat(m.display_name.as_str(), tag));
        assert(texts(out@) == had.push(m.display_name@ + tag@));
        i += 1;
    }
    assert(ms.take(n as int) =~= ms);
    assert(texts(out@) =~= list_text(opt_text(config.source), root@, ms));
    out
}

/// What a task for a module is pushed with.
pub open spec fn spec_for(m: ModuleView, command: Seq<char>, args: Seq<Seq<char>>) -> SpecView {
    SpecView {
        module_dir: m.path,
        module_name: m.name,
        command,
        args,
        plan_output: None,
        targets: Seq::empty(),
        apply_plan: None,
    }
}

/// The engine once the command was pushed for the first `n` targets.
pub open spec fn all_pushed(
    e: EngineView,
    modules: Seq<ModuleView>,
    targets: Seq<usize>,
    command: Seq<char>,
    args: Seq<Seq<char>>,
    n: int,
) -> EngineView
    decreases n,
{
    if n <= 0 {
        e
    } else {
        after_push(
            all_pushed(e, modules, targets, command, args, n - 1),
            spec_for(modules[targets[n - 1] as int], command, args),
        )
    }
}

proof fn pushing_counts(
    e: EngineView,
    modules: Seq<ModuleView>,
    targets: Seq<usize>,
    command: Seq<char>,
    args: Seq<Seq<char>>,
    n: int,
)
    requires
        0 <= n,
        e.next_id + n <= usize::MAX,
    ensures
        all_pushed(e, modules, targets, command, args, n).next_id == e.next_id + n,
    decreases n,
{
    if n > 0 {
        pushing_counts(e, modules, targets, command, args, n - 1);
    }
}

/// A command that runs on several modules, until all its tasks are over.
pub struct HeadlessRun {
    pub engine: TaskEngine,
    pub task_ids: Vec<usize>,
}

/// What is printed for an update: a new line of output, with the module's name.
pub open spec fn printed(e: EngineView, update: Option<EngineUpdate>) -> Option<Seq<char>> {
    match update {
        Some(EngineUpdate::Line { task_id }) => if has_task(e.tasks, task_id) && e.tasks[find_task(
            e.tasks,
            task_id,
        )].output_lines.len() > 0 {
            let t = e.tasks[find_task(e.tasks, task_id)];
            Some("["@ + t.module_name + "] "@ + t.output_lines.last())
        } else {
            None
        },
        _ => None,
    }
}

/// How many of the first `n` tasks failed.
pub open spec fn failed_count(e: EngineView, ids: Seq<usize>, n: int) -> nat
    decreases n,
{
    if n <= 0 {
        0
    } else {
        failed_count(e, ids, n - 1) + if has_task(e.tasks, ids[n - 1]) && e.tasks[find_task(
            e.tasks,
            ids[n - 1],
        )].status == TaskStatus::Failed {
            1nat
        } else {
            0
        }
    }
}

impl HeadlessRun {
    /// Pushes the command for every target.
    pub fn start(
        config: &Config,
        modules: &Vec<Module>,
        targets: &Vec<usize>,
        command: &str,
        extra_args: &Vec<String>,
    ) -> (r: Self)
        requires
            forall|i: int| 0 <= i < targets@.len() ==> #[trigger] targets@[i] < modules@.len(),
        ensures
            r.engine@ == all_pushed(
                fresh_engine(config.binary@, config.parallelism),
                module_views(modules@),
                targets@,
                command@,
                texts(extra_args@),
                targets@.len() as int,
            ),
            r.task_ids@ == Seq::new(targets@.len(), |i: int| i as usize),
    {
        let ghost ms = module_views(modules@);
        let mut engine = TaskEngine::new(config.binary.clone(), config.parallelism);
        let ghost start = engine@;
        let n: usize = targets.len();
        let mut ids: Vec<usize> = Vec::new();
        let mut i: usize = 0;
        while i < n
            invariant
                i <= n,
                n == targets@.len(),
                ms == module_views(modules@),
                start.next_id == 0,
                forall|k: int| 0 <= k < targets@.len() ==> #[trigger] targets@[k] < modules@.len(),
                engine@ == all_pushed(
                    start,
                    ms,
                    targets@,
                    command@,
                    texts(extra_args@),
                    i as int,
                ),
                ids@ =~= Seq::new(i as nat, |k: int| k as usize),
            decreases n - i,
        {
            assert(targets@[i as int] < modules@.len());
            let m = &modules[targets[i]];
            assert(ms[targets@[i as int] as int] == module_view(*m));
            proof {
                pushing_counts(start, ms, targets@, command@, texts(extra_args@), i as int);
            }
            let none: Vec<String> = Vec::new();
            assert(texts(none@) =~= Seq::<Seq<char>>::empty());
            let spec = TaskSpec {
                module_dir: m.path.clone(),
                module_name: m.display_name.clone(),
                command: command.to_owned(),
                args: copy_strings(extra_args),
                plan_output: None,
                targets: none,
                apply_plan: None,
            };
            assert(spec@ =~= spec_for(
                ms[targets@[i as int] as int],
                command@,
                texts(extra_args@),
            ));
            ids.push(engine.push_task(spec));
            i += 1;
        }
        assert(ids@ =~= Seq::new(targets@.len(), |i: int| i as usize));
        HeadlessRun { engine, task_ids: ids }
    }

    /// Takes in an event of the runner; returns what is printed for it.
    pub fn step(&mut self, event: TaskEvent) -> (r: Option<String>)
        ensures
            final(self).engine@ == after_event(old(self).engine@, event).0,
            final(self).task_ids == old(self).task_ids,
            opt_text(r) == printed(
                final(self).engine@,
                after_event(old(self).engine@, event).1,
            ),
    {
        match self.engine.apply_event(event) {
            Some(EngineUpdate::Line { task_id }) => match self.engine.task(task_id) {
                Some(t) => {
                    let n: usize = t.output_lines.len();
                    assert(texts(t.output_lines@).len() == n);
                    if n > 0 {
                        assert(texts(t.output_lines@)[n - 1] == t.output_lines@[n - 1]@);
                        Some(
                            say4(
                                "[",
                                t.module_name.as_str(),
                                "] ",
                                t.output_lines[n - 1].as_str(),
                            ),
                        )
                    } else {
                        None
                    }
                },
                None => None,
            },
            _ => None,
        }
    }

    /// How the run ended: an error where tasks failed.
    pub fn outcome(&self) -> (r: Result<(), String>)
        ensures
            ({
                let failed = failed_count(self.engine@, self.task_ids@, self.task_ids@.len() as int);
                match r {
                    Ok(_) => failed == 0,
                    Err(e) => failed > 0 && e@ == decimal(failed) + " task(s) failed"@,
                }
            }),
            ids_sound(self.engine@) ==> match r {
                Ok(_) => forall|i: int|
                    0 <= i < self.task_ids@.len() ==> !has_failed(
                        self.engine@,
                        #[trigger] self.task_ids@[i],
                    ),
                Err(e) => {
                    let places = failed_places(self.engine@, self.task_ids@);
                    places.len() > 0 && e@ == decimal(places.len()) + " task(s) failed"@
                },
            },
    {
        proof {
            if ids_sound(self.engine@) {
                every_failure_counts(self.engine@, self.task_ids@);
            }
        }
        let mut failed: usize = 0;
        let mut n: usize = 0;
        while n < self.task_ids.len()
            invariant
                n <= self.task_ids@.len(),
                failed <= n,
                failed == failed_count(self.engine@, self.task_ids@, n as int),
            decreases self.task_ids@.len() - n,
        {
            if let Some(t) = self.engine.task(self.task_ids[n]) {
                if t.status == TaskStatus::Failed {
                    failed += 1;
                }
            }
            n += 1;
        }
        if failed > 0 {
            Err(concat(number(failed).as_str(), " task(s) failed"))
        } else {
            Ok(())
        }
    }
}

/// Whether the screens list a module: root modules, and library modules where
/// they are shown.
pub open spec fn is_on_screen(m: ModuleView, libraries: bool) -> bool {
    libraries || m.kind == ModuleKind::Root
}

/// Those of the first `n` modules that the screens list, by index.
pub open spec fn on_screen(modules: Seq<ModuleView>, libraries: bool, n: int) -> Seq<usize>
    decreases n,
{
    if n <= 0 {
        Seq::empty()
    } else {
        let before = on_screen(modules, libraries, n - 1);
        if is_on_screen(modules[n - 1], libraries) {
            before.push((n - 1) as usize)
        } else {
            before
        }
    }
}

/// The modules that the screens list at first, by index. An error where there
/// are none.
pub fn screen_modules(config: &Config, root: &str, modules: &Vec<Module>) -> (r: Result<
    Vec<usize>,
    String,
>)
    ensures
        ({
            let all = on_screen(
                module_views(modules@),
                config.show_library_modules,
                modules@.len() as int,
            );
            match r {
                Ok(v) => v@ == all && all.len() > 0,
                Err(e) => all.len() == 0 && e@ == "No terraform root modules found under "@ + root@,
            }
        }),
        r is Ok ==> forall|i: int| 0 <= i < r->Ok_0@.len() ==> #[trigger] r->Ok_0@[i] < modules@.len(),
{
    let ghost ms = module_views(modules@);
    let mut out: Vec<usize> = Vec::new();
    let mut n: usize = 0;
    while n < modules.len()
        invariant
            n <= modules@.len(),
            ms == module_views(modules@),
            out@ == on_screen(ms, config.show_library_modules, n as int),
            forall|i: int| 0 <= i < out@.len() ==> #[trigger] out@[i] < modules@.len(),
        decreases modules@.len() - n,
    {
        assert(ms[n as int] == module_view(modules@[n as int]));
        if config.show_library_modules || modules[n].is_root() {
            out.push(n);
        }
        n += 1;
    }
    if out.len() == 0 {
        Err(concat("No terraform root modules found under ", root))
    } else {
        Ok(out)
    }
}

/// A refresh of the screens lists the modules that they begin with, where the
/// same ones are found again.
pub proof fn screens_begin_as_refreshed(found: Seq<ModuleView>, libraries: bool)
    requires
        found.len() <= usize::MAX,
    ensures
        on_screen(found, libraries, found.len() as int).map_values(|i: usize| found[i as int])
            == listed(found, libraries),
{
    on_screen_are(found, libraries, found.len() as int);
    assert(found.take(found.len() as int) =~= found);
}

proof fn on_screen_are(found: Seq<ModuleView>, libraries: bool, n: int)
    requires
        0 <= n <= found.len() <= usize::MAX,
    ensures
        on_screen(found, libraries, n).map_values(|i: usize| found[i as int]) == if libraries {
            found.take(n)
        } else {
            roots_of(found, n)
        },
    decreases n,
{
    let at = |i: usize| found[i as int];
    let now = on_screen(found, libraries, n);
    if n > 0 {
        on_screen_are(found, libraries, n - 1);
        let before = on_screen(found, libraries, n - 1);
        assert(before.push((n - 1) as usize).map_values(at) =~= before.map_values(at).push(
            found[n - 1],
        ));
        assert(found.take(n) =~= found.take(n - 1).push(found[n - 1]));
    } else {
        assert(now.map_values(at) =~= Seq::<ModuleView>::empty());
        assert(found.take(0) =~= Seq::<ModuleView>::empty());
    }
}

/// Modules in different directories do not wait for each other: the command
/// starts for all of them at once, and there is one task for each, in order.
pub proof fn distinct_modules_start_at_once(
    e0: EngineView,
    modules: Seq<ModuleView>,
    targets: Seq<usize>,
    command: Seq<char>,
    args: Seq<Seq<char>>,
    n: int,
)
    requires
        e0 == fresh_engine(e0.binary, e0.parallelism),
        0 <= n <= targets.len(),
        n < usize::MAX,
        forall|i: int, j: int|
            0 <= i < j < targets.len() ==> components(modules[#[trigger] targets[i] as int].path)
                != components(modules[#[trigger] targets[j] as int].path),
    ensures
        ({
            let e = all_pushed(e0, modules, targets, command, args, n);
            &&& e.tasks.len() == n
            &&& e.outbox.len() == n
            &&& e.queues == Map::<Seq<Seq<char>>, crate::engine::QueuedView>::empty()
            &&& forall|i: int|
                0 <= i < n ==> {
                    let t = #[trigger] e.tasks[i];
                    &&& t.id == i
                    &&& t.spawned
                    &&& t.command == command
                    &&& t.module_dir == modules[targets[i] as int].path
                    &&& t.module_name == modules[targets[i] as int].name
                    &&& e.outbox[i] == ActionView::Spawn {
                        task_id: t.id,
                        module_dir: t.module_dir,
                        command,
                        args,
                        plan: PlanUse::Unused,
                    }
                }
        }),
    decreases n,
{
    let e = all_pushed(e0, modules, targets, command, args, n);
    if n > 0 {
        distinct_modules_start_at_once(e0, modules, targets, command, args, n - 1);
        pushing_counts(e0, modules, targets, command, args, n - 1);
        let before = all_pushed(e0, modules, targets, command, args, n - 1);
        running_are_pushed(e0, modules, targets, command, args, n - 1);
        let s = spec_for(modules[targets[n - 1] as int], command, args);
        assert(!before.running.contains(components(s.module_dir))) by {
            if before.running.contains(components(s.module_dir)) {
                let i = choose|i: int|
                    0 <= i < n - 1 && components(s.module_dir) == components(
                        modules[#[trigger] targets[i] as int].path,
                    );
                assert(components(modules[targets[i] as int].path) != components(
                    modules[targets[n - 1] as int].path,
                ));
            }
        }
        let tasks = before.tasks.push(crate::engine::new_task((n - 1) as usize, s));
        find_task_finds(tasks, (n - 1) as usize);
        let k = find_task(tasks, (n - 1) as usize);
        assert(k == n - 1) by {
            if k < n - 1 {
                assert(tasks[k] == before.tasks[k]);
            }
            assert(tasks[n - 1].id == n - 1);
        }
    }
}

proof fn running_are_pushed(
    e0: EngineView,
    modules: Seq<ModuleView>,
    targets: Seq<usize>,
    command: Seq<char>,
    args: Seq<Seq<char>>,
    n: int,
)
    requires
        e0 == fresh_engine(e0.binary, e0.parallelism),
        0 <= n <= targets.len(),
    ensures
        forall|d: Seq<Seq<char>>| #[trigger]
            all_pushed(e0, modules, targets, command, args, n).running.contains(d)
                ==> exists|i: int|
                0 <= i < n && d == components(modules[#[trigger] targets[i] as int].path),
    decreases n,
{
    if n > 0 {
        running_are_pushed(e0, modules, targets, command, args, n - 1);
        let before = all_pushed(e0, modules, targets, command, args, n - 1);
        let e = all_pushed(e0, modules, targets, command, args, n);
        assert forall|d: Seq<Seq<char>>| #[trigger] e.running.contains(d) implies exists|i: int|
            0 <= i < n && d == components(modules[#[trigger] targets[i] as int].path) by {
            if before.running.contains(d) {
                let i = choose|i: int|
                    0 <= i < n - 1 && d == components(modules[#[trigger] targets[i] as int].path);
                assert(0 <= i < n && d == components(modules[targets[i] as int].path));
            } else {
                assert(d == components(modules[targets[n - 1] as int].path));
            }
        }
    }
}

} // verus!
