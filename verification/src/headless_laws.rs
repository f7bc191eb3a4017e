//! What a command without a screen runs on, and how it is judged.

use crate::discovery::ModuleView;
use crate::engine::{find_task_finds, EngineUpdate, EngineView};
use crate::engine_laws::ids_sound;
use crate::headless::{
    bullet_lines, failed_count, list_text, matching, on_screen, printed, prompt_text,
};
use crate::module::ModuleKind;
use crate::task::TaskStatus;
use crate::text::{holds, stands_at};
use vstd::prelude::*;

verus! {

/// Which of the first modules a command runs on.
pub proof fn matching_are(modules: Seq<ModuleView>, filter: Seq<char>, n: int)
    requires
        0 <= n <= modules.len() <= usize::MAX,
    ensures
        ({
            let r = matching(modules, filter, n);
            &&& forall|i: int|
                0 <= i < n ==> (r.contains(i as usize) <==> (#[trigger] modules[i]).kind
                    == ModuleKind::Root && (filter.len() == 0 || holds(modules[i].name, filter)))
            &&& forall|k: int| 0 <= k < r.len() ==> (#[trigger] r[k]) < n
            &&& forall|j: int, k: int| 0 <= j < k < r.len() ==> (#[trigger] r[j]) < (#[trigger] r[k])
        }),
    decreases n,
{
    if n > 0 {
        matching_are(modules, filter, n - 1);
        let before = matching(modules, filter, n - 1);
        let r = matching(modules, filter, n);
        assert forall|i: int| 0 <= i < n implies (r.contains(i as usize) <==> (
        #[trigger] modules[i]).kind == ModuleKind::Root && (filter.len() == 0 || holds(
            modules[i].name,
            filter,
        ))) by {
            if before.contains(i as usize) {
                let k = choose|k: int| 0 <= k < before.len() && before[k] == i as usize;
                assert(r[k] == i as usize);
            }
            if r.contains(i as usize) {
                let k = choose|k: int| 0 <= k < r.len() && r[k] == i as usize;
                if k < before.len() {
                    assert(before[k] == i as usize);
                    assert(before.contains(i as usize));
                }
            }
            if i == n - 1 {
                if r.len() > before.len() {
                    assert(r[before.len() as int] == i as usize);
                }
                if before.contains(i as usize) {
                    let k = choose|k: int| 0 <= k < before.len() && before[k] == i as usize;
                    assert(before[k] < n - 1);
                }
            }
        }
    }
}

/// A command runs on a module exactly where that is a root module and there is
/// no filter, or its name holds the filter. This does not depend on any other
/// module. No module is run on twice, and they come in the order of the list.
pub proof fn a_command_runs_on_what_matches(modules: Seq<ModuleView>, filter: Seq<char>, i: int)
    requires
        0 <= i < modules.len() <= usize::MAX,
    ensures
        matching(modules, filter, modules.len() as int).contains(i as usize) <==> modules[i].kind
            == ModuleKind::Root && (filter.len() == 0 || exists|at: int|
            0 <= at && at + filter.len() <= modules[i].name.len()
                && #[trigger] modules[i].name.subrange(at, at + filter.len()) == filter),
        ({
            let r = matching(modules, filter, modules.len() as int);
            &&& forall|k: int| 0 <= k < r.len() ==> (#[trigger] r[k]) < modules.len()
            &&& forall|j: int, k: int| 0 <= j < k < r.len() ==> (#[trigger] r[j]) < (#[trigger] r[k])
        }),
{
    matching_are(modules, filter, modules.len() as int);
    assert(modules[i].kind == modules[i].kind);
    let name = modules[i].name;
    if holds(name, filter) {
        let at = choose|at: int| stands_at(name, filter, at);
        assert(name.subrange(at, at + filter.len()) == filter);
    }
    if exists|at: int|
        0 <= at && at + filter.len() <= name.len() && #[trigger] name.subrange(
            at,
            at + filter.len(),
        ) == filter {
        let at = choose|at: int|
            0 <= at && at + filter.len() <= name.len() && #[trigger] name.subrange(
                at,
                at + filter.len(),
            ) == filter;
        assert(stands_at(name, filter, at));
    }
}

/// The screens list a module exactly where that is a root module or libraries are
/// shown; in the order in which they were found, and none twice.
pub proof fn the_screens_list_what_is_shown(modules: Seq<ModuleView>, libraries: bool, i: int)
    requires
        0 <= i < modules.len() <= usize::MAX,
    ensures
        on_screen(modules, libraries, modules.len() as int).contains(i as usize) <==> libraries
            || modules[i].kind == ModuleKind::Root,
        ({
            let r = on_screen(modules, libraries, modules.len() as int);
            &&& forall|k: int| 0 <= k < r.len() ==> (#[trigger] r[k]) < modules.len()
            &&& forall|j: int, k: int| 0 <= j < k < r.len() ==> (#[trigger] r[j]) < (#[trigger] r[k])
        }),
{
    on_screen_holds(modules, libraries, modules.len() as int);
    assert(modules[i].kind == modules[i].kind);
}

proof fn on_screen_holds(modules: Seq<ModuleView>, libraries: bool, n: int)
    requires
        0 <= n <= modules.len() <= usize::MAX,
    ensures
        ({
            let r = on_screen(modules, libraries, n);
            &&& forall|i: int|
                0 <= i < n ==> (r.contains(i as usize) <==> libraries || (
                #[trigger] modules[i]).kind == ModuleKind::Root)
            &&& forall|k: int| 0 <= k < r.len() ==> (#[trigger] r[k]) < n
            &&& forall|j: int, k: int| 0 <= j < k < r.len() ==> (#[trigger] r[j]) < (#[trigger] r[k])
        }),
    decreases n,
{
    if n > 0 {
        on_screen_holds(modules, libraries, n - 1);
        let before = on_screen(modules, libraries, n - 1);
        let r = on_screen(modules, libraries, n);
        assert forall|i: int| 0 <= i < n implies (r.contains(i as usize) <==> libraries || (
        #[trigger] modules[i]).kind == ModuleKind::Root) by {
            if before.contains(i as usize) {
                let k = choose|k: int| 0 <= k < before.len() && before[k] == i as usize;
                assert(r[k] == i as usize);
                assert(before[k] < n - 1);
            }
            if r.contains(i as usize) {
                let k = choose|k: int| 0 <= k < r.len() && r[k] == i as usize;
                if k < before.len() {
                    assert(before[k] == i as usize);
                    assert(before.contains(i as usize));
                }
            }
            if i == n - 1 && r.len() > before.len() {
                assert(r[before.len() as int] == i as usize);
            }
        }
    }
}

/// Whether the task with `id` has failed.
pub open spec fn has_failed(e: EngineView, id: usize) -> bool {
    exists|k: int|
        0 <= k < e.tasks.len() && (#[trigger] e.tasks[k]).id == id && e.tasks[k].status
            == TaskStatus::Failed
}

/// The places in `ids` of the tasks that have failed.
pub open spec fn failed_places(e: EngineView, ids: Seq<usize>) -> Set<int> {
    Set::new(|i: int| 0 <= i < ids.len() && has_failed(e, ids[i]))
}

proof fn failing_is_counted(e: EngineView, ids: Seq<usize>, n: int)
    requires
        ids_sound(e),
        0 <= n <= ids.len(),
    ensures
        failed_places(e, ids.take(n)).finite(),
        failed_count(e, ids, n) == failed_places(e, ids.take(n)).len(),
    decreases n,
{
    let now = failed_places(e, ids.take(n));
    if n <= 0 {
        assert(now =~= Set::<int>::empty());
    } else {
        failing_is_counted(e, ids, n - 1);
        let before = failed_places(e, ids.take(n - 1));
        let id = ids[n - 1];
        find_task_finds(e.tasks, id);
        assert forall|i: int| 0 <= i < n - 1 implies ids.take(n)[i] == ids.take(n - 1)[i] by {}
        if has_failed(e, id) {
            let k = choose|k: int|
                0 <= k < e.tasks.len() && (#[trigger] e.tasks[k]).id == id && e.tasks[k].status
                    == TaskStatus::Failed;
            let f = crate::engine::find_task(e.tasks, id);
            if f < k {
                assert(e.tasks[f].id != e.tasks[k].id);
            } else if k < f {
                assert(e.tasks[k].id != e.tasks[f].id);
            }
            assert(now =~= before.insert(n - 1));
        } else {
            assert(now =~= before);
        }
    }
}

/// A run counts as failed exactly where one of its tasks has failed, whichever it
/// is, and what is reported is how many have.
pub proof fn every_failure_counts(e: EngineView, ids: Seq<usize>)
    requires
        ids_sound(e),
    ensures
        failed_count(e, ids, ids.len() as int) == failed_places(e, ids).len(),
        failed_count(e, ids, ids.len() as int) == 0 <==> forall|i: int|
            0 <= i < ids.len() ==> !has_failed(e, #[trigger] ids[i]),
{
    let n = ids.len() as int;
    assert(ids.take(n) =~= ids);
    failing_is_counted(e, ids, n);
    let places = failed_places(e, ids);
    if failed_count(e, ids, n) == 0 {
        assert forall|i: int| 0 <= i < n implies !has_failed(e, #[trigger] ids[i]) by {
            if has_failed(e, ids[i]) {
                assert(places.contains(i));
                places.lemma_len0_is_empty();
            }
        }
    }
    if forall|i: int| 0 <= i < n ==> !has_failed(e, #[trigger] ids[i]) {
        assert(places =~= Set::<int>::empty());
    }
}

proof fn bullets_hold(modules: Seq<ModuleView>, targets: Seq<usize>, n: int, i: int)
    requires
        0 <= i < n <= targets.len(),
    ensures
        holds(
            bullet_lines(modules, targets, n),
            "  • "@ + modules[targets[i] as int].name + "\n"@,
        ),
    decreases n,
{
    let all = bullet_lines(modules, targets, n);
    let before = bullet_lines(modules, targets, n - 1);
    let l = "  • "@ + modules[targets[i] as int].name + "\n"@;
    if i == n - 1 {
        assert(all.subrange(before.len() as int, before.len() as int + l.len()) =~= l);
        assert(stands_at(all, l, before.len() as int));
    } else {
        bullets_hold(modules, targets, n - 1, i);
        let at = choose|at: int| stands_at(before, l, at);
        assert(all.subrange(at, at + l.len()) =~= before.subrange(at, at + l.len()));
        assert(stands_at(all, l, at));
    }
}

/// The question before a command names every module that it would run on, each
/// on a line of its own, and the command in capitals.
pub proof fn the_question_names_every_target(
    command: Seq<char>,
    modules: Seq<ModuleView>,
    targets: Seq<usize>,
    i: int,
)
    requires
        0 <= i < targets.len(),
    ensures
        holds(
            prompt_text(command, modules, targets),
            "  • "@ + modules[targets[i] as int].name + "\n"@,
        ),
        holds(
            prompt_text(command, modules, targets),
            "About to run "@ + crate::text::uppercase(command) + " on "@,
        ),
{
    reveal_strlit("\nAbout to run ");
    reveal_strlit("About to run ");
    let n = targets.len() as int;
    bullets_hold(modules, targets, n, i);
    let all = prompt_text(command, modules, targets);
    let list = bullet_lines(modules, targets, n);
    let tail = "\nContinue? [y/N] "@;
    let head_len = all.len() - tail.len() - list.len();
    assert(all.subrange(head_len, head_len + list.len()) =~= list);
    assert(stands_at(all, list, head_len));
    crate::text_laws::holding_is_transitive(
        all,
        list,
        "  • "@ + modules[targets[i] as int].name + "\n"@,
    );
    let lead = "About to run "@ + crate::text::uppercase(command) + " on "@;
    assert("\nAbout to run "@.skip(1) =~= "About to run "@);
    assert(all.subrange(1, 1int + lead.len()) =~= lead);
    assert(stands_at(all, lead, 1));
}

/// The module list has a line for where the configuration came from, and one for
/// each module: its name, and a tag where it is a library.
pub proof fn the_list_names_every_module(
    source: Option<Seq<char>>,
    root: Seq<char>,
    modules: Seq<ModuleView>,
    i: int,
)
    requires
        0 <= i < modules.len(),
    ensures
        ({
            let r = list_text(source, root, modules);
            &&& r.len() == modules.len() + 1
            &&& modules[i].kind == ModuleKind::Root ==> r[i + 1] == modules[i].name
            &&& modules[i].kind == ModuleKind::Library ==> r[i + 1] == modules[i].name
                + " (library)"@
            &&& source is Some ==> r[0] == "config: "@ + source->0
            &&& source is None ==> r[0] == "config: (defaults)"@
        }),
{
    reveal_strlit("");
    assert(modules[i].name + ""@ =~= modules[i].name);
}

/// A line of output is printed behind the name of its module in brackets, and
/// nothing else is printed.
pub proof fn output_is_printed_with_its_module(e: EngineView, k: int, other: EngineUpdate)
    requires
        ids_sound(e),
        0 <= k < e.tasks.len(),
        e.tasks[k].output_lines.len() > 0,
        !(other is Line),
    ensures
        printed(e, Some(EngineUpdate::Line { task_id: e.tasks[k].id })) == Some(
            "["@ + e.tasks[k].module_name + "] "@ + e.tasks[k].output_lines.last(),
        ),
        printed(e, Some(other)) is None,
        printed(e, None) is None,
{
    let id = e.tasks[k].id;
    find_task_finds(e.tasks, id);
    let f = crate::engine::find_task(e.tasks, id);
    if f < k {
        assert(e.tasks[f].id != e.tasks[k].id);
    } else if k < f {
        assert(e.tasks[k].id != e.tasks[f].id);
    }
}

} // verus!
