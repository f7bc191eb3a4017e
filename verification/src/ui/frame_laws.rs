//! What lies over the screens, what heads them, and how output is coloured.

use crate::app::model::AppView;
use crate::app::session::display_of;
use crate::app::tasks::{over_count, pending_ids};
use crate::app::types::{ModalView, Screen, SessionModuleView, SessionView};
use crate::engine::find_task;
use crate::task::{TaskStatus, TaskView};
use crate::text::{decimal, holds};
use crate::ui::confirm::confirm_popup;
use crate::ui::frame::{over, PopupView, WidgetView};
use crate::ui::help::help_popup;
use crate::ui::layout::Rect;
use crate::ui::output::{base_color, bright_color, sgr_of, with_sgr};
use crate::ui::popups::{
    active_briefs, brief_of, cancel_popup, clear_popup, quit_popup, reset_popup, staged_briefs,
};
use crate::ui::run::{command_label, name_from, run_header, shown_count, word_of};
use crate::ui::style::{Color, Style};
use vstd::prelude::*;

verus! {

/// What is asked lies over the screen, last of all that is drawn: the question
/// that belongs to what is open, about what it is about.
#[verifier::rlimit(40)]
pub proof fn what_is_asked_lies_on_top(a: AppView, area: Rect)
    requires
        area.width >= 40,
        area.height >= 10,
        a.explorer is None,
        a.session is Some ==> !(a.session->0).fullscreen,
    ensures
        ({
            let v = a.frame(area);
            let n = a.engine.tasks.len() as int;
            match a.modal {
                Some(ModalView::Confirm { kind, targets }) => is_on_top(
                    v,
                    confirm_popup(kind, targets, area),
                ),
                Some(ModalView::Quit) => is_on_top(
                    v,
                    quit_popup(active_briefs(a.engine.tasks, n), area),
                ),
                Some(ModalView::Help) => is_on_top(v, help_popup(a.screen, area)),
                Some(ModalView::CancelTasks(ids)) => staged_briefs(
                    a.engine.tasks,
                    ids,
                    ids.len() as int,
                ).len() > 0 ==> is_on_top(
                    v,
                    cancel_popup(staged_briefs(a.engine.tasks, ids, ids.len() as int), area),
                ),
                Some(ModalView::ClearTasks) => over_count(a.engine.tasks, n) > 0 ==> is_on_top(
                    v,
                    clear_popup(
                        over_count(a.engine.tasks, n),
                        (n - over_count(a.engine.tasks, n)) as nat,
                        area,
                    ),
                ),
                Some(ModalView::Reset) => is_on_top(
                    v,
                    reset_popup(
                        a.engine.plans.dom().len(),
                        pending_ids(a.engine.tasks, n).len(),
                        over_count(a.engine.tasks, n),
                        area,
                    ),
                ),
                None => true,
            }
        }),
{
    let below = match a.screen {
        Screen::Select => crate::ui::select::select_frame(a, area),
        Screen::Run => a.run_frame(area),
    };
    assert(a.frame(area) == below + a.overlay(area));
    put_on_top(below, a.overlay(area));
}

/// Whether a popup is what was drawn last, on a blanked area.
#[verifier::opaque]
pub open spec fn is_on_top(v: Seq<WidgetView>, p: PopupView) -> bool {
    &&& v.len() >= 2
    &&& v[v.len() - 1] == WidgetView::Framed(p)
    &&& v[v.len() - 2] == WidgetView::Clear { area: p.area }
}

proof fn put_on_top(below: Seq<WidgetView>, on: Seq<WidgetView>)
    ensures
        forall|p: PopupView| on == over(p) ==> #[trigger] is_on_top(below + on, p),
{
    reveal(is_on_top);
    assert forall|p: PopupView| on == over(p) implies #[trigger] is_on_top(below + on, p) by {
        let v = below + on;
        assert(on.len() == 2);
        assert(v[v.len() - 1] == on[1]);
        assert(v[v.len() - 2] == on[0]);
    }
}

proof fn staged_are(tasks: Seq<TaskView>, ids: Seq<usize>, n: int)
    requires
        0 <= n <= ids.len(),
    ensures
        forall|i: int|
            0 <= i < n && find_task(tasks, #[trigger] ids[i]) < tasks.len() ==> staged_briefs(
                tasks,
                ids,
                n,
            ).contains(brief_of(tasks[find_task(tasks, ids[i])])),
    decreases n,
{
    if n > 0 {
        staged_are(tasks, ids, n - 1);
        let before = staged_briefs(tasks, ids, n - 1);
        let after = staged_briefs(tasks, ids, n);
        assert forall|i: int|
            0 <= i < n && find_task(tasks, #[trigger] ids[i]) < tasks.len() implies after.contains(
            brief_of(tasks[find_task(tasks, ids[i])]),
        ) by {
            let b = brief_of(tasks[find_task(tasks, ids[i])]);
            if i < n - 1 {
                let k = choose|k: int| 0 <= k < before.len() && before[k] == b;
                assert(after[k] == b);
            } else {
                assert(after[before.len() as int] == b);
            }
        }
    }
}

/// A cancel is asked about with the module and the command of every task that it
/// is about.
pub proof fn staged_tasks_are_listed(tasks: Seq<TaskView>, ids: Seq<usize>, i: int, k: int)
    requires
        0 <= i < ids.len(),
        find_task(tasks, ids[i]) == k,
        k < tasks.len(),
    ensures
        exists|j: int|
            0 <= j < staged_briefs(tasks, ids, ids.len() as int).len() && (#[trigger] staged_briefs(
                tasks,
                ids,
                ids.len() as int,
            )[j]).name == tasks[k].module_name && staged_briefs(
                tasks,
                ids,
                ids.len() as int,
            )[j].command == tasks[k].command,
{
    staged_are(tasks, ids, ids.len() as int);
    let b = staged_briefs(tasks, ids, ids.len() as int);
    let j = choose|j: int| 0 <= j < b.len() && b[j] == brief_of(tasks[k]);
    assert(b[j].name == tasks[k].module_name);
}

/// The places of the tasks that are over.
pub open spec fn over_places(tasks: Seq<TaskView>, n: int) -> Set<int> {
    Set::new(|i: int| 0 <= i < n && tasks[i].status.over())
}

/// The number of completed tasks is the number of those that are over.
pub proof fn completed_tasks_are_counted(tasks: Seq<TaskView>, n: int)
    requires
        0 <= n <= tasks.len(),
    ensures
        over_places(tasks, n).finite(),
        over_count(tasks, n) == over_places(tasks, n).len(),
    decreases n,
{
    let now = over_places(tasks, n);
    if n <= 0 {
        assert(now =~= Set::<int>::empty());
    } else {
        completed_tasks_are_counted(tasks, n - 1);
        let before = over_places(tasks, n - 1);
        if tasks[n - 1].status.over() {
            assert(now =~= before.insert(n - 1));
        } else {
            assert(now =~= before);
        }
    }
}

/// The places of the tasks that are queued.
pub open spec fn pending_places(tasks: Seq<TaskView>, n: int) -> Set<int> {
    Set::new(|i: int| 0 <= i < n && tasks[i].status == TaskStatus::Pending)
}

/// The tasks that a reset cancels are exactly those that are queued.
pub proof fn queued_tasks_are_counted(tasks: Seq<TaskView>, n: int)
    requires
        0 <= n <= tasks.len(),
    ensures
        pending_places(tasks, n).finite(),
        pending_ids(tasks, n).len() == pending_places(tasks, n).len(),
        forall|i: int|
            0 <= i < n && (#[trigger] tasks[i]).status == TaskStatus::Pending ==> pending_ids(
                tasks,
                n,
            ).contains(tasks[i].id),
    decreases n,
{
    let now = pending_places(tasks, n);
    if n <= 0 {
        assert(now =~= Set::<int>::empty());
    } else {
        queued_tasks_are_counted(tasks, n - 1);
        let before = pending_places(tasks, n - 1);
        let had = pending_ids(tasks, n - 1);
        let have = pending_ids(tasks, n);
        assert forall|i: int|
            0 <= i < n && (#[trigger] tasks[i]).status == TaskStatus::Pending implies have.contains(
            tasks[i].id,
        ) by {
            if i < n - 1 {
                let k = choose|k: int| 0 <= k < had.len() && had[k] == tasks[i].id;
                assert(have[k] == tasks[i].id);
            } else {
                assert(have[had.len() as int] == tasks[i].id);
            }
        }
        if tasks[n - 1].status == TaskStatus::Pending {
            assert(now =~= before.insert(n - 1));
        } else {
            assert(now =~= before);
        }
    }
}

/// The places of a run's modules that show a task with such a status.
pub open spec fn status_places(
    a: AppView,
    ms: Seq<SessionModuleView>,
    n: int,
    f: spec_fn(TaskStatus) -> bool,
) -> Set<int> {
    Set::new(
        |i: int|
            0 <= i < n && display_of(a.engine, a.session, ms[i].path) is Some && f(
                a.engine.tasks[(display_of(a.engine, a.session, ms[i].path)->0).0].status,
            ),
    )
}

/// How many modules are running, done or failed is counted over the tasks that
/// they show.
pub proof fn shown_tasks_are_counted(
    a: AppView,
    ms: Seq<SessionModuleView>,
    n: int,
    f: spec_fn(TaskStatus) -> bool,
)
    requires
        0 <= n <= ms.len(),
    ensures
        status_places(a, ms, n, f).finite(),
        shown_count(a, ms, n, f) == status_places(a, ms, n, f).len(),
    decreases n,
{
    let now = status_places(a, ms, n, f);
    if n <= 0 {
        assert(now =~= Set::<int>::empty());
    } else {
        shown_tasks_are_counted(a, ms, n - 1, f);
        let before = status_places(a, ms, n - 1, f);
        let shown = display_of(a.engine, a.session, ms[n - 1].path);
        if shown is Some && f(a.engine.tasks[(shown->0).0].status) {
            assert(now =~= before.insert(n - 1));
        } else {
            assert(now =~= before);
        }
    }
}

/// The head of the run screen tells how many modules have a task that succeeded
/// and how many one that failed.
#[verifier::rlimit(40)]
pub proof fn the_head_tells_of_success_and_failure(a: AppView, s: SessionView)
    ensures
        ({
            let n = s.modules.len() as int;
            let l = run_header(a, s);
            &&& l.spans[2].content == "✓"@ + decimal(
                status_places(a, s.modules, n, |t: TaskStatus| t == TaskStatus::Success).len(),
            )
            &&& l.spans[4].content == "✗"@ + decimal(
                status_places(a, s.modules, n, |t: TaskStatus| t == TaskStatus::Failed).len(),
            )
        }),
{
    let n = s.modules.len() as int;
    shown_tasks_are_counted(a, s.modules, n, |t: TaskStatus| t == TaskStatus::Success);
    shown_tasks_are_counted(a, s.modules, n, |t: TaskStatus| t == TaskStatus::Failed);
}

proof fn the_first_is_itself(ms: Seq<SessionModuleView>, k: int, i: int)
    requires
        0 <= i <= k < ms.len(),
        forall|j: int| i <= j < k ==> (#[trigger] ms[j]).place() != ms[k].place(),
    ensures
        name_from(ms, ms[k].path, i) == Some(ms[k].name),
    decreases k - i,
{
    if i < k {
        assert(ms[i].place() != ms[k].place());
        the_first_is_itself(ms, k, i + 1);
    }
}

/// The title above the output names the module under the cursor, and the command
/// and state of its task.
pub proof fn the_title_names_the_module(a: AppView)
    requires
        a.session is Some,
        (a.session->0).cursor < (a.session->0).modules.len(),
        forall|i: int, j: int|
            0 <= i < j < (a.session->0).modules.len() ==> (#[trigger] (
            a.session->0).modules[i]).place() != (#[trigger] (a.session->0).modules[j]).place(),
    ensures
        ({
            let m = (a.session->0).modules[(a.session->0).cursor as int];
            let k = a.shown_task();
            &&& holds(a.rule_title(), m.name)
            &&& holds(a.fullscreen_title(), m.name)
            &&& k is Some ==> holds(a.rule_title(), a.engine.tasks[k->0].command)
            &&& k is Some ==> holds(a.rule_title(), word_of(a.engine.tasks[k->0].status))
            &&& k is Some ==> holds(a.fullscreen_title(), a.engine.tasks[k->0].command)
            &&& k is None ==> holds(a.rule_title(), "idle"@)
        }),
{
    let s = a.session->0;
    let c = s.cursor as int;
    let m = s.modules[c];
    the_first_is_itself(s.modules, c, 0);
    assert(a.cursor_name() == Some(m.name));
    titles_tell(a, m.name);
}

#[verifier::rlimit(40)]
proof fn titles_tell(a: AppView, name: Seq<char>)
    requires
        a.cursor_module() is Some,
        a.cursor_name() == Some(name),
    ensures
        ({
            let k = a.shown_task();
            &&& holds(a.rule_title(), name)
            &&& holds(a.fullscreen_title(), name)
            &&& k is Some ==> holds(a.rule_title(), a.engine.tasks[k->0].command)
            &&& k is Some ==> holds(a.rule_title(), word_of(a.engine.tasks[k->0].status))
            &&& k is Some ==> holds(a.fullscreen_title(), a.engine.tasks[k->0].command)
            &&& k is None ==> holds(a.rule_title(), "idle"@)
        }),
{
    let sp = " "@;
    let dot = " · "@;
    match a.shown_task() {
        Some(k) => {
            let t = a.engine.tasks[k];
            label_tells(t);
            let rest = choose|rest: Seq<char>| command_label(t) == #[trigger] (t.command + rest);
            long_title_tells(sp, name, dot, t.command, rest, word_of(t.status));
            short_title_tells(sp, name, dot, t.command, rest);
        },
        None => {
            let none = Seq::<char>::empty();
            long_title_tells(sp, name, dot, "—"@, none, "idle"@);
            short_title_tells(sp, name, dot, "—"@, none);
            assert("—"@ + none =~= "—"@);
        },
    }
}

#[verifier::rlimit(40)]
proof fn long_title_tells(
    sp: Seq<char>,
    name: Seq<char>,
    dot: Seq<char>,
    command: Seq<char>,
    rest: Seq<char>,
    word: Seq<char>,
)
    ensures
        ({
            let title = sp + name + dot + (command + rest) + dot + word + sp;
            &&& holds(title, name)
            &&& holds(title, command)
            &&& holds(title, word)
        }),
{
    let title = sp + name + dot + (command + rest) + dot + word + sp;
    let a = dot + (command + rest) + dot + word + sp;
    assert(title =~= sp + name + a);
    between(sp, name, a);
    let b = sp + name + dot;
    let c = rest + dot + word + sp;
    assert(title =~= b + command + c);
    between(b, command, c);
    between(b + (command + rest) + dot, word, sp);
}

proof fn short_title_tells(
    sp: Seq<char>,
    name: Seq<char>,
    dot: Seq<char>,
    command: Seq<char>,
    rest: Seq<char>,
)
    ensures
        ({
            let title = sp + name + dot + (command + rest) + sp;
            &&& holds(title, name)
            &&& holds(title, command)
        }),
{
    let title = sp + name + dot + (command + rest) + sp;
    let a = dot + (command + rest) + sp;
    assert(title =~= sp + name + a);
    between(sp, name, a);
    let b = sp + name + dot;
    assert(title =~= b + command + (rest + sp));
    between(b, command, rest + sp);
}

proof fn label_tells(t: TaskView)
    ensures
        exists|rest: Seq<char>| command_label(t) == #[trigger] (t.command + rest),
{
    if t.targets.len() == 0 {
        assert(command_label(t) =~= t.command + Seq::<char>::empty());
    } else {
        assert(command_label(t) =~= t.command + ("·T"@ + decimal(t.targets.len())));
    }
}

proof fn between(a: Seq<char>, b: Seq<char>, c: Seq<char>)
    ensures
        holds(a + b + c, b),
{
    assert((a + b + c).subrange(a.len() as int, (a.len() + b.len()) as int) =~= b);
    assert(crate::text::stands_at(a + b + c, b, a.len() as int));
}

/// The eight colours of a terminal, in the order of their numbers.
pub open spec fn palette() -> Seq<Color> {
    seq![
        Color::Black,
        Color::Red,
        Color::Green,
        Color::Yellow,
        Color::Blue,
        Color::Magenta,
        Color::Cyan,
        Color::White,
    ]
}

/// Their bright forms.
pub open spec fn bright_palette() -> Seq<Color> {
    seq![
        Color::DarkGray,
        Color::LightRed,
        Color::LightGreen,
        Color::LightYellow,
        Color::LightBlue,
        Color::LightMagenta,
        Color::LightCyan,
        Color::Gray,
    ]
}

proof fn digits_are()
    ensures
        "0"@ == seq!['0'],
        "1"@ == seq!['1'],
        "2"@ == seq!['2'],
        "3"@ == seq!['3'],
        "4"@ == seq!['4'],
        "5"@ == seq!['5'],
        "6"@ == seq!['6'],
        "7"@ == seq!['7'],
        "9"@ == seq!['9'],
        "39"@ == seq!['3', '9'],
        "49"@ == seq!['4', '9'],
{
    reveal_strlit("0");
    reveal_strlit("1");
    reveal_strlit("2");
    reveal_strlit("3");
    reveal_strlit("4");
    reveal_strlit("5");
    reveal_strlit("6");
    reveal_strlit("7");
    reveal_strlit("9");
    reveal_strlit("39");
    reveal_strlit("49");
    assert("0"@ =~= seq!['0']);
    assert("1"@ =~= seq!['1']);
    assert("2"@ =~= seq!['2']);
    assert("3"@ =~= seq!['3']);
    assert("4"@ =~= seq!['4']);
    assert("5"@ =~= seq!['5']);
    assert("6"@ =~= seq!['6']);
    assert("7"@ =~= seq!['7']);
    assert("9"@ =~= seq!['9']);
    assert("39"@ =~= seq!['3', '9']);
    assert("49"@ =~= seq!['4', '9']);
}

#[verifier::rlimit(40)]
proof fn colours_are(d: int)
    requires
        0 <= d < 8,
    ensures
        base_color(seq![crate::text::digit(d)]) == Some(palette()[d]),
        bright_color(seq![crate::text::digit(d)]) == Some(bright_palette()[d]),
{
    digits_are();
    let c = crate::text::digit(d);
    assert(c as int == d + 48);
    let s = seq![c];
    assert(s[0] == c);
    assert(seq!['0'][0] == '0');
    assert(seq!['1'][0] == '1');
    assert(seq!['2'][0] == '2');
    assert(seq!['3'][0] == '3');
    assert(seq!['4'][0] == '4');
    assert(seq!['5'][0] == '5');
    assert(seq!['6'][0] == '6');
    assert(seq!['7'][0] == '7');
    if d == 0 {
        assert(s =~= seq!['0']);
    } else if d == 1 {
        assert(s =~= seq!['1']);
    } else if d == 2 {
        assert(s =~= seq!['2']);
    } else if d == 3 {
        assert(s =~= seq!['3']);
    } else if d == 4 {
        assert(s =~= seq!['4']);
    } else if d == 5 {
        assert(s =~= seq!['5']);
    } else if d == 6 {
        assert(s =~= seq!['6']);
    } else {
        assert(s =~= seq!['7']);
    }
}

/// A colour code sets the foreground or the background to the colour that its
/// last digit numbers, plain or bright, and leaves the rest of the style.
#[verifier::rlimit(40)]
pub proof fn colour_codes_set_colours(s: Style, d: int)
    requires
        0 <= d < 8,
    ensures
        ({
            let c = crate::text::digit(d);
            &&& with_sgr(s, sgr_of(seq!['3', c])) == s.with_fg(palette()[d])
            &&& with_sgr(s, sgr_of(seq!['4', c])) == s.with_bg(palette()[d])
            &&& with_sgr(s, sgr_of(seq!['9', c])) == s.with_fg(bright_palette()[d])
            &&& with_sgr(s, sgr_of(seq!['1', '0', c])) == s.with_bg(bright_palette()[d])
        }),
{
    digits_are();
    colours_are(d);
    let c = crate::text::digit(d);
    assert(c as int == d + 48);
    let a = seq!['3', c];
    let b = seq!['4', c];
    let e = seq!['9', c];
    let f = seq!['1', '0', c];
    assert(a.skip(1) =~= seq![c]);
    assert(b.skip(1) =~= seq![c]);
    assert(e.skip(1) =~= seq![c]);
    assert(f.skip(2) =~= seq![c]);
    assert(a[1] == c && b[1] == c && e[1] == c);
    assert(seq!['3', '9'][1] == '9');
    assert(seq!['4', '9'][1] == '9');
    assert(seq!['3', '9'][0] == '3');
    assert(seq!['4', '9'][0] == '4');
}

/// Attributes add up, and a reset takes everything back: whatever was set before
/// does not matter.
#[verifier::rlimit(40)]
pub proof fn a_reset_takes_everything_back(s: Style)
    ensures
        with_sgr(s, sgr_of("0"@)) == crate::ui::style::plain(),
        with_sgr(s, sgr_of(Seq::empty())) == crate::ui::style::plain(),
        with_sgr(s, sgr_of("1"@)) == s.with_bold(),
        with_sgr(s, sgr_of("2"@)) == s.with_dim(),
        with_sgr(s, sgr_of("3"@)) == s.with_italic(),
        with_sgr(s, sgr_of("4"@)) == s.with_underlined(),
        with_sgr(s, sgr_of("9"@)) == s.with_crossed_out(),
        with_sgr(s, sgr_of("39"@)) == s.with_fg(Color::Reset),
        with_sgr(s, sgr_of("49"@)) == s.with_bg(Color::Reset),
{
    digits_are();
    assert("0"@[0] == '0' && "1"@[0] == '1' && "2"@[0] == '2' && "3"@[0] == '3' && "4"@[0] == '4'
        && "9"@[0] == '9');
    assert("39"@.len() == 2 && "49"@.len() == 2 && "39"@[0] == '3' && "49"@[0] == '4');
}

} // verus!
