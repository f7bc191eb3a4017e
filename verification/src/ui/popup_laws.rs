//! What the overlays say.

use crate::app::types::{ConfirmKind, ExplorerOpKind, OpResultView, PendingOpView, TargetView};
use crate::task::TaskView;
use crate::text::{decimal, holds, stands_at};
use crate::text_laws::holding_is_transitive;
use crate::ui::confirm::{
    confirm_lines, confirm_popup, note_of, question, restricted_to, restriction_lines, target_row,
    warned_of, with_new,
};
use crate::ui::frame::{longest, padded};
use crate::ui::layout::Rect;
use crate::ui::popups::{
    active_briefs, brief_names, brief_of, cancel_lines, cancel_popup, cancel_row, clear_popup,
    counted, op_lines, op_popup, op_question, op_warning, progress_lines, progress_popup,
    quit_lines, quit_popup, reset_popup, result_lines, result_popup, BriefView,
};
use crate::ui::style::{text_of, text_of_one, Color, LineView, SpanView};
use crate::ui::theme::in_color;
use vstd::prelude::*;

verus! {

/// The text of a line.
pub open spec fn line_text(l: LineView) -> Seq<char> {
    text_of(l.spans)
}

proof fn stands_between(a: Seq<char>, b: Seq<char>, c: Seq<char>)
    ensures
        holds(a + b + c, b),
{
    assert((a + b + c).subrange(a.len() as int, (a.len() + b.len()) as int) =~= b);
    assert(stands_at(a + b + c, b, a.len() as int));
}

proof fn text_of_two(s: SpanView, t: SpanView)
    ensures
        text_of(seq![s, t]) == s.content + t.content,
{
    text_of_one(s);
    assert(seq![s, t].drop_last() =~= seq![s]);
}

proof fn text_of_three(s: SpanView, t: SpanView, u: SpanView)
    ensures
        text_of(seq![s, t, u]) == s.content + t.content + u.content,
{
    text_of_two(s, t);
    assert(seq![s, t, u].drop_last() =~= seq![s, t]);
}

proof fn padding_keeps(s: Seq<char>, width: nat)
    ensures
        exists|rest: Seq<char>| padded(s, width) == #[trigger] (s + rest),
{
    if s.len() < width {
        assert(padded(s, width) == s + crate::text::repeated(' ', (width - s.len()) as nat));
    } else {
        assert(padded(s, width) =~= s + Seq::<char>::empty());
    }
}

/// A confirmation has a line for every target, in order, with its name and with
/// what is known of it. It says what is to be run, and on how many modules.
#[verifier::rlimit(40)]
pub proof fn a_confirmation_tells_of_every_target(
    kind: ConfirmKind,
    ts: Seq<TargetView>,
    i: int,
    area: Rect,
)
    requires
        0 <= i < ts.len(),
    ensures
        ({
            let p = confirm_popup(kind, ts, area);
            let row = line_text(p.lines[2 + i]);
            let t = ts[i];
            &&& p.lines.len() >= ts.len() + 4
            &&& holds(row, t.module_name)
            &&& kind == ConfirmKind::Apply && t.plan_age is Some ==> holds(
                row,
                "plan from "@ + t.plan_age->0,
            )
            &&& kind == ConfirmKind::Apply && t.plan_age is Some && t.plan_targets.len() > 0 ==> holds(
                row,
                "TARGETED ("@ + decimal(t.plan_targets.len()) + ")"@,
            )
            &&& kind == ConfirmKind::Apply && t.plan_age is None ==> holds(row, "no prior plan"@)
            &&& kind == ConfirmKind::ForceUnlock && t.lock_id is Some && t.lock_who is Some ==> holds(
                row,
                "by "@ + t.lock_who->0,
            )
            &&& holds(line_text(p.lines[0]), decimal(ts.len()))
            &&& kind == ConfirmKind::Apply ==> holds(line_text(p.lines[0]), "APPLY"@) && holds(
                p.title,
                "APPLY"@,
            )
            &&& kind == ConfirmKind::Destroy ==> holds(line_text(p.lines[0]), "DESTROY"@) && holds(
                p.title,
                "DESTROY"@,
            )
            &&& kind == ConfirmKind::InitUpgrade ==> holds(
                line_text(p.lines[0]),
                "INIT -UPGRADE"@,
            )
            &&& kind == ConfirmKind::ForceUnlock ==> holds(line_text(p.lines[0]), "FORCE UNLOCK"@)
        }),
{
    let p = confirm_popup(kind, ts, area);
    let t = ts[i];
    let width = longest(crate::ui::confirm::names_of(ts));
    let rows = ts.map_values(|t: TargetView| target_row(kind, t, width));
    assert(rows[i] == target_row(kind, t, width));
    assert(p.lines == confirm_lines(kind, ts));
    assert(p.lines[2 + i] == rows[i]);
    row_tells(kind, t, width);
    note_tells(kind, t);
    single(p.lines[0]);
    question_tells(kind, ts.len());
    stands_between(" Confirm "@, kind.name(), " "@);
}

#[verifier::rlimit(40)]
proof fn row_tells(kind: ConfirmKind, t: TargetView, width: nat)
    ensures
        holds(line_text(target_row(kind, t, width)), t.module_name),
        forall|x: Seq<char>|
            #[trigger] holds(note_of(kind, t), x) ==> holds(
                line_text(target_row(kind, t, width)),
                x,
            ),
{
    let row = target_row(kind, t, width);
    let note = note_of(kind, t);
    text_of_two(row.spans[0], row.spans[1]);
    assert(row.spans =~= seq![row.spans[0], row.spans[1]]);
    let name = "    • "@ + padded(t.module_name, width);
    assert(line_text(row) == name + note);
    padding_keeps(t.module_name, width);
    let rest = choose|rest: Seq<char>|
        padded(t.module_name, width) == #[trigger] (t.module_name + rest);
    assert(name + note =~= "    • "@ + t.module_name + (rest + note));
    stands_between("    • "@, t.module_name, rest + note);
    assert(name + note =~= name + note + Seq::<char>::empty());
    stands_between(name, note, Seq::empty());
    assert forall|x: Seq<char>| #[trigger] holds(note, x) implies holds(line_text(row), x) by {
        holding_is_transitive(line_text(row), note, x);
    }
}

#[verifier::rlimit(40)]
proof fn note_tells(kind: ConfirmKind, t: TargetView)
    ensures
        kind == ConfirmKind::Apply && t.plan_age is Some ==> holds(
            note_of(kind, t),
            "plan from "@ + t.plan_age->0,
        ),
        kind == ConfirmKind::Apply && t.plan_age is Some && t.plan_targets.len() > 0 ==> holds(
            note_of(kind, t),
            "TARGETED ("@ + decimal(t.plan_targets.len()) + ")"@,
        ),
        kind == ConfirmKind::Apply && t.plan_age is None ==> holds(
            note_of(kind, t),
            "no prior plan"@,
        ),
        kind == ConfirmKind::ForceUnlock && t.lock_id is Some && t.lock_who is Some ==> holds(
            note_of(kind, t),
            "by "@ + t.lock_who->0,
        ),
{
    let note = note_of(kind, t);
    let two = seq![' ', ' '];
    let none = Seq::<char>::empty();
    match kind {
        ConfirmKind::Apply => match t.plan_age {
            Some(age) => {
                reveal_strlit("  plan from ");
                reveal_strlit("plan from ");
                let said = "plan from "@ + age;
                let n = decimal(t.plan_targets.len());
                if t.plan_targets.len() > 0 {
                    let tail = " · TARGETED ("@ + n + ")"@;
                    assert(note =~= two + said + tail);
                    stands_between(two, said, tail);
                    reveal_strlit(" · TARGETED (");
                    reveal_strlit("TARGETED (");
                    let dots = seq![' ', '·', ' '];
                    let only = "TARGETED ("@ + n + ")"@;
                    assert(" · TARGETED ("@ =~= dots + "TARGETED ("@);
                    assert(note =~= (two + said + dots) + only + none);
                    stands_between(two + said + dots, only, none);
                } else {
                    assert(note =~= two + said + none);
                    stands_between(two, said, none);
                }
            },
            None => {
                reveal_strlit("  no prior plan");
                reveal_strlit("no prior plan");
                assert(note =~= two + "no prior plan"@ + none);
                stands_between(two, "no prior plan"@, none);
            },
        },
        ConfirmKind::ForceUnlock => {
            if t.lock_id is Some && t.lock_who is Some {
                reveal_strlit("  by ");
                reveal_strlit("by ");
                let lead = "  lock "@ + crate::ui::confirm::short_id(t.lock_id->0);
                let said = "by "@ + t.lock_who->0;
                assert(note =~= (lead + two) + said + none);
                stands_between(lead + two, said, none);
            }
        },
        _ => {},
    }
}

proof fn question_tells(kind: ConfirmKind, n: nat)
    ensures
        holds(question(kind, n), kind.name()),
        holds(question(kind, n), decimal(n)),
{
    let q = question(kind, n);
    let d = decimal(n);
    let noun = if n == 1 { "module"@ } else { "modules"@ };
    let tail = " "@ + noun + ":"@;
    let name = kind.name();
    assert(q =~= "  Run "@ + name + (" on "@ + d + tail));
    stands_between("  Run "@, name, " on "@ + d + tail);
    assert(q =~= ("  Run "@ + name + " on "@) + d + tail);
    stands_between("  Run "@ + name + " on "@, d, tail);
}

proof fn new_are_added(acc: Seq<Seq<char>>, addrs: Seq<Seq<char>>, n: int)
    requires
        0 <= n <= addrs.len(),
    ensures
        forall|x: Seq<char>| acc.contains(x) ==> #[trigger] with_new(acc, addrs, n).contains(x),
        forall|j: int| 0 <= j < n ==> with_new(acc, addrs, n).contains(#[trigger] addrs[j]),
    decreases n,
{
    if n > 0 {
        new_are_added(acc, addrs, n - 1);
        let before = with_new(acc, addrs, n - 1);
        let after = with_new(acc, addrs, n);
        assert forall|x: Seq<char>| before.contains(x) implies #[trigger] after.contains(x) by {
            let k = choose|k: int| 0 <= k < before.len() && before[k] == x;
            assert(after[k] == x);
        }
        if !before.contains(addrs[n - 1]) {
            assert(after[before.len() as int] == addrs[n - 1]);
        }
    }
}

proof fn all_are_collected(ts: Seq<TargetView>, n: int, i: int, j: int)
    requires
        0 <= i < n <= ts.len(),
        0 <= j < ts[i].plan_targets.len(),
    ensures
        restricted_to(ts, n).contains(ts[i].plan_targets[j]),
    decreases n,
{
    let addrs = ts[n - 1].plan_targets;
    let acc = restricted_to(ts, n - 1);
    new_are_added(acc, addrs, addrs.len() as int);
    if i < n - 1 {
        all_are_collected(ts, n - 1, i, j);
    }
}

/// Before an apply, every address that one of the cached plans is restricted to
/// is named.
#[verifier::rlimit(40)]
pub proof fn every_restriction_is_named(ts: Seq<TargetView>, i: int, j: int, area: Rect)
    requires
        0 <= i < ts.len(),
        0 <= j < ts[i].plan_targets.len(),
    ensures
        exists|k: int|
            0 <= k < confirm_popup(ConfirmKind::Apply, ts, area).lines.len() && holds(
                line_text(#[trigger] confirm_popup(ConfirmKind::Apply, ts, area).lines[k]),
                ts[i].plan_targets[j],
            ),
{
    let kind = ConfirmKind::Apply;
    let x = ts[i].plan_targets[j];
    all_are_collected(ts, ts.len() as int, i, j);
    let addrs = warned_of(kind, ts);
    let m = choose|m: int| 0 <= m < addrs.len() && addrs[m] == x;
    let lines = confirm_popup(kind, ts, area).lines;
    let k = 2 + ts.len() as int + 2 + m;
    let warn = restriction_lines(addrs);
    assert(warn[2 + m] == crate::ui::confirm::covered_line(x));
    assert(lines[k] == warn[2 + m]);
    let l = lines[k];
    assert(l.spans =~= seq![l.spans[0]]);
    text_of_one(l.spans[0]);
    assert("      • "@ + x =~= "      • "@ + x + Seq::<char>::empty());
    stands_between("      • "@, x, Seq::empty());
}

/// The question whether to cancel names every task with its module and its
/// command, and says how many there are.
#[verifier::rlimit(40)]
pub proof fn a_cancel_names_every_task(v: Seq<BriefView>, i: int, area: Rect)
    requires
        0 <= i < v.len(),
    ensures
        ({
            let p = cancel_popup(v, area);
            let row = line_text(p.lines[2 + i]);
            &&& holds(row, v[i].name)
            &&& holds(row, v[i].command)
            &&& holds(line_text(p.lines[0]), decimal(v.len()))
        }),
{
    cancel_lines_are(v, i, area);
    cancel_row_tells(v[i], longest(brief_names(v)));
    cancel_question_tells(v.len());
}

spec fn cancel_question(n: nat) -> Seq<char> {
    "  Cancel "@ + decimal(n) + " "@ + counted(n, "task"@, "tasks"@) + ":"@
}

#[verifier::rlimit(40)]
proof fn cancel_lines_are(v: Seq<BriefView>, i: int, area: Rect)
    requires
        0 <= i < v.len(),
    ensures
        cancel_popup(v, area).lines[2 + i] == cancel_row(v[i], longest(brief_names(v))),
        line_text(cancel_popup(v, area).lines[0]) == cancel_question(v.len()),
{
    let p = cancel_popup(v, area);
    let width = longest(brief_names(v));
    let rows = v.map_values(|b: BriefView| cancel_row(b, width));
    assert(rows[i] == cancel_row(v[i], width));
    assert(p.lines == cancel_lines(v));
    single(p.lines[0]);
}

proof fn cancel_question_tells(n: nat)
    ensures
        holds(cancel_question(n), decimal(n)),
{
    let tail = " "@ + counted(n, "task"@, "tasks"@) + ":"@;
    assert(cancel_question(n) =~= "  Cancel "@ + decimal(n) + tail);
    stands_between("  Cancel "@, decimal(n), tail);
}

proof fn cancel_row_tells(b: BriefView, width: nat)
    ensures
        holds(line_text(cancel_row(b, width)), b.name),
        holds(line_text(cancel_row(b, width)), b.command),
{
    let row = cancel_row(b, width);
    text_of_two(row.spans[0], row.spans[1]);
    assert(row.spans =~= seq![row.spans[0], row.spans[1]]);
    padding_keeps(b.name, width);
    let rest = choose|rest: Seq<char>| padded(b.name, width) == #[trigger] (b.name + rest);
    let t = line_text(row);
    let dot = "    • "@;
    let gap = "  "@;
    assert(t =~= dot + b.name + (rest + gap + b.command));
    stands_between(dot, b.name, rest + gap + b.command);
    assert(t =~= (dot + b.name + rest + gap) + b.command + Seq::<char>::empty());
    stands_between(dot + b.name + rest + gap, b.command, Seq::empty());
}

/// The question whether to quit names every task that is still to end.
#[verifier::rlimit(40)]
pub proof fn a_quit_names_every_active_task(v: Seq<BriefView>, i: int, area: Rect)
    requires
        0 <= i < v.len(),
    ensures
        ({
            let row = line_text(quit_popup(v, area).lines[2 + i]);
            &&& holds(row, v[i].name)
            &&& holds(row, v[i].command)
        }),
{
    let p = quit_popup(v, area);
    let width = longest(brief_names(v));
    let row = crate::ui::popups::quit_row(v[i], width);
    assert(v.map_values(|b: BriefView| crate::ui::popups::quit_row(b, width))[i] == row);
    assert(p.lines == quit_lines(v));
    assert(p.lines[2 + i] == row);
    text_of_three(row.spans[0], row.spans[1], row.spans[2]);
    assert(row.spans =~= seq![row.spans[0], row.spans[1], row.spans[2]]);
    padding_keeps(v[i].name, width);
    let rest = choose|rest: Seq<char>| padded(v[i].name, width) == #[trigger] (v[i].name + rest);
    let lead = row.spans[0].content;
    let t = line_text(row);
    assert(t =~= lead + v[i].name + (rest + v[i].command));
    stands_between(lead, v[i].name, rest + v[i].command);
    assert(t =~= (lead + v[i].name + rest) + v[i].command + Seq::<char>::empty());
    stands_between(lead + v[i].name + rest, v[i].command, Seq::empty());
}

/// What is listed as active are exactly the tasks that are not over, with the
/// names of their modules and their commands.
pub proof fn the_active_are_listed(tasks: Seq<TaskView>, i: int)
    requires
        0 <= i < tasks.len(),
    ensures
        ({
            let v = active_briefs(tasks, tasks.len() as int);
            !tasks[i].status.over() ==> exists|k: int|
                0 <= k < v.len() && (#[trigger] v[k]).name == tasks[i].module_name && v[k].command
                    == tasks[i].command && v[k].status == tasks[i].status
        }),
        forall|k: int|
            0 <= k < active_briefs(tasks, tasks.len() as int).len() ==> !(#[trigger] active_briefs(
                tasks,
                tasks.len() as int,
            )[k]).status.over(),
{
    active_are(tasks, tasks.len() as int);
}

proof fn active_are(tasks: Seq<TaskView>, n: int)
    requires
        0 <= n <= tasks.len(),
    ensures
        forall|i: int|
            0 <= i < n && !(#[trigger] tasks[i]).status.over() ==> active_briefs(tasks, n).contains(
                brief_of(tasks[i]),
            ),
        forall|k: int|
            0 <= k < active_briefs(tasks, n).len() ==> !(#[trigger] active_briefs(
                tasks,
                n,
            )[k]).status.over(),
    decreases n,
{
    if n > 0 {
        active_are(tasks, n - 1);
        let before = active_briefs(tasks, n - 1);
        let after = active_briefs(tasks, n);
        assert forall|i: int| 0 <= i < n && !(#[trigger] tasks[i]).status.over() implies after.contains(
            brief_of(tasks[i]),
        ) by {
            if i < n - 1 {
                let k = choose|k: int| 0 <= k < before.len() && before[k] == brief_of(tasks[i]);
                assert(after[k] == brief_of(tasks[i]));
            } else {
                assert(after[before.len() as int] == brief_of(tasks[i]));
            }
        }
    }
}

/// The question about an explorer operation names every address, and says what
/// is to be done with how many of them. Where real infrastructure is changed it
/// warns of that.
#[verifier::rlimit(40)]
pub proof fn an_operation_names_every_address(
    kind: ExplorerOpKind,
    xs: Seq<Seq<char>>,
    i: int,
    area: Rect,
)
    requires
        0 <= i < xs.len(),
    ensures
        ({
            let p = op_popup(kind, xs, area);
            let asked = line_text(p.lines[1]);
            &&& holds(line_text(p.lines[3 + i]), xs[i])
            &&& holds(asked, decimal(xs.len()))
            &&& kind == ExplorerOpKind::Taint ==> holds(asked, "Taint"@)
            &&& kind == ExplorerOpKind::StateRm ==> holds(asked, "Remove from state"@)
            &&& kind == ExplorerOpKind::TargetedDestroy ==> holds(asked, "DESTROY (targeted)"@)
            &&& kind == ExplorerOpKind::TargetedApply ==> holds(asked, "APPLY (targeted)"@)
            &&& kind == ExplorerOpKind::TargetedDestroy ==> line_text(
                p.lines[3 + xs.len() as int + 1],
            ) == "  ⚠  This will DESTROY real infrastructure."@
            &&& kind == ExplorerOpKind::TargetedApply ==> line_text(
                p.lines[3 + xs.len() as int + 1],
            ) == "  ⚠  This will APPLY changes to real infrastructure."@
        }),
{
    operation_lines_are(kind, xs, i, area);
    assert("    • "@ + xs[i] =~= "    • "@ + xs[i] + Seq::<char>::empty());
    stands_between("    • "@, xs[i], Seq::empty());
    operation_is_asked(kind, xs.len());
}

#[verifier::rlimit(40)]
proof fn operation_lines_are(kind: ExplorerOpKind, xs: Seq<Seq<char>>, i: int, area: Rect)
    requires
        0 <= i < xs.len(),
    ensures
        ({
            let p = op_popup(kind, xs, area);
            &&& line_text(p.lines[3 + i]) == "    • "@ + xs[i]
            &&& line_text(p.lines[1]) == op_question(kind, xs.len())
            &&& kind == ExplorerOpKind::TargetedDestroy || kind == ExplorerOpKind::TargetedApply
                ==> line_text(p.lines[3 + xs.len() as int + 1]) == line_text(op_warning(kind)[0])
                && line_text(op_warning(kind)[0]) == op_warning(kind)[0].spans[0].content
        }),
{
    let p = op_popup(kind, xs, area);
    let row = crate::ui::popups::address_row(xs[i]);
    let rows = xs.map_values(|a: Seq<char>| crate::ui::popups::address_row(a));
    assert(rows[i] == row);
    assert(p.lines == op_lines(kind, xs));
    assert(p.lines[3 + i] == row);
    single(row);
    single(p.lines[1]);
    if kind == ExplorerOpKind::TargetedDestroy || kind == ExplorerOpKind::TargetedApply {
        assert(p.lines[3 + xs.len() as int + 1] == op_warning(kind)[0]);
        single(op_warning(kind)[0]);
    }
}

proof fn operation_is_asked(kind: ExplorerOpKind, n: nat)
    ensures
        holds(op_question(kind, n), kind.confirm_verb_text()),
        holds(op_question(kind, n), decimal(n)),
{
    let q = op_question(kind, n);
    let d = decimal(n);
    let verb = kind.confirm_verb_text();
    let noun = counted(n, "resource"@, "resources"@);
    let tail = " "@ + noun + ":"@;
    assert(q =~= "  "@ + verb + (" "@ + d + tail));
    stands_between("  "@, verb, " "@ + d + tail);
    assert(q =~= ("  "@ + verb + " "@) + d + tail);
    stands_between("  "@ + verb + " "@, d, tail);
}

/// An operation in progress shows what is done, with a tick where it succeeded
/// and a cross where it failed, then what is worked on, then what is to come; its
/// result shows every address with its mark, and is green only where all
/// succeeded.
#[verifier::rlimit(40)]
pub proof fn an_operation_shows_how_far_it_is(op: PendingOpView, res: OpResultView, i: int, area: Rect)
    ensures
        ({
            let p = progress_popup(op, area);
            let at = 2 + op.done.len() as int;
            &&& 0 <= i < op.done.len() ==> line_text(p.lines[2 + i]) == "  "@ + (if op.done[i].1 {
                "✓ "@
            } else {
                "✗ "@
            }) + op.done[i].0
            &&& op.running is Some ==> line_text(p.lines[at]) == "  "@ + "⋯ "@ + (op.running->0).1
            &&& op.running is Some && 0 <= i < op.queue.len() ==> line_text(p.lines[at + 1 + i])
                == "  "@ + "· "@ + op.queue[i]
        }),
        ({
            let p = result_popup(res, area);
            &&& 0 <= i < res.entries.len() ==> line_text(p.lines[1 + i]) == "  "@ + (
            if res.entries[i].1 {
                "✓ "@
            } else {
                "✗ "@
            }) + res.entries[i].0
            &&& (forall|k: int| 0 <= k < res.entries.len() ==> (#[trigger] res.entries[k]).1)
                ==> p.border == in_color(Color::Green)
            &&& 0 <= i < res.entries.len() && !res.entries[i].1 ==> p.border == in_color(Color::Red)
        }),
{
    let p = progress_popup(op, area);
    let at = 2 + op.done.len() as int;
    assert(p.lines == progress_lines(op));
    if 0 <= i < op.done.len() {
        let row = crate::ui::popups::done_row(op.done[i]);
        assert(op.done.map_values(|e: (Seq<char>, bool)| crate::ui::popups::done_row(e))[i] == row);
        assert(p.lines[2 + i] == row);
        assert(row.spans =~= seq![row.spans[0], row.spans[1], row.spans[2]]);
        text_of_three(row.spans[0], row.spans[1], row.spans[2]);
    }
    if op.running is Some {
        let row = crate::ui::popups::running_row((op.running->0).1);
        assert(p.lines[at] == row);
        assert(row.spans =~= seq![row.spans[0], row.spans[1], row.spans[2]]);
        text_of_three(row.spans[0], row.spans[1], row.spans[2]);
        if 0 <= i < op.queue.len() {
            let next = crate::ui::popups::queued_row(op.queue[i]);
            assert(op.queue.map_values(|a: Seq<char>| crate::ui::popups::queued_row(a))[i] == next);
            assert(p.lines[at + 1 + i] == next);
            assert(next.spans =~= seq![next.spans[0], next.spans[1], next.spans[2]]);
            text_of_three(next.spans[0], next.spans[1], next.spans[2]);
        }
    }
    let r = result_popup(res, area);
    assert(r.lines == result_lines(res.entries));
    if 0 <= i < res.entries.len() {
        let row = crate::ui::popups::done_row(res.entries[i]);
        assert(res.entries.map_values(|e: (Seq<char>, bool)| crate::ui::popups::done_row(e))[i] == row);
        assert(r.lines[1 + i] == row);
        assert(row.spans =~= seq![row.spans[0], row.spans[1], row.spans[2]]);
        text_of_three(row.spans[0], row.spans[1], row.spans[2]);
    }
}

/// The questions about clearing and resetting say how much goes.
#[verifier::rlimit(40)]
pub proof fn clearing_and_resetting_say_how_much(
    completed: nat,
    active: nat,
    plans: nat,
    queued: nat,
    finished: nat,
    area: Rect,
)
    ensures
        ({
            let c = clear_popup(completed, active, area);
            let r = reset_popup(plans, queued, finished, area);
            &&& holds(line_text(c.lines[1]), "Clear "@ + decimal(completed) + " completed"@)
            &&& active > 0 ==> holds(line_text(c.lines[3]), "Keeps "@ + decimal(active) + " active"@)
            &&& holds(line_text(r.lines[3]), "Drop "@ + decimal(plans) + " cached"@)
            &&& holds(line_text(r.lines[4]), "Cancel "@ + decimal(queued) + " queued"@)
            &&& holds(line_text(r.lines[5]), "Drop "@ + decimal(finished) + " finished"@)
        }),
{
    let c = clear_popup(completed, active, area);
    let r = reset_popup(plans, queued, finished, area);
    single(c.lines[1]);
    single(c.lines[3]);
    single(r.lines[3]);
    single(r.lines[4]);
    single(r.lines[5]);
    clear_says(completed, "?"@);
    keeps_says(active, "."@);
    drop_says(plans);
    cancel_says(queued);
    finished_says(finished);
}

proof fn clear_says(n: nat, end: Seq<char>)
    ensures
        holds(
            "  Clear "@ + decimal(n) + " completed "@ + counted(
                n,
                "task"@,
                "tasks"@,
            ) + end,
            "Clear "@ + decimal(n) + " completed"@,
        ),
{
    reveal_strlit("  Clear ");
    reveal_strlit("Clear ");
    reveal_strlit(" completed ");
    reveal_strlit(" completed");
    let two = seq![' ', ' '];
    let noun = counted(n, "task"@, "tasks"@);
    let x = "Clear "@ + decimal(n) + " completed"@;
    let tail = seq![' '] + noun + end;
    assert("  Clear "@ =~= two + "Clear "@);
    assert(" completed "@ =~= " completed"@ + seq![' ']);
    assert("  Clear "@ + decimal(n) + " completed "@ + noun + end =~= two + x + tail);
    stands_between(two, x, tail);
}

proof fn keeps_says(n: nat, end: Seq<char>)
    ensures
        holds(
            "  Keeps "@ + decimal(n) + " active "@ + counted(
                n,
                "task"@,
                "tasks"@,
            ) + end,
            "Keeps "@ + decimal(n) + " active"@,
        ),
{
    reveal_strlit("  Keeps ");
    reveal_strlit("Keeps ");
    reveal_strlit(" active ");
    reveal_strlit(" active");
    let two = seq![' ', ' '];
    let noun = counted(n, "task"@, "tasks"@);
    let x = "Keeps "@ + decimal(n) + " active"@;
    let tail = seq![' '] + noun + end;
    assert("  Keeps "@ =~= two + "Keeps "@);
    assert(" active "@ =~= " active"@ + seq![' ']);
    assert("  Keeps "@ + decimal(n) + " active "@ + noun + end =~= two + x + tail);
    stands_between(two, x, tail);
}

proof fn drop_says(n: nat)
    ensures
        holds(
            "  • Drop "@ + decimal(n) + " cached "@ + counted(
                n,
                "plan"@,
                "plans"@,
            ),
            "Drop "@ + decimal(n) + " cached"@,
        ),
{
    reveal_strlit("  • Drop ");
    reveal_strlit("Drop ");
    reveal_strlit(" cached ");
    reveal_strlit(" cached");
    let dot = seq![' ', ' ', '•', ' '];
    let noun = counted(n, "plan"@, "plans"@);
    let x = "Drop "@ + decimal(n) + " cached"@;
    let tail = seq![' '] + noun;
    assert("  • Drop "@ =~= dot + "Drop "@);
    assert(" cached "@ =~= " cached"@ + seq![' ']);
    assert("  • Drop "@ + decimal(n) + " cached "@ + noun =~= dot + x + tail);
    stands_between(dot, x, tail);
}

proof fn cancel_says(n: nat)
    ensures
        holds(
            "  • Cancel "@ + decimal(n) + " queued "@ + counted(
                n,
                "task"@,
                "tasks"@,
            ),
            "Cancel "@ + decimal(n) + " queued"@,
        ),
{
    reveal_strlit("  • Cancel ");
    reveal_strlit("Cancel ");
    reveal_strlit(" queued ");
    reveal_strlit(" queued");
    let dot = seq![' ', ' ', '•', ' '];
    let noun = counted(n, "task"@, "tasks"@);
    let x = "Cancel "@ + decimal(n) + " queued"@;
    let tail = seq![' '] + noun;
    assert("  • Cancel "@ =~= dot + "Cancel "@);
    assert(" queued "@ =~= " queued"@ + seq![' ']);
    assert("  • Cancel "@ + decimal(n) + " queued "@ + noun =~= dot + x + tail);
    stands_between(dot, x, tail);
}

proof fn finished_says(n: nat)
    ensures
        holds(
            "  • Drop "@ + decimal(n) + " finished "@ + counted(
                n,
                "task"@,
                "tasks"@,
            ),
            "Drop "@ + decimal(n) + " finished"@,
        ),
{
    reveal_strlit("  • Drop ");
    reveal_strlit("Drop ");
    reveal_strlit(" finished ");
    reveal_strlit(" finished");
    let dot = seq![' ', ' ', '•', ' '];
    let noun = counted(n, "task"@, "tasks"@);
    let x = "Drop "@ + decimal(n) + " finished"@;
    let tail = seq![' '] + noun;
    assert("  • Drop "@ =~= dot + "Drop "@);
    assert(" finished "@ =~= " finished"@ + seq![' ']);
    assert("  • Drop "@ + decimal(n) + " finished "@ + noun =~= dot + x + tail);
    stands_between(dot, x, tail);
}

proof fn single(l: LineView)
    requires
        l.spans.len() == 1,
    ensures
        line_text(l) == l.spans[0].content,
{
    text_of_one(l.spans[0]);
    assert(l.spans =~= seq![l.spans[0]]);
}

} // verus!
