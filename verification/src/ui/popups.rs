//! The overlays that ask about tasks, and those of explorer operations.

use crate::app::types::{
    entry_views, ExplorerOpKind, OpResult, OpResultView, PendingOp, PendingOpView,
};
use crate::engine::{find_task, TaskEngine};
use crate::task::{task_views, Task, TaskStatus, TaskView};
use crate::text::{concat, decimal, texts, texts_push};
use crate::ui::theme;
use crate::ui::confirm::{answer_line, answers};
use crate::ui::frame::{
    blank, byte_len, bytes_in, empty_line, four, larger, least, longest, longest_of, max_of, number,
    one, pad, padded, popup, popup_around, push_lines, say3, say4, say5, three, two, with_border,
    Popup, PopupView,
};
use crate::ui::layout::{popup_of, popup_rect, Rect};
use crate::ui::style::{
    line_of, line_views, line_views_push, plain, raw, styled, Color, Line, LineView, Span, SpanView,
};
use crate::ui::theme::{icon_of_status, in_bold, in_color, MUTED};
use vstd::prelude::*;

verus! {

/// What an overlay shows of a task.
#[derive(Debug)]
pub struct Brief {
    pub status: TaskStatus,
    pub name: String,
    pub command: String,
}

/// What an overlay shows of a task, as text.
#[verifier::ext_equal]
pub struct BriefView {
    pub status: TaskStatus,
    pub name: Seq<char>,
    pub command: Seq<char>,
}

impl View for Brief {
    type V = BriefView;

    open spec fn view(&self) -> BriefView {
        BriefView { status: self.status, name: self.name@, command: self.command@ }
    }
}

/// The briefs of a sequence.
pub open spec fn brief_views(v: Seq<Brief>) -> Seq<BriefView> {
    v.map_values(|b: Brief| b@)
}

/// What is shown of a task.
pub open spec fn brief_of(t: TaskView) -> BriefView {
    BriefView { status: t.status, name: t.module_name, command: t.command }
}

/// Those of the first `n` tasks that are not over.
pub open spec fn active_briefs(tasks: Seq<TaskView>, n: int) -> Seq<BriefView>
    decreases n,
{
    if n <= 0 {
        Seq::empty()
    } else {
        let before = active_briefs(tasks, n - 1);
        if tasks[n - 1].status.over() {
            before
        } else {
            before.push(brief_of(tasks[n - 1]))
        }
    }
}

/// The tasks of the first `n` ids, as far as there are such tasks.
pub open spec fn staged_briefs(tasks: Seq<TaskView>, ids: Seq<usize>, n: int) -> Seq<BriefView>
    decreases n,
{
    if n <= 0 {
        Seq::empty()
    } else {
        let before = staged_briefs(tasks, ids, n - 1);
        let k = find_task(tasks, ids[n - 1]);
        if k < tasks.len() {
            before.push(brief_of(tasks[k]))
        } else {
            before
        }
    }
}

/// The module names of briefs.
pub open spec fn brief_names(v: Seq<BriefView>) -> Seq<Seq<char>> {
    v.map_values(|b: BriefView| b.name)
}

/// The commands of briefs.
pub open spec fn brief_commands(v: Seq<BriefView>) -> Seq<Seq<char>> {
    v.map_values(|b: BriefView| b.command)
}

fn brief(t: &Task) -> (r: Brief)
    ensures
        r@ == brief_of(t@),
{
    Brief { status: t.status, name: t.module_name.clone(), command: t.command.clone() }
}

proof fn brief_views_push(v: Seq<Brief>, b: Brief)
    ensures
        brief_views(v.push(b)) == brief_views(v).push(b@),
{
    assert(brief_views(v.push(b)) =~= brief_views(v).push(b@));
}

/// What is shown of the tasks that are not over.
pub fn active_list(tasks: &Vec<Task>) -> (r: Vec<Brief>)
    ensures
        brief_views(r@) == active_briefs(task_views(tasks@), task_views(tasks@).len() as int),
{
    let ghost all = task_views(tasks@);
    let mut out: Vec<Brief> = Vec::new();
    assert(brief_views(out@) =~= Seq::<BriefView>::empty());
    let mut n: usize = 0;
    while n < tasks.len()
        invariant
            n <= tasks@.len(),
            all == task_views(tasks@),
            brief_views(out@) == active_briefs(all, n as int),
        decreases tasks@.len() - n,
    {
        assert(all[n as int] == tasks@[n as int]@);
        if !tasks[n].status.is_terminal() {
            let b = brief(&tasks[n]);
            proof {
                brief_views_push(out@, b);
            }
            out.push(b);
        }
        n += 1;
    }
    out
}

/// What is shown of the tasks with these ids.
pub fn staged_list(engine: &TaskEngine, ids: &Vec<usize>) -> (r: Vec<Brief>)
    ensures
        brief_views(r@) == staged_briefs(engine@.tasks, ids@, ids@.len() as int),
{
    let mut out: Vec<Brief> = Vec::new();
    assert(brief_views(out@) =~= Seq::<BriefView>::empty());
    let mut n: usize = 0;
    while n < ids.len()
        invariant
            n <= ids@.len(),
            brief_views(out@) == staged_briefs(engine@.tasks, ids@, n as int),
        decreases ids@.len() - n,
    {
        if let Some(t) = engine.task(ids[n]) {
            let b = brief(t);
            proof {
                brief_views_push(out@, b);
            }
            out.push(b);
        }
        n += 1;
    }
    out
}

fn name_texts(v: &Vec<Brief>) -> (r: Vec<String>)
    ensures
        texts(r@) == brief_names(brief_views(v@)),
{
    broadcast use texts_push;

    let ghost all = brief_views(v@);
    let mut out: Vec<String> = Vec::new();
    let mut i: usize = 0;
    while i < v.len()
        invariant
            i <= v@.len(),
            all == brief_views(v@),
            texts(out@) =~= brief_names(all.take(i as int)),
        decreases v@.len() - i,
    {
        assert(all[i as int] == v@[i as int]@);
        let ghost had = texts(out@);
        out.push(v[i].name.clone());
        assert(texts(out@) == had.push(all[i as int].name));
        i += 1;
    }
    assert(all.take(i as int) =~= all);
    out
}

fn command_texts(v: &Vec<Brief>) -> (r: Vec<String>)
    ensures
        texts(r@) == brief_commands(brief_views(v@)),
{
    broadcast use texts_push;

    let ghost all = brief_views(v@);
    let mut out: Vec<String> = Vec::new();
    let mut i: usize = 0;
    while i < v.len()
        invariant
            i <= v@.len(),
            all == brief_views(v@),
            texts(out@) =~= brief_commands(all.take(i as int)),
        decreases v@.len() - i,
    {
        assert(all[i as int] == v@[i as int]@);
        let ghost had = texts(out@);
        out.push(v[i].command.clone());
        assert(texts(out@) == had.push(all[i as int].command));
        i += 1;
    }
    assert(all.take(i as int) =~= all);
    out
}

/// A noun for `n` of its kind.
pub open spec fn counted(n: nat, single: Seq<char>, several: Seq<char>) -> Seq<char> {
    if n == 1 {
        single
    } else {
        several
    }
}

fn noun<'a>(n: usize, single: &'a str, several: &'a str) -> (r: &'a str)
    ensures
        r@ == counted(n as nat, single@, several@),
{
    if n == 1 {
        single
    } else {
        several
    }
}

/// The row of a task to cancel.
pub open spec fn cancel_row(b: BriefView, width: nat) -> LineView {
    line_of(
        seq![
            raw("    • "@ + padded(b.name, width) + "  "@),
            styled(b.command, in_color(Color::Blue)),
        ],
    )
}

/// The lines of the question whether to cancel tasks.
pub open spec fn cancel_lines(v: Seq<BriefView>) -> Seq<LineView> {
    let width = longest(brief_names(v));
    seq![
        line_of(
            seq![
                styled(
                    "  Cancel "@ + decimal(v.len()) + " "@ + counted(v.len(), "task"@, "tasks"@)
                        + ":"@,
                    plain().with_bold(),
                ),
            ],
        ),
        empty_line(),
    ] + v.map_values(|b: BriefView| cancel_row(b, width)) + seq![
        empty_line(),
        answers("[y] Cancel task(s)"@, Color::Yellow, "[any] Keep running"@),
    ]
}

/// The question whether to cancel tasks. Its height wraps around with more lines
/// than a terminal has rows.
pub open spec fn cancel_popup(v: Seq<BriefView>, area: Rect) -> PopupView {
    let content = max_of(8 + longest(brief_names(v)) + longest(brief_commands(v)), 41);
    let lines = cancel_lines(v);
    PopupView {
        area: popup_of(
            least(content + 2, area.width as nat) as u16,
            ((lines.len() + 2) % 65536) as u16,
            area,
        ),
        title: " Cancel "@ + decimal(v.len()) + " Task(s) "@,
        border: in_color(Color::Yellow),
        lines,
    }
}

fn cancel_rows(tasks: &Vec<Brief>, width: usize) -> (r: Vec<Line>)
    ensures
        line_views(r@) == brief_views(tasks@).map_values(
            |b: BriefView| cancel_row(b, width as nat),
        ),
{
    broadcast use line_views_push;

    let ghost all = brief_views(tasks@);
    let mut out: Vec<Line> = Vec::new();
    let mut i: usize = 0;
    while i < tasks.len()
        invariant
            i <= tasks@.len(),
            all == brief_views(tasks@),
            line_views(out@) =~= all.take(i as int).map_values(
                |b: BriefView| cancel_row(b, width as nat),
            ),
        decreases tasks@.len() - i,
    {
        assert(all[i as int] == tasks@[i as int]@);
        let ghost had = line_views(out@);
        out.push(
            two(
                Span::raw(
                    say3("    • ", pad(tasks[i].name.as_str(), width).as_str(), "  ").as_str(),
                ),
                Span::styled(tasks[i].command.as_str(), theme::colored(Color::Blue)),
            ),
        );
        assert(line_views(out@) == had.push(cancel_row(all[i as int], width as nat)));
        i += 1;
    }
    assert(all.take(i as int) =~= all);
    out
}

/// The rows of a popup with `n` lines, wrapped around where a terminal has no
/// such height.
fn wrapped_height(n: usize) -> (r: u16)
    ensures
        r == ((n + 2) % 65536) as u16,
{
    ((n % 65536 + 2) % 65536) as u16
}

/// The overlay that asks whether to cancel tasks.
pub fn render_cancel_task_confirm(area: Rect, tasks: &Vec<Brief>) -> (r: Popup)
    ensures
        r@ == cancel_popup(brief_views(tasks@), area),
{
    broadcast use line_views_push;

    let ghost all = brief_views(tasks@);
    let n: usize = tasks.len();
    let name_width = longest_of(&name_texts(tasks));
    let cmd_width = longest_of(&command_texts(tasks));
    let content = larger(name_width.saturating_add(8).saturating_add(cmd_width), 41);
    let mut lines: Vec<Line> = Vec::new();
    lines.push(
        one(
            Span::styled(
                say5("  Cancel ", number(n).as_str(), " ", noun(n, "task", "tasks"), ":").as_str(),
                theme::title(),
            ),
        ),
    );
    lines.push(blank());
    push_lines(&mut lines, cancel_rows(tasks, name_width));
    lines.push(blank());
    lines.push(answer_line("[y] Cancel task(s)", Color::Yellow, "[any] Keep running"));
    assert(line_views(lines@) =~= cancel_lines(all));
    let rows: usize = lines.len();
    let h = wrapped_height(rows);
    assert(line_views(lines@).len() == rows);
    Popup {
        area: popup_rect(with_border(content, area.width), h, area),
        title: say3(" Cancel ", number(n).as_str(), " Task(s) "),
        border: theme::overlay_border_warn(),
        lines,
    }
}

/// The bytes of the spans of a line.
pub open spec fn spans_bytes(spans: Seq<SpanView>) -> nat
    decreases spans.len(),
{
    if spans.len() == 0 {
        0
    } else {
        spans_bytes(spans.drop_last()) + byte_len(spans.last().content)
    }
}

/// The most bytes of a line.
pub open spec fn widest_line(lines: Seq<LineView>) -> nat
    decreases lines.len(),
{
    if lines.len() == 0 {
        0
    } else {
        max_of(widest_line(lines.drop_last()), spans_bytes(lines.last().spans))
    }
}

/// A number as far as it can be counted.
pub open spec fn countable(n: nat) -> nat {
    least(n, usize::MAX as nat)
}

fn line_bytes(l: &Line) -> (r: usize)
    ensures
        r == countable(spans_bytes(l@.spans)),
{
    let ghost all = l@.spans;
    let mut sum: usize = 0;
    let mut i: usize = 0;
    while i < l.spans.len()
        invariant
            i <= l.spans@.len(),
            all == l@.spans,
            sum == countable(spans_bytes(all.take(i as int))),
        decreases l.spans@.len() - i,
    {
        assert(all.take(i + 1).drop_last() =~= all.take(i as int));
        assert(all[i as int] == l.spans@[i as int]@);
        sum = sum.saturating_add(bytes_in(l.spans[i].content.as_str()));
        i += 1;
    }
    assert(all.take(i as int) =~= all);
    sum
}

fn lines_bytes(lines: &Vec<Line>) -> (r: usize)
    ensures
        r == countable(widest_line(line_views(lines@))),
{
    let ghost all = line_views(lines@);
    let mut most: usize = 0;
    let mut i: usize = 0;
    while i < lines.len()
        invariant
            i <= lines@.len(),
            all == line_views(lines@),
            most == countable(widest_line(all.take(i as int))),
        decreases lines@.len() - i,
    {
        assert(all.take(i + 1).drop_last() =~= all.take(i as int));
        assert(all[i as int] == lines@[i as int]@);
        most = larger(most, line_bytes(&lines[i]));
        i += 1;
    }
    assert(all.take(i as int) =~= all);
    most
}

/// The lines of the question whether to forget completed tasks.
pub open spec fn clear_lines(completed: nat, active: nat) -> Seq<LineView> {
    seq![
        empty_line(),
        line_of(
            seq![
                styled(
                    "  Clear "@ + decimal(completed) + " completed "@ + counted(
                        completed,
                        "task"@,
                        "tasks"@,
                    ) + "?"@,
                    plain().with_bold(),
                ),
            ],
        ),
        empty_line(),
        line_of(
            seq![
                styled(
                    if active > 0 {
                        "  Keeps "@ + decimal(active) + " active "@ + counted(
                            active,
                            "task"@,
                            "tasks"@,
                        ) + "."@
                    } else {
                        "  Task list will be empty afterward."@
                    },
                    in_color(MUTED),
                ),
            ],
        ),
        empty_line(),
        answers("[y] Clear"@, Color::Yellow, "[any] Keep"@),
    ]
}

/// The question whether to forget completed tasks.
pub open spec fn clear_popup(completed: nat, active: nat, area: Rect) -> PopupView {
    let lines = clear_lines(completed, active);
    popup_around(
        max_of(widest_line(lines), 28),
        area,
        " Clear Completed Tasks "@,
        in_color(Color::Yellow),
        lines,
    )
}

/// The overlay that asks whether to forget completed tasks.
pub fn render_clear_tasks_confirm(area: Rect, completed: usize, active: usize) -> (r: Popup)
    ensures
        r@ == clear_popup(completed as nat, active as nat, area),
{
    broadcast use line_views_push;

    let rest = if active > 0 {
        say5(
            "  Keeps ",
            number(active).as_str(),
            " active ",
            noun(active, "task", "tasks"),
            ".",
        )
    } else {
        "  Task list will be empty afterward.".to_owned()
    };
    let mut lines: Vec<Line> = Vec::new();
    lines.push(blank());
    lines.push(
        one(
            Span::styled(
                say5(
                    "  Clear ",
                    number(completed).as_str(),
                    " completed ",
                    noun(completed, "task", "tasks"),
                    "?",
                ).as_str(),
                theme::title(),
            ),
        ),
    );
    lines.push(blank());
    lines.push(one(Span::styled(rest.as_str(), theme::dim())));
    lines.push(blank());
    lines.push(answer_line("[y] Clear", Color::Yellow, "[any] Keep"));
    assert(line_views(lines@) =~= clear_lines(completed as nat, active as nat));
    let content = larger(lines_bytes(&lines), 28);
    popup(content, area, " Clear Completed Tasks ", theme::overlay_border_warn(), lines)
}

/// A point of what a reset does.
pub open spec fn reset_point(text: Seq<char>) -> LineView {
    line_of(seq![styled(text, in_color(MUTED))])
}

/// The lines of the question whether to reset.
pub open spec fn reset_lines(plans: nat, queued: nat, finished: nat) -> Seq<LineView> {
    seq![
        empty_line(),
        line_of(seq![styled("  Reset session?"@, plain().with_bold())]),
        empty_line(),
        reset_point("  • Drop "@ + decimal(plans) + " cached "@ + counted(plans, "plan"@, "plans"@)),
        reset_point(
            "  • Cancel "@ + decimal(queued) + " queued "@ + counted(queued, "task"@, "tasks"@),
        ),
        reset_point(
            "  • Drop "@ + decimal(finished) + " finished "@ + counted(
                finished,
                "task"@,
                "tasks"@,
            ),
        ),
        reset_point("  • Clear filter, selection, depth limit"@),
        empty_line(),
        reset_point("  Running tasks continue."@),
        empty_line(),
        answers("[y] Reset"@, Color::Yellow, "[any] Cancel"@),
    ]
}

/// The question whether to reset.
pub open spec fn reset_popup(plans: nat, queued: nat, finished: nat, area: Rect) -> PopupView {
    let lines = reset_lines(plans, queued, finished);
    popup_around(
        max_of(widest_line(lines), 40),
        area,
        " Reset Session "@,
        in_color(Color::Yellow),
        lines,
    )
}

fn point(text: &str) -> (r: Line)
    ensures
        r@ == reset_point(text@),
{
    one(Span::styled(text, theme::dim()))
}

/// The overlay that asks whether to reset.
pub fn render_reset_confirm(area: Rect, plans: usize, queued: usize, finished: usize) -> (r: Popup)
    ensures
        r@ == reset_popup(plans as nat, queued as nat, finished as nat, area),
{
    broadcast use line_views_push;

    let mut lines: Vec<Line> = Vec::new();
    lines.push(blank());
    lines.push(one(Span::styled("  Reset session?", theme::title())));
    lines.push(blank());
    lines.push(
        point(
            say4(
                "  • Drop ",
                number(plans).as_str(),
                " cached ",
                noun(plans, "plan", "plans"),
            ).as_str(),
        ),
    );
    lines.push(
        point(
            say4(
                "  • Cancel ",
                number(queued).as_str(),
                " queued ",
                noun(queued, "task", "tasks"),
            ).as_str(),
        ),
    );
    lines.push(
        point(
            say4(
                "  • Drop ",
                number(finished).as_str(),
                " finished ",
                noun(finished, "task", "tasks"),
            ).as_str(),
        ),
    );
    lines.push(point("  • Clear filter, selection, depth limit"));
    lines.push(blank());
    lines.push(point("  Running tasks continue."));
    lines.push(blank());
    lines.push(answer_line("[y] Reset", Color::Yellow, "[any] Cancel"));
    assert(line_views(lines@) =~= reset_lines(plans as nat, queued as nat, finished as nat));
    let content = larger(lines_bytes(&lines), 40);
    popup(content, area, " Reset Session ", theme::overlay_border_warn(), lines)
}

/// The row of a task that is still active.
pub open spec fn quit_row(b: BriefView, width: nat) -> LineView {
    line_of(
        seq![
            raw("  "@ + icon_of_status(b.status) + " "@),
            styled(padded(b.name, width), in_color(Color::Cyan)),
            raw(b.command),
        ],
    )
}

/// The lines of the question whether to quit.
pub open spec fn quit_lines(active: Seq<BriefView>) -> Seq<LineView> {
    let done = active.len() == 0;
    let width = longest(brief_names(active));
    seq![
        line_of(
            seq![
                styled(
                    if done {
                        "  All tasks finished — quit?"@
                    } else {
                        "  Tasks still running — quit?"@
                    },
                    plain().with_bold(),
                ),
            ],
        ),
        empty_line(),
    ] + active.map_values(|b: BriefView| quit_row(b, width)) + seq![
        empty_line(),
        line_of(
            seq![
                raw("  "@),
                if done {
                    styled("[q] Quit"@, in_bold(Color::Green))
                } else {
                    styled("[q] Force quit"@, in_bold(Color::Red))
                },
                raw("   "@),
                styled("[Esc] Cancel"@, in_bold(Color::Green)),
            ],
        ),
    ]
}

/// The question whether to quit while tasks are active.
pub open spec fn quit_popup(active: Seq<BriefView>, area: Rect) -> PopupView {
    popup_around(
        max_of(5 + longest(brief_names(active)) + 1 + longest(brief_commands(active)), 31),
        area,
        if active.len() == 0 {
            " Quit? "@
        } else {
            " Quitting — "@ + decimal(active.len()) + " task(s) remaining "@
        },
        in_color(Color::Yellow),
        quit_lines(active),
    )
}

fn quit_rows(active: &Vec<Brief>, width: usize) -> (r: Vec<Line>)
    ensures
        line_views(r@) == brief_views(active@).map_values(
            |b: BriefView| quit_row(b, width as nat),
        ),
{
    broadcast use line_views_push;

    let ghost all = brief_views(active@);
    let mut out: Vec<Line> = Vec::new();
    let mut i: usize = 0;
    while i < active.len()
        invariant
            i <= active@.len(),
            all == brief_views(active@),
            line_views(out@) =~= all.take(i as int).map_values(
                |b: BriefView| quit_row(b, width as nat),
            ),
        decreases active@.len() - i,
    {
        assert(all[i as int] == active@[i as int]@);
        let ghost had = line_views(out@);
        out.push(
            three(
                Span::raw(say3("  ", theme::status_icon(&active[i].status), " ").as_str()),
                Span::styled(
                    pad(active[i].name.as_str(), width).as_str(),
                    theme::colored(Color::Cyan),
                ),
                Span::raw(active[i].command.as_str()),
            ),
        );
        assert(line_views(out@) == had.push(quit_row(all[i as int], width as nat)));
        i += 1;
    }
    assert(all.take(i as int) =~= all);
    out
}

/// The overlay that asks whether to quit: it lists the tasks that are still
/// active.
pub fn render_quit_wait(area: Rect, active: &Vec<Brief>) -> (r: Popup)
    ensures
        r@ == quit_popup(brief_views(active@), area),
{
    broadcast use line_views_push;

    let ghost all = brief_views(active@);
    let n: usize = active.len();
    let done = n == 0;
    let name_width = longest_of(&name_texts(active));
    let cmd_width = longest_of(&command_texts(active));
    let content = larger(
        name_width.saturating_add(5).saturating_add(1).saturating_add(cmd_width),
        31,
    );
    let mut lines: Vec<Line> = Vec::new();
    let header = if done {
        "  All tasks finished — quit?"
    } else {
        "  Tasks still running — quit?"
    };
    lines.push(one(Span::styled(header, theme::title())));
    lines.push(blank());
    push_lines(&mut lines, quit_rows(active, name_width));
    lines.push(blank());
    let quit = if done {
        Span::styled("[q] Quit", theme::colored(Color::Green).bold())
    } else {
        Span::styled("[q] Force quit", theme::colored(Color::Red).bold())
    };
    lines.push(
        four(
            Span::raw("  "),
            quit,
            Span::raw("   "),
            Span::styled("[Esc] Cancel", theme::colored(Color::Green).bold()),
        ),
    );
    assert(line_views(lines@) =~= quit_lines(all));
    let title = if done {
        " Quit? ".to_owned()
    } else {
        say3(" Quitting — ", number(n).as_str(), " task(s) remaining ")
    };
    popup(content, area, title.as_str(), theme::overlay_border_warn(), lines)
}

/// What an explorer operation asks.
pub open spec fn op_question(kind: ExplorerOpKind, n: nat) -> Seq<char> {
    "  "@ + kind.confirm_verb_text() + " "@ + decimal(n) + " "@ + counted(
        n,
        "resource"@,
        "resources"@,
    ) + ":"@
}

/// The warning of an explorer operation that changes real infrastructure.
pub open spec fn op_warning(kind: ExplorerOpKind) -> Seq<LineView> {
    match kind {
        ExplorerOpKind::TargetedDestroy => seq![
            line_of(
                seq![
                    styled("  ⚠  This will DESTROY real infrastructure."@, in_bold(Color::Red)),
                ],
            ),
            empty_line(),
        ],
        ExplorerOpKind::TargetedApply => seq![
            line_of(
                seq![
                    styled(
                        "  ⚠  This will APPLY changes to real infrastructure."@,
                        in_bold(Color::Red),
                    ),
                ],
            ),
            empty_line(),
        ],
        _ => Seq::empty(),
    }
}

/// The row of an address.
pub open spec fn address_row(a: Seq<char>) -> LineView {
    line_of(seq![styled("    • "@ + a, in_color(Color::Yellow))])
}

/// The lines of the question about an explorer operation.
pub open spec fn op_lines(kind: ExplorerOpKind, targets: Seq<Seq<char>>) -> Seq<LineView> {
    seq![
        empty_line(),
        line_of(seq![styled(op_question(kind, targets.len()), plain().with_bold())]),
        empty_line(),
    ] + targets.map_values(|a: Seq<char>| address_row(a)) + seq![empty_line()] + op_warning(kind)
        + seq![answers("[y] Confirm"@, Color::Red, "[any] Cancel"@)]
}

/// The question about an explorer operation.
pub open spec fn op_popup(kind: ExplorerOpKind, targets: Seq<Seq<char>>, area: Rect) -> PopupView {
    popup_around(
        max_of(
            max_of(6 + longest(targets), byte_len(op_question(kind, targets.len()))),
            match kind {
                ExplorerOpKind::TargetedDestroy => 46,
                ExplorerOpKind::TargetedApply => 55,
                _ => 28,
            },
        ),
        area,
        kind.confirm_title_text(),
        in_color(Color::Red),
        op_lines(kind, targets),
    )
}

fn address_rows(targets: &Vec<String>) -> (r: Vec<Line>)
    ensures
        line_views(r@) == texts(targets@).map_values(|a: Seq<char>| address_row(a)),
{
    broadcast use line_views_push;

    let ghost all = texts(targets@);
    let mut out: Vec<Line> = Vec::new();
    let mut i: usize = 0;
    while i < targets.len()
        invariant
            i <= targets@.len(),
            all == texts(targets@),
            line_views(out@) =~= all.take(i as int).map_values(|a: Seq<char>| address_row(a)),
        decreases targets@.len() - i,
    {
        assert(all[i as int] == targets@[i as int]@);
        let ghost had = line_views(out@);
        out.push(
            one(
                Span::styled(
                    concat("    • ", targets[i].as_str()).as_str(),
                    theme::colored(Color::Yellow),
                ),
            ),
        );
        assert(line_views(out@) == had.push(address_row(all[i as int])));
        i += 1;
    }
    assert(all.take(i as int) =~= all);
    out
}

/// The overlay that asks to confirm an explorer operation.
pub fn render_op_confirm(area: Rect, kind: ExplorerOpKind, targets: &Vec<String>) -> (r: Popup)
    ensures
        r@ == op_popup(kind, texts(targets@), area),
{
    broadcast use line_views_push;

    let ghost ts = texts(targets@);
    let n: usize = targets.len();
    assert(ts.len() == n);
    let mut header = say5("  ", kind.confirm_verb(), " ", number(n).as_str(), " ");
    header.append(noun(n, "resource", "resources"));
    header.append(":");
    let floor: usize = match kind {
        ExplorerOpKind::TargetedDestroy => 46,
        ExplorerOpKind::TargetedApply => 55,
        _ => 28,
    };
    let content = larger(
        larger(longest_of(targets).saturating_add(6), bytes_in(header.as_str())),
        floor,
    );
    let mut lines: Vec<Line> = Vec::new();
    lines.push(blank());
    lines.push(one(Span::styled(header.as_str(), theme::title())));
    lines.push(blank());
    push_lines(&mut lines, address_rows(targets));
    lines.push(blank());
    let ghost mid = line_views(lines@);
    if kind == ExplorerOpKind::TargetedDestroy {
        lines.push(
            one(
                Span::styled(
                    "  ⚠  This will DESTROY real infrastructure.",
                    theme::colored(Color::Red).bold(),
                ),
            ),
        );
        lines.push(blank());
    } else if kind == ExplorerOpKind::TargetedApply {
        lines.push(
            one(
                Span::styled(
                    "  ⚠  This will APPLY changes to real infrastructure.",
                    theme::colored(Color::Red).bold(),
                ),
            ),
        );
        lines.push(blank());
    }
    assert(line_views(lines@) =~= mid + op_warning(kind));
    lines.push(answer_line("[y] Confirm", Color::Red, "[any] Cancel"));
    assert(line_views(lines@) =~= op_lines(kind, ts));
    popup(content, area, kind.confirm_title(), theme::overlay_border_danger(), lines)
}

/// The row of an address that is done.
pub open spec fn done_row(e: (Seq<char>, bool)) -> LineView {
    line_of(
        seq![
            raw("  "@),
            if e.1 {
                styled("✓ "@, in_bold(Color::Green))
            } else {
                styled("✗ "@, in_bold(Color::Red))
            },
            raw(e.0),
        ],
    )
}

/// The row of an address that is worked on.
pub open spec fn running_row(a: Seq<char>) -> LineView {
    line_of(seq![raw("  "@), styled("⋯ "@, in_color(Color::Yellow)), raw(a)])
}

/// The row of an address that is still to come.
pub open spec fn queued_row(a: Seq<char>) -> LineView {
    line_of(seq![raw("  "@), styled("· "@, in_color(MUTED)), styled(a, in_color(MUTED))])
}

/// The addresses of entries.
pub open spec fn entry_addresses(v: Seq<(Seq<char>, bool)>) -> Seq<Seq<char>> {
    v.map_values(|e: (Seq<char>, bool)| e.0)
}

/// The lines of an operation in progress.
pub open spec fn progress_lines(op: PendingOpView) -> Seq<LineView> {
    seq![empty_line(), empty_line()] + op.done.map_values(|e: (Seq<char>, bool)| done_row(e)) + (
    match op.running {
        Some((_, a)) => seq![running_row(a)],
        None => Seq::empty(),
    }) + op.queue.map_values(|a: Seq<char>| queued_row(a))
}

/// An operation in progress.
pub open spec fn progress_popup(op: PendingOpView, area: Rect) -> PopupView {
    popup_around(
        max_of(
            4 + max_of(
                max_of(
                    longest(entry_addresses(op.done)),
                    match op.running {
                        Some((_, a)) => byte_len(a),
                        None => 0,
                    },
                ),
                longest(op.queue),
            ),
            20,
        ),
        area,
        op.kind.progress_title_text(),
        in_color(Color::Yellow),
        progress_lines(op),
    )
}

fn address_texts(v: &Vec<(String, bool)>) -> (r: Vec<String>)
    ensures
        texts(r@) == entry_addresses(entry_views(v@)),
{
    broadcast use texts_push;

    let ghost all = entry_views(v@);
    let mut out: Vec<String> = Vec::new();
    let mut i: usize = 0;
    while i < v.len()
        invariant
            i <= v@.len(),
            all == entry_views(v@),
            texts(out@) =~= entry_addresses(all.take(i as int)),
        decreases v@.len() - i,
    {
        assert(all[i as int] == (v@[i as int].0@, v@[i as int].1));
        let ghost had = texts(out@);
        out.push(v[i].0.clone());
        assert(texts(out@) == had.push(all[i as int].0));
        i += 1;
    }
    assert(all.take(i as int) =~= all);
    out
}

fn done_rows(v: &Vec<(String, bool)>) -> (r: Vec<Line>)
    ensures
        line_views(r@) == entry_views(v@).map_values(|e: (Seq<char>, bool)| done_row(e)),
{
    broadcast use line_views_push;

    let ghost all = entry_views(v@);
    let mut out: Vec<Line> = Vec::new();
    let mut i: usize = 0;
    while i < v.len()
        invariant
            i <= v@.len(),
            all == entry_views(v@),
            line_views(out@) =~= all.take(i as int).map_values(
                |e: (Seq<char>, bool)| done_row(e),
            ),
        decreases v@.len() - i,
    {
        assert(all[i as int] == (v@[i as int].0@, v@[i as int].1));
        let ghost had = line_views(out@);
        let mark = if v[i].1 {
            Span::styled("✓ ", theme::colored(Color::Green).bold())
        } else {
            Span::styled("✗ ", theme::colored(Color::Red).bold())
        };
        out.push(three(Span::raw("  "), mark, Span::raw(v[i].0.as_str())));
        assert(line_views(out@) == had.push(done_row(all[i as int])));
        i += 1;
    }
    assert(all.take(i as int) =~= all);
    out
}

fn queued_rows(v: &Vec<String>) -> (r: Vec<Line>)
    ensures
        line_views(r@) == texts(v@).map_values(|a: Seq<char>| queued_row(a)),
{
    broadcast use line_views_push;

    let ghost all = texts(v@);
    let mut out: Vec<Line> = Vec::new();
    let mut i: usize = 0;
    while i < v.len()
        invariant
            i <= v@.len(),
            all == texts(v@),
            line_views(out@) =~= all.take(i as int).map_values(|a: Seq<char>| queued_row(a)),
        decreases v@.len() - i,
    {
        assert(all[i as int] == v@[i as int]@);
        let ghost had = line_views(out@);
        out.push(
            three(
                Span::raw("  "),
                Span::styled("· ", theme::dim()),
                Span::styled(v[i].as_str(), theme::dim()),
            ),
        );
        assert(line_views(out@) == had.push(queued_row(all[i as int])));
        i += 1;
    }
    assert(all.take(i as int) =~= all);
    out
}

/// The overlay of an operation in progress: what is done, worked on and to come.
pub fn render_op_progress(area: Rect, op: &PendingOp) -> (r: Popup)
    ensures
        r@ == progress_popup(op@, area),
{
    broadcast use line_views_push;

    let done_width = longest_of(&address_texts(&op.done));
    let running_width = match &op.running {
        Some((_, a)) => bytes_in(a.as_str()),
        None => 0,
    };
    let addr_width = larger(larger(done_width, running_width), longest_of(&op.queue));
    let content = larger(addr_width.saturating_add(4), 20);
    let mut lines: Vec<Line> = Vec::new();
    lines.push(blank());
    lines.push(blank());
    push_lines(&mut lines, done_rows(&op.done));
    let ghost mid = line_views(lines@);
    if let Some((_, a)) = &op.running {
        lines.push(
            three(
                Span::raw("  "),
                Span::styled("⋯ ", theme::colored(Color::Yellow)),
                Span::raw(a.as_str()),
            ),
        );
    }
    assert(line_views(lines@) =~= mid + (match op@.running {
        Some((_, a)) => seq![running_row(a)],
        None => Seq::empty(),
    }));
    push_lines(&mut lines, queued_rows(&op.queue));
    assert(line_views(lines@) =~= progress_lines(op@));
    popup(content, area, op.kind.progress_title(), theme::overlay_border_warn(), lines)
}

/// Whether all entries succeeded.
pub open spec fn all_succeeded(v: Seq<(Seq<char>, bool)>) -> bool {
    forall|i: int| 0 <= i < v.len() ==> (#[trigger] v[i]).1
}

/// The lines of the result of an operation.
pub open spec fn result_lines(v: Seq<(Seq<char>, bool)>) -> Seq<LineView> {
    seq![empty_line()] + v.map_values(|e: (Seq<char>, bool)| done_row(e)) + seq![
        empty_line(),
        line_of(seq![styled("  [any key] Dismiss"@, in_color(MUTED))]),
    ]
}

/// The result of an operation.
pub open spec fn result_popup(res: OpResultView, area: Rect) -> PopupView {
    popup_around(
        max_of(4 + longest(entry_addresses(res.entries)), 20),
        area,
        res.kind.result_title_text(all_succeeded(res.entries)),
        if all_succeeded(res.entries) {
            in_color(Color::Green)
        } else {
            in_color(Color::Red)
        },
        result_lines(res.entries),
    )
}

fn all_ok(v: &Vec<(String, bool)>) -> (r: bool)
    ensures
        r == all_succeeded(entry_views(v@)),
{
    let ghost all = entry_views(v@);
    let mut i: usize = 0;
    while i < v.len()
        invariant
            i <= v@.len(),
            all == entry_views(v@),
            forall|k: int| 0 <= k < i ==> (#[trigger] all[k]).1,
        decreases v@.len() - i,
    {
        assert(all[i as int].1 == v@[i as int].1);
        if !v[i].1 {
            return false;
        }
        i += 1;
    }
    true
}

/// The overlay of the result of an operation.
pub fn render_op_result(area: Rect, result: &OpResult) -> (r: Popup)
    ensures
        r@ == result_popup(result@, area),
{
    broadcast use line_views_push;

    let ok = all_ok(&result.entries);
    let border = if ok {
        theme::overlay_border_success()
    } else {
        theme::overlay_border_danger()
    };
    let content = larger(longest_of(&address_texts(&result.entries)).saturating_add(4), 20);
    let mut lines: Vec<Line> = Vec::new();
    lines.push(blank());
    push_lines(&mut lines, done_rows(&result.entries));
    lines.push(blank());
    lines.push(one(Span::styled("  [any key] Dismiss", theme::dim())));
    assert(line_views(lines@) =~= result_lines(result@.entries));
    popup(content, area, result.kind.result_title(ok), border, lines)
}

/// The lines of the notice that a plan was queued.
pub open spec fn notice_lines() -> Seq<LineView> {
    seq![
        empty_line(),
        line_of(seq![styled("  Targeted plan queued."@, plain().with_bold())]),
        line_of(seq![styled("  Tab to the task list to view output."@, in_color(MUTED))]),
        empty_line(),
        line_of(seq![styled("  [any key] Dismiss"@, in_color(MUTED))]),
    ]
}

/// The notice that a plan was queued.
pub open spec fn notice_popup(area: Rect) -> PopupView {
    PopupView {
        area: popup_of(least(46, area.width as nat) as u16, 7, area),
        title: " Plan Queued "@,
        border: in_color(Color::Green),
        lines: notice_lines(),
    }
}

/// The overlay that says that a targeted plan was queued.
pub fn render_plan_queued_notice(area: Rect) -> (r: Popup)
    ensures
        r@ == notice_popup(area),
{
    broadcast use line_views_push;

    let mut lines: Vec<Line> = Vec::new();
    lines.push(blank());
    lines.push(one(Span::styled("  Targeted plan queued.", theme::title())));
    lines.push(one(Span::styled("  Tab to the task list to view output.", theme::dim())));
    lines.push(blank());
    lines.push(one(Span::styled("  [any key] Dismiss", theme::dim())));
    assert(line_views(lines@) =~= notice_lines());
    Popup {
        area: popup_rect(with_border(44, area.width), 7, area),
        title: " Plan Queued ".to_owned(),
        border: theme::overlay_border_success(),
        lines,
    }
}

} // verus!
