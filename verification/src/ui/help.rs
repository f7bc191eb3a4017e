//! The help overlay, and the guard for terminals that are too small.

use crate::app::types::Screen;
use crate::text::{chars_of, decimal};
use crate::ui::theme;
use crate::ui::frame::{
    larger, max_of, number, one, pad, padded, say5, Popup, PopupView, Widget, WidgetView,
};
use crate::ui::keybar::hint_views;
use crate::ui::layout::{in_cells, popup_of, popup_rect, MIN_H, MIN_W, Rect};
use crate::ui::style::{
    line, line_of, line_views, line_views_push, plain, raw, span_views, span_views_push, styled,
    Alignment, Line, LineView, Span,
};
use crate::ui::theme::{in_bold, in_color, ACCENT, MUTED};
use vstd::prelude::*;

verus! {

/// A number of cells, held below the largest coordinate.
pub fn to_cells(n: usize) -> (r: u16)
    ensures
        r == in_cells(n as int),
{
    if n > u16::MAX as usize {
        u16::MAX
    } else {
        n as u16
    }
}

/// The keys of the select screen and what they do.
pub open spec fn select_entries() -> Seq<(Seq<char>, Seq<char>)> {
    seq![
        ("j/k ↑/↓"@, "move cursor"@),
        ("PgUp/PgDn"@, "page up / down"@),
        ("g / G"@, "first / last"@),
        ("Space"@, "toggle select"@),
        ("Ctrl+Space"@, "range select"@),
        ("* / c"@, "all / clear"@),
        ("/ Esc"@, "filter / clear"@),
        ("[ / ]"@, "depth − / +"@),
        ("Enter"@, "run selection"@),
        ("Tab"@, "resume session"@),
        ("i / u"@, "init / upgrade"@),
        ("p / a"@, "plan / apply"@),
        ("d / U"@, "destroy / unlock"@),
        ("s"@, "state explorer"@),
        ("r / R"@, "refresh / reset"@),
        ("? / q"@, "help / quit"@),
    ]
}

/// The keys of the run screen and what they do.
pub open spec fn run_entries() -> Seq<(Seq<char>, Seq<char>)> {
    seq![
        ("j/k ↑/↓"@, "move cursor"@),
        ("g / G"@, "first / last"@),
        ("PgUp/PgDn"@, "scroll output"@),
        ("Space"@, "toggle subset"@),
        ("Ctrl+Space"@, "range select"@),
        ("* / c"@, "all / clear subset"@),
        ("i / p"@, "init / plan"@),
        ("a / d"@, "apply / destroy"@),
        ("u / U"@, "upgrade / unlock"@),
        ("I/P/A/D"@, "same, this row"@),
        ("C / x"@, "cancel / clear tasks"@),
        ("Enter"@, "fullscreen output"@),
        ("drag / y"@, "select / copy output"@),
        ("Y"@, "copy all output"@),
        ("w"@, "wrap output"@),
        ("s"@, "state explorer"@),
        ("Esc"@, "back (tasks run on)"@),
        ("? / q"@, "help / quit"@),
    ]
}

fn select_help() -> (r: Vec<(&'static str, &'static str)>)
    ensures
        hint_views(r@) == select_entries(),
{
    let r: Vec<(&'static str, &'static str)> = vec![
        ("j/k ↑/↓", "move cursor"),
        ("PgUp/PgDn", "page up / down"),
        ("g / G", "first / last"),
        ("Space", "toggle select"),
        ("Ctrl+Space", "range select"),
        ("* / c", "all / clear"),
        ("/ Esc", "filter / clear"),
        ("[ / ]", "depth − / +"),
        ("Enter", "run selection"),
        ("Tab", "resume session"),
        ("i / u", "init / upgrade"),
        ("p / a", "plan / apply"),
        ("d / U", "destroy / unlock"),
        ("s", "state explorer"),
        ("r / R", "refresh / reset"),
        ("? / q", "help / quit"),
    ];
    assert(hint_views(r@) =~= select_entries());
    r
}

fn run_help() -> (r: Vec<(&'static str, &'static str)>)
    ensures
        hint_views(r@) == run_entries(),
{
    let r: Vec<(&'static str, &'static str)> = vec![
        ("j/k ↑/↓", "move cursor"),
        ("g / G", "first / last"),
        ("PgUp/PgDn", "scroll output"),
        ("Space", "toggle subset"),
        ("Ctrl+Space", "range select"),
        ("* / c", "all / clear subset"),
        ("i / p", "init / plan"),
        ("a / d", "apply / destroy"),
        ("u / U", "upgrade / unlock"),
        ("I/P/A/D", "same, this row"),
        ("C / x", "cancel / clear tasks"),
        ("Enter", "fullscreen output"),
        ("drag / y", "select / copy output"),
        ("Y", "copy all output"),
        ("w", "wrap output"),
        ("s", "state explorer"),
        ("Esc", "back (tasks run on)"),
        ("? / q", "help / quit"),
    ];
    assert(hint_views(r@) =~= run_entries());
    r
}

/// The most characters that a key, or else a description, has.
pub open spec fn column_width(entries: Seq<(Seq<char>, Seq<char>)>, keys: bool) -> nat
    decreases entries.len(),
{
    if entries.len() == 0 {
        0
    } else {
        max_of(
            column_width(entries.drop_last(), keys),
            if keys {
                entries.last().0.len()
            } else {
                entries.last().1.len()
            },
        )
    }
}

/// The row of two entries beside each other, or of one.
pub open spec fn wide_row(entries: Seq<(Seq<char>, Seq<char>)>, i: int) -> LineView {
    let mid = (entries.len() + 1) / 2;
    let left = entries.take(mid as int);
    let right = entries.skip(mid as int);
    let first = seq![
        styled(padded(left[i].0, column_width(left, true)), in_bold(ACCENT)),
        styled("  "@ + padded(left[i].1, column_width(left, false)), in_color(MUTED)),
    ];
    line_of(
        if i < right.len() {
            first + seq![
                raw("   "@),
                styled(padded(right[i].0, column_width(right, true)), in_bold(ACCENT)),
                styled("  "@ + right[i].1, in_color(MUTED)),
            ]
        } else {
            first
        },
    )
}

/// The row of one entry.
pub open spec fn narrow_row(entries: Seq<(Seq<char>, Seq<char>)>, i: int) -> LineView {
    line_of(
        seq![
            styled(padded(entries[i].0, column_width(entries, true)), in_bold(ACCENT)),
            styled("  "@ + entries[i].1, in_color(MUTED)),
        ],
    )
}

/// The rows of a help table: two columns in a wide terminal, else one.
pub open spec fn help_rows(entries: Seq<(Seq<char>, Seq<char>)>, wide: bool) -> Seq<LineView> {
    if wide {
        Seq::new((entries.len() + 1) / 2, |i: int| wide_row(entries, i))
    } else {
        Seq::new(entries.len(), |i: int| narrow_row(entries, i))
    }
}

/// The cells that the rows of a help table take.
pub open spec fn help_width(entries: Seq<(Seq<char>, Seq<char>)>, wide: bool) -> nat {
    if wide {
        let mid = (entries.len() + 1) / 2;
        let left = entries.take(mid as int);
        let right = entries.skip(mid as int);
        column_width(left, true) + 2 + column_width(left, false) + 3 + column_width(right, true)
            + 2 + column_width(right, false)
    } else {
        column_width(entries, true) + 2 + column_width(entries, false)
    }
}

/// The help overlay of a screen.
pub open spec fn help_popup(screen: Screen, area: Rect) -> PopupView {
    let entries = match screen {
        Screen::Select => select_entries(),
        Screen::Run => run_entries(),
    };
    let rows = help_rows(entries, area.width >= 80);
    PopupView {
        area: popup_of(
            in_cells((help_width(entries, area.width >= 80) + 4) as int) as u16,
            in_cells((rows.len() + 2) as int) as u16,
            area,
        ),
        title: match screen {
            Screen::Select => " Help — Select (any key to close) "@,
            Screen::Run => " Help — Run (any key to close) "@,
        },
        border: in_color(crate::ui::style::Color::Yellow),
        lines: rows,
    }
}

fn width_of(entries: &Vec<(&str, &str)>, from: usize, to: usize, keys: bool) -> (r: usize)
    requires
        from <= to <= entries@.len(),
    ensures
        r == column_width(hint_views(entries@).subrange(from as int, to as int), keys),
{
    let ghost all = hint_views(entries@).subrange(from as int, to as int);
    let mut most: usize = 0;
    let mut i: usize = from;
    while i < to
        invariant
            from <= i <= to <= entries@.len(),
            all == hint_views(entries@).subrange(from as int, to as int),
            most == column_width(all.take(i - from), keys),
        decreases to - i,
    {
        assert(all.take(i + 1 - from).drop_last() =~= all.take(i - from));
        assert(all[i - from] == (entries@[i as int].0@, entries@[i as int].1@));
        let text = if keys {
            entries[i].0
        } else {
            entries[i].1
        };
        most = larger(most, chars_of(text).len());
        i += 1;
    }
    assert(all.take(to - from) =~= all);
    most
}

fn wide_rows(entries: &Vec<(&str, &str)>) -> (r: (Vec<Line>, usize))
    requires
        entries@.len() < usize::MAX,
    ensures
        line_views(r.0@) == help_rows(hint_views(entries@), true),
        r.1 == if help_width(hint_views(entries@), true) > usize::MAX {
            usize::MAX as nat
        } else {
            help_width(hint_views(entries@), true)
        },
{
    broadcast use {line_views_push, span_views_push};

    let ghost all = hint_views(entries@);
    let n: usize = entries.len();
    let mid: usize = (n + 1) / 2;
    let ghost left = all.take(mid as int);
    let ghost right = all.skip(mid as int);
    assert(left == all.subrange(0, mid as int));
    assert(right == all.subrange(mid as int, n as int));
    let lk = width_of(entries, 0, mid, true);
    let ld = width_of(entries, 0, mid, false);
    let rk = width_of(entries, mid, n, true);
    let rd = width_of(entries, mid, n, false);
    let mut rows: Vec<Line> = Vec::new();
    let mut i: usize = 0;
    while i < mid
        invariant
            i <= mid <= n,
            n == entries@.len(),
            mid == (n + 1) / 2,
            all == hint_views(entries@),
            left == all.take(mid as int),
            right == all.skip(mid as int),
            lk == column_width(left, true),
            ld == column_width(left, false),
            rk == column_width(right, true),
            line_views(rows@) =~= Seq::new(i as nat, |k: int| wide_row(all, k)),
        decreases mid - i,
    {
        assert(left[i as int] == all[i as int]);
        assert(all[i as int] == (entries@[i as int].0@, entries@[i as int].1@));
        let mut text = "  ".to_owned();
        text.append(pad(entries[i].1, ld).as_str());
        let mut spans: Vec<Span> = Vec::new();
        spans.push(Span::styled(pad(entries[i].0, lk).as_str(), theme::app_title()));
        spans.push(Span::styled(text.as_str(), theme::dim()));
        if mid + i < n {
            assert(right[i as int] == all[mid + i]);
            assert(all[mid + i] == (entries@[mid + i].0@, entries@[mid + i].1@));
            let mut text = "  ".to_owned();
            text.append(entries[mid + i].1);
            spans.push(Span::raw("   "));
            spans.push(Span::styled(pad(entries[mid + i].0, rk).as_str(), theme::app_title()));
            spans.push(Span::styled(text.as_str(), theme::dim()));
        }
        assert(span_views(spans@) =~= wide_row(all, i as int).spans);
        let ghost had = line_views(rows@);
        let l = line(spans);
        assert(l@ == wide_row(all, i as int));
        rows.push(l);
        assert(line_views(rows@) == had.push(wide_row(all, i as int)));
        i += 1;
    }
    assert(line_views(rows@) =~= help_rows(all, true));
    let w: usize = lk.saturating_add(2).saturating_add(ld).saturating_add(3).saturating_add(
        rk,
    ).saturating_add(2).saturating_add(rd);
    (rows, w)
}

fn narrow_rows(entries: &Vec<(&str, &str)>) -> (r: (Vec<Line>, usize))
    ensures
        line_views(r.0@) == help_rows(hint_views(entries@), false),
        r.1 == if help_width(hint_views(entries@), false) > usize::MAX {
            usize::MAX as nat
        } else {
            help_width(hint_views(entries@), false)
        },
{
    broadcast use line_views_push;

    let ghost all = hint_views(entries@);
    let n: usize = entries.len();
    assert(all == all.subrange(0, n as int));
    let kw = width_of(entries, 0, n, true);
    let dw = width_of(entries, 0, n, false);
    let mut rows: Vec<Line> = Vec::new();
    let mut i: usize = 0;
    while i < n
        invariant
            i <= n,
            n == entries@.len(),
            all == hint_views(entries@),
            kw == column_width(all, true),
            line_views(rows@) =~= Seq::new(i as nat, |k: int| narrow_row(all, k)),
        decreases n - i,
    {
        assert(all[i as int] == (entries@[i as int].0@, entries@[i as int].1@));
        let mut text = "  ".to_owned();
        text.append(entries[i].1);
        let ghost had = line_views(rows@);
        let l = crate::ui::frame::two(
            Span::styled(pad(entries[i].0, kw).as_str(), theme::app_title()),
            Span::styled(text.as_str(), theme::dim()),
        );
        assert(l@ == narrow_row(all, i as int));
        rows.push(l);
        assert(line_views(rows@) == had.push(narrow_row(all, i as int)));
        i += 1;
    }
    assert(line_views(rows@) =~= help_rows(all, false));
    (rows, kw.saturating_add(2).saturating_add(dw))
}

/// The help overlay of a screen: its keys and what they do.
pub fn render_help(area: Rect, screen: Screen) -> (r: Popup)
    ensures
        r@ == help_popup(screen, area),
{
    let entries = match screen {
        Screen::Select => select_help(),
        Screen::Run => run_help(),
    };
    let title = match screen {
        Screen::Select => " Help — Select (any key to close) ",
        Screen::Run => " Help — Run (any key to close) ",
    };
    proof {
        assert(hint_views(entries@).len() == entries@.len());
        assert(select_entries().len() == 16);
        assert(run_entries().len() == 18);
    }
    let (rows, width) = if area.width >= 80 {
        wide_rows(&entries)
    } else {
        narrow_rows(&entries)
    };
    let n: usize = rows.len();
    assert(line_views(rows@).len() == n);
    Popup {
        area: popup_rect(
            to_cells(width.saturating_add(4)),
            to_cells(n.saturating_add(2)),
            area,
        ),
        title: title.to_owned(),
        border: theme::overlay_border_warn(),
        lines: rows,
    }
}

/// The lines shown in a terminal that is too small.
pub open spec fn small_lines(area: Rect) -> Seq<LineView> {
    seq![
        line_of(seq![styled("terminal too small"@, plain().with_bold())]),
        line_of(
            seq![
                styled(
                    "need ≥ "@ + decimal(MIN_W as nat) + "×"@ + decimal(MIN_H as nat) + " (now "@
                        + decimal(area.width as nat) + "×"@ + decimal(area.height as nat) + ")"@,
                    in_color(MUTED),
                ),
            ],
        ),
        line_of(seq![styled("resize, or q to quit"@, in_color(MUTED))]),
    ]
}

/// Where those lines stand: in the middle, on up to three rows.
pub open spec fn small_area(area: Rect) -> Rect {
    let y = area.y + (if area.height < 3 {
        0
    } else {
        area.height - 3
    }) / 2;
    let h = if area.height == 0 {
        1
    } else if area.height < 3 {
        area.height as int
    } else {
        3
    };
    Rect {
        x: area.x,
        y: y as u16,
        width: area.width,
        height: (if y + h > u16::MAX {
            u16::MAX - y
        } else {
            h
        }) as u16,
    }
}

/// What is drawn in a terminal that is too small.
pub open spec fn small_frame(area: Rect) -> Seq<WidgetView> {
    seq![
        WidgetView::Clear { area },
        WidgetView::Text {
            area: small_area(area),
            lines: small_lines(area),
            alignment: Alignment::Center,
        },
    ]
}

/// What is drawn in a terminal that is too small: the size that it needs and the
/// size that it has.
pub fn render_too_small(area: Rect) -> (r: Vec<Widget>)
    requires
        crate::ui::frame::fits(area),
    ensures
        crate::ui::frame::widget_views(r@) == small_frame(area),
{
    broadcast use {line_views_push, crate::ui::frame::widget_views_push};

    let mut size = say5(
        "need ≥ ",
        number(MIN_W as usize).as_str(),
        "×",
        number(MIN_H as usize).as_str(),
        " (now ",
    );
    size.append(number(area.width as usize).as_str());
    size.append("×");
    size.append(number(area.height as usize).as_str());
    size.append(")");
    let mut lines: Vec<Line> = Vec::new();
    lines.push(one(Span::styled("terminal too small", theme::title())));
    lines.push(one(Span::styled(size.as_str(), theme::dim())));
    lines.push(one(Span::styled("resize, or q to quit", theme::dim())));
    assert(line_views(lines@) =~= small_lines(area));
    let y: u16 = area.y + area.height.saturating_sub(3) / 2;
    let h: u16 = if area.height == 0 {
        1
    } else if area.height < 3 {
        area.height
    } else {
        3
    };
    let room: u16 = u16::MAX - y;
    let middle = Rect {
        x: area.x,
        y,
        width: area.width,
        height: if h > room {
            room
        } else {
            h
        },
    };
    let mut frame: Vec<Widget> = Vec::new();
    frame.push(Widget::Clear { area });
    frame.push(Widget::Text { area: middle, lines, alignment: Alignment::Center });
    assert(crate::ui::frame::widget_views(frame@) =~= small_frame(area));
    frame
}

} // verus!
