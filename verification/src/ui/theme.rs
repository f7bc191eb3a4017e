//! The palette, the styles made of it, and the treatment of the cursor row.

use crate::task::TaskStatus;
use crate::text::{concat, repeat, repeated};
use crate::ui::style::{
    plain, raw, span_views, span_views_push, styled, text_of, Color, Line, LineView, Span, SpanView,
    Style,
};
use unicode_width::UnicodeWidthStr;
use vstd::prelude::*;

verus! {

/// The glyph in front of the row under the cursor.
pub const CURSOR_BAR: &'static str = "▍";

pub const ACCENT: Color = Color::Cyan;

pub const MUTED: Color = Color::DarkGray;

pub const MARK: Color = Color::Yellow;

pub const OK: Color = Color::Green;

pub const ERR: Color = Color::Red;

pub const WARN: Color = Color::Magenta;

pub const COUNT_ADD: Color = Color::Green;

pub const COUNT_CHANGE: Color = Color::Yellow;

pub const COUNT_DESTROY: Color = Color::Red;

pub const COUNT_IMPORT: Color = Color::Cyan;

pub const COUNT_FORGET: Color = Color::DarkGray;

pub const COUNT_NONE: Color = Color::DarkGray;

/// A style of one foreground colour.
pub open spec fn in_color(c: Color) -> Style {
    Style { fg: Some(c), ..plain() }
}

/// A bold style of one foreground colour.
pub open spec fn in_bold(c: Color) -> Style {
    in_color(c).with_bold()
}

/// A style of one foreground colour.
pub fn colored(c: Color) -> (r: Style)
    ensures
        r == in_color(c),
{
    Style::default().fg(c)
}

/// Application title: accent, bold.
pub fn app_title() -> (r: Style)
    ensures
        r == in_bold(ACCENT),
{
    colored(ACCENT).bold()
}

/// Generic bold title.
pub fn title() -> (r: Style)
    ensures
        r == plain().with_bold(),
{
    Style::default().bold()
}

/// Secondary text.
pub fn muted() -> (r: Style)
    ensures
        r == in_color(MUTED),
{
    colored(MUTED)
}

/// The style of the highlighted row.
pub open spec fn cursor_style() -> Style {
    plain().with_bg(MUTED).with_bold()
}

/// The style of the highlighted row.
pub fn row_cursor() -> (r: Style)
    ensures
        r == cursor_style(),
{
    Style::default().bg(MUTED).bold()
}

/// The brighter twin of `c`, or `c` itself where it has none.
pub open spec fn lifted(c: Color) -> Color {
    match c {
        Color::DarkGray => Color::Gray,
        Color::Black => Color::White,
        Color::Blue => Color::LightBlue,
        Color::Red => Color::LightRed,
        Color::Green => Color::LightGreen,
        Color::Yellow => Color::LightYellow,
        Color::Magenta => Color::LightMagenta,
        Color::Cyan => Color::LightCyan,
        other => other,
    }
}

/// The brighter twin of `c`, for text on the cursor row's bar.
///
/// The bar is drawn in `MUTED`, so a foreground too dark to read against it has
/// to be lifted. Colours that are bright already pass through.
pub fn lift_color(c: Color) -> (r: Color)
    ensures
        r == lifted(c),
{
    match c {
        Color::DarkGray => Color::Gray,
        Color::Black => Color::White,
        Color::Blue => Color::LightBlue,
        Color::Red => Color::LightRed,
        Color::Green => Color::LightGreen,
        Color::Yellow => Color::LightYellow,
        Color::Magenta => Color::LightMagenta,
        Color::Cyan => Color::LightCyan,
        other => other,
    }
}

/// No colour is lifted to the colour of the bar that it is drawn on.
pub proof fn lifted_text_shows_on_the_bar(c: Color)
    ensures
        lifted(c) != MUTED,
{
}

/// A lifted colour is left alone when it is lifted again.
pub proof fn lifting_is_idempotent(c: Color)
    ensures
        lifted(lifted(c)) == lifted(c),
{
}

/// `s` with its foreground lifted, if it has one.
pub open spec fn lifted_style(s: Style) -> Style {
    match s.fg {
        Some(c) => Style { fg: Some(lifted(c)), ..s },
        None => s,
    }
}

/// `s` with its foreground lifted.
pub open spec fn lifted_span(s: SpanView) -> SpanView {
    SpanView { content: s.content, style: lifted_style(s.style) }
}

/// Spans with every foreground lifted.
pub open spec fn lifted_spans(spans: Seq<SpanView>) -> Seq<SpanView> {
    spans.map_values(|s: SpanView| lifted_span(s))
}

/// Lifts the foreground of every span, for a row about to be drawn as the
/// cursor row. Spans without a foreground are left alone.
pub fn lift_fg(line: Line) -> (r: Line)
    ensures
        r@ == (LineView { spans: lifted_spans(line@.spans), ..line@ }),
{
    let mut line = line;
    let ghost before = line;
    let mut i: usize = 0;
    while i < line.spans.len()
        invariant
            i <= line.spans@.len(),
            line.spans@.len() == before.spans@.len(),
            line.style == before.style,
            line.alignment == before.alignment,
            forall|j: int|
                0 <= j < i ==> #[trigger] line.spans@[j]@ == lifted_span(before.spans@[j]@),
            forall|j: int|
                i <= j < line.spans@.len() ==> #[trigger] line.spans@[j] == before.spans@[j],
        decreases line.spans@.len() - i,
    {
        let style = line.spans[i].style;
        if let Some(fg) = style.fg {
            let lifted_to = Style {
                fg: Some(lift_color(fg)),
                bg: style.bg,
                add_modifier: style.add_modifier,
            };
            line.spans[i].style = lifted_to;
        }
        i += 1;
    }
    assert(line@.spans =~= lifted_spans(before@.spans));
    line
}

/// The cells that a text takes on the terminal.
pub uninterp spec fn str_cells(s: Seq<char>) -> nat;

/// Calls `unicode_width::UnicodeWidthStr::width`: the columns that `s` takes
/// when it is displayed.
#[verifier::external_body]
pub(crate) fn str_width(s: &str) -> (r: usize)
    ensures
        r == str_cells(s@),
{
    UnicodeWidthStr::width(s)
}

/// The cells that spans take, one after the other.
pub open spec fn cells_of(spans: Seq<SpanView>) -> nat
    decreases spans.len(),
{
    if spans.len() == 0 {
        0
    } else {
        cells_of(spans.drop_last()) + str_cells(spans.last().content)
    }
}

/// The cells that a line takes; at most `usize::MAX`.
pub fn line_width(line: &Line) -> (r: usize)
    ensures
        r == if cells_of(line@.spans) > usize::MAX {
            usize::MAX as nat
        } else {
            cells_of(line@.spans)
        },
{
    let ghost all = line@.spans;
    let mut w: usize = 0;
    let mut i: usize = 0;
    while i < line.spans.len()
        invariant
            i <= line.spans@.len(),
            all == line@.spans,
            w == if cells_of(all.take(i as int)) > usize::MAX {
                usize::MAX as nat
            } else {
                cells_of(all.take(i as int))
            },
        decreases line.spans@.len() - i,
    {
        assert(all.take(i + 1).drop_last() == all.take(i as int));
        assert(all[i as int] == line.spans@[i as int]@);
        w = w.saturating_add(str_width(line.spans[i].content.as_str()));
        i += 1;
    }
    assert(all.take(i as int) == all);
    w
}

/// `line` as the cursor row of an area `width` cells wide: lifted, padded with
/// blanks up to the width, and drawn in the cursor style.
pub open spec fn cursor_row_of(line: LineView, width: u16) -> LineView {
    let cells = cells_of(line.spans);
    let spans = lifted_spans(line.spans);
    LineView {
        spans: if cells < width {
            spans.push(raw(repeated(' ', (width - cells) as nat)))
        } else {
            spans
        },
        style: cursor_style(),
        ..line
    }
}

/// Lifting changes no text.
pub proof fn lifting_keeps_the_text(spans: Seq<SpanView>)
    ensures
        cells_of(lifted_spans(spans)) == cells_of(spans),
        text_of(lifted_spans(spans)) == text_of(spans),
    decreases spans.len(),
{
    if spans.len() > 0 {
        lifting_keeps_the_text(spans.drop_last());
        assert(lifted_spans(spans).drop_last() == lifted_spans(spans.drop_last()));
    }
}

/// Treats `line` as the cursor row of an area `width` cells wide.
///
/// A paragraph styles only cells that hold text, so the padding is what makes
/// the bar reach the edge. Content wider than the row is left as it is.
pub fn cursor_row(line: Line, width: u16) -> (r: Line)
    ensures
        r@ == cursor_row_of(line@, width),
{
    let ghost before = line@;
    let mut line = lift_fg(line);
    proof {
        lifting_keeps_the_text(before.spans);
    }
    let w = line_width(&line);
    let ghost spans = line.spans@;
    if w < width as usize {
        let pad = Span::raw(repeat(' ', width as usize - w).as_str());
        proof {
            span_views_push(spans, pad);
        }
        line.spans.push(pad);
    }
    line.style = row_cursor();
    line
}

/// Column header: dim, underlined.
pub fn col_header() -> (r: Style)
    ensures
        r == in_color(MUTED).with_underlined(),
{
    colored(MUTED).underlined()
}

/// A key hint: the key in bold accent, its label muted.
pub open spec fn key_hint_of(key: Seq<char>, label: Seq<char>) -> Seq<SpanView> {
    seq![styled(key, in_bold(ACCENT)), styled(" "@ + label, in_color(MUTED))]
}

/// A key hint: the key in bold accent, its label muted.
pub fn key_hint(key: &str, label: &str) -> (r: Vec<Span>)
    ensures
        span_views(r@) == key_hint_of(key@, label@),
{
    let mut v: Vec<Span> = Vec::new();
    v.push(Span::styled(key, app_title()));
    v.push(Span::styled(concat(" ", label).as_str(), muted()));
    assert(span_views(v@) =~= key_hint_of(key@, label@));
    v
}

/// The number of spinner frames.
pub const SPINNER_FRAME_COUNT: usize = 4;

/// The frame that is shown at a tick: each frame lasts two ticks.
pub open spec fn frame_at(tick: u8) -> int {
    (tick as int / 2) % 4
}

/// The spinner frame with number `i`.
pub open spec fn frame_text(i: int) -> Seq<char> {
    if i == 0 {
        "◐"@
    } else if i == 1 {
        "◓"@
    } else if i == 2 {
        "◑"@
    } else {
        "◒"@
    }
}

/// The spinner frame with number `i`.
pub fn spinner_frame(i: usize) -> (r: &'static str)
    requires
        i < SPINNER_FRAME_COUNT,
    ensures
        r@ == frame_text(i as int),
{
    if i == 0 {
        "◐"
    } else if i == 1 {
        "◓"
    } else if i == 2 {
        "◑"
    } else {
        "◒"
    }
}

/// Spinner frame for the given tick.
pub fn spinner(tick: u8) -> (r: &'static str)
    ensures
        r@ == frame_text(frame_at(tick)),
{
    spinner_frame((tick as usize / 2) % SPINNER_FRAME_COUNT)
}

pub fn overlay_border_warn() -> (r: Style)
    ensures
        r == in_color(Color::Yellow),
{
    colored(Color::Yellow)
}

pub fn overlay_border_danger() -> (r: Style)
    ensures
        r == in_color(Color::Red),
{
    colored(Color::Red)
}

pub fn overlay_border_success() -> (r: Style)
    ensures
        r == in_color(Color::Green),
{
    colored(Color::Green)
}

pub fn overlay_border_explorer() -> (r: Style)
    ensures
        r == in_color(Color::Blue),
{
    colored(Color::Blue)
}

pub fn overlay_border_filter() -> (r: Style)
    ensures
        r == in_color(ACCENT),
{
    colored(ACCENT)
}

pub fn multi_select_marker() -> (r: Style)
    ensures
        r == in_bold(Color::Yellow),
{
    colored(Color::Yellow).bold()
}

pub fn multi_select_item() -> (r: Style)
    ensures
        r == in_color(Color::Yellow),
{
    colored(Color::Yellow)
}

/// Marker of a resource that a selected module prefix covers.
pub fn covered_marker() -> (r: Style)
    ensures
        r == in_color(MUTED),
{
    colored(MUTED)
}

pub fn plan_marker() -> (r: Style)
    ensures
        r == in_bold(Color::Green),
{
    colored(Color::Green).bold()
}

/// Marker of a cached plan that covers only some resources.
pub fn plan_marker_targeted() -> (r: Style)
    ensures
        r == in_bold(MARK),
{
    colored(MARK).bold()
}

/// The command column. Plain blue is too dark on the cursor bar.
pub fn command_text() -> (r: Style)
    ensures
        r == in_color(Color::LightBlue),
{
    colored(Color::LightBlue)
}

pub fn dim() -> (r: Style)
    ensures
        r == in_color(MUTED),
{
    muted()
}

/// The style of a task status.
pub open spec fn style_of_status(s: TaskStatus) -> Style {
    match s {
        TaskStatus::Pending => in_color(MUTED),
        TaskStatus::Running => in_color(MARK),
        TaskStatus::Cancelling => in_color(WARN),
        TaskStatus::Success => in_color(OK),
        TaskStatus::Failed => in_bold(ERR),
        TaskStatus::Cancelled => in_color(MUTED),
    }
}

/// The style of a task status.
pub fn status_style(status: &TaskStatus) -> (r: Style)
    ensures
        r == style_of_status(*status),
{
    match status {
        TaskStatus::Pending => colored(MUTED),
        TaskStatus::Running => colored(MARK),
        TaskStatus::Cancelling => colored(WARN),
        TaskStatus::Success => colored(OK),
        TaskStatus::Failed => colored(ERR).bold(),
        TaskStatus::Cancelled => colored(MUTED),
    }
}

/// The icon of a task status.
pub open spec fn icon_of_status(s: TaskStatus) -> Seq<char> {
    match s {
        TaskStatus::Pending => "○"@,
        TaskStatus::Running => "⟳"@,
        TaskStatus::Cancelling => "◐"@,
        TaskStatus::Success => "✓"@,
        TaskStatus::Failed => "✗"@,
        TaskStatus::Cancelled => "⊘"@,
    }
}

/// The icon of a task status.
pub fn status_icon(status: &TaskStatus) -> (r: &'static str)
    ensures
        r@ == icon_of_status(*status),
{
    match status {
        TaskStatus::Pending => "○",
        TaskStatus::Running => "⟳",
        TaskStatus::Cancelling => "◐",
        TaskStatus::Success => "✓",
        TaskStatus::Failed => "✗",
        TaskStatus::Cancelled => "⊘",
    }
}

} // verus!
