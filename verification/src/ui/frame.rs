//! What is drawn: placed widgets, and helpers to write their text.

use crate::text::{decimal, decimal_of, repeat, repeated, texts};
use crate::ui::layout::{popup_of, popup_rect, Rect};
use crate::ui::style::{
    line, line_of, line_views, span_views, Alignment, Line, LineView, Span, SpanView, Style,
};
use ratatui::widgets::StatefulWidget;
use vstd::prelude::*;
use vstd::utf8::encode_utf8;

verus! {

/// A bordered box of lines with a title.
#[derive(Debug)]
pub struct Popup {
    pub area: Rect,
    pub title: String,
    pub border: Style,
    pub lines: Vec<Line>,
}

/// A bordered box as text.
#[verifier::ext_equal]
pub struct PopupView {
    pub area: Rect,
    pub title: Seq<char>,
    pub border: Style,
    pub lines: Seq<LineView>,
}

impl View for Popup {
    type V = PopupView;

    open spec fn view(&self) -> PopupView {
        PopupView {
            area: self.area,
            title: self.title@,
            border: self.border,
            lines: line_views(self.lines@),
        }
    }
}

/// A row of a list, with the style of its whole width.
#[derive(Debug)]
pub struct Row {
    pub line: Line,
    pub style: Style,
}

/// A row of a list as text.
#[verifier::ext_equal]
pub struct ListRowView {
    pub line: LineView,
    pub style: Style,
}

impl View for Row {
    type V = ListRowView;

    open spec fn view(&self) -> ListRowView {
        ListRowView { line: self.line@, style: self.style }
    }
}

/// The rows of a list.
pub open spec fn list_rows(v: Seq<Row>) -> Seq<ListRowView> {
    v.map_values(|r: Row| r@)
}

/// Something drawn in an area. Later widgets are drawn over earlier ones.
#[derive(Debug)]
pub enum Widget {
    /// The area is blanked.
    Clear { area: Rect },
    /// Lines from the top of the area on; what does not fit is cut off.
    Text { area: Rect, lines: Vec<Line>, alignment: Alignment },
    /// Lines in a bordered box.
    Framed(Popup),
    /// A rule along the top of the area, with a title in it.
    Rule { area: Rect, title: Span, border: Style },
    /// A list, scrolled so that the selected row is visible.
    List { area: Rect, rows: Vec<Row>, selected: Option<usize> },
}

/// Something drawn, as text.
#[verifier::ext_equal]
pub enum WidgetView {
    Clear { area: Rect },
    Text { area: Rect, lines: Seq<LineView>, alignment: Alignment },
    Framed(PopupView),
    Rule { area: Rect, title: SpanView, border: Style },
    List { area: Rect, rows: Seq<ListRowView>, selected: Option<usize> },
}

impl View for Widget {
    type V = WidgetView;

    open spec fn view(&self) -> WidgetView {
        match self {
            Widget::Clear { area } => WidgetView::Clear { area: *area },
            Widget::Text { area, lines, alignment } => WidgetView::Text {
                area: *area,
                lines: line_views(lines@),
                alignment: *alignment,
            },
            Widget::Framed(p) => WidgetView::Framed(p@),
            Widget::Rule { area, title, border } => WidgetView::Rule {
                area: *area,
                title: title@,
                border: *border,
            },
            Widget::List { area, rows, selected } => WidgetView::List {
                area: *area,
                rows: list_rows(rows@),
                selected: *selected,
            },
        }
    }
}

/// The widgets of a frame.
pub open spec fn widget_views(v: Seq<Widget>) -> Seq<WidgetView> {
    v.map_values(|w: Widget| w@)
}

/// The view of a frame grows with its widgets.
pub broadcast proof fn widget_views_push(v: Seq<Widget>, w: Widget)
    ensures
        #[trigger] widget_views(v.push(w)) == widget_views(v).push(w@),
{
    assert(widget_views(v.push(w)) =~= widget_views(v).push(w@));
}

/// The view of a list grows with its rows.
pub broadcast proof fn list_rows_push(v: Seq<Row>, r: Row)
    ensures
        #[trigger] list_rows(v.push(r)) == list_rows(v).push(r@),
{
    assert(list_rows(v.push(r)) =~= list_rows(v).push(r@));
}

/// A popup with what lies below it blanked.
pub open spec fn over(p: PopupView) -> Seq<WidgetView> {
    seq![WidgetView::Clear { area: p.area }, WidgetView::Framed(p)]
}

/// Draws a popup over what was drawn before.
pub fn push_popup(frame: &mut Vec<Widget>, p: Popup)
    ensures
        widget_views(final(frame)@) == widget_views(old(frame)@) + over(p@),
{
    broadcast use widget_views_push;

    let ghost had = widget_views(frame@);
    let ghost pv = p@;
    frame.push(Widget::Clear { area: p.area });
    frame.push(Widget::Framed(p));
    assert(widget_views(frame@) =~= had + over(pv));
}

/// Draws lines in an area.
pub fn push_text(frame: &mut Vec<Widget>, area: Rect, l: Line, alignment: Alignment)
    ensures
        widget_views(final(frame)@) == widget_views(old(frame)@).push(
            WidgetView::Text { area, lines: seq![l@], alignment },
        ),
{
    broadcast use widget_views_push;

    let mut lines: Vec<Line> = Vec::new();
    let ghost lv = l@;
    lines.push(l);
    assert(line_views(lines@) =~= seq![lv]);
    frame.push(Widget::Text { area, lines, alignment });
}

/// A line without spans.
pub open spec fn empty_line() -> LineView {
    line_of(Seq::empty())
}

/// A line without spans.
pub fn blank() -> (r: Line)
    ensures
        r@ == empty_line(),
{
    let none: Vec<Span> = Vec::new();
    assert(span_views(none@) =~= Seq::<SpanView>::empty());
    line(none)
}

/// A line of one span.
pub fn one(a: Span) -> (r: Line)
    ensures
        r@ == line_of(seq![a@]),
{
    let ghost v = seq![a@];
    let mut spans: Vec<Span> = Vec::new();
    spans.push(a);
    assert(span_views(spans@) =~= v);
    line(spans)
}

/// A line of two spans.
pub fn two(a: Span, b: Span) -> (r: Line)
    ensures
        r@ == line_of(seq![a@, b@]),
{
    let ghost v = seq![a@, b@];
    let mut spans: Vec<Span> = Vec::new();
    spans.push(a);
    spans.push(b);
    assert(span_views(spans@) =~= v);
    line(spans)
}

/// A line of three spans.
pub fn three(a: Span, b: Span, c: Span) -> (r: Line)
    ensures
        r@ == line_of(seq![a@, b@, c@]),
{
    let ghost v = seq![a@, b@, c@];
    let mut spans: Vec<Span> = Vec::new();
    spans.push(a);
    spans.push(b);
    spans.push(c);
    assert(span_views(spans@) =~= v);
    line(spans)
}

/// A line of four spans.
pub fn four(a: Span, b: Span, c: Span, d: Span) -> (r: Line)
    ensures
        r@ == line_of(seq![a@, b@, c@, d@]),
{
    let ghost v = seq![a@, b@, c@, d@];
    let mut spans: Vec<Span> = Vec::new();
    spans.push(a);
    spans.push(b);
    spans.push(c);
    spans.push(d);
    assert(span_views(spans@) =~= v);
    line(spans)
}

/// A line of five spans.
pub fn five(a: Span, b: Span, c: Span, d: Span, e: Span) -> (r: Line)
    ensures
        r@ == line_of(seq![a@, b@, c@, d@, e@]),
{
    let ghost v = seq![a@, b@, c@, d@, e@];
    let mut spans: Vec<Span> = Vec::new();
    spans.push(a);
    spans.push(b);
    spans.push(c);
    spans.push(d);
    spans.push(e);
    assert(span_views(spans@) =~= v);
    line(spans)
}

/// Appends lines to lines.
pub fn push_lines(lines: &mut Vec<Line>, more: Vec<Line>)
    ensures
        line_views(final(lines)@) == line_views(old(lines)@) + line_views(more@),
{
    let ghost a = lines@;
    let ghost b = more@;
    let mut more = more;
    lines.append(&mut more);
    assert(line_views(lines@) =~= line_views(a) + line_views(b));
}

/// `a`, `b` and `c`, one after the other.
pub fn say3(a: &str, b: &str, c: &str) -> (r: String)
    ensures
        r@ == a@ + b@ + c@,
{
    let mut r = a.to_owned();
    r.append(b);
    r.append(c);
    r
}

/// Four texts, one after the other.
pub fn say4(a: &str, b: &str, c: &str, d: &str) -> (r: String)
    ensures
        r@ == a@ + b@ + c@ + d@,
{
    let mut r = say3(a, b, c);
    r.append(d);
    r
}

/// Five texts, one after the other.
pub fn say5(a: &str, b: &str, c: &str, d: &str, e: &str) -> (r: String)
    ensures
        r@ == a@ + b@ + c@ + d@ + e@,
{
    let mut r = say4(a, b, c, d);
    r.append(e);
    r
}

/// A count in digits.
pub fn number(n: usize) -> (r: String)
    ensures
        r@ == decimal(n as nat),
{
    decimal_of(n as u64)
}

/// How many bytes a text takes.
pub open spec fn byte_len(s: Seq<char>) -> nat {
    encode_utf8(s).len()
}

/// How many bytes a text takes.
pub fn bytes_in(s: &str) -> (r: usize)
    ensures
        r == byte_len(s@),
{
    s.as_bytes().len()
}

/// The larger of two numbers.
pub open spec fn max_of(a: nat, b: nat) -> nat {
    if a < b {
        b
    } else {
        a
    }
}

/// The larger of two numbers.
pub fn larger(a: usize, b: usize) -> (r: usize)
    ensures
        r == max_of(a as nat, b as nat),
{
    if a < b {
        b
    } else {
        a
    }
}

/// The most bytes that one of the texts takes.
pub open spec fn longest(v: Seq<Seq<char>>) -> nat
    decreases v.len(),
{
    if v.len() == 0 {
        0
    } else {
        max_of(longest(v.drop_last()), byte_len(v.last()))
    }
}

/// The most bytes that one of the texts takes.
pub fn longest_of(v: &Vec<String>) -> (r: usize)
    ensures
        r == longest(texts(v@)),
{
    let ghost all = texts(v@);
    let mut most: usize = 0;
    let mut i: usize = 0;
    while i < v.len()
        invariant
            i <= v@.len(),
            all == texts(v@),
            most == longest(all.take(i as int)),
        decreases v@.len() - i,
    {
        assert(all.take(i + 1).drop_last() =~= all.take(i as int));
        assert(all[i as int] == v@[i as int]@);
        most = larger(most, bytes_in(v[i].as_str()));
        i += 1;
    }
    assert(all.take(i as int) =~= all);
    most
}

/// A text filled up with blanks to `width` characters.
pub open spec fn padded(s: Seq<char>, width: nat) -> Seq<char> {
    if s.len() < width {
        s + repeated(' ', (width - s.len()) as nat)
    } else {
        s
    }
}

/// A text filled up with blanks to `width` characters.
pub fn pad(s: &str, width: usize) -> (r: String)
    ensures
        r@ == padded(s@, width as nat),
{
    let n: usize = crate::text::chars_of(s).len();
    let mut r = s.to_owned();
    if n < width {
        r.append(repeat(' ', width - n).as_str());
    }
    r
}

/// The smaller of two numbers.
pub open spec fn least(a: nat, b: nat) -> nat {
    if a < b {
        a
    } else {
        b
    }
}

/// A popup around `lines` that are up to `content` cells wide, with room for its
/// border, as far as `area` has the room.
pub open spec fn popup_around(
    content: nat,
    area: Rect,
    title: Seq<char>,
    border: Style,
    lines: Seq<LineView>,
) -> PopupView {
    PopupView {
        area: popup_of(
            least(content + 2, area.width as nat) as u16,
            least(lines.len() + 2, area.height as nat) as u16,
            area,
        ),
        title,
        border,
        lines,
    }
}

/// `content + 2` cells, or all of `room`.
pub fn with_border(content: usize, room: u16) -> (r: u16)
    ensures
        r == least((content + 2) as nat, room as nat),
{
    if content.saturating_add(2) < room as usize {
        (content + 2) as u16
    } else {
        room
    }
}

/// A popup around `lines` that are up to `content` cells wide.
pub fn popup(content: usize, area: Rect, title: &str, border: Style, lines: Vec<Line>) -> (r: Popup)
    ensures
        r@ == popup_around(content as nat, area, title@, border, line_views(lines@)),
{
    let n: usize = lines.len();
    let h = with_border(n, area.height);
    let w = with_border(content, area.width);
    assert(line_views(lines@).len() == n);
    Popup { area: popup_rect(w, h, area), title: title.to_owned(), border, lines }
}

/// The rows of `area` handed out from the top: each part has the height it asks
/// for, and the one that asks for none has what is left.
pub open spec fn stacked(area: Rect, heights: Seq<Option<u16>>) -> Seq<Rect> {
    Seq::new(
        heights.len(),
        |i: int|
            Rect {
                x: area.x,
                y: (area.y + taken_before(area, heights, i)) as u16,
                width: area.width,
                height: part_height(area, heights, i) as u16,
            },
    )
}

/// The rows that parts ask for, all together.
pub open spec fn asked(heights: Seq<Option<u16>>) -> nat
    decreases heights.len(),
{
    if heights.len() == 0 {
        0
    } else {
        asked(heights.drop_last()) + match heights.last() {
            Some(h) => h as nat,
            None => 0,
        }
    }
}

/// The height of the `i`-th part.
pub open spec fn part_height(area: Rect, heights: Seq<Option<u16>>, i: int) -> int {
    match heights[i] {
        Some(h) => h as int,
        None => area.height - asked(heights),
    }
}

/// The rows before the `i`-th part.
pub open spec fn taken_before(area: Rect, heights: Seq<Option<u16>>, i: int) -> int
    decreases i,
{
    if i <= 0 {
        0
    } else {
        taken_before(area, heights, i - 1) + part_height(area, heights, i - 1)
    }
}

/// Whether exactly one part asks for no height.
pub open spec fn one_is_open(heights: Seq<Option<u16>>) -> bool {
    exists|i: int|
        #![trigger heights[i]]
        0 <= i < heights.len() && heights[i] is None && forall|j: int|
            0 <= j < heights.len() && j != i ==> (#[trigger] heights[j]) is Some
}

/// Whether an area lies within the coordinates of a terminal.
pub open spec fn fits(area: Rect) -> bool {
    area.x + area.width <= u16::MAX && area.y + area.height <= u16::MAX
}

/// Calls `ratatui::layout::Layout::split`, vertically, with a `Length` for each
/// height and `Min(0)` for the part without one: the lengths are kept, the open
/// part gets the rest, and the parts lie below each other without a gap.
#[verifier::external_body]
pub(crate) fn split_rows(area: Rect, heights: &[Option<u16>]) -> (r: Vec<Rect>)
    requires
        fits(area),
        one_is_open(heights@),
        asked(heights@) <= area.height,
    ensures
        r@ == stacked(area, heights@),
{
    ratatui::layout::Layout::default()
        .direction(ratatui::layout::Direction::Vertical)
        .constraints(heights.iter().map(|h| match h {
            Some(n) => ratatui::layout::Constraint::Length(*n),
            None => ratatui::layout::Constraint::Min(0),
        }))
        .split(ratatui::layout::Rect::new(area.x, area.y, area.width, area.height))
        .iter()
        .map(|p| Rect { x: p.x, y: p.y, width: p.width, height: p.height })
        .collect()
}

/// The heights of parts fit together when they are asked for one by one.
pub proof fn asked_push(heights: Seq<Option<u16>>, h: Option<u16>)
    ensures
        asked(heights.push(h)) == asked(heights) + match h {
            Some(n) => n as nat,
            None => 0,
        },
{
    assert(heights.push(h).drop_last() =~= heights);
}

proof fn taken_is(area: Rect, heights: Seq<Option<u16>>, o: int, i: int)
    requires
        0 <= o < heights.len(),
        heights[o] is None,
        forall|j: int| 0 <= j < heights.len() && j != o ==> (#[trigger] heights[j]) is Some,
        0 <= i <= heights.len(),
    ensures
        taken_before(area, heights, i) == asked(heights.take(i)) + if o < i {
            area.height - asked(heights)
        } else {
            0
        },
        asked(heights.take(i)) <= asked(heights),
    decreases i,
{
    if i > 0 {
        taken_is(area, heights, o, i - 1);
        assert(heights.take(i).drop_last() =~= heights.take(i - 1));
        asked_grows(heights, i);
    } else {
        asked_grows(heights, 0);
    }
}

proof fn asked_grows(heights: Seq<Option<u16>>, i: int)
    requires
        0 <= i <= heights.len(),
    ensures
        asked(heights.take(i)) <= asked(heights),
    decreases heights.len() - i,
{
    if i == heights.len() {
        assert(heights.take(i) =~= heights);
    } else {
        asked_grows(heights, i + 1);
        assert(heights.take(i + 1).drop_last() =~= heights.take(i));
    }
}

/// The parts of a split area lie within it; `o` is the part that asks for no
/// height.
pub proof fn part_fits(area: Rect, heights: Seq<Option<u16>>, o: int, i: int)
    requires
        fits(area),
        0 <= o < heights.len(),
        heights[o] is None,
        forall|j: int| 0 <= j < heights.len() && j != o ==> (#[trigger] heights[j]) is Some,
        asked(heights) <= area.height,
        0 <= i < heights.len(),
    ensures
        fits(stacked(area, heights)[i]),
        area.y <= stacked(area, heights)[i].y,
        stacked(area, heights)[i].y + stacked(area, heights)[i].height <= area.y + area.height,
        stacked(area, heights)[i].y == area.y + taken_before(area, heights, i),
        stacked(area, heights)[i].height == part_height(area, heights, i),
{
    taken_is(area, heights, o, i);
    taken_is(area, heights, o, i + 1);
}

/// The first row that a list shows in `area`, when it is scrolled no further
/// than the selected row needs.
pub open spec fn first_shown(area: Rect, rows: nat, selected: int) -> int {
    let at = if selected < rows {
        selected
    } else {
        rows - 1
    };
    if area.width == 0 || area.height == 0 || rows == 0 || at < area.height {
        0
    } else {
        at + 1 - area.height
    }
}

/// Calls `ratatui::widgets::List::render` on `rows` rows of one line each, with
/// a new `ListState` in which `selected` is selected: the offset that it leaves
/// in the state is 0, or as much as the selected row needs to be shown.
#[verifier::external_body]
pub(crate) fn list_offset(area: Rect, rows: usize, selected: usize) -> (r: usize)
    requires
        fits(area),
    ensures
        r == first_shown(area, rows as nat, selected as int),
{
    let items = vec![ratatui::widgets::ListItem::new(ratatui::text::Line::default()); rows];
    let mut state = ratatui::widgets::ListState::default();
    state.select(Some(selected));
    let area = ratatui::layout::Rect::new(area.x, area.y, area.width, area.height);
    let mut buffer = ratatui::buffer::Buffer::empty(area);
    ratatui::widgets::List::new(items).render(area, &mut buffer, &mut state);
    state.offset()
}

} // verus!
