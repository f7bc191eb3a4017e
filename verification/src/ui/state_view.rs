//! The state explorer: its list of resources, and the detail of one.

use crate::app::explorer::{
    addresses, any_covers, covers_any, resource_views, row_views, ContentView, ExplorerRow,
    ExplorerView, ResourceView, RowView, StateExplorer,
};
use crate::app::explorer_laws::rows_show_what_passes;
use crate::app::model::{find_pos, first_pos_finds};
use crate::app::pane::{less, min_of};
use crate::app::types::{DetailView, ResourceDetail};
use crate::state::{StateContent, StateResource};
use crate::text::{any_is, concat, decimal, decimal_of, lowercase, repeat, repeated, texts};
use crate::ui::theme;
use crate::ui::frame::{
    blank, empty_line, four, number, one, push_lines, say3, say4, say5, three, two, Popup,
    PopupView,
};
use crate::ui::json::{highlight_filter_match, highlighted_match, json_line, style_json_line};
use crate::ui::layout::Rect;
use crate::ui::style::{
    line, line_of, line_views, line_views_push, plain, raw, span_views, span_views_push, styled,
    Color, Line, LineView, Span, SpanView, Style,
};
use crate::ui::theme::{cursor_row_of, in_bold, in_color, ACCENT, MUTED};
use vstd::prelude::*;

verus! {

/// A dimmed line.
pub open spec fn dim_line(text: Seq<char>) -> LineView {
    line_of(seq![styled(text, in_color(MUTED))])
}

fn dimmed(text: &str) -> (r: Line)
    ensures
        r@ == dim_line(text@),
{
    one(Span::styled(text, theme::dim()))
}

/// How many rows of a list or a text have room, of `height` with `reserved` rows
/// for the rest: at least three.
pub open spec fn rows_with_room(height: u16, reserved: int) -> int {
    if height - reserved < 3 {
        3
    } else {
        height - reserved
    }
}

fn room(height: u16, reserved: u16) -> (r: usize)
    ensures
        r == rows_with_room(height, reserved as int),
{
    let h: u16 = height.saturating_sub(reserved);
    if h < 3 {
        3
    } else {
        h as usize
    }
}

/// The first line shown of a detail view.
pub open spec fn detail_top(d: DetailView) -> int {
    min_of(d.scroll as int, less(d.lines.len() as int, 1))
}

/// The lines of the detail of a resource.
pub open spec fn detail_lines(d: DetailView, area: Rect) -> Seq<LineView> {
    let rows = rows_with_room(area.height, 9);
    let top = detail_top(d);
    let total = d.lines.len() as int;
    let shown = min_of(rows, total - top);
    seq![
        empty_line(),
        line_of(seq![raw("  "@), styled(d.address, in_bold(Color::Cyan))]),
        dim_line("  "@ + repeated('─', less(area.width as int, 4) as nat)),
    ] + (if top > 0 {
        seq![dim_line("  ↑ "@ + decimal(top as nat) + " lines above"@)]
    } else {
        Seq::empty()
    }) + Seq::new(shown as nat, |i: int| json_line(d.lines[top + i])) + (if top + rows < total {
        seq![dim_line("  ↓ "@ + decimal((total - top - rows) as nat) + " lines below"@)]
    } else {
        Seq::empty()
    }) + seq![
        empty_line(),
        line_of(
            seq![
                raw("  "@),
                styled("[j/k] Scroll"@, in_color(MUTED)),
                raw("   "@),
                styled("[Esc] Back to list"@, in_color(MUTED)),
            ],
        ),
    ]
}

/// The detail of a resource.
pub open spec fn detail_box(module_name: Seq<char>, d: DetailView, area: Rect) -> PopupView {
    PopupView {
        area,
        title: " State: "@ + module_name + " "@,
        border: in_color(Color::Blue),
        lines: detail_lines(d, area),
    }
}

fn body_rows(lines: &Vec<String>, top: usize, shown: usize) -> (r: Vec<Line>)
    requires
        top + shown <= lines@.len(),
    ensures
        line_views(r@) == Seq::new(
            shown as nat,
            |i: int| json_line(texts(lines@)[top + i]),
        ),
{
    broadcast use line_views_push;

    let ghost all = texts(lines@);
    let n: usize = lines.len();
    let mut out: Vec<Line> = Vec::new();
    let mut i: usize = 0;
    while i < shown
        invariant
            i <= shown,
            top + shown <= n == lines@.len(),
            all == texts(lines@),
            line_views(out@) =~= Seq::new(i as nat, |k: int| json_line(all[top + k])),
        decreases shown - i,
    {
        assert(all[top + i] == lines@[top + i]@);
        let ghost had = line_views(out@);
        out.push(style_json_line(lines[top + i].as_str()));
        assert(line_views(out@) == had.push(json_line(all[top + i])));
        i += 1;
    }
    out
}

/// The detail of a resource: its address, and its JSON as far as there is room.
pub fn render_resource_detail(area: Rect, module_name: &str, detail: &ResourceDetail) -> (r: Popup)
    ensures
        r@ == detail_box(module_name@, detail@, area),
{
    broadcast use line_views_push;

    let rows = room(area.height, 9);
    let total: usize = detail.lines.len();
    let ghost all = texts(detail.lines@);
    assert(all.len() == total);
    let last: usize = total.saturating_sub(1);
    let top: usize = if detail.scroll < last {
        detail.scroll
    } else {
        last
    };
    let left: usize = total - top;
    let shown: usize = if rows < left {
        rows
    } else {
        left
    };
    let mut lines: Vec<Line> = Vec::new();
    lines.push(blank());
    lines.push(
        two(
            Span::raw("  "),
            Span::styled(detail.address.as_str(), theme::colored(Color::Cyan).bold()),
        ),
    );
    lines.push(
        dimmed(
            concat("  ", repeat('─', (area.width as usize).saturating_sub(4)).as_str()).as_str(),
        ),
    );
    let ghost head = line_views(lines@);
    if top > 0 {
        lines.push(dimmed(say3("  ↑ ", number(top).as_str(), " lines above").as_str()));
    }
    let ghost above = line_views(lines@);
    assert(above =~= head + (if top > 0 {
        seq![dim_line("  ↑ "@ + decimal(top as nat) + " lines above"@)]
    } else {
        Seq::empty()
    }));
    push_lines(&mut lines, body_rows(&detail.lines, top, shown));
    let ghost body = line_views(lines@);
    if rows < left {
        lines.push(dimmed(say3("  ↓ ", number(left - rows).as_str(), " lines below").as_str()));
    }
    assert(line_views(lines@) =~= body + (if top + rows < total {
        seq![dim_line("  ↓ "@ + decimal((total - top - rows) as nat) + " lines below"@)]
    } else {
        Seq::empty()
    }));
    lines.push(blank());
    lines.push(
        four(
            Span::raw("  "),
            Span::styled("[j/k] Scroll", theme::dim()),
            Span::raw("   "),
            Span::styled("[Esc] Back to list", theme::dim()),
        ),
    );
    assert(line_views(lines@) =~= detail_lines(detail@, area));
    Popup {
        area,
        title: say3(" State: ", module_name, " "),
        border: theme::overlay_border_explorer(),
        lines,
    }
}

/// How the marker of a resource is drawn: bold where it is selected, dim where
/// a selected module covers it.
pub open spec fn marker_of(e: ExplorerView, i: int, addr: Seq<char>) -> SpanView {
    if e.multi_select.contains(i as usize) {
        styled(" ● "@, in_bold(Color::Yellow))
    } else if any_covers(e.module_select, addr) {
        styled(" ● "@, in_color(MUTED))
    } else {
        styled("   "@, plain())
    }
}

/// The spans of a resource's address, with what the filter matches highlighted.
pub open spec fn address_spans(e: ExplorerView, text: Seq<char>) -> Seq<SpanView> {
    if e.filter.len() == 0 {
        seq![raw(text)]
    } else {
        highlighted_match(text, lowercase(e.filter))
    }
}

/// The line of a row of the explorer.
pub open spec fn row_line(e: ExplorerView, rs: Seq<ResourceView>, row: RowView) -> LineView {
    match row {
        RowView::ModuleHeader { prefix, count } => line_of(
            seq![
                if e.module_select.contains(prefix) {
                    styled(" ● "@, in_bold(Color::Yellow))
                } else {
                    styled("   "@, plain().with_bold())
                },
                styled(
                    "▸ "@ + prefix + " ("@ + decimal(count as nat) + ")"@,
                    plain().with_bold(),
                ),
            ],
        ),
        RowView::Resource { res_idx, indent } => {
            let r = rs[res_idx];
            let text = if indent {
                "  "@ + r.address
            } else {
                ""@ + r.address
            };
            line_of(
                seq![marker_of(e, res_idx, r.address)] + address_spans(e, text) + (if r.status
                    == Some("tainted"@) {
                    seq![styled(" [tainted]"@, in_color(Color::Red))]
                } else {
                    Seq::empty()
                }),
            )
        },
    }
}

/// The line of the `i`-th row: on the cursor bar where it is highlighted.
pub open spec fn shown_line(
    e: ExplorerView,
    rs: Seq<ResourceView>,
    i: int,
    width: u16,
) -> LineView {
    let l = row_line(e, rs, e.rows()[i]);
    if i == e.selected {
        cursor_row_of(l, width)
    } else {
        l
    }
}

/// The first row shown: the highlighted row is the last one at most.
pub open spec fn rows_top(e: ExplorerView, max: int) -> int {
    min_of(less(e.selected as int, less(max, 1)), less(e.rows().len() as int, max))
}

/// The lines of the rows, with how many there are above and below.
pub open spec fn rows_lines(
    e: ExplorerView,
    rs: Seq<ResourceView>,
    max: int,
    width: u16,
) -> Seq<LineView> {
    let top = rows_top(e, max);
    let count = e.rows().len() as int;
    let shown = min_of(max, count - top);
    if count == 0 {
        seq![dim_line("  No resources match \""@ + e.filter + "\""@)]
    } else {
        (if top > 0 {
            seq![dim_line("  ↑ "@ + decimal(top as nat) + " more above"@)]
        } else {
            Seq::empty()
        }) + Seq::new(shown as nat, |i: int| shown_line(e, rs, top + i, width)) + (if top + max
            < count {
            seq![dim_line("  ↓ "@ + decimal((count - top - max) as nat) + " more below"@)]
        } else {
            Seq::empty()
        })
    }
}

/// How many of the first `n` rows are resources.
pub open spec fn resource_count(rows: Seq<RowView>, n: int) -> nat
    decreases n,
{
    if n <= 0 {
        0
    } else {
        resource_count(rows, n - 1) + if rows[n - 1] is Resource {
            1nat
        } else {
            0
        }
    }
}

/// What the explorer shows of its contents.
pub open spec fn content_lines(
    e: ExplorerView,
    spinner: Seq<char>,
    max: int,
    width: u16,
) -> Seq<LineView> {
    match e.content {
        ContentView::Loading => seq![dim_line("  "@ + spinner + " Loading state…"@)],
        ContentView::Error(msg) => seq![
            line_of(seq![styled("  Failed to load state"@, in_bold(Color::Red))]),
            dim_line("  "@ + msg),
        ],
        ContentView::NotInitialized => seq![
            line_of(seq![styled("  Not initialized"@, in_bold(Color::Yellow))]),
            dim_line("  Run `i` to initialize this module."@),
        ],
        ContentView::NoState => seq![
            line_of(seq![styled("  No state"@, in_bold(Color::DarkGray))]),
            dim_line("  Module is initialized but has no resources in state."@),
        ],
        ContentView::Resources(rs) => rows_lines(e, rs, max, width) + seq![empty_line()] + (
        if e.filter.len() > 0 {
            seq![
                dim_line(
                    "  "@ + decimal(resource_count(e.rows(), e.rows().len() as int)) + " / "@
                        + decimal(rs.len()) + " resources"@,
                ),
            ]
        } else {
            Seq::empty()
        }),
    }
}

/// The hints below the explorer.
pub open spec fn hint_texts() -> Seq<Seq<char>> {
    seq![
        "[j/k] Nav"@,
        "[Space] Select"@,
        "[t] Taint"@,
        "[D] Rm state"@,
        "[p] Plan"@,
        "[a] Apply"@,
        "[d] Destroy"@,
        "[Enter] Inspect"@,
        "[/] Filter"@,
        "[r] Refresh"@,
        "[Esc] Close"@,
    ]
}

/// The spans of the first `n` hints.
pub open spec fn hint_spans(hints: Seq<Seq<char>>, n: int) -> Seq<SpanView>
    decreases n,
{
    if n <= 0 {
        Seq::empty()
    } else {
        hint_spans(hints, n - 1) + seq![raw("  "@), styled(hints[n - 1], in_color(MUTED))]
    }
}

/// The last line of the explorer: the filter, or hints.
pub open spec fn bottom_line(e: ExplorerView) -> LineView {
    line_of(
        if e.filter_active {
            seq![
                styled("  /"@, in_bold(Color::Cyan)),
                styled(e.filter, in_color(Color::White)),
                styled("█"@, in_color(Color::Cyan)),
            ]
        } else if e.filter.len() > 0 {
            seq![
                styled("  /"@, in_color(MUTED)),
                styled(e.filter, in_color(Color::DarkGray).with_italic()),
                styled("  (Esc to clear)"@, in_color(MUTED)),
            ]
        } else {
            hint_spans(hint_texts(), hint_texts().len() as int)
        },
    )
}

/// What the title says of the resources.
pub open spec fn title_suffix(e: ExplorerView) -> Seq<char> {
    match e.content {
        ContentView::Resources(rs) => {
            let base = " — "@ + decimal(rs.len()) + " resource"@ + (if rs.len() == 1 {
                ""@
            } else {
                "s"@
            });
            let selected = e.multi_select.len() + e.module_select.len();
            if selected > 0 {
                base + " ("@ + decimal(selected) + " selected)"@
            } else {
                base
            }
        },
        _ => ""@,
    }
}

/// The list of the explorer.
pub open spec fn list_box(e: ExplorerView, spinner: Seq<char>, area: Rect) -> PopupView {
    PopupView {
        area,
        title: " State: "@ + e.module_name + title_suffix(e) + " "@,
        border: if e.filter_active {
            in_color(ACCENT)
        } else {
            in_color(Color::Blue)
        },
        lines: seq![empty_line()] + content_lines(
            e,
            spinner,
            rows_with_room(area.height, 7),
            less(area.width as int, 2) as u16,
        ) + seq![empty_line(), bottom_line(e)],
    }
}

/// The explorer: the detail of a resource where it is open, else the list.
pub open spec fn explorer_box(e: ExplorerView, spinner: Seq<char>, area: Rect) -> PopupView {
    match e.detail_view {
        Some(d) => detail_box(e.module_name, d, area),
        None => list_box(e, spinner, area),
    }
}

fn resource_line(e: &StateExplorer, r: &StateResource, i: usize, indent: bool) -> (l: Line)
    ensures
        forall|rs: Seq<ResourceView>|
            i < rs.len() && #[trigger] rs[i as int] == r@ ==> l@ == row_line(e@, rs, RowView::Resource { res_idx: i as int, indent }),
{
    broadcast use span_views_push;

    let ghost rv = r@;
    let marked = find_pos(&e.multi_select, i) < e.multi_select.len();
    proof {
        first_pos_finds(e.multi_select@, i);
    }
    let marker = if marked {
        Span::styled(" ● ", theme::multi_select_marker())
    } else if covers_any(&e.module_select, r.address.as_str()) {
        Span::styled(" ● ", theme::covered_marker())
    } else {
        Span::styled("   ", Style::default())
    };
    let ghost mv = marker@;
    assert(mv == marker_of(e@, i as int, r.address@));
    let text = concat(
        if indent {
            "  "
        } else {
            ""
        },
        r.address.as_str(),
    );
    let mut spans: Vec<Span> = Vec::new();
    spans.push(marker);
    assert(span_views(spans@) =~= seq![mv]);
    if e.filter.as_str().is_empty() {
        spans.push(Span::raw(text.as_str()));
        assert(span_views(spans@) =~= seq![mv] + address_spans(e@, text@));
    } else {
        let filter = e.filter.to_lowercase();
        let mut found = highlight_filter_match(text.as_str(), filter.as_str()).spans;
        let ghost fv = span_views(found@);
        let ghost sv = span_views(spans@);
        spans.append(&mut found);
        assert(span_views(spans@) =~= sv + fv);
    }
    let ghost named = span_views(spans@);
    if r.is_tainted() {
        spans.push(Span::styled(" [tainted]", theme::colored(Color::Red)));
    }
    assert(span_views(spans@) =~= named + (if rv.status == Some("tainted"@) {
        seq![styled(" [tainted]"@, in_color(Color::Red))]
    } else {
        Seq::empty()
    }));
    line(spans)
}

fn header_line(e: &StateExplorer, prefix: &str, count: usize) -> (l: Line)
    ensures
        forall|rs: Seq<ResourceView>|
            l@ == #[trigger] row_line(
                e@,
                rs,
                RowView::ModuleHeader { prefix: prefix@, count: count as int },
            ),
{
    let marker = if any_is(&e.module_select, prefix) {
        Span::styled(" ● ", theme::multi_select_marker())
    } else {
        Span::styled("   ", theme::title())
    };
    two(
        marker,
        Span::styled(
            say5("▸ ", prefix, " (", number(count).as_str(), ")").as_str(),
            theme::title(),
        ),
    )
}

fn shown_rows(
    e: &StateExplorer,
    rs: &Vec<StateResource>,
    rows: &Vec<ExplorerRow>,
    top: usize,
    shown: usize,
    width: u16,
) -> (r: Vec<Line>)
    requires
        e@.content == ContentView::Resources(resource_views(rs@)),
        e@.addrs() == addresses(rs@),
        row_views(rows@) == e@.rows(),
        top + shown <= rows@.len(),
    ensures
        line_views(r@) == Seq::new(
            shown as nat,
            |i: int| shown_line(e@, resource_views(rs@), top + i, width),
        ),
{
    broadcast use line_views_push;

    let ghost all = row_views(rows@);
    let ghost rv = resource_views(rs@);
    let n: usize = rows.len();
    let mut out: Vec<Line> = Vec::new();
    let mut i: usize = 0;
    while i < shown
        invariant
            i <= shown,
            top + shown <= n == rows@.len(),
            all == row_views(rows@),
            all == e@.rows(),
            rv == resource_views(rs@),
            e@.content == ContentView::Resources(rv),
            e@.addrs() == addresses(rs@),
            line_views(out@) =~= Seq::new(i as nat, |k: int| shown_line(e@, rv, top + k, width)),
        decreases shown - i,
    {
        let ghost had = line_views(out@);
        assert(all[top + i] == rows@[top + i]@);
        proof {
            rows_show_what_passes(e@.addrs(), e@.filter, top + i);
        }
        let l = match &rows[top + i] {
            ExplorerRow::ModuleHeader { prefix, count } => {
                let l = header_line(e, prefix.as_str(), *count);
                assert(l@ == row_line(e@, rv, all[top + i]));
                l
            },
            ExplorerRow::Resource { res_idx, indent } => {
                assert(rv[*res_idx as int] == rs@[*res_idx as int]@);
                resource_line(e, &rs[*res_idx], *res_idx, *indent)
            },
        };
        assert(l@ == row_line(e@, rv, all[top + i]));
        out.push(
            if top + i == e.selected {
                theme::cursor_row(l, width)
            } else {
                l
            },
        );
        assert(line_views(out@) == had.push(shown_line(e@, rv, top + i, width)));
        i += 1;
    }
    out
}

fn rows_part(e: &StateExplorer, rs: &Vec<StateResource>, max: usize, width: u16) -> (r: Vec<Line>)
    requires
        e@.content == ContentView::Resources(resource_views(rs@)),
        e@.addrs() == addresses(rs@),
        max > 0,
    ensures
        line_views(r@) == rows_lines(e@, resource_views(rs@), max as int, width),
{
    broadcast use line_views_push;

    let rows = e.rows();
    let count: usize = rows.len();
    assert(e@.rows().len() == count);
    let mut out: Vec<Line> = Vec::new();
    assert(line_views(out@) =~= Seq::<LineView>::empty());
    if count == 0 {
        out.push(dimmed(say3("  No resources match \"", e.filter.as_str(), "\"").as_str()));
        assert(line_views(out@) =~= rows_lines(e@, resource_views(rs@), max as int, width));
        return out;
    }
    let a: usize = e.selected.saturating_sub(max - 1);
    let b: usize = count.saturating_sub(max);
    let top: usize = if a < b {
        a
    } else {
        b
    };
    let left: usize = count - top;
    let shown: usize = if max < left {
        max
    } else {
        left
    };
    if top > 0 {
        out.push(dimmed(say3("  ↑ ", number(top).as_str(), " more above").as_str()));
    }
    let ghost head = line_views(out@);
    assert(head =~= (if top > 0 {
        seq![dim_line("  ↑ "@ + decimal(top as nat) + " more above"@)]
    } else {
        Seq::empty()
    }));
    push_lines(&mut out, shown_rows(e, rs, &rows, top, shown, width));
    let ghost body = line_views(out@);
    if max < left {
        out.push(dimmed(say3("  ↓ ", number(left - max).as_str(), " more below").as_str()));
    }
    assert(line_views(out@) =~= body + (if top + max < count {
        seq![dim_line("  ↓ "@ + decimal((count - top - max) as nat) + " more below"@)]
    } else {
        Seq::empty()
    }));
    out
}

fn count_resources(rows: &Vec<ExplorerRow>) -> (r: usize)
    ensures
        r == resource_count(row_views(rows@), rows@.len() as int),
{
    let ghost all = row_views(rows@);
    let mut count: usize = 0;
    let mut n: usize = 0;
    while n < rows.len()
        invariant
            n <= rows@.len(),
            count <= n,
            all == row_views(rows@),
            count == resource_count(all, n as int),
        decreases rows@.len() - n,
    {
        assert(all[n as int] == rows@[n as int]@);
        if let ExplorerRow::Resource { .. } = &rows[n] {
            count += 1;
        }
        n += 1;
    }
    count
}

fn heading(out: &mut Vec<Line>, text: &str, color: Color)
    ensures
        line_views(final(out)@) == line_views(old(out)@).push(
            line_of(seq![styled(text@, in_bold(color))]),
        ),
{
    broadcast use line_views_push;

    out.push(one(Span::styled(text, theme::colored(color).bold())));
}

fn content_part(e: &StateExplorer, spinner: &str, max: usize, width: u16) -> (r: Vec<Line>)
    requires
        max > 0,
    ensures
        line_views(r@) == content_lines(e@, spinner@, max as int, width),
{
    broadcast use line_views_push;

    let ghost want = content_lines(e@, spinner@, max as int, width);
    let mut out: Vec<Line> = Vec::new();
    assert(line_views(out@) =~= Seq::<LineView>::empty());
    match &e.content {
        StateContent::Loading => {
            out.push(dimmed(say3("  ", spinner, " Loading state…").as_str()));
            assert(line_views(out@) =~= want);
        },
        StateContent::Error(msg) => {
            heading(&mut out, "  Failed to load state", Color::Red);
            out.push(dimmed(concat("  ", msg.as_str()).as_str()));
            assert(line_views(out@) =~= want);
        },
        StateContent::NotInitialized => {
            heading(&mut out, "  Not initialized", Color::Yellow);
            out.push(dimmed("  Run `i` to initialize this module."));
            assert(line_views(out@) =~= want);
        },
        StateContent::NoState => {
            heading(&mut out, "  No state", Color::DarkGray);
            out.push(dimmed("  Module is initialized but has no resources in state."));
            assert(line_views(out@) =~= want);
        },
        StateContent::Resources(rs) => {
            proof {
                assert(resource_views(rs@).map_values(|r: ResourceView| r.address) =~= addresses(
                    rs@,
                ));
            }
            out = rows_part(e, rs, max, width);
            let ghost rows = line_views(out@);
            out.push(blank());
            assert(line_views(out@) =~= rows + seq![empty_line()]);
            let ghost mid = line_views(out@);
            if !e.filter.as_str().is_empty() {
                let rows = e.rows();
                assert(row_views(rows@).len() == rows@.len());
                let total: usize = rs.len();
                assert(resource_views(rs@).len() == total);
                out.push(
                    dimmed(
                        say5(
                            "  ",
                            number(count_resources(&rows)).as_str(),
                            " / ",
                            number(total).as_str(),
                            " resources",
                        ).as_str(),
                    ),
                );
            }
            assert(line_views(out@) =~= want);
        },
    }
    out
}

fn hints() -> (r: Vec<&'static str>)
    ensures
        r@.map_values(|s: &str| s@) == hint_texts(),
{
    let r: Vec<&'static str> = vec![
        "[j/k] Nav",
        "[Space] Select",
        "[t] Taint",
        "[D] Rm state",
        "[p] Plan",
        "[a] Apply",
        "[d] Destroy",
        "[Enter] Inspect",
        "[/] Filter",
        "[r] Refresh",
        "[Esc] Close",
    ];
    assert(r@.map_values(|s: &str| s@) =~= hint_texts());
    r
}

fn bottom(e: &StateExplorer) -> (r: Line)
    ensures
        r@ == bottom_line(e@),
{
    broadcast use span_views_push;

    if e.filter_active {
        three(
            Span::styled("  /", theme::colored(Color::Cyan).bold()),
            Span::styled(e.filter.as_str(), theme::colored(Color::White)),
            Span::styled("█", theme::colored(Color::Cyan)),
        )
    } else if !e.filter.as_str().is_empty() {
        three(
            Span::styled("  /", theme::dim()),
            Span::styled(e.filter.as_str(), theme::colored(Color::DarkGray).italic()),
            Span::styled("  (Esc to clear)", theme::dim()),
        )
    } else {
        let hints = hints();
        let ghost all = hint_texts();
        let mut spans: Vec<Span> = Vec::new();
        assert(span_views(spans@) =~= Seq::<SpanView>::empty());
        let mut n: usize = 0;
        assert(hints@.map_values(|s: &str| s@).len() == hints@.len());
        while n < hints.len()
            invariant
                n <= hints@.len(),
                hints@.map_values(|s: &str| s@) == all,
                span_views(spans@) == hint_spans(all, n as int),
            decreases hints@.len() - n,
        {
            assert(all[n as int] == hints@[n as int]@);
            let ghost had = span_views(spans@);
            spans.push(Span::raw("  "));
            spans.push(Span::styled(hints[n], theme::dim()));
            assert(span_views(spans@) =~= had + seq![
                raw("  "@),
                styled(all[n as int], in_color(MUTED)),
            ]);
            n += 1;
        }
        line(spans)
    }
}

fn suffix(e: &StateExplorer) -> (r: String)
    ensures
        r@ == title_suffix(e@),
{
    match &e.content {
        StateContent::Resources(rs) => {
            let n: usize = rs.len();
            assert(resource_views(rs@).len() == n);
            assert(texts(e.module_select@).len() == e.module_select@.len());
            let base = say4(
                " — ",
                number(n).as_str(),
                " resource",
                if n == 1 {
                    ""
                } else {
                    "s"
                },
            );
            let a: usize = e.multi_select.len();
            let b: usize = e.module_select.len();
            if a == 0 && b == 0 {
                base
            } else {
                say4(base.as_str(), " (", sum_text(a, b).as_str(), " selected)")
            }
        },
        _ => "".to_owned(),
    }
}

fn sum_text(a: usize, b: usize) -> (r: String)
    ensures
        r@ == decimal((a + b) as nat),
{
    let sum: u128 = a as u128 + b as u128;
    if sum < 10 {
        return decimal_of(sum as u64);
    }
    let d: u8 = (sum % 10) as u8 + 48;
    let mut text = decimal_of((sum / 10) as u64);
    text.push(d as char);
    text
}

/// The explorer: the detail of a resource where it is open, else the list of
/// resources, of which as many are shown as there is room for.
pub fn render_state_explorer(area: Rect, explorer: &StateExplorer, spinner: &str) -> (r: Popup)
    ensures
        r@ == explorer_box(explorer@, spinner@, area),
{
    broadcast use line_views_push;

    if let Some(d) = &explorer.detail_view {
        return render_resource_detail(area, explorer.module_name.as_str(), d);
    }
    let max = room(area.height, 7);
    let width: u16 = area.width.saturating_sub(2);
    let mut lines: Vec<Line> = Vec::new();
    lines.push(blank());
    push_lines(&mut lines, content_part(explorer, spinner, max, width));
    lines.push(blank());
    lines.push(bottom(explorer));
    assert(line_views(lines@) =~= list_box(explorer@, spinner@, area).lines);
    Popup {
        area,
        title: say4(
            " State: ",
            explorer.module_name.as_str(),
            suffix(explorer).as_str(),
            " ",
        ),
        border: if explorer.filter_active {
            theme::overlay_border_filter()
        } else {
            theme::overlay_border_explorer()
        },
        lines,
    }
}

/// The highlighted row of the explorer is always among those that are shown.
pub proof fn highlighted_row_is_shown(e: ExplorerView, max: int)
    requires
        max > 0,
        e.selected < e.rows().len(),
    ensures
        rows_top(e, max) <= e.selected < rows_top(e, max) + max,
        0 <= rows_top(e, max),
{
}

} // verus!
