//! What is clicked in the output pane is what is shown there.

use crate::app::model::AppView;
use crate::app::selection::SelPos;
use crate::ui::layout::Rect;
use crate::ui::output::{ansi_spans, slice_shows_the_range, styled_and_stripped_text_agree};
use crate::ui::output_layout::{
    at_most, cells, char_at, char_at_stays_in_the_row, counts_are_split, line_rows, place_of_row,
    row_ranges, rows_before, rows_before_grows, rows_from, rows_of, rows_partition_the_line,
    running_rows, selected_in, selected_of_row, shown_row, stretch_cells,
};
use crate::ui::style::text_of;
use crate::util::stripped;
use vstd::prelude::*;

verus! {

/// Whether the `r`-th row of line `l` is the display row `at`.
pub open spec fn is_row(
    lines: Seq<Seq<char>>,
    l: int,
    r: int,
    at: int,
    width: u16,
    wrap: bool,
) -> bool {
    &&& 0 <= l < lines.len()
    &&& 0 <= r < rows_of(lines[l], width, wrap)
    &&& rows_before(lines, l, width, wrap) + r == at
}

proof fn row_is_located(
    lines: Seq<Seq<char>>,
    l: int,
    r: int,
    at: int,
    width: u16,
    wrap: bool,
)
    requires
        is_row(lines, l, r, at, width, wrap),
        rows_before(lines, lines.len() as int, width, wrap) <= usize::MAX,
    ensures
        place_of_row(running_rows(lines, width, wrap), at) == Some((l, r)),
{
    let cum = running_rows(lines, width, wrap);
    let n = lines.len() as int;
    assert forall|j: int| 0 <= j < cum.len() implies #[trigger] cum[j] == rows_before(
        lines,
        j,
        width,
        wrap,
    ) by {
        rows_before_grows(lines, j, n, width, wrap);
    }
    assert forall|j: int| 0 <= j < l + 1 implies #[trigger] cum[j] <= at by {
        rows_before_grows(lines, j, l, width, wrap);
    }
    assert(rows_before(lines, l + 1, width, wrap) == rows_before(lines, l, width, wrap) + rows_of(
        lines[l],
        width,
        wrap,
    ));
    assert forall|j: int| l + 1 <= j < cum.len() implies #[trigger] cum[j] > at by {
        rows_before_grows(lines, l + 1, j, width, wrap);
    }
    counts_are_split(cum, at, l + 1);
    assert(cum.last() == cum[n]);
}

proof fn some_row_is_there(lines: Seq<Seq<char>>, n: int, at: int, width: u16, wrap: bool) -> (p: (
    int,
    int,
))
    requires
        0 <= n <= lines.len(),
        0 <= at < rows_before(lines, n, width, wrap),
    ensures
        is_row(lines, p.0, p.1, at, width, wrap),
    decreases n,
{
    let before = rows_before(lines, n - 1, width, wrap);
    if at >= before {
        (n - 1, at - before)
    } else {
        some_row_is_there(lines, n - 1, at, width, wrap)
    }
}

proof fn row_is_shown(
    lines: Seq<Seq<char>>,
    i: int,
    k: int,
    l: int,
    r: int,
    at: int,
    width: u16,
    wrap: bool,
    sel: Option<(SelPos, SelPos)>,
)
    requires
        0 <= i < lines.len(),
        0 <= k <= rows_of(lines[i], width, wrap),
        is_row(lines, l, r, at, width, wrap),
        at >= rows_before(lines, i, width, wrap) + k,
    ensures
        ({
            let rows = rows_from(lines, i, k, width, wrap, sel);
            let j = at - rows_before(lines, i, width, wrap) - k;
            &&& j < rows.len()
            &&& rows[j] == shown_row(
                lines[l],
                l,
                row_ranges(stripped(lines[l]), width, wrap)[r],
                sel,
            )
        }),
    decreases lines.len() - i,
{
    let own = line_rows(lines[i], i, k, width, wrap, sel);
    let rest = rows_from(lines, i + 1, 0, width, wrap, sel);
    let next = rows_before(lines, i + 1, width, wrap);
    assert(next == rows_before(lines, i, width, wrap) + rows_of(lines[i], width, wrap));
    assert(rows_from(lines, i, k, width, wrap, sel) == own + rest);
    if l < i {
        rows_before_grows(lines, l + 1, i, width, wrap);
        assert(false);
    } else if l == i {
        assert(own[r - k] == (own + rest)[r - k]);
    } else {
        rows_before_grows(lines, i + 1, l, width, wrap);
        row_is_shown(lines, i + 1, 0, l, r, at, width, wrap, sel);
        let j = at - rows_before(lines, i, width, wrap) - k;
        assert((own + rest)[j] == rest[j - own.len()]);
    }
}

proof fn cells_are_before(s: Seq<char>, from: int, i: int, end: int, cell: int)
    requires
        0 <= from <= i <= end <= s.len(),
        0 <= cell,
    ensures
        ({
            let c = char_at(s, i, end, cell, end);
            let all = cell + stretch_cells(s, from, i);
            &&& stretch_cells(s, from, c) <= all
            &&& c < end ==> all < stretch_cells(s, from, c) + cells(s[c])
        }),
    decreases end - i,
{
    if i < end && cell >= cells(s[i]) {
        assert(stretch_cells(s, from, i + 1) == stretch_cells(s, from, i) + cells(s[i]));
        cells_are_before(s, from, i + 1, end, cell - cells(s[i]));
    }
}

/// Whether `pos` is the position that shows at `cell` of a row that reads
/// `shown`: it lies in the part of its line that the row shows, and either its
/// character takes up that cell or the row ends before it.
pub open spec fn shows_at(
    lines: Seq<Seq<char>>,
    pos: SelPos,
    cell: int,
    start: int,
    end: int,
    shown: Seq<char>,
) -> bool {
    let text = stripped(lines[pos.line as int]);
    &&& pos.line < lines.len()
    &&& 0 <= start <= pos.ch <= end <= text.len()
    &&& shown == text.subrange(start, end)
    &&& stretch_cells(text, start, pos.ch as int) <= cell
    &&& pos.ch < end ==> cell < stretch_cells(text, start, pos.ch as int) + cells(
        text[pos.ch as int],
    )
}

/// With the output laid out for a pane, a click on a cell of the pane gives a
/// position in the very text that the pane shows in the row of that cell, at the
/// character that takes up the cell.
pub proof fn a_click_hits_what_is_shown(a: AppView, pane: Rect, col: u16, row: u16)
    requires
        a.session is Some,
        a.viewport.output == pane.height,
        a.viewport.output_top == pane.y,
        a.viewport.output_left == pane.x,
        a.viewport.output_width == pane.width,
        a.layout.cum_rows == running_rows(a.shown_lines(), pane.width, a.wraps()),
        rows_before(a.shown_lines(), a.shown_lines().len() as int, pane.width, a.wraps())
            <= usize::MAX,
        forall|i: int|
            0 <= i < a.shown_lines().len() ==> stripped(#[trigger] a.shown_lines()[i]).len()
                <= usize::MAX,
        a.hit(col, row, false) is Some,
    ensures
        pane.y <= row < pane.y + a.pane_lines(pane).len(),
        pane.x <= col < pane.x + pane.width,
        exists|start: int, end: int| #[trigger]
            shows_at(
                a.shown_lines(),
                a.hit(col, row, false)->0,
                col - pane.x,
                start,
                end,
                text_of(a.pane_lines(pane)[row - pane.y].spans),
            ),
{
    let lines = a.shown_lines();
    let (width, wrap) = (pane.width, a.wraps());
    let n = lines.len() as int;
    let sel = a.shown_selection();
    let top = a.top_row();
    let at = top + (row - pane.y);
    let total = rows_before(lines, n, width, wrap);
    assert(a.layout.rows() == total);
    let (i, k) = some_row_is_there(lines, n, top, width, wrap);
    row_is_located(lines, i, k, top, width, wrap);
    let (l, r) = some_row_is_there(lines, n, at, width, wrap);
    row_is_located(lines, l, r, at, width, wrap);
    row_is_shown(lines, i, k, l, r, at, width, wrap, sel);
    let rows = rows_from(lines, i, k, width, wrap, sel);
    assert(a.pane_lines(pane) == at_most(rows, pane.height as int));
    assert(a.pane_lines(pane)[row - pane.y] == rows[row - pane.y]);
    let text = stripped(lines[l]);
    rows_partition_the_line(text, width, wrap);
    let (start, end) = row_ranges(text, width, wrap)[r];
    let cell = col - pane.x;
    char_at_stays_in_the_row(text, start, end, cell);
    cells_are_before(text, start, start, end, cell);
    rows_before_grows(lines, l + 1, n, width, wrap);
    lines_take_rows(lines, l, width, wrap);
    assert(stripped(lines[l]).len() <= usize::MAX);
    styled_and_stripped_text_agree(lines[l]);
    let part = selected_of_row(selected_in(sel, l, text.len() as int), (start, end));
    slice_shows_the_range(ansi_spans(lines[l]), start, end, part);
    assert(shows_at(
        lines,
        a.hit(col, row, false)->0,
        cell,
        start,
        end,
        text_of(a.pane_lines(pane)[row - pane.y].spans),
    ));
}

proof fn lines_take_rows(lines: Seq<Seq<char>>, n: int, width: u16, wrap: bool)
    requires
        0 <= n <= lines.len(),
    ensures
        rows_before(lines, n, width, wrap) >= n,
    decreases n,
{
    if n > 0 {
        lines_take_rows(lines, n - 1, width, wrap);
        rows_partition_the_line(stripped(lines[n - 1]), width, wrap);
    }
}

} // verus!
