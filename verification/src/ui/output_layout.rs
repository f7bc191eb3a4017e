//! Display-row layout of the output pane.
//!
//! With wrap on, one source line can take several display rows. All ranges and
//! indices count characters of a line's text without escape sequences.

use crate::app::selection::SelPos;
use crate::text::{chars_of, texts};
use crate::ui::output::{
    ansi_spans, parse_ansi, slice_spans, sliced, styled_and_stripped_text_agree,
};
use crate::ui::style::{line_of, line_views, line_views_push, Line, LineView};
use crate::util::{strip_ansi, stripped};
use std::ops::Range;
use unicode_width::UnicodeWidthChar;
use vstd::prelude::*;

verus! {

/// The cells that a character takes on the terminal; none for control
/// characters.
pub uninterp spec fn char_columns(c: char) -> Option<nat>;

/// Whether `c` is a control character.
pub open spec fn is_control(c: char) -> bool {
    c < '\u{20}' || '\u{7f}' <= c < '\u{a0}'
}

/// Calls `unicode_width::UnicodeWidthChar::width`: the columns that `c` takes
/// when it is displayed. Control characters have no width, printable ASCII
/// characters have one column, and no character has more than three.
#[verifier::external_body]
pub(crate) fn char_width(c: char) -> (r: Option<usize>)
    ensures
        match r {
            Some(w) => char_columns(c) == Some(w as nat) && w <= 3,
            None => char_columns(c) is None,
        },
        r is None <==> is_control(c),
        '\u{20}' <= c < '\u{7f}' ==> r == Some(1usize),
{
    UnicodeWidthChar::width(c)
}

/// The cells that a character takes on the terminal.
pub open spec fn cells(c: char) -> nat {
    match char_columns(c) {
        Some(n) => n,
        None => 0,
    }
}

fn cells_of_char(c: char) -> (r: usize)
    ensures
        r == cells(c),
        r <= 3,
{
    match char_width(c) {
        Some(w) => w,
        None => 0,
    }
}

/// Rows broken so far: where each starts, and the cells used in the last one.
pub struct Rows {
    pub starts: Seq<int>,
    pub used: nat,
}

/// `rows` after the character `c` at position `i`. A row breaks before a
/// character that would overflow it, unless the row is still empty. Characters
/// without width stay with the one before them.
pub open spec fn with_char(rows: Rows, i: int, c: char, width: nat) -> Rows {
    let w = cells(c);
    if w == 0 {
        rows
    } else if rows.used > 0 && rows.used + w > width {
        Rows { starts: rows.starts.push(i), used: w }
    } else {
        Rows { starts: rows.starts, used: rows.used + w }
    }
}

/// The rows of the first `n` characters of `s`.
pub open spec fn rows_to(s: Seq<char>, width: nat, n: int) -> Rows
    decreases n,
{
    if n <= 0 {
        Rows { starts: seq![0], used: 0 }
    } else {
        with_char(rows_to(s, width, n - 1), n - 1, s[n - 1], width)
    }
}

/// The width that rows are broken at: one cell where none is given.
pub open spec fn row_width(width: u16) -> nat {
    if width == 0 {
        1
    } else {
        width as nat
    }
}

/// Where the rows of `s` start.
pub open spec fn row_starts(s: Seq<char>, width: u16, wrap: bool) -> Seq<int> {
    if wrap {
        rows_to(s, row_width(width), s.len() as int).starts
    } else {
        seq![0]
    }
}

/// Where the `k`-th row ends: where the next one starts, or with the text.
pub open spec fn row_end(starts: Seq<int>, k: int, len: int) -> int {
    if k + 1 < starts.len() {
        starts[k + 1]
    } else {
        len
    }
}

/// The character ranges of the rows of `s`.
pub open spec fn row_ranges(s: Seq<char>, width: u16, wrap: bool) -> Seq<(int, int)> {
    let starts = row_starts(s, width, wrap);
    Seq::new(starts.len(), |k: int| (starts[k], row_end(starts, k, s.len() as int)))
}

/// The bounds of ranges.
pub open spec fn range_views(v: Seq<Range<usize>>) -> Seq<(int, int)> {
    v.map_values(|r: Range<usize>| (r.start as int, r.end as int))
}

proof fn rows_are_in_order(s: Seq<char>, width: nat, n: int)
    requires
        0 <= n <= s.len(),
    ensures
        ({
            let r = rows_to(s, width, n);
            &&& r.starts.len() >= 1
            &&& r.starts.len() <= n + 1
            &&& n > 0 ==> r.starts.len() <= n
            &&& r.starts[0] == 0
            &&& r.used > 0 ==> r.starts.last() < n
            &&& n > 0 ==> r.starts.last() < n
            &&& r.used == 0 ==> r.starts.len() == 1
            &&& forall|i: int, j: int| 0 <= i < j < r.starts.len() ==> r.starts[i] < r.starts[j]
            &&& forall|i: int| 0 <= i < r.starts.len() ==> 0 <= #[trigger] r.starts[i] <= n
        }),
    decreases n,
{
    if n > 0 {
        rows_are_in_order(s, width, n - 1);
    }
}

/// The rows of a line follow each other without gap or overlap, from its first
/// character to its last, and there is at least one.
pub proof fn rows_partition_the_line(s: Seq<char>, width: u16, wrap: bool)
    ensures
        ({
            let r = row_ranges(s, width, wrap);
            &&& r.len() >= 1
            &&& r[0].0 == 0
            &&& r.last().1 == s.len()
            &&& forall|k: int| 0 <= k < r.len() - 1 ==> (#[trigger] r[k]).1 == r[k + 1].0
            &&& forall|k: int|
                0 <= k < r.len() ==> 0 <= (#[trigger] r[k]).0 <= r[k].1 <= s.len()
            &&& s.len() > 0 ==> forall|k: int| 0 <= k < r.len() ==> (#[trigger] r[k]).0 < r[k].1
        }),
{
    if wrap {
        rows_are_in_order(s, row_width(width), s.len() as int);
    }
}

/// The cells of the characters of `s` from `a` to `b`.
pub open spec fn stretch_cells(s: Seq<char>, a: int, b: int) -> nat
    decreases b - a,
{
    if a >= b {
        0
    } else {
        stretch_cells(s, a, b - 1) + cells(s[b - 1])
    }
}

/// The number of characters of `s` from `a` to `b` that take cells.
pub open spec fn stretch_shown(s: Seq<char>, a: int, b: int) -> nat
    decreases b - a,
{
    if a >= b {
        0
    } else {
        stretch_shown(s, a, b - 1) + (if cells(s[b - 1]) > 0 {
            1nat
        } else {
            0
        })
    }
}

proof fn rows_fit(s: Seq<char>, width: nat, n: int)
    requires
        0 <= n <= s.len(),
    ensures
        ({
            let r = rows_to(s, width, n);
            let last = r.starts.len() - 1;
            &&& r.used == stretch_cells(s, r.starts[last], n)
            &&& r.used <= width || stretch_shown(s, r.starts[last], n) <= 1
            &&& r.used == 0 ==> stretch_shown(s, r.starts[last], n) == 0
            &&& forall|k: int|
                0 <= k < last ==> {
                    let a = #[trigger] r.starts[k];
                    let b = r.starts[k + 1];
                    &&& stretch_cells(s, a, b) <= width || stretch_shown(s, a, b) <= 1
                    &&& stretch_cells(s, a, b) + cells(s[b]) > width
                }
        }),
    decreases n,
{
    if n > 0 {
        rows_are_in_order(s, width, n - 1);
        rows_are_in_order(s, width, n);
        rows_fit(s, width, n - 1);
        let before = rows_to(s, width, n - 1);
        let r = rows_to(s, width, n);
        let w = cells(s[n - 1]);
        let start = before.starts.last();
        if w > 0 && before.used > 0 && before.used + w > width {
            assert(r.starts == before.starts.push(n - 1));
            reveal_with_fuel(stretch_cells, 2);
            reveal_with_fuel(stretch_shown, 2);
            assert forall|k: int| 0 <= k < r.starts.len() - 1 implies ({
                let a = #[trigger] r.starts[k];
                let b = r.starts[k + 1];
                &&& stretch_cells(s, a, b) <= width || stretch_shown(s, a, b) <= 1
                &&& stretch_cells(s, a, b) + cells(s[b]) > width
            }) by {
                assert(r.starts[k] == before.starts[k]);
                if k + 1 < before.starts.len() {
                    assert(r.starts[k + 1] == before.starts[k + 1]);
                }
            }
        } else {
            assert(r.starts == before.starts);
            assert(stretch_cells(s, start, n) == stretch_cells(s, start, n - 1) + w);
        }
    }
}

/// A wrapped row takes no more cells than the pane is wide, but for a row that
/// holds a single character wider than the pane. And no row ends before it has
/// to: the first character of the next row would not have fitted.
pub proof fn wrapped_rows_fit_and_are_full(s: Seq<char>, width: u16, k: int)
    requires
        0 <= k < row_ranges(s, width, true).len(),
    ensures
        ({
            let r = row_ranges(s, width, true);
            let (a, b) = r[k];
            &&& stretch_cells(s, a, b) <= row_width(width) || stretch_shown(s, a, b) <= 1
            &&& k + 1 < r.len() ==> stretch_cells(s, a, b) + cells(s[b]) > row_width(width)
        }),
{
    rows_fit(s, row_width(width), s.len() as int);
    let starts = row_starts(s, width, true);
    assert(starts[k] == row_ranges(s, width, true)[k].0);
}

/// A pane without width is treated as one cell wide.
pub proof fn no_width_is_one_cell(s: Seq<char>, wrap: bool)
    ensures
        row_ranges(s, 0, wrap) == row_ranges(s, 1, wrap),
{
}

fn to_range(a: usize, b: usize) -> (r: Range<usize>)
    ensures
        r.start == a,
        r.end == b,
{
    a..b
}

/// The character range of each display row of `stripped` at `width` cells.
///
/// Without wrap the whole line is one row. An empty line is one empty row.
pub fn wrap_ranges(stripped: &str, width: u16, wrap: bool) -> (r: Vec<Range<usize>>)
    ensures
        range_views(r@) == row_ranges(stripped@, width, wrap),
{
    let cs = chars_of(stripped);
    let ghost s = stripped@;
    let count: usize = cs.len();
    let mut ranges: Vec<Range<usize>> = Vec::new();
    if !wrap {
        ranges.push(to_range(0, count));
        assert(range_views(ranges@) =~= row_ranges(s, width, wrap));
        return ranges;
    }
    let width_cells: usize = if width == 0 { 1 } else { width as usize };
    let mut row_start: usize = 0;
    let mut used: usize = 0;
    let mut i: usize = 0;
    while i < count
        invariant
            i <= count,
            count == cs@.len(),
            cs@ == s,
            width_cells == row_width(width),
            ({
                let rows = rows_to(s, row_width(width), i as int);
                let n = rows.starts.len() - 1;
                &&& used == rows.used
                &&& ranges@.len() == n
                &&& row_start == rows.starts[n]
                &&& forall|k: int|
                    0 <= k < n ==> (#[trigger] ranges@[k]).start == rows.starts[k] && ranges@[k].end
                        == rows.starts[k + 1]
            }),
            used <= width_cells || used <= 3,
        decreases count - i,
    {
        let ghost before = rows_to(s, row_width(width), i as int);
        let w = cells_of_char(cs[i]);
        if w > 0 {
            if used > 0 && used + w > width_cells {
                ranges.push(to_range(row_start, i));
                row_start = i;
                used = 0;
            }
            used = used + w;
        }
        i += 1;
        let ghost now = rows_to(s, row_width(width), i as int);
        assert(now == with_char(before, i - 1, s[i - 1], row_width(width)));
    }
    ranges.push(to_range(row_start, count));
    assert(range_views(ranges@) =~= row_ranges(s, width, wrap));
    ranges
}

/// The number of display rows that `stripped` takes at `width` cells: as many
/// as `wrap_ranges` gives.
pub fn row_count(stripped: &str, width: u16, wrap: bool) -> (r: usize)
    ensures
        r == row_ranges(stripped@, width, wrap).len(),
        r >= 1,
{
    let cs = chars_of(stripped);
    let ghost s = stripped@;
    if !wrap || cs.len() == 0 {
        return 1;
    }
    let width_cells: usize = if width == 0 { 1 } else { width as usize };
    let count: usize = cs.len();
    let mut rows: usize = 1;
    let mut used: usize = 0;
    let mut i: usize = 0;
    while i < count
        invariant
            i <= count,
            count == cs@.len(),
            cs@ == s,
            width_cells == row_width(width),
            used == rows_to(s, row_width(width), i as int).used,
            rows == rows_to(s, row_width(width), i as int).starts.len(),
            used <= width_cells || used <= 3,
            rows >= 1,
        decreases count - i,
    {
        proof {
            rows_are_in_order(s, row_width(width), i as int);
            rows_are_in_order(s, row_width(width), i + 1);
        }
        let w = cells_of_char(cs[i]);
        if w > 0 {
            if used > 0 && used + w > width_cells {
                rows = rows + 1;
                used = 0;
            }
            used = used + w;
        }
        i += 1;
    }
    rows
}

/// The character of `s` from `i` up to `end` that shows at `cell`, counted from
/// `i`; `past` where the row ends before it.
pub open spec fn char_at(s: Seq<char>, i: int, end: int, cell: int, past: int) -> int
    decreases end - i,
{
    if i >= end || i >= s.len() {
        past
    } else if cell < cells(s[i]) {
        i
    } else {
        char_at(s, i + 1, end, cell - cells(s[i]), past)
    }
}

/// The character within `range` that shows at display `cell`, where the row's
/// left edge is cell 0. Either cell of a wide character gives that character. A
/// cell past the row's text gives the end of the range.
pub fn char_at_cell(stripped: &str, range: Range<usize>, cell: usize) -> (r: usize)
    ensures
        r == char_at(
            stripped@,
            range.start as int,
            range.end as int,
            cell as int,
            range.end as int,
        ),
{
    let cs = chars_of(stripped);
    let ghost s = stripped@;
    let mut left: usize = cell;
    let mut i: usize = range.start;
    let ghost want = char_at(
        s,
        range.start as int,
        range.end as int,
        cell as int,
        range.end as int,
    );
    while i < cs.len() && i < range.end
        invariant
            cs@ == s,
            s == stripped@,
            range.start <= i,
            want == char_at(
                s,
                range.start as int,
                range.end as int,
                cell as int,
                range.end as int,
            ),
            want == char_at(s, i as int, range.end as int, left as int, range.end as int),
        decreases cs@.len() - i,
    {
        let w = cells_of_char(cs[i]);
        if left < w {
            return i;
        }
        left = left - w;
        i += 1;
    }
    range.end
}

/// The character at a cell of a row lies in the row, or is its end.
pub proof fn char_at_stays_in_the_row(s: Seq<char>, i: int, end: int, cell: int)
    requires
        0 <= i <= end,
        0 <= cell,
    ensures
        i <= char_at(s, i, end, cell, end) <= end,
    decreases end - i,
{
    if i < end && i < s.len() && cell >= cells(s[i]) {
        char_at_stays_in_the_row(s, i + 1, end, cell - cells(s[i]));
    }
}

/// What a cached layout was made for.
#[derive(Debug, Clone, Copy, PartialEq, Eq, Structural)]
pub struct LayoutKey {
    pub task: Option<usize>,
    pub width: u16,
    pub wrap: bool,
}

/// Display-row layout of the output pane, kept between frames.
#[derive(Debug)]
pub struct OutputLayout {
    pub key: Option<LayoutKey>,
    pub lines_seen: usize,
    /// The display rows before each line, and behind the last; empty before
    /// the first sync.
    pub cum_rows: Vec<usize>,
}

/// The display rows of an output line.
pub open spec fn rows_of(line: Seq<char>, width: u16, wrap: bool) -> nat {
    row_ranges(stripped(line), width, wrap).len()
}

/// The display rows of the first `n` lines.
pub open spec fn rows_before(lines: Seq<Seq<char>>, n: int, width: u16, wrap: bool) -> nat
    decreases n,
{
    if n <= 0 {
        0
    } else {
        rows_before(lines, n - 1, width, wrap) + rows_of(lines[n - 1], width, wrap)
    }
}

/// A count of rows, held at the largest that can be stored.
pub open spec fn stored(n: nat) -> usize {
    if n > usize::MAX {
        usize::MAX
    } else {
        n as usize
    }
}

/// The running row counts of `lines`.
pub open spec fn running_rows(lines: Seq<Seq<char>>, width: u16, wrap: bool) -> Seq<usize> {
    Seq::new((lines.len() + 1) as nat, |i: int| stored(rows_before(lines, i, width, wrap)))
}

/// `cum` with the lines from the `from`-th up to the `n`-th appended.
pub open spec fn with_lines(
    cum: Seq<usize>,
    lines: Seq<Seq<char>>,
    from: int,
    n: int,
    width: u16,
    wrap: bool,
) -> Seq<usize>
    decreases n - from,
{
    if n <= from {
        cum
    } else {
        let before = with_lines(cum, lines, from, n - 1, width, wrap);
        let last: nat = if before.len() > 0 {
            before.last() as nat
        } else {
            0
        };
        before.push(stored(last + rows_of(lines[n - 1], width, wrap)))
    }
}

/// How many of the counts are not above `row`.
pub open spec fn counts_upto(cum: Seq<usize>, row: int) -> int
    decreases cum.len(),
{
    if cum.len() == 0 {
        0
    } else {
        counts_upto(cum.drop_last(), row) + if cum.last() <= row {
            1int
        } else {
            0
        }
    }
}

/// The line and the row within it that a display row belongs to; none past the
/// last row.
pub open spec fn place_of_row(cum: Seq<usize>, row: int) -> Option<(int, int)> {
    if cum.len() == 0 || row >= cum.last() {
        None
    } else {
        let line = counts_upto(cum, row) - 1;
        Some((line, row - cum[line]))
    }
}

pub proof fn counts_are_split(cum: Seq<usize>, row: int, k: int)
    requires
        0 <= k <= cum.len(),
        forall|j: int| 0 <= j < k ==> cum[j] <= row,
        forall|j: int| k <= j < cum.len() ==> cum[j] > row,
    ensures
        counts_upto(cum, row) == k,
    decreases cum.len(),
{
    if cum.len() > 0 {
        let front = cum.drop_last();
        if k == cum.len() {
            counts_are_split(front, row, k - 1);
        } else {
            counts_are_split(front, row, k);
        }
    }
}

impl OutputLayout {
    /// The layout before anything was laid out, or one with a count for every
    /// line seen, which starts at zero and never falls.
    pub open spec fn wf(&self) -> bool {
        if self.cum_rows@.len() == 0 {
            self.lines_seen == 0 && self.key is None
        } else {
            &&& self.cum_rows@.len() == self.lines_seen + 1
            &&& self.cum_rows@[0] == 0
            &&& forall|i: int, j: int|
                0 <= i <= j < self.cum_rows@.len() ==> self.cum_rows@[i] <= self.cum_rows@[j]
        }
    }

    /// The number of display rows laid out.
    pub open spec fn rows(&self) -> usize {
        if self.cum_rows@.len() == 0 {
            0
        } else {
            self.cum_rows@.last()
        }
    }

    /// The display row at which `line` begins; the number of rows where there
    /// is no such line.
    pub open spec fn first_row(&self, line: int) -> usize {
        if 0 <= line < self.cum_rows@.len() {
            self.cum_rows@[line]
        } else {
            self.rows()
        }
    }

    /// Whether this is the layout of `lines`, made for `key`.
    pub open spec fn describes(&self, key: LayoutKey, lines: Seq<Seq<char>>) -> bool {
        &&& self.key == Some(key)
        &&& self.lines_seen == lines.len()
        &&& self.cum_rows@ == running_rows(lines, key.width, key.wrap)
    }

    /// Whether a sync has to start over.
    pub open spec fn starts_over(&self, key: LayoutKey, n: nat) -> bool {
        self.key != Some(key) || n < self.lines_seen
    }

    /// Brings the layout up to date with `lines` at the given geometry.
    ///
    /// Starts over when task, width or wrap differ, or when there are fewer
    /// lines than were seen; otherwise only the new lines are laid out, since
    /// output only ever grows.
    pub fn sync(&mut self, task: Option<usize>, lines: &[String], width: u16, wrap: bool)
        requires
            old(self).wf(),
        ensures
            final(self).wf(),
            final(self).key == Some(LayoutKey { task, width, wrap }),
            final(self).lines_seen == lines@.len(),
            ({
                let key = LayoutKey { task, width, wrap };
                let fresh = old(self).starts_over(key, lines@.len());
                &&& final(self).cum_rows@ == with_lines(
                    if fresh {
                        seq![0usize]
                    } else {
                        old(self).cum_rows@
                    },
                    texts(lines@),
                    if fresh {
                        0
                    } else {
                        old(self).lines_seen as int
                    },
                    lines@.len() as int,
                    width,
                    wrap,
                )
                &&& fresh || old(self).describes(
                    key,
                    texts(lines@).take(old(self).lines_seen as int),
                ) ==> final(self).describes(key, texts(lines@))
            }),
    {
        let key = LayoutKey { task, width, wrap };
        let ghost all = texts(lines@);
        let ghost fresh = self.starts_over(key, lines@.len());
        let ghost base: Seq<usize> = if fresh {
            seq![0usize]
        } else {
            self.cum_rows@
        };
        let ghost from: int = if fresh {
            0
        } else {
            self.lines_seen as int
        };
        if self.key != Some(key) || lines.len() < self.lines_seen {
            self.key = Some(key);
            self.lines_seen = 0;
            self.cum_rows = Vec::new();
            self.cum_rows.push(0);
            assert(self.cum_rows@ =~= base);
        }
        let mut i: usize = self.lines_seen;
        while i < lines.len()
            invariant
                self.wf_upto(i as int),
                self.key == Some(key),
                from <= i <= lines@.len(),
                all == texts(lines@),
                self.cum_rows@ == with_lines(base, all, from, i as int, width, wrap),
            decreases lines@.len() - i,
        {
            assert(all[i as int] == lines@[i as int]@);
            let stripped = strip_ansi(lines[i].as_str());
            let rows = row_count(stripped.as_str(), width, wrap);
            let last: usize = self.cum_rows[self.cum_rows.len() - 1];
            self.cum_rows.push(last.saturating_add(rows));
            i += 1;
        }
        self.lines_seen = lines.len();
        proof {
            if fresh || old(self).describes(key, all.take(old(self).lines_seen as int)) {
                running_rows_grow(base, all, from, lines@.len() as int, width, wrap);
                assert(all.take(lines@.len() as int) == all);
            }
        }
    }

    /// Whether the counts of the first `n` lines are in place.
    pub open spec fn wf_upto(&self, n: int) -> bool {
        &&& self.cum_rows@.len() == n + 1
        &&& self.cum_rows@[0] == 0
        &&& forall|i: int, j: int|
            0 <= i <= j < self.cum_rows@.len() ==> self.cum_rows@[i] <= self.cum_rows@[j]
    }

    /// Display rows of all lines seen so far.
    pub fn total_rows(&self) -> (r: usize)
        ensures
            r == self.rows(),
    {
        if self.cum_rows.len() == 0 {
            0
        } else {
            self.cum_rows[self.cum_rows.len() - 1]
        }
    }

    /// Maps a display row to its source line and the row within that line; none
    /// past the last row.
    pub fn locate(&self, display_row: usize) -> (r: Option<(usize, usize)>)
        requires
            self.wf(),
        ensures
            match r {
                Some((line, row)) => place_of_row(self.cum_rows@, display_row as int) == Some(
                    (line as int, row as int),
                ),
                None => place_of_row(self.cum_rows@, display_row as int) is None,
            },
            match r {
                Some((line, row)) => {
                    &&& display_row < self.rows()
                    &&& line < self.lines_seen
                    &&& self.cum_rows@[line as int] <= display_row < self.cum_rows@[line + 1]
                    &&& row == display_row - self.cum_rows@[line as int]
                },
                None => display_row >= self.rows(),
            },
    {
        if display_row >= self.total_rows() {
            return None;
        }
        let mut lo: usize = 0;
        let mut hi: usize = self.cum_rows.len();
        while lo < hi
            invariant
                self.wf(),
                lo <= hi <= self.cum_rows@.len(),
                forall|j: int| 0 <= j < lo ==> self.cum_rows@[j] <= display_row,
                forall|j: int| hi <= j < self.cum_rows@.len() ==> self.cum_rows@[j] > display_row,
            decreases hi - lo,
        {
            let mid: usize = lo + (hi - lo) / 2;
            if self.cum_rows[mid] <= display_row {
                lo = mid + 1;
            } else {
                hi = mid;
            }
        }
        proof {
            counts_are_split(self.cum_rows@, display_row as int, lo as int);
        }
        let line: usize = lo - 1;
        Some((line, display_row - self.cum_rows[line]))
    }

    /// The display row at which `line` begins; the number of rows where there
    /// is no such line.
    pub fn first_row_of_line(&self, line: usize) -> (r: usize)
        ensures
            r == self.first_row(line as int),
    {
        if line < self.cum_rows.len() {
            self.cum_rows[line]
        } else {
            self.total_rows()
        }
    }
}

impl Default for OutputLayout {
    fn default() -> (r: Self)
        ensures
            r.wf(),
            r.key is None,
            r.lines_seen == 0,
            r.cum_rows@.len() == 0,
    {
        OutputLayout { key: None, lines_seen: 0, cum_rows: Vec::new() }
    }
}

proof fn running_rows_grow(
    base: Seq<usize>,
    lines: Seq<Seq<char>>,
    from: int,
    n: int,
    width: u16,
    wrap: bool,
)
    requires
        0 <= from <= n <= lines.len(),
        base == running_rows(lines.take(from), width, wrap) || (from == 0 && base == seq![0usize]),
    ensures
        with_lines(base, lines, from, n, width, wrap) == running_rows(lines.take(n), width, wrap),
    decreases n - from,
{
    if n > from {
        running_rows_grow(base, lines, from, n - 1, width, wrap);
        let a = lines.take(n - 1);
        let b = lines.take(n);
        assert forall|i: int| 0 <= i <= n - 1 implies #[trigger] rows_before(a, i, width, wrap)
            == rows_before(b, i, width, wrap) by {
            rows_before_same(a, b, i, width, wrap);
        }
        assert(running_rows(a, width, wrap).last() == stored(rows_before(a, n - 1, width, wrap)));
        assert(with_lines(base, lines, from, n, width, wrap) =~= running_rows(b, width, wrap));
    } else {
        if from == 0 {
            assert(base =~= running_rows(lines.take(0), width, wrap));
        }
    }
}

proof fn rows_before_same(a: Seq<Seq<char>>, b: Seq<Seq<char>>, n: int, width: u16, wrap: bool)
    requires
        n <= a.len(),
        n <= b.len(),
        forall|i: int| 0 <= i < n ==> a[i] == b[i],
    ensures
        rows_before(a, n, width, wrap) == rows_before(b, n, width, wrap),
    decreases n,
{
    if n > 0 {
        rows_before_same(a, b, n - 1, width, wrap);
    }
}

pub proof fn rows_before_grows(lines: Seq<Seq<char>>, i: int, n: int, width: u16, wrap: bool)
    requires
        0 <= i <= n <= lines.len(),
    ensures
        rows_before(lines, i, width, wrap) <= rows_before(lines, n, width, wrap),
    decreases n - i,
{
    if i < n {
        rows_before_grows(lines, i, n - 1, width, wrap);
    }
}

/// In the layout of some lines, the first line begins at the first display row,
/// and every other one where the line before it ends: as many rows further as
/// the text of that line is broken into. The row at which a line begins is
/// located at that line's first row. Behind the last line there are no rows.
///
/// Rows are counted up to the largest number that can be stored. Where all of
/// them can be counted, every line begins exactly behind the rows of the lines
/// before it.
pub proof fn each_line_has_its_rows(
    layout: OutputLayout,
    key: LayoutKey,
    lines: Seq<Seq<char>>,
    i: int,
)
    requires
        layout.describes(key, lines),
        0 <= i,
    ensures
        layout.first_row(0) == 0,
        i >= lines.len() ==> layout.first_row(i) == layout.rows(),
        i < lines.len() ==> layout.first_row(i + 1) == stored(
            layout.first_row(i) as nat + rows_of(lines[i], key.width, key.wrap),
        ),
        i < lines.len() && layout.first_row(i) < usize::MAX ==> place_of_row(
            layout.cum_rows@,
            layout.first_row(i) as int,
        ) == Some((i, 0int)),
        i <= lines.len() && rows_before(lines, lines.len() as int, key.width, key.wrap)
            <= usize::MAX ==> layout.first_row(i) == rows_before(lines, i, key.width, key.wrap),
{
    let n = lines.len() as int;
    let cum = layout.cum_rows@;
    assert(cum.last() == cum[n]);
    if i <= n {
        rows_before_grows(lines, i, n, key.width, key.wrap);
    }
    if i < n {
        rows_partition_the_line(stripped(lines[i]), key.width, key.wrap);
        assert(rows_before(lines, i + 1, key.width, key.wrap) == rows_before(
            lines,
            i,
            key.width,
            key.wrap,
        ) + rows_of(lines[i], key.width, key.wrap));
        let row = cum[i];
        if row < usize::MAX {
            assert forall|j: int| 0 <= j < i + 1 implies #[trigger] cum[j] <= row by {
                rows_before_grows(lines, j, i, key.width, key.wrap);
            }
            assert forall|j: int| i + 1 <= j < cum.len() implies #[trigger] cum[j] > row by {
                rows_before_grows(lines, i + 1, j, key.width, key.wrap);
            }
            counts_are_split(cum, row as int, i + 1);
        }
    }
}

/// A layout that grew with its lines is the layout made of all of them at once.
pub proof fn grown_layout_is_the_fresh_one(
    grown: OutputLayout,
    fresh: OutputLayout,
    key: LayoutKey,
    lines: Seq<Seq<char>>,
)
    requires
        grown.describes(key, lines),
        fresh.describes(key, lines),
    ensures
        grown.cum_rows@ == fresh.cum_rows@,
        grown.rows() == fresh.rows(),
{
}

/// The selected characters of line `i`, which has `len` characters.
pub open spec fn selected_in(sel: Option<(SelPos, SelPos)>, i: int, len: int) -> Option<(int, int)> {
    match sel {
        Some((a, b)) => if i < a.line || i > b.line {
            None
        } else {
            Some(
                (
                    if i == a.line {
                        a.ch as int
                    } else {
                        0
                    },
                    if i == b.line {
                        b.ch as int
                    } else {
                        len
                    },
                ),
            )
        },
        None => None,
    }
}

/// What a selection covers of a row.
pub open spec fn selected_of_row(sel: Option<(int, int)>, row: (int, int)) -> Option<(int, int)> {
    match sel {
        Some((s, e)) => {
            let lo = if s > row.0 {
                s
            } else {
                row.0
            };
            let hi = if e < row.1 {
                e
            } else {
                row.1
            };
            if lo < hi {
                Some((lo, hi))
            } else {
                None
            }
        },
        None => None,
    }
}

/// The display row `row` of line `i`, whose raw text is `raw`.
pub open spec fn shown_row(
    raw: Seq<char>,
    i: int,
    row: (int, int),
    sel: Option<(SelPos, SelPos)>,
) -> LineView {
    line_of(
        sliced(
            ansi_spans(raw),
            row.0,
            row.1,
            selected_of_row(selected_in(sel, i, stripped(raw).len() as int), row),
        ),
    )
}

/// The display rows of line `i`, from its `k`-th row on.
pub open spec fn line_rows(
    raw: Seq<char>,
    i: int,
    k: int,
    width: u16,
    wrap: bool,
    sel: Option<(SelPos, SelPos)>,
) -> Seq<LineView> {
    let ranges = row_ranges(stripped(raw), width, wrap);
    Seq::new(
        (if k < ranges.len() {
            ranges.len() - k
        } else {
            0
        }) as nat,
        |j: int| shown_row(raw, i, ranges[k + j], sel),
    )
}

/// The display rows of `lines` from the `k`-th row of line `i` on.
pub open spec fn rows_from(
    lines: Seq<Seq<char>>,
    i: int,
    k: int,
    width: u16,
    wrap: bool,
    sel: Option<(SelPos, SelPos)>,
) -> Seq<LineView>
    decreases lines.len() - i,
{
    if i < 0 || i >= lines.len() {
        Seq::empty()
    } else {
        line_rows(lines[i], i, k, width, wrap, sel) + rows_from(lines, i + 1, 0, width, wrap, sel)
    }
}

/// At most the first `n` of `rows`.
pub open spec fn at_most(rows: Seq<LineView>, n: int) -> Seq<LineView> {
    if n < rows.len() {
        rows.take(n)
    } else {
        rows
    }
}

/// The rows that a pane of `height` rows shows from display row `first_row` on,
/// where line `i` begins at display row `cum[i]`.
pub open spec fn visible_rows(
    lines: Seq<Seq<char>>,
    cum: Seq<usize>,
    first_row: int,
    height: int,
    width: u16,
    wrap: bool,
    sel: Option<(SelPos, SelPos)>,
) -> Seq<LineView> {
    match place_of_row(cum, first_row) {
        Some((line, k)) => at_most(rows_from(lines, line, k, width, wrap, sel), height),
        None => Seq::empty(),
    }
}

/// The rows that a pane of `height` rows shows from display row `first_row` on,
/// with what is selected drawn reversed. The selection's ends are in document
/// order.
pub fn visible_lines(
    lines: &[String],
    layout: &OutputLayout,
    first_row: usize,
    height: usize,
    width: u16,
    wrap: bool,
    selection: Option<(SelPos, SelPos)>,
) -> (r: Vec<Line>)
    requires
        layout.wf(),
    ensures
        line_views(r@) == visible_rows(
            texts(lines@),
            layout.cum_rows@,
            first_row as int,
            height as int,
            width,
            wrap,
            selection,
        ),
{
    match layout.locate(first_row) {
        Some((line_idx, row_in_line)) => lines_from(
            lines,
            line_idx,
            row_in_line,
            height,
            width,
            wrap,
            selection,
        ),
        None => {
            let none: Vec<Line> = Vec::new();
            assert(line_views(none@) =~= Seq::<LineView>::empty());
            none
        },
    }
}

/// At most `height` display rows from the row `from_row` of line `from_line` on.
fn lines_from(
    lines: &[String],
    from_line: usize,
    from_row: usize,
    height: usize,
    width: u16,
    wrap: bool,
    selection: Option<(SelPos, SelPos)>,
) -> (r: Vec<Line>)
    ensures
        line_views(r@) == at_most(
            rows_from(texts(lines@), from_line as int, from_row as int, width, wrap, selection),
            height as int,
        ),
{
    broadcast use line_views_push;

    let ghost all = texts(lines@);
    let mut out: Vec<Line> = Vec::new();
    let mut line_idx: usize = from_line;
    let mut row_in_line: usize = from_row;
    let ghost want = rows_from(all, line_idx as int, row_in_line as int, width, wrap, selection);
    assert(line_views(out@) + want =~= want);
    while out.len() < height && line_idx < lines.len()
        invariant
            all == texts(lines@),
            want == rows_from(
                texts(lines@),
                from_line as int,
                from_row as int,
                width,
                wrap,
                selection,
            ),
            out@.len() <= height,
            line_views(out@) + rows_from(
                all,
                line_idx as int,
                row_in_line as int,
                width,
                wrap,
                selection,
            ) == want,
        decreases lines@.len() - line_idx,
    {
        let raw = lines[line_idx].as_str();
        let ghost text = all[line_idx as int];
        let stripped_text = strip_ansi(raw);
        let parsed = parse_ansi(raw);
        let ranges = wrap_ranges(stripped_text.as_str(), width, wrap);
        let char_count: usize = chars_of(stripped_text.as_str()).len();
        let ghost rows = row_ranges(stripped(text), width, wrap);
        proof {
            styled_and_stripped_text_agree(text);
        }
        let chosen: Option<(usize, usize)> = match selection {
            Some((a, b)) => if line_idx < a.line || line_idx > b.line {
                None
            } else {
                Some(
                    (
                        if line_idx == a.line { a.ch } else { 0 },
                        if line_idx == b.line { b.ch } else { char_count },
                    ),
                )
            },
            None => None,
        };
        let ghost rest = rows_from(all, line_idx + 1, 0, width, wrap, selection);
        while row_in_line < ranges.len() && out.len() < height
            invariant
                line_idx < lines@.len(),
                all == texts(lines@),
                text == all[line_idx as int],
                out@.len() <= height,
                parsed@ == line_of(ansi_spans(text)),
                crate::ui::style::text_of(ansi_spans(text)) == stripped(text),
                stripped(text).len() <= usize::MAX,
                rows == row_ranges(stripped(text), width, wrap),
                range_views(ranges@) == rows,
                match chosen {
                    Some((s, e)) => selected_in(
                        selection,
                        line_idx as int,
                        stripped(text).len() as int,
                    ) == Some((s as int, e as int)),
                    None => selected_in(selection, line_idx as int, stripped(text).len() as int)
                        is None,
                },
                line_views(out@) + (line_rows(
                    text,
                    line_idx as int,
                    row_in_line as int,
                    width,
                    wrap,
                    selection,
                ) + rest) == want,
            decreases ranges@.len() - row_in_line,
        {
            let ghost before = line_views(out@);
            let ghost now = line_rows(
                text,
                line_idx as int,
                row_in_line as int,
                width,
                wrap,
                selection,
            );
            assert(rows[row_in_line as int] == range_views(ranges@)[row_in_line as int]);
            let start: usize = ranges[row_in_line].start;
            let end: usize = ranges[row_in_line].end;
            let sel: Option<Range<usize>> = match chosen {
                Some((s, e)) => {
                    let lo: usize = if s > start { s } else { start };
                    let hi: usize = if e < end { e } else { end };
                    if lo < hi {
                        Some(to_range(lo, hi))
                    } else {
                        None
                    }
                },
                None => None,
            };
            let shown = slice_spans(&parsed, to_range(start, end), sel);
            let ghost view = shown@;
            out.push(shown);
            row_in_line += 1;
            let ghost later = line_rows(
                text,
                line_idx as int,
                row_in_line as int,
                width,
                wrap,
                selection,
            );
            assert(now =~= seq![view] + later);
            assert(before.push(view) + (later + rest) =~= before + (now + rest));
        }
        if row_in_line < ranges.len() {
            proof {
                let tail = line_rows(
                    text,
                    line_idx as int,
                    row_in_line as int,
                    width,
                    wrap,
                    selection,
                ) + rest;
                assert(want.take(height as int) =~= line_views(out@));
            }
            assert(line_views(out@) == at_most(want, height as int));
            return out;
        }
        assert(line_rows(text, line_idx as int, row_in_line as int, width, wrap, selection) + rest
            =~= rest);
        line_idx += 1;
        row_in_line = 0;
    }
    proof {
        let tail = rows_from(all, line_idx as int, row_in_line as int, width, wrap, selection);
        if out@.len() < height {
            assert(line_views(out@) + tail =~= line_views(out@));
        } else {
            assert(want.take(height as int) =~= line_views(out@));
        }
    }
    assert(line_views(out@) == at_most(want, height as int));
    out
}

} // verus!
