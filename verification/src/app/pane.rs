//! The output pane: scrolling, mouse hits, selection, and copied text.

use crate::app::model::{App, AppView};
use crate::app::selection::{OutputSelection, PendingSel, SelPos};
use crate::app::types::SessionView;
use crate::text::{chars_of, copy_range, join, joined, string_of, texts, texts_push};
use crate::ui::output_layout::{
    char_at, char_at_cell, place_of_row, range_views, row_ranges, wrap_ranges,
};
use crate::util::{strip_ansi, stripped};
use vstd::prelude::*;

verus! {

/// The smaller of two.
pub open spec fn min_of(a: int, b: int) -> int {
    if a < b {
        a
    } else {
        b
    }
}

/// What is left of `a` when `b` is taken off, or nothing.
pub open spec fn less(a: int, b: int) -> int {
    if a > b {
        a - b
    } else {
        0
    }
}

/// A coordinate sum, held at the largest coordinate.
pub open spec fn edge(a: u16, b: u16) -> int {
    if a + b > u16::MAX {
        u16::MAX as int
    } else {
        a + b
    }
}

/// The text of the selected lines from the start to the end of a selection that
/// spans several lines.
pub open spec fn spanned_text(lines: Seq<Seq<char>>, a: SelPos, b: SelPos) -> Seq<Seq<char>> {
    let n = lines.len() as int;
    let first = if a.line < n {
        let t = stripped(lines[a.line as int]);
        seq![t.skip(min_of(a.ch as int, t.len() as int))]
    } else {
        Seq::empty()
    };
    let last = if b.line < n {
        let t = stripped(lines[b.line as int]);
        seq![t.take(min_of(b.ch as int, t.len() as int))]
    } else {
        Seq::empty()
    };
    first + stripped_span(lines, a.line + 1, min_of(b.line as int, n)) + last
}

/// The lines from `lo` up to `hi` without escape sequences.
pub open spec fn stripped_span(lines: Seq<Seq<char>>, lo: int, hi: int) -> Seq<Seq<char>>
    decreases hi - lo,
{
    if lo >= hi {
        Seq::empty()
    } else {
        stripped_span(lines, lo, hi - 1).push(stripped(lines[hi - 1]))
    }
}

impl AppView {
    /// How far the output can be scrolled up.
    pub open spec fn max_scroll(self) -> int {
        less(self.layout.rows() as int, self.viewport.output as int)
    }

    pub open spec fn output_scrolled(self, delta: int) -> AppView {
        match self.session {
            Some(s) => self.with_session(
                SessionView {
                    output_scroll: (if delta < 0 {
                        less(s.output_scroll as int, -delta)
                    } else {
                        min_of(s.output_scroll + delta, self.max_scroll())
                    }) as usize,
                    ..s
                },
            ),
            None => self,
        }
    }

    pub open spec fn scrolled_to_top(self) -> AppView {
        match self.session {
            Some(s) => self.with_session(
                SessionView { output_scroll: self.max_scroll() as usize, ..s },
            ),
            None => self,
        }
    }

    pub open spec fn scrolled_to_bottom(self) -> AppView {
        match self.session {
            Some(s) => self.with_session(SessionView { output_scroll: 0, ..s }),
            None => self,
        }
    }

    /// The display row at the top of the output pane.
    pub open spec fn top_row(self) -> int {
        self.max_scroll() - min_of((self.session->0).output_scroll as int, self.max_scroll())
    }

    /// What stands at a cell of the terminal: a position in the shown output.
    /// With `clamp`, a cell outside the pane counts as the nearest one inside.
    pub open spec fn hit(self, col: u16, row: u16, clamp: bool) -> Option<SelPos> {
        let vp = self.viewport;
        let bottom = edge(vp.output_top, vp.output);
        let right = edge(vp.output_left, vp.output_width);
        let inside = vp.output_top <= row < bottom && vp.output_left <= col < right;
        let y = if !clamp {
            row as int
        } else if row < vp.output_top {
            vp.output_top as int
        } else {
            min_of(row as int, bottom - 1)
        };
        let x = if !clamp {
            col as int
        } else if col < vp.output_left {
            vp.output_left as int
        } else {
            min_of(col as int, right - 1)
        };
        let total = self.layout.rows();
        let at = self.top_row() + (y - vp.output_top);
        if vp.output_top == u16::MAX || vp.output_width == 0 || total == 0 || self.session is None {
            None
        } else if !clamp && (!inside || at >= total) {
            None
        } else {
            let past = at >= total;
            match place_of_row(
                self.layout.cum_rows,
                if past {
                    total - 1
                } else {
                    at
                },
            ) {
                Some((line, k)) => self.char_hit(
                    line,
                    k,
                    if past {
                        usize::MAX as int
                    } else {
                        x - vp.output_left
                    },
                ),
                None => None,
            }
        }
    }

    /// The position at a cell of the `k`-th row of a line of the shown output.
    pub open spec fn char_hit(self, line: int, k: int, cell: int) -> Option<SelPos> {
        let lines = self.shown_lines();
        if line >= lines.len() {
            None
        } else {
            let text = stripped(lines[line]);
            let ranges = row_ranges(text, self.viewport.output_width, (self.session->0).output_wrap);
            if k >= ranges.len() {
                None
            } else {
                let (start, end) = ranges[k];
                Some(
                    SelPos {
                        line: line as usize,
                        ch: char_at(text, start, end, cell, end) as usize,
                    },
                )
            }
        }
    }

    /// Whether the output pane has cells, where it is shown at all.
    pub open spec fn pane_has_cells(self) -> bool {
        let vp = self.viewport;
        vp.output_top == u16::MAX || vp.output_width == 0 || (edge(vp.output_top, vp.output)
            > vp.output_top && edge(vp.output_left, vp.output_width) > vp.output_left)
    }

    pub open spec fn selection_armed(self, pos: SelPos) -> AppView {
        match self.session {
            Some(s) => self.with_session(
                SessionView {
                    selection: None,
                    pending_sel: Some(PendingSel { task: self.shown_id(), pos }),
                    ..s
                },
            ),
            None => self,
        }
    }

    /// Whether a press waits that belongs to the shown task.
    pub open spec fn press_waits(self) -> bool {
        self.session is Some && (self.session->0).pending_sel is Some && (
        (self.session->0).pending_sel->0).task == self.shown_id()
    }

    pub open spec fn selection_begun(self) -> AppView {
        match self.session {
            Some(s) => match s.pending_sel {
                Some(p) => self.with_session(
                    SessionView {
                        pending_sel: None,
                        selection: if p.task == self.shown_id() {
                            Some(
                                OutputSelection {
                                    task: p.task,
                                    anchor: p.pos,
                                    head: p.pos,
                                    dragging: true,
                                },
                            )
                        } else {
                            s.selection
                        },
                        ..s
                    },
                ),
                None => self,
            },
            None => self,
        }
    }

    pub open spec fn press_discarded(self) -> AppView {
        match self.session {
            Some(s) => self.with_session(SessionView { pending_sel: None, ..s }),
            None => self,
        }
    }

    /// Whether a selection is being dragged.
    pub open spec fn is_dragging(self) -> bool {
        self.session is Some && (self.session->0).selection is Some && (
        (self.session->0).selection->0).dragging
    }

    pub open spec fn selection_dragged(self, pos: SelPos) -> AppView {
        if self.is_dragging() {
            let s = self.session->0;
            self.with_session(
                SessionView {
                    selection: Some(OutputSelection { head: pos, ..s.selection->0 }),
                    ..s
                },
            )
        } else {
            self
        }
    }

    pub open spec fn selection_ended(self) -> AppView {
        match self.session {
            Some(s) => match s.selection {
                Some(sel) => self.with_session(
                    SessionView {
                        selection: if sel.anchor == sel.head {
                            None
                        } else {
                            Some(OutputSelection { dragging: false, ..sel })
                        },
                        ..s
                    },
                ),
                None => self,
            },
            None => self,
        }
    }

    pub open spec fn selection_cleared(self) -> AppView {
        match self.session {
            Some(s) => self.with_session(SessionView { selection: None, pending_sel: None, ..s }),
            None => self,
        }
    }

    /// The selected text, without escape sequences; none where nothing is
    /// selected in the shown output.
    pub open spec fn selected_text(self) -> Option<Seq<char>> {
        if self.session is Some && (self.session->0).selection is Some {
            let sel = (self.session->0).selection->0;
            let (a, b) = sel.ends();
            let lines = self.shown_lines();
            if sel.anchor == sel.head || sel.task != self.shown_id() {
                None
            } else if a.line == b.line {
                if a.line < lines.len() {
                    let t = stripped(lines[a.line as int]);
                    Some(
                        t.subrange(
                            min_of(a.ch as int, t.len() as int),
                            min_of(b.ch as int, t.len() as int),
                        ),
                    )
                } else {
                    None
                }
            } else {
                Some(joined(spanned_text(lines, a, b), "\n"@))
            }
        } else {
            None
        }
    }

    /// The whole shown output without escape sequences; none where there is no
    /// line.
    pub open spec fn output_text(self) -> Option<Seq<char>> {
        let lines = self.shown_lines();
        if lines.len() == 0 {
            None
        } else {
            Some(joined(stripped_span(lines, 0, lines.len() as int), "\n"@))
        }
    }
}

fn magnitude(delta: i32) -> (r: usize)
    requires
        delta < 0,
    ensures
        r == -delta,
{
    let d: i64 = -(delta as i64);
    d as usize
}

impl App {
    /// Scrolls the output by display rows, up where `delta` is positive, within
    /// what there is to see at the last drawn size. Tells whether it moved.
    pub fn run_scroll_output(&mut self, delta: i32) -> (r: bool)
        ensures
            final(self)@ == old(self)@.output_scrolled(delta as int),
            r == (final(self)@ != old(self)@),
    {
        let ghost before = self@;
        let max: usize = self.output_layout.total_rows().saturating_sub(
            self.viewport.output as usize,
        );
        if let Some(s) = &mut self.session {
            let was = s.output_scroll;
            if delta < 0 {
                s.output_scroll = s.output_scroll.saturating_sub(magnitude(delta));
            } else {
                let up: usize = s.output_scroll.saturating_add(delta as usize);
                s.output_scroll = if up < max { up } else { max };
            }
            let moved = s.output_scroll != was;
            assert(self@ =~= before.output_scrolled(delta as int));
            if moved {
                assert((self@.session->0).output_scroll != (before.session->0).output_scroll);
            } else {
                assert(self@ =~= before);
            }
            moved
        } else {
            false
        }
    }

    /// Scrolls the output to its oldest row.
    pub fn run_scroll_to_top(&mut self)
        ensures
            final(self)@ == old(self)@.scrolled_to_top(),
    {
        let ghost before = self@;
        let max: usize = self.output_layout.total_rows().saturating_sub(
            self.viewport.output as usize,
        );
        if let Some(s) = &mut self.session {
            s.output_scroll = max;
        }
        assert(self@ =~= before.scrolled_to_top());
    }

    /// Lets the output follow its tail.
    pub fn run_scroll_to_bottom(&mut self)
        ensures
            final(self)@ == old(self)@.scrolled_to_bottom(),
    {
        let ghost before = self@;
        if let Some(s) = &mut self.session {
            s.output_scroll = 0;
        }
        assert(self@ =~= before.scrolled_to_bottom());
    }

    /// Maps a cell of the terminal to a position in the shown output, by the
    /// geometry of the last draw. With `clamp`, cells outside the pane count as
    /// the nearest inside, as a drag needs it; without, they hit nothing.
    pub fn output_hit_test(&self, col: u16, row: u16, clamp: bool) -> (r: Option<SelPos>)
        requires
            self@.layout.wf(),
            clamp ==> self@.pane_has_cells(),
        ensures
            r == self@.hit(col, row, clamp),
    {
        let vp = self.viewport;
        if vp.output_top == u16::MAX || vp.output_width == 0 {
            return None;
        }
        let total = self.output_layout.total_rows();
        if total == 0 {
            return None;
        }
        let (scroll_wanted, wrap) = match &self.session {
            Some(s) => (s.output_scroll, s.output_wrap),
            None => {
                return None;
            },
        };
        let max_scroll: usize = total.saturating_sub(vp.output as usize);
        let scroll = if scroll_wanted < max_scroll { scroll_wanted } else { max_scroll };
        let first_row: usize = max_scroll - scroll;
        let bottom: u16 = vp.output_top.saturating_add(vp.output);
        let right: u16 = vp.output_left.saturating_add(vp.output_width);
        let (y, x) = if clamp {
            let y: u16 = if row < vp.output_top {
                vp.output_top
            } else if row < bottom - 1 {
                row
            } else {
                bottom - 1
            };
            let x: u16 = if col < vp.output_left {
                vp.output_left
            } else if col < right - 1 {
                col
            } else {
                right - 1
            };
            (y, x)
        } else {
            if row < vp.output_top || row >= bottom || col < vp.output_left || col >= right {
                return None;
            }
            (row, col)
        };
        let below: usize = (y - vp.output_top) as usize;
        let past = below >= total - first_row;
        if past && !clamp {
            return None;
        }
        let at: usize = if past { total - 1 } else { first_row + below };
        let cell: usize = if past { usize::MAX } else { (x - vp.output_left) as usize };
        match self.output_layout.locate(at) {
            Some((line, k)) => self.hit_char(line, k, cell, wrap),
            None => None,
        }
    }

    fn hit_char(&self, line: usize, k: usize, cell: usize, wrap: bool) -> (r: Option<SelPos>)
        requires
            self@.session is Some,
            wrap == (self@.session->0).output_wrap,
        ensures
            r == self@.char_hit(line as int, k as int, cell as int),
    {
        match self.run_output_lines() {
            Some(lines) => {
                if line >= lines.len() {
                    return None;
                }
                assert(self@.shown_lines()[line as int] == lines@[line as int]@);
                let text = strip_ansi(lines[line].as_str());
                let ranges = wrap_ranges(text.as_str(), self.viewport.output_width, wrap);
                if k >= ranges.len() {
                    return None;
                }
                assert(range_views(ranges@)[k as int] == (
                    ranges@[k as int].start as int,
                    ranges@[k as int].end as int,
                ));
                let start = ranges[k].start;
                let end = ranges[k].end;
                let ch = char_at_cell(text.as_str(), start..end, cell);
                Some(SelPos { line, ch })
            },
            None => None,
        }
    }

    /// Remembers a press on output content, and clears any selection. Only a
    /// drag makes a selection of it.
    pub fn run_selection_arm(&mut self, pos: SelPos)
        ensures
            final(self)@ == old(self)@.selection_armed(pos),
    {
        let ghost before = self@;
        let task = self.run_display_task_id();
        if let Some(s) = &mut self.session {
            s.selection = None;
            s.pending_sel = Some(PendingSel { task, pos });
        }
        assert(self@ =~= before.selection_armed(pos));
    }

    /// Turns the remembered press into a selection that is being dragged. Does
    /// not where there is none, or where another task shows by now; the press
    /// is forgotten either way.
    pub fn run_selection_begin_from_pending(&mut self) -> (r: bool)
        ensures
            final(self)@ == old(self)@.selection_begun(),
            r == old(self)@.press_waits(),
    {
        let ghost before = self@;
        let task = self.run_display_task_id();
        if let Some(s) = &mut self.session {
            match s.pending_sel {
                Some(p) => {
                    s.pending_sel = None;
                    let fits = p.task == task;
                    if fits {
                        s.selection = Some(
                            OutputSelection { task, anchor: p.pos, head: p.pos, dragging: true },
                        );
                    }
                    assert(self@ =~= before.selection_begun());
                    fits
                },
                None => false,
            }
        } else {
            false
        }
    }

    /// Forgets the remembered press. Tells whether there was one.
    pub fn run_discard_pending_sel(&mut self) -> (r: bool)
        ensures
            final(self)@ == old(self)@.press_discarded(),
            r == (old(self)@.session is Some && (old(self)@.session->0).pending_sel is Some),
    {
        let ghost before = self@;
        if let Some(s) = &mut self.session {
            let had = s.pending_sel.is_some();
            s.pending_sel = None;
            assert(self@ =~= before.press_discarded());
            had
        } else {
            false
        }
    }

    /// Extends the selection that is being dragged.
    pub fn run_selection_drag(&mut self, pos: SelPos)
        ensures
            final(self)@ == old(self)@.selection_dragged(pos),
    {
        let ghost before = self@;
        if let Some(s) = &mut self.session {
            if let Some(sel) = s.selection {
                if sel.dragging {
                    let mut next = sel;
                    next.head = pos;
                    s.selection = Some(next);
                }
            }
        }
        assert(self@ =~= before.selection_dragged(pos));
    }

    /// Ends the drag. A selection that holds nothing is dropped.
    pub fn run_selection_end(&mut self)
        ensures
            final(self)@ == old(self)@.selection_ended(),
    {
        let ghost before = self@;
        if let Some(s) = &mut self.session {
            if let Some(sel) = s.selection {
                if sel.is_empty() {
                    s.selection = None;
                } else {
                    let mut next = sel;
                    next.dragging = false;
                    s.selection = Some(next);
                }
            }
        }
        assert(self@ =~= before.selection_ended());
    }

    /// Clears the selection and forgets any press.
    pub fn run_clear_selection(&mut self)
        ensures
            final(self)@ == old(self)@.selection_cleared(),
    {
        let ghost before = self@;
        if let Some(s) = &mut self.session {
            s.selection = None;
            s.pending_sel = None;
        }
        assert(self@ =~= before.selection_cleared());
    }

    /// The selected text without escape sequences, lines joined by newlines;
    /// none where nothing is selected in the shown output.
    pub fn run_selected_text(&self) -> (r: Option<String>)
        ensures
            crate::state::opt_text(r) == self@.selected_text(),
    {
        let sel = match &self.session {
            Some(s) => match s.selection {
                Some(sel) => sel,
                None => {
                    return None;
                },
            },
            None => {
                return None;
            },
        };
        if sel.is_empty() || sel.task != self.run_display_task_id() {
            return None;
        }
        let (a, b) = sel.ordered();
        match self.run_output_lines() {
            Some(lines) => {
                if a.line == b.line {
                    if a.line >= lines.len() {
                        return None;
                    }
                    assert(self@.shown_lines()[a.line as int] == lines@[a.line as int]@);
                    let cs = chars_of(strip_ansi(lines[a.line].as_str()).as_str());
                    let lo = if a.ch < cs.len() { a.ch } else { cs.len() };
                    let hi = if b.ch < cs.len() { b.ch } else { cs.len() };
                    return Some(string_of(copy_range(cs.as_slice(), lo, hi).as_slice()));
                }
                let parts = spanned_lines(lines, a, b);
                Some(join(&parts, "\n"))
            },
            None => {
                if a.line == b.line {
                    return None;
                }
                let none: Vec<String> = Vec::new();
                assert(texts(none@) =~= self@.shown_lines());
                let parts = spanned_lines(&none, a, b);
                Some(join(&parts, "\n"))
            },
        }
    }

    /// The whole shown output without escape sequences, lines joined by
    /// newlines; none where there is no line.
    pub fn run_all_output_text(&self) -> (r: Option<String>)
        ensures
            crate::state::opt_text(r) == self@.output_text(),
    {
        match self.run_output_lines() {
            Some(lines) => {
                if lines.len() == 0 {
                    return None;
                }
                let parts = stripped_lines(lines, 0, lines.len());
                Some(join(&parts, "\n"))
            },
            None => None,
        }
    }
}

fn stripped_lines(lines: &Vec<String>, lo: usize, hi: usize) -> (r: Vec<String>)
    requires
        hi <= lines@.len(),
    ensures
        texts(r@) == stripped_span(texts(lines@), lo as int, hi as int),
{
    broadcast use texts_push;

    let ghost all = texts(lines@);
    let mut out: Vec<String> = Vec::new();
    assert(texts(out@) =~= Seq::<Seq<char>>::empty());
    let mut i: usize = lo;
    while i < hi
        invariant
            hi <= lines@.len(),
            lo <= i,
            i <= hi || i == lo,
            all == texts(lines@),
            texts(out@) == stripped_span(all, lo as int, i as int),
        decreases hi - i,
    {
        assert(all[i as int] == lines@[i as int]@);
        out.push(strip_ansi(lines[i].as_str()));
        i += 1;
    }
    out
}

fn spanned_lines(lines: &Vec<String>, a: SelPos, b: SelPos) -> (r: Vec<String>)
    requires
        a.line < b.line,
    ensures
        texts(r@) == spanned_text(texts(lines@), a, b),
{
    let ghost all = texts(lines@);
    let ghost n = all.len() as int;
    let mut out: Vec<String> = Vec::new();
    assert(texts(out@) =~= Seq::<Seq<char>>::empty());
    if a.line < lines.len() {
        assert(all[a.line as int] == lines@[a.line as int]@);
        let cs = chars_of(strip_ansi(lines[a.line].as_str()).as_str());
        let lo = if a.ch < cs.len() { a.ch } else { cs.len() };
        assert(cs@.subrange(lo as int, cs@.len() as int) =~= cs@.skip(lo as int));
        out.push(string_of(copy_range(cs.as_slice(), lo, cs.len()).as_slice()));
    }
    let ghost first = texts(out@);
    let hi = if b.line < lines.len() { b.line } else { lines.len() };
    let mut middle = stripped_lines(lines, a.line + 1, hi);
    let ghost mid = texts(middle@);
    out.append(&mut middle);
    assert(texts(out@) =~= first + mid);
    if b.line < lines.len() {
        assert(all[b.line as int] == lines@[b.line as int]@);
        let cs = chars_of(strip_ansi(lines[b.line].as_str()).as_str());
        let end = if b.ch < cs.len() { b.ch } else { cs.len() };
        assert(cs@.subrange(0, end as int) =~= cs@.take(end as int));
        out.push(string_of(copy_range(cs.as_slice(), 0, end).as_slice()));
    }
    assert(texts(out@) =~= spanned_text(all, a, b));
    out
}

/// A press alone selects nothing: only a drag after it does. And a drag that
/// never moved leaves no selection behind.
pub proof fn a_click_selects_nothing(a: AppView, pos: SelPos)
    requires
        a.session is Some,
    ensures
        (a.selection_armed(pos).session->0).selection is None,
        (a.selection_armed(pos).session->0).pending_sel is Some,
        a.selection_armed(pos).press_discarded().selected_text() is None,
        a.selection_armed(pos).press_waits(),
        (a.selection_armed(pos).selection_begun().selection_ended().session->0).selection is None,
{
}

/// Scrolling never goes further up than there are rows above the pane.
pub proof fn scroll_stays_in_bounds(a: AppView, delta: int)
    requires
        a.session is Some,
        (a.session->0).output_scroll <= a.max_scroll(),
        a.max_scroll() <= usize::MAX,
    ensures
        (a.output_scrolled(delta).session->0).output_scroll <= a.max_scroll(),
        (a.scrolled_to_top().session->0).output_scroll == a.max_scroll(),
        a.scrolled_to_top().top_row() == 0,
        a.scrolled_to_bottom().top_row() == a.max_scroll(),
{
}

proof fn span_of_more(lines: Seq<Seq<char>>, more: Seq<Seq<char>>, lo: int, hi: int)
    requires
        0 <= lo,
        hi <= lines.len() <= more.len(),
        forall|i: int| 0 <= i < lines.len() ==> #[trigger] more[i] == lines[i],
    ensures
        stripped_span(more, lo, hi) == stripped_span(lines, lo, hi),
    decreases hi - lo,
{
    if lo < hi {
        span_of_more(lines, more, lo, hi - 1);
        assert(more[hi - 1] == lines[hi - 1]);
    }
}

/// A selection survives new output: where lines are only added to the shown
/// output, the selected text stays the same.
pub proof fn selection_survives_new_output(a: AppView, b: AppView)
    requires
        b.session == a.session,
        b.shown_id() == a.shown_id(),
        a.shown_lines().len() <= b.shown_lines().len(),
        forall|i: int|
            0 <= i < a.shown_lines().len() ==> #[trigger] b.shown_lines()[i] == a.shown_lines()[i],
        a.session is Some && (a.session->0).selection is Some ==> (
        (a.session->0).selection->0).ends().1.line < a.shown_lines().len(),
    ensures
        b.selected_text() == a.selected_text(),
{
    if a.session is Some && (a.session->0).selection is Some {
        let (x, y) = ((a.session->0).selection->0).ends();
        let lines = a.shown_lines();
        let more = b.shown_lines();
        assert(x.line <= y.line);
        assert(more[x.line as int] == lines[x.line as int]);
        assert(more[y.line as int] == lines[y.line as int]);
        span_of_more(lines, more, x.line + 1, y.line as int);
    }
}

} // verus!
