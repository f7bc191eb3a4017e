//! What is copied out of the output, and how the output is scrolled.

use crate::app::model::AppView;
use crate::app::pane::{spanned_text, stripped_span};
use crate::app::selection::{OutputSelection, SelPos};
use crate::app::types::SessionView;
use crate::text::split_on;
use crate::text_laws::{joined_texts_can_be_cut, lacks};
use crate::util::stripped;
use vstd::prelude::*;

verus! {

proof fn span_is(lines: Seq<Seq<char>>, lo: int, hi: int)
    requires
        0 <= lo <= hi <= lines.len(),
    ensures
        stripped_span(lines, lo, hi).len() == hi - lo,
        forall|k: int|
            0 <= k < hi - lo ==> #[trigger] stripped_span(lines, lo, hi)[k] == stripped(lines[lo + k]),
    decreases hi - lo,
{
    if lo < hi {
        span_is(lines, lo, hi - 1);
    }
}

/// What is selected over several lines: the first line from where the selection
/// begins, the lines between whole, and the last line up to where it ends.
pub proof fn a_selection_spans_whole_lines(lines: Seq<Seq<char>>, a: SelPos, b: SelPos, k: int)
    requires
        a.line < b.line < lines.len(),
        a.ch <= stripped(lines[a.line as int]).len(),
        b.ch <= stripped(lines[b.line as int]).len(),
    ensures
        ({
            let v = spanned_text(lines, a, b);
            &&& v.len() == b.line - a.line + 1
            &&& v[0] == stripped(lines[a.line as int]).skip(a.ch as int)
            &&& v.last() == stripped(lines[b.line as int]).take(b.ch as int)
            &&& 0 < k < b.line - a.line ==> v[k] == stripped(lines[a.line + k])
        }),
{
    span_is(lines, a.line + 1, b.line as int);
}

/// Where a selection begins and ends does not depend on the direction in which
/// it was dragged: it begins with the position that comes first in the output.
pub proof fn a_selection_has_no_direction(a: AppView, sel: OutputSelection)
    requires
        a.session is Some,
        (a.session->0).selection == Some(sel),
    ensures
        ({
            let back = OutputSelection { anchor: sel.head, head: sel.anchor, ..sel };
            let b = a.with_session(SessionView { selection: Some(back), ..a.session->0 });
            b.shown_id() == a.shown_id() && b.shown_lines() == a.shown_lines() ==> b.selected_text()
                == a.selected_text()
        }),
        sel.anchor.line < sel.head.line ==> sel.ends() == (sel.anchor, sel.head),
        sel.anchor.line > sel.head.line ==> sel.ends() == (sel.head, sel.anchor),
        sel.anchor.line == sel.head.line && sel.anchor.ch < sel.head.ch ==> sel.ends() == (
            sel.anchor,
            sel.head,
        ),
        sel.anchor.line == sel.head.line && sel.anchor.ch > sel.head.ch ==> sel.ends() == (
            sel.head,
            sel.anchor,
        ),
{
    let back = OutputSelection { anchor: sel.head, head: sel.anchor, ..sel };
    if sel.anchor != sel.head {
        assert(back.ends() == sel.ends());
    }
}

/// What is selected within one line is the text between the two ends.
pub proof fn a_selection_in_one_line(a: AppView, sel: OutputSelection, line: usize, from: usize, to: usize)
    requires
        a.session is Some,
        (a.session->0).selection == Some(sel),
        sel.task == a.shown_id(),
        line < a.shown_lines().len(),
        from < to <= stripped(a.shown_lines()[line as int]).len(),
        sel.anchor == (SelPos { line, ch: from }),
        sel.head == (SelPos { line, ch: to }),
    ensures
        a.selected_text() == Some(
            stripped(a.shown_lines()[line as int]).subrange(from as int, to as int),
        ),
{
}

/// What is copied of the whole output are all of its lines, in order, without
/// their escape sequences.
pub proof fn the_whole_output_is_copied(a: AppView, k: int)
    requires
        0 <= k < a.shown_lines().len(),
        forall|i: int|
            0 <= i < a.shown_lines().len() ==> lacks(stripped(#[trigger] a.shown_lines()[i]), '\n'),
    ensures
        a.output_text() is Some,
        split_on(a.output_text()->0, '\n').len() == a.shown_lines().len(),
        split_on(a.output_text()->0, '\n')[k] == stripped(a.shown_lines()[k]),
{
    let lines = a.shown_lines();
    let v = stripped_span(lines, 0, lines.len() as int);
    span_is(lines, 0, lines.len() as int);
    assert forall|i: int| 0 <= i < v.len() implies lacks(#[trigger] v[i], '\n') by {
        assert(v[i] == stripped(lines[i]));
    }
    reveal_strlit("\n");
    assert("\n"@ =~= seq!['\n']);
    joined_texts_can_be_cut(v, "\n"@, '\n');
}

/// Scrolling up by some rows shows what is that many rows further up, as far as
/// there are rows; scrolling down by as many shows the same again.
pub proof fn scrolling_moves_by_rows(a: AppView, n: int)
    requires
        a.session is Some,
        n > 0,
        (a.session->0).output_scroll + n <= a.layout.rows() - a.viewport.output,
        a.layout.rows() <= usize::MAX,
        a.output_scrolled(n).layout.rows() == a.layout.rows(),
    ensures
        a.output_scrolled(n).top_row() == a.top_row() - n,
        (a.output_scrolled(n).session->0).output_scroll == (a.session->0).output_scroll + n,
        a.output_scrolled(n).output_scrolled(-n) == a,
        a.top_row() + a.viewport.output + (a.session->0).output_scroll == a.layout.rows(),
{
    assert(a.output_scrolled(n).output_scrolled(-n).session->0 =~= a.session->0);
    assert(a.output_scrolled(n).output_scrolled(-n) =~= a);
}

/// A drag selects from where the press was to where the pointer is, and keeps
/// selected what it has when it ends.
pub proof fn a_drag_selects_from_press_to_pointer(a: AppView, p: SelPos, q: SelPos)
    requires
        a.session is Some,
        p != q,
    ensures
        ({
            let armed = a.selection_armed(p);
            let begun = armed.selection_begun();
            let dragged = begun.selection_dragged(q);
            let s = dragged.session->0;
            let ended = dragged.selection_ended().session->0;
            armed.shown_id() == a.shown_id() ==> {
                &&& s.selection is Some
                &&& (s.selection->0).anchor == p
                &&& (s.selection->0).head == q
                &&& (s.selection->0).dragging
                &&& (s.selection->0).task == a.shown_id()
                &&& ended.selection is Some
                &&& (ended.selection->0).anchor == p && (ended.selection->0).head == q
                &&& !(ended.selection->0).dragging
            }
        }),
{
}

} // verus!
