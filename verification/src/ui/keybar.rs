//! The single-line bar of key hints at the bottom of the screens.

use crate::text::chars_of;
use crate::ui::theme;
use crate::ui::layout::Rect;
use crate::ui::style::{
    line, line_of, raw, span_views, span_views_push, styled, Line, Span, SpanView,
};
use crate::ui::theme::{in_color, key_hint_of, MUTED};
use vstd::prelude::*;

verus! {

/// The texts of hints.
pub open spec fn hint_views(hints: Seq<(&str, &str)>) -> Seq<(Seq<char>, Seq<char>)> {
    hints.map_values(|h: (&str, &str)| (h.0@, h.1@))
}

/// The cells of the `i`-th hint: the gap before it, the key, a blank, the label.
pub open spec fn hint_cells(hints: Seq<(Seq<char>, Seq<char>)>, i: int) -> int {
    (if i == 0 {
        0int
    } else {
        2
    }) + hints[i].0.len() + 1 + hints[i].1.len()
}

/// Whether the `i`-th hint fits behind `used` cells of `max`, with a cell kept
/// for the ellipsis where more hints follow.
pub open spec fn hint_fits(hints: Seq<(Seq<char>, Seq<char>)>, i: int, used: int, max: int) -> bool {
    used + hint_cells(hints, i) + (if i + 1 < hints.len() {
        1int
    } else {
        0
    }) <= max
}

/// What separates the `i`-th hint from the one before it.
pub open spec fn hint_gap(i: int) -> Seq<SpanView> {
    if i == 0 {
        Seq::empty()
    } else {
        seq![raw("  "@)]
    }
}

/// The spans of the hints from the `i`-th on, behind `used` cells of `max`: as
/// many as fit, then an ellipsis if one did not.
pub open spec fn hints_from(
    hints: Seq<(Seq<char>, Seq<char>)>,
    i: int,
    used: int,
    max: int,
) -> Seq<SpanView>
    decreases hints.len() - i,
{
    if i < 0 || i >= hints.len() {
        Seq::empty()
    } else if hint_fits(hints, i, used, max) {
        hint_gap(i) + key_hint_of(hints[i].0, hints[i].1) + hints_from(
            hints,
            i + 1,
            used + hint_cells(hints, i),
            max,
        )
    } else {
        seq![styled("…"@, in_color(MUTED))]
    }
}

/// The line of a bar of `(key, label)` hints for `area`; none where the area
/// has no row. What does not fit is dropped and an ellipsis appended.
pub fn render_keybar(area: Rect, hints: &[(&str, &str)]) -> (r: Option<Line>)
    ensures
        match r {
            Some(l) => area.height > 0 && l@ == line_of(
                hints_from(hint_views(hints@), 0, 0, area.width as int),
            ),
            None => area.height == 0,
        },
{
    broadcast use span_views_push;

    if area.height == 0 {
        return None;
    }
    let max: usize = area.width as usize;
    let ghost all = hint_views(hints@);
    let ghost want = hints_from(all, 0, 0, max as int);
    let mut spans: Vec<Span> = Vec::new();
    let mut width: usize = 0;
    let mut i: usize = 0;
    assert(span_views(spans@) + want == want);
    while i < hints.len()
        invariant
            area.height > 0,
            i <= hints.len(),
            width <= max,
            max == area.width,
            all == hint_views(hints@),
            want == hints_from(all, 0, 0, max as int),
            span_views(spans@) + hints_from(all, i as int, width as int, max as int) == want,
        decreases hints.len() - i,
    {
        let key = hints[i].0;
        let label = hints[i].1;
        assert(all[i as int] == (key@, label@));
        let key_len: usize = chars_of(key).len();
        let label_len: usize = chars_of(label).len();
        let sep: usize = if i == 0 {
            0
        } else {
            2
        };
        let reserve: usize = if i + 1 < hints.len() {
            1
        } else {
            0
        };
        let ghost before = span_views(spans@);
        let ghost rest = hints_from(all, i + 1, width + hint_cells(all, i as int), max as int);
        if key_len > max || label_len > max || width + sep + key_len + 1 + label_len + reserve
            > max {
            spans.push(Span::styled("…", theme::dim()));
            assert(span_views(spans@) =~= before + seq![styled("…"@, in_color(MUTED))]);
            return Some(line(spans));
        }
        if sep > 0 {
            spans.push(Span::raw("  "));
        }
        let ghost mid = span_views(spans@);
        assert(mid =~= before + hint_gap(i as int));
        let mut hint = theme::key_hint(key, label);
        let ghost pair = span_views(hint@);
        spans.append(&mut hint);
        assert(span_views(spans@) =~= mid + pair);
        width = width + sep + key_len + 1 + label_len;
        assert(span_views(spans@) + rest =~= before + (hint_gap(i as int) + pair + rest));
        i += 1;
    }
    assert(span_views(spans@) + Seq::<SpanView>::empty() == span_views(spans@));
    Some(line(spans))
}

} // verus!
