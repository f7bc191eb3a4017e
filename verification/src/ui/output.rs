//! Coloured task output: from escape sequences to styled spans, and cutting
//! spans by character ranges.

use crate::text::{
    chars_of, copy_range, is_text, pieces, split_chars, split_on, string_of, trim, trim_chars,
};
use crate::ui::style::{
    line, line_of, plain, span_views, span_views_push, styled, text_of, text_of_concat, text_of_one,
    Color, Line, Span, SpanView, Style,
};
use crate::util::{
    after_escape, letter_from, letter_from_bounds, next_letter, opens_at, stripped, stripped_from,
    ESC,
};
use std::ops::Range;
use vstd::prelude::*;

verus! {

/// What one part of a colour sequence asks for.
pub enum Sgr {
    Reset,
    Bold,
    Dim,
    Italic,
    Underlined,
    CrossedOut,
    Fg(Color),
    Bg(Color),
    Unknown,
}

/// The colour of a standard colour digit.
pub open spec fn base_color(d: Seq<char>) -> Option<Color> {
    if d == "0"@ {
        Some(Color::Black)
    } else if d == "1"@ {
        Some(Color::Red)
    } else if d == "2"@ {
        Some(Color::Green)
    } else if d == "3"@ {
        Some(Color::Yellow)
    } else if d == "4"@ {
        Some(Color::Blue)
    } else if d == "5"@ {
        Some(Color::Magenta)
    } else if d == "6"@ {
        Some(Color::Cyan)
    } else if d == "7"@ {
        Some(Color::White)
    } else {
        None
    }
}

/// The colour of a bright colour digit.
pub open spec fn bright_color(d: Seq<char>) -> Option<Color> {
    if d == "0"@ {
        Some(Color::DarkGray)
    } else if d == "1"@ {
        Some(Color::LightRed)
    } else if d == "2"@ {
        Some(Color::LightGreen)
    } else if d == "3"@ {
        Some(Color::LightYellow)
    } else if d == "4"@ {
        Some(Color::LightBlue)
    } else if d == "5"@ {
        Some(Color::LightMagenta)
    } else if d == "6"@ {
        Some(Color::LightCyan)
    } else if d == "7"@ {
        Some(Color::Gray)
    } else {
        None
    }
}

/// What the part `p` of a colour sequence asks for.
///
/// `0` or nothing resets; 1, 2, 3, 4 and 9 are attributes; 30 to 37 and 90 to
/// 97 are foregrounds; 40 to 47 and 100 to 107 are backgrounds; 39 and 49 give
/// back the terminal's own colours.
pub open spec fn sgr_of(p: Seq<char>) -> Sgr {
    if p.len() == 0 || p == "0"@ {
        Sgr::Reset
    } else if p == "1"@ {
        Sgr::Bold
    } else if p == "2"@ {
        Sgr::Dim
    } else if p == "3"@ {
        Sgr::Italic
    } else if p == "4"@ {
        Sgr::Underlined
    } else if p == "9"@ {
        Sgr::CrossedOut
    } else if p == "39"@ {
        Sgr::Fg(Color::Reset)
    } else if p == "49"@ {
        Sgr::Bg(Color::Reset)
    } else if p.len() == 2 && p[0] == '3' && base_color(p.skip(1)) is Some {
        Sgr::Fg(base_color(p.skip(1))->0)
    } else if p.len() == 2 && p[0] == '4' && base_color(p.skip(1)) is Some {
        Sgr::Bg(base_color(p.skip(1))->0)
    } else if p.len() == 2 && p[0] == '9' && bright_color(p.skip(1)) is Some {
        Sgr::Fg(bright_color(p.skip(1))->0)
    } else if p.len() == 3 && p[0] == '1' && p[1] == '0' && bright_color(p.skip(2)) is Some {
        Sgr::Bg(bright_color(p.skip(2))->0)
    } else {
        Sgr::Unknown
    }
}

/// `s` after `a`.
pub open spec fn with_sgr(s: Style, a: Sgr) -> Style {
    match a {
        Sgr::Reset => plain(),
        Sgr::Bold => s.with_bold(),
        Sgr::Dim => s.with_dim(),
        Sgr::Italic => s.with_italic(),
        Sgr::Underlined => s.with_underlined(),
        Sgr::CrossedOut => s.with_crossed_out(),
        Sgr::Fg(c) => s.with_fg(c),
        Sgr::Bg(c) => s.with_bg(c),
        Sgr::Unknown => s,
    }
}

/// `base` after every part of a colour sequence, in order.
pub open spec fn sgr_parts(parts: Seq<Seq<char>>, base: Style) -> Style
    decreases parts.len(),
{
    if parts.len() == 0 {
        base
    } else {
        with_sgr(sgr_parts(parts.drop_last(), base), sgr_of(trim(parts.last())))
    }
}

/// `base` after the colour sequence `seq`, such as `1;32`.
pub open spec fn sgr_style(seq: Seq<char>, base: Style) -> Style {
    sgr_parts(split_on(seq, ';'), base)
}

fn digit_color(c: char, bright: bool) -> (r: Option<Color>)
    ensures
        r == if bright {
            bright_color(seq![c])
        } else {
            base_color(seq![c])
        },
{
    let d: Vec<char> = vec![c];
    assert(d@ =~= seq![c]);
    let d = d.as_slice();
    if is_text(d, "0") {
        Some(if bright { Color::DarkGray } else { Color::Black })
    } else if is_text(d, "1") {
        Some(if bright { Color::LightRed } else { Color::Red })
    } else if is_text(d, "2") {
        Some(if bright { Color::LightGreen } else { Color::Green })
    } else if is_text(d, "3") {
        Some(if bright { Color::LightYellow } else { Color::Yellow })
    } else if is_text(d, "4") {
        Some(if bright { Color::LightBlue } else { Color::Blue })
    } else if is_text(d, "5") {
        Some(if bright { Color::LightMagenta } else { Color::Magenta })
    } else if is_text(d, "6") {
        Some(if bright { Color::LightCyan } else { Color::Cyan })
    } else if is_text(d, "7") {
        Some(if bright { Color::Gray } else { Color::White })
    } else {
        None
    }
}

fn apply_part(p: &[char], s: Style) -> (r: Style)
    ensures
        r == with_sgr(s, sgr_of(p@)),
{
    if p.len() == 0 || is_text(p, "0") {
        return Style::default();
    }
    if is_text(p, "1") {
        return s.bold();
    }
    if is_text(p, "2") {
        return s.dim();
    }
    if is_text(p, "3") {
        return s.italic();
    }
    if is_text(p, "4") {
        return s.underlined();
    }
    if is_text(p, "9") {
        return s.crossed_out();
    }
    if is_text(p, "39") {
        return s.fg(Color::Reset);
    }
    if is_text(p, "49") {
        return s.bg(Color::Reset);
    }
    if p.len() == 2 {
        let c = digit_color(p[1], false);
        let b = digit_color(p[1], true);
        assert(p@.skip(1) =~= seq![p@[1]]);
        if p[0] == '3' {
            if let Some(c) = c {
                return s.fg(c);
            }
        }
        if p[0] == '4' {
            if let Some(c) = c {
                return s.bg(c);
            }
        }
        if p[0] == '9' {
            if let Some(c) = b {
                return s.fg(c);
            }
        }
    }
    if p.len() == 3 && p[0] == '1' && p[1] == '0' {
        assert(p@.skip(2) =~= seq![p@[2]]);
        if let Some(c) = digit_color(p[2], true) {
            return s.bg(c);
        }
    }
    s
}

/// Applies one colour sequence (the part between `ESC [` and `m`) to a style.
/// Handles compound codes like `1;32`; codes it does not know change nothing.
pub fn apply_sgr(seq: &[char], base: Style) -> (r: Style)
    ensures
        r == sgr_style(seq@, base),
{
    let parts = split_chars(seq, ';');
    let ghost all = pieces(parts@);
    let mut style = base;
    let mut i: usize = 0;
    while i < parts.len()
        invariant
            i <= parts.len(),
            all == pieces(parts@),
            style == sgr_parts(all.take(i as int), base),
        decreases parts.len() - i,
    {
        assert(all.take(i + 1).drop_last() == all.take(i as int));
        assert(all[i as int] == parts@[i as int]@);
        let part = trim_chars(parts[i].as_slice());
        style = apply_part(part.as_slice(), style);
        i += 1;
    }
    assert(all.take(i as int) == all);
    style
}

/// The span that holds gathered text; none when there is no text.
pub open spec fn flushed(text: Seq<char>, style: Style) -> Seq<SpanView> {
    if text.len() == 0 {
        Seq::empty()
    } else {
        seq![styled(text, style)]
    }
}

/// Whether an escape sequence whose body starts at `i` is a colour sequence:
/// one that ends with `m`, or does not end at all.
pub open spec fn is_color_sequence(s: Seq<char>, i: int) -> bool {
    let k = letter_from(s, i);
    k >= s.len() || s[k] == 'm'
}

/// The spans of `s` from `i` on, with `text` gathered so far in `style`.
pub open spec fn ansi_from(s: Seq<char>, i: int, text: Seq<char>, style: Style) -> Seq<SpanView>
    decreases s.len() - i,
{
    if i < 0 || i >= s.len() {
        flushed(text, style)
    } else if opens_at(s, i) {
        proof {
            letter_from_bounds(s, i + 2);
        }
        let next = after_escape(s, i + 2);
        if is_color_sequence(s, i + 2) {
            flushed(text, style) + ansi_from(
                s,
                next,
                Seq::empty(),
                sgr_style(s.subrange(i + 2, letter_from(s, i + 2)), style),
            )
        } else {
            ansi_from(s, next, text, style)
        }
    } else {
        ansi_from(s, i + 1, text.push(s[i]), style)
    }
}

/// The styled spans of a line of task output.
pub open spec fn ansi_spans(s: Seq<char>) -> Seq<SpanView> {
    ansi_from(s, 0, Seq::empty(), plain())
}

/// Reads a line with colour sequences into styled spans. Sequences that set no
/// colour or attribute are dropped.
pub fn parse_ansi(s: &str) -> (r: Line)
    ensures
        r@ == line_of(ansi_spans(s@)),
{
    broadcast use span_views_push;

    let cs = chars_of(s);
    let ghost want = ansi_spans(s@);
    let mut spans: Vec<Span> = Vec::new();
    let mut style = Style::default();
    let mut text = String::new();
    let mut i: usize = 0;
    assert(span_views(spans@) + want == want);
    while i < cs.len()
        invariant
            i <= cs@.len(),
            cs@ == s@,
            want == ansi_spans(s@),
            span_views(spans@) + ansi_from(cs@, i as int, text@, style) == want,
        decreases cs@.len() - i,
    {
        let c = cs[i];
        if c == ESC && i + 1 < cs.len() && cs[i + 1] == '[' {
            let k = next_letter(cs.as_slice(), i + 2);
            let next = if k < cs.len() { k + 1 } else { k };
            if k >= cs.len() || cs[k] == 'm' {
                let ghost before = span_views(spans@);
                let ghost held = text@;
                let ghost drawn = style;
                if !text.as_str().is_empty() {
                    spans.push(Span::styled(text.as_str(), style));
                    text = String::new();
                }
                assert(span_views(spans@) =~= before + flushed(held, drawn));
                let body = copy_range(cs.as_slice(), i + 2, k);
                style = apply_sgr(body.as_slice(), style);
                assert(text@ =~= Seq::<char>::empty());
                let ghost rest = ansi_from(cs@, next as int, text@, style);
                assert(before + (flushed(held, drawn) + rest) =~= span_views(spans@) + rest);
            }
            i = next;
        } else {
            text.push(c);
            i += 1;
        }
    }
    let ghost before = span_views(spans@);
    if !text.as_str().is_empty() {
        spans.push(Span::styled(text.as_str(), style));
    }
    assert(span_views(spans@) =~= before + flushed(text@, style));
    line(spans)
}

/// The styled spans of a line hold exactly the text that is left when its
/// escape sequences are removed.
pub proof fn styled_and_stripped_text_agree(s: Seq<char>)
    ensures
        text_of(ansi_spans(s)) == stripped(s),
{
    styled_tail_agrees(s, 0, Seq::empty(), plain());
    assert(Seq::<char>::empty() + stripped(s) == stripped(s));
}

proof fn styled_tail_agrees(s: Seq<char>, i: int, text: Seq<char>, style: Style)
    requires
        0 <= i <= s.len(),
    ensures
        text_of(ansi_from(s, i, text, style)) == text + stripped_from(s, i),
    decreases s.len() - i,
{
    flushed_text(text, style);
    if i >= s.len() {
        assert(text + stripped_from(s, i) == text);
    } else if opens_at(s, i) {
        letter_from_bounds(s, i + 2);
        let next = after_escape(s, i + 2);
        if is_color_sequence(s, i + 2) {
            let new_style = sgr_style(s.subrange(i + 2, letter_from(s, i + 2)), style);
            styled_tail_agrees(s, next, Seq::empty(), new_style);
            text_of_concat(flushed(text, style), ansi_from(s, next, Seq::empty(), new_style));
            assert(Seq::<char>::empty() + stripped_from(s, next) == stripped_from(s, next));
        } else {
            styled_tail_agrees(s, next, text, style);
        }
    } else {
        styled_tail_agrees(s, i + 1, text.push(s[i]), style);
        assert(text.push(s[i]) + stripped_from(s, i + 1) == text + (seq![s[i]] + stripped_from(
            s,
            i + 1,
        )));
    }
}

proof fn flushed_text(text: Seq<char>, style: Style)
    ensures
        text_of(flushed(text, style)) == text,
{
    if text.len() == 0 {
        assert(text == Seq::<char>::empty());
    } else {
        text_of_one(styled(text, style));
    }
}

/// A selected range of characters.
pub open spec fn selection_of(sel: Option<Range<usize>>) -> Option<(int, int)> {
    match sel {
        Some(r) => Some((r.start as int, r.end as int)),
        None => None,
    }
}

/// The points at which the stretch from `lo` to `hi` is cut, so that each piece
/// lies wholly inside or wholly outside the selection.
pub open spec fn cuts(lo: int, hi: int, sel: Option<(int, int)>) -> Seq<int> {
    match sel {
        None => seq![lo, hi],
        Some((s, e)) => {
            let a = if s <= e {
                s
            } else {
                e
            };
            let b = if s <= e {
                e
            } else {
                s
            };
            seq![lo] + (if lo < a < hi {
                seq![a]
            } else {
                Seq::empty()
            }) + (if a != b && lo < b < hi {
                seq![b]
            } else {
                Seq::empty()
            }) + seq![hi]
        },
    }
}

/// The style of the piece from `a` to `b`: reversed inside the selection.
pub open spec fn piece_style(style: Style, a: int, b: int, sel: Option<(int, int)>) -> Style {
    match sel {
        Some((s, e)) => if s <= a && b <= e {
            style.with_reversed()
        } else {
            style
        },
        None => style,
    }
}

/// The pieces of one span that starts at character `at`, cut at the first `n`
/// gaps between `points`.
pub open spec fn span_pieces(
    span: SpanView,
    at: int,
    points: Seq<int>,
    n: int,
    sel: Option<(int, int)>,
) -> Seq<SpanView>
    decreases n,
{
    if n <= 0 {
        Seq::empty()
    } else {
        let a = points[n - 1];
        let b = points[n];
        span_pieces(span, at, points, n - 1, sel).push(
            styled(span.content.subrange(a - at, b - at), piece_style(span.style, a, b, sel)),
        )
    }
}

/// The part of a span that starts at character `at` which lies in the range
/// from `start` to `end`.
pub open spec fn span_slice(
    span: SpanView,
    at: int,
    start: int,
    end: int,
    sel: Option<(int, int)>,
) -> Seq<SpanView> {
    let lo = if start > at {
        start
    } else {
        at
    };
    let hi = if end < at + span.content.len() {
        end
    } else {
        at + span.content.len()
    };
    if lo >= hi {
        Seq::empty()
    } else {
        let points = cuts(lo, hi, sel);
        span_pieces(span, at, points, points.len() - 1, sel)
    }
}

/// The spans that cover the characters from `start` to `end`.
pub open spec fn sliced(
    spans: Seq<SpanView>,
    start: int,
    end: int,
    sel: Option<(int, int)>,
) -> Seq<SpanView>
    decreases spans.len(),
{
    if spans.len() == 0 {
        Seq::empty()
    } else {
        let before = spans.drop_last();
        sliced(before, start, end, sel) + span_slice(
            spans.last(),
            text_of(before).len() as int,
            start,
            end,
            sel,
        )
    }
}

fn cut_points(lo: usize, hi: usize, sel: &Option<Range<usize>>) -> (r: Vec<usize>)
    requires
        lo < hi,
    ensures
        r@.map_values(|p: usize| p as int) == cuts(lo as int, hi as int, selection_of(*sel)),
        r@.len() >= 2,
        forall|i: int| 0 <= i < r@.len() ==> lo <= #[trigger] r@[i] <= hi,
        forall|i: int, j: int| 0 <= i < j < r@.len() ==> r@[i] < r@[j],
{
    let mut points: Vec<usize> = Vec::new();
    points.push(lo);
    if let Some(sel) = sel {
        let (a, b) = if sel.start <= sel.end {
            (sel.start, sel.end)
        } else {
            (sel.end, sel.start)
        };
        if lo < a && a < hi {
            points.push(a);
        }
        if a != b && lo < b && b < hi {
            points.push(b);
        }
    }
    points.push(hi);
    assert(points@.map_values(|p: usize| p as int) =~= cuts(
        lo as int,
        hi as int,
        selection_of(*sel),
    ));
    points
}

/// The part of `line` that covers the characters of `range`, with the part that
/// `sel` covers drawn reversed. Both ranges count the characters of the line's
/// text.
pub fn slice_spans(line: &Line, range: Range<usize>, sel: Option<Range<usize>>) -> (r: Line)
    requires
        text_of(line@.spans).len() <= usize::MAX,
    ensures
        r@ == line_of(
            sliced(line@.spans, range.start as int, range.end as int, selection_of(sel)),
        ),
{
    broadcast use span_views_push;

    let ghost all = line@.spans;
    let ghost chosen = selection_of(sel);
    let mut out: Vec<Span> = Vec::new();
    let mut offset: usize = 0;
    let mut i: usize = 0;
    while i < line.spans.len()
        invariant
            i <= line.spans@.len(),
            all == line@.spans,
            chosen == selection_of(sel),
            text_of(all).len() <= usize::MAX,
            offset == text_of(all.take(i as int)).len(),
            span_views(out@) == sliced(
                all.take(i as int),
                range.start as int,
                range.end as int,
                chosen,
            ),
        decreases line.spans@.len() - i,
    {
        let span = &line.spans[i];
        assert(all[i as int] == span@);
        assert(all.take(i + 1).drop_last() == all.take(i as int));
        proof {
            text_prefix_is_no_longer(all, i + 1);
        }
        let chars = chars_of(span.content.as_str());
        let start: usize = offset;
        let end: usize = start + chars.len();
        offset = end;
        let ghost kept = span_views(out@);
        let lo: usize = if range.start > start { range.start } else { start };
        let hi: usize = if range.end < end { range.end } else { end };
        if lo < hi {
            let points = cut_points(lo, hi, &sel);
            let ghost marks = points@.map_values(|p: usize| p as int);
            let mut k: usize = 0;
            assert(kept + Seq::<SpanView>::empty() == kept);
            while k + 1 < points.len()
                invariant
                    k + 1 <= points.len(),
                    points.len() >= 2,
                    marks == points@.map_values(|p: usize| p as int),
                    start <= lo < hi <= end,
                    end == start + chars@.len(),
                    chars@ == span@.content,
                    span == line.spans@[i as int],
                    chosen == selection_of(sel),
                    forall|j: int| 0 <= j < points@.len() ==> lo <= #[trigger] points@[j] <= hi,
                    forall|p: int, q: int| 0 <= p < q < points@.len() ==> points@[p] < points@[q],
                    span_views(out@) == kept + span_pieces(
                        span@,
                        start as int,
                        marks,
                        k as int,
                        chosen,
                    ),
                decreases points.len() - k,
            {
                let a: usize = points[k];
                let b: usize = points[k + 1];
                assert(marks[k as int] == a && marks[k + 1] == b);
                let text = string_of(copy_range(chars.as_slice(), a - start, b - start).as_slice());
                let mut style = span.style;
                if let Some(s) = &sel {
                    if a >= s.start && b <= s.end {
                        style = style.reversed();
                    }
                }
                let ghost had = span_pieces(span@, start as int, marks, k as int, chosen);
                let piece = Span { content: text, style };
                out.push(piece);
                assert((kept + had).push(piece@) =~= kept + had.push(piece@));
                k += 1;
            }
        } else {
            assert(kept + Seq::<SpanView>::empty() == kept);
        }
        i += 1;
    }
    assert(all.take(i as int) == all);
    crate::ui::style::line(out)
}

proof fn text_prefix_is_no_longer(spans: Seq<SpanView>, n: int)
    requires
        0 <= n <= spans.len(),
    ensures
        text_of(spans.take(n)).len() <= text_of(spans).len(),
    decreases spans.len() - n,
{
    if n < spans.len() {
        text_prefix_is_no_longer(spans, n + 1);
        assert(spans.take(n + 1).drop_last() == spans.take(n));
    } else {
        assert(spans.take(n) == spans);
    }
}

/// Cutting a line shows exactly the characters of the range, whatever is
/// selected.
pub proof fn slice_shows_the_range(
    spans: Seq<SpanView>,
    start: int,
    end: int,
    sel: Option<(int, int)>,
)
    requires
        0 <= start <= end <= text_of(spans).len(),
    ensures
        text_of(sliced(spans, start, end, sel)) == text_of(spans).subrange(start, end),
    decreases spans.len(),
{
    let total = text_of(spans);
    if spans.len() == 0 {
        assert(total.subrange(start, end) == Seq::<char>::empty());
    } else {
        let before = spans.drop_last();
        let at = text_of(before).len() as int;
        let span = spans.last();
        let part = span_slice(span, at, start, end, sel);
        let start1 = if start <= at {
            start
        } else {
            at
        };
        let end1 = if end <= at {
            end
        } else {
            at
        };
        slice_shows_the_range(before, start1, end1, sel);
        slice_stops_at_the_text(before, start, end, sel);
        text_of_concat(sliced(before, start, end, sel), part);
        slice_of_one_span(span, at, start, end, sel);
        assert(total == text_of(before) + span.content);
        let tail = if start <= at {
            if end <= at {
                Seq::empty()
            } else {
                span.content.subrange(0, end - at)
            }
        } else {
            span.content.subrange(start - at, end - at)
        };
        assert(text_of(part) == tail);
        assert(text_of(before).subrange(start1, end1) + tail =~= total.subrange(start, end));
    }
}

proof fn slice_of_one_span(span: SpanView, at: int, start: int, end: int, sel: Option<(int, int)>)
    requires
        0 <= at,
        0 <= start <= end <= at + span.content.len(),
    ensures
        text_of(span_slice(span, at, start, end, sel)) == (if start <= at {
            if end <= at {
                Seq::empty()
            } else {
                span.content.subrange(0, end - at)
            }
        } else {
            span.content.subrange(start - at, end - at)
        }),
{
    let lo = if start > at {
        start
    } else {
        at
    };
    if lo < end {
        let points = cuts(lo, end, sel);
        cuts_are_in_order(lo, end, sel);
        pieces_show_their_stretch(span, at, points, points.len() - 1, sel);
    } else if start > at {
        assert(span.content.subrange(start - at, end - at) == Seq::<char>::empty());
    }
}

proof fn cuts_are_in_order(lo: int, hi: int, sel: Option<(int, int)>)
    requires
        lo < hi,
    ensures
        cuts(lo, hi, sel).len() >= 2,
        cuts(lo, hi, sel)[0] == lo,
        cuts(lo, hi, sel).last() == hi,
        forall|i: int, j: int|
            0 <= i < j < cuts(lo, hi, sel).len() ==> cuts(lo, hi, sel)[i] < cuts(lo, hi, sel)[j],
{
}

/// A range that runs past the text is cut off at its end, and one that starts
/// past it is empty.
pub proof fn slice_stops_at_the_text(
    spans: Seq<SpanView>,
    start: int,
    end: int,
    sel: Option<(int, int)>,
)
    requires
        0 <= start <= end,
    ensures
        ({
            let n = text_of(spans).len() as int;
            sliced(spans, start, end, sel) == sliced(
                spans,
                if start <= n {
                    start
                } else {
                    n
                },
                if end <= n {
                    end
                } else {
                    n
                },
                sel,
            )
        }),
    decreases spans.len(),
{
    if spans.len() > 0 {
        let before = spans.drop_last();
        let n = text_of(spans).len() as int;
        let m = text_of(before).len() as int;
        let s1 = if start <= n {
            start
        } else {
            n
        };
        let e1 = if end <= n {
            end
        } else {
            n
        };
        slice_stops_at_the_text(before, start, end, sel);
        slice_stops_at_the_text(before, s1, e1, sel);
    }
}

proof fn pieces_show_their_stretch(
    span: SpanView,
    at: int,
    points: Seq<int>,
    n: int,
    sel: Option<(int, int)>,
)
    requires
        0 <= n < points.len(),
        at <= points[0],
        forall|i: int, j: int| 0 <= i < j < points.len() ==> points[i] < points[j],
        points.last() <= at + span.content.len(),
    ensures
        text_of(span_pieces(span, at, points, n, sel)) == span.content.subrange(
            points[0] - at,
            points[n] - at,
        ),
    decreases n,
{
    let out = span_pieces(span, at, points, n, sel);
    if n > 0 {
        pieces_show_their_stretch(span, at, points, n - 1, sel);
        assert(out.drop_last() == span_pieces(span, at, points, n - 1, sel));
        assert(points[n - 1] < points[n]);
        assert(0 < n - 1 ==> points[0] < points[n - 1]);
        assert(n < points.len() - 1 ==> points[n] < points[points.len() - 1]);
        assert(text_of(out) =~= span.content.subrange(points[0] - at, points[n] - at));
    } else {
        assert(span.content.subrange(points[0] - at, points[0] - at) == Seq::<char>::empty());
    }
}

} // verus!
