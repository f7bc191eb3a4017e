//! What is made of texts on their way to the terminal: JSON, hints, help, wrapped
//! lines, and the clipboard.

use crate::text::{holds, is_white_space, stands_at, trim_end_of, trim_start};
use crate::text_laws::{is_blank, lacks};
use crate::ui::clipboard::{b64_bytes, b64_round_trip, b64_text, cut_before, doubled, osc52_text};
use crate::ui::frame::padded;
use crate::ui::help::{column_width, help_rows, narrow_row, wide_row};
use crate::ui::json::{after_key, is_bracket, json_line, quote_end, string_end};
use crate::ui::keybar::{hint_cells, hints_from};
use crate::ui::popup_laws::line_text;
use crate::ui::show_laws::a_span_is_read;
use crate::ui::style::{text_of, text_of_concat, text_of_one, LineView, SpanView};
use crate::ui::wrap::{
    after_break, after_cluster, after_clusters, after_parts, after_spans, wrapped_line, Wrapped,
    Wrapping,
};
use crate::util::ESC;
use vstd::prelude::*;
use vstd::utf8::is_char_boundary;

verus! {

proof fn leading_blanks_go(pad: Seq<char>, s: Seq<char>)
    requires
        is_blank(pad),
        s.len() > 0,
        !is_white_space(s[0]),
    ensures
        trim_start(pad + s) == s,
    decreases pad.len(),
{
    if pad.len() == 0 {
        assert(pad + s =~= s);
    } else {
        assert((pad + s)[0] == pad[0]);
        assert(is_white_space(pad[0]));
        let rest = pad.skip(1);
        assert forall|i: int| 0 <= i < rest.len() implies is_white_space(#[trigger] rest[i]) by {
            assert(rest[i] == pad[i + 1]);
        }
        assert((pad + s).skip(1) =~= rest + s);
        leading_blanks_go(rest, s);
    }
}

proof fn the_quote_is_found(s: Seq<char>, i: int, k: int)
    requires
        0 <= i <= k < s.len(),
        s[k] == '"',
        forall|j: int| i <= j < k ==> (#[trigger] s[j]) != '"' && s[j] != '\\',
    ensures
        quote_end(s, i) == Some(k + 1),
    decreases k - i,
{
    if i < k {
        assert(s[i] != '"' && s[i] != '\\');
        the_quote_is_found(s, i + 1, k);
    }
}

/// A line of printed JSON with a key and a value is shown as it is, with the key
/// and the value told apart.
#[verifier::rlimit(40)]
pub proof fn keys_and_values_are_told_apart(
    indent: Seq<char>,
    key: Seq<char>,
    value: Seq<char>,
    more: bool,
)
    requires
        is_blank(indent),
        lacks(key, '"'),
        lacks(key, '\\'),
        value.len() > 0,
        !is_white_space(value[0]),
        value.last() != ',',
    ensures
        ({
            let quoted = seq!['"'] + key + seq!['"'];
            let end = if more { seq![','] } else { Seq::empty() };
            let line = indent + (quoted + (seq![':', ' '] + (value + end)));
            let l = json_line(line);
            &&& l.spans.len() == 5
            &&& l.spans[1].content == quoted
            &&& l.spans[3].content == value
            &&& line_text(l) == line
        }),
{
    reveal_strlit(": ");
    reveal_strlit(",");
    reveal_strlit("");
    let quoted = seq!['"'] + key + seq!['"'];
    let end = if more { seq![','] } else { Seq::<char>::empty() };
    let tail = value + end;
    let t = quoted + (seq![':', ' '] + tail);
    let line = indent + t;
    let k = key.len() + 2;
    assert(t[0] == '"');
    leading_blanks_go(indent, t);
    assert(line.take(line.len() - t.len()) =~= indent);
    assert(t[k - 1] == '"');
    assert forall|j: int| 1 <= j < k - 1 implies (#[trigger] t[j]) != '"' && t[j] != '\\' by {
        assert(t[j] == key[j - 1]);
    }
    the_quote_is_found(t, 1, k - 1);
    assert(string_end(t, 0) == Some(k as int));
    assert(t.take(k as int) =~= quoted);
    let rest = t.skip(k as int);
    assert(rest =~= seq![':', ' '] + tail);
    assert(rest[0] == ':');
    assert(trim_start(rest) == rest);
    let behind = rest.skip(1);
    assert(behind =~= seq![' '] + tail);
    assert(tail[0] == value[0]);
    assert(is_blank(seq![' ']));
    leading_blanks_go(seq![' '], tail);
    assert(after_key(t) == Some((quoted, tail)));
    if more {
        assert(tail.drop_last() =~= value);
        assert(trim_end_of(value, ',') == value);
        assert(trim_end_of(tail, ',') == value);
    } else {
        assert(tail =~= value);
        assert(trim_end_of(tail, ',') == value);
    }
    no_bracket(t);
    let l = json_line(line);
    assert(crate::ui::json::comma_of(tail) =~= end);
    five(l.spans);
    assert(": "@ =~= seq![':', ' ']);
    assert(line_text(l) =~= line);
}

proof fn no_bracket(t: Seq<char>)
    requires
        t.len() > 1,
        t[0] == '"',
    ensures
        !is_bracket(trim_end_of(t, ',')),
    decreases t.len(),
{
    reveal_strlit("{");
    reveal_strlit("[");
    reveal_strlit("}");
    reveal_strlit("]");
    assert("{"@[0] == '{' && "["@[0] == '[' && "}"@[0] == '}' && "]"@[0] == ']');
    if t.last() == ',' {
        let f = t.drop_last();
        assert(f[0] == '"');
        if f.len() > 1 {
            no_bracket(f);
        } else {
            assert(f.last() == '"');
            assert(trim_end_of(f, ',') == f);
        }
        assert(trim_end_of(t, ',') == trim_end_of(f, ','));
    }
}

proof fn five(v: Seq<SpanView>)
    requires
        v.len() == 5,
    ensures
        text_of(v) == v[0].content + v[1].content + v[2].content + v[3].content + v[4].content,
{
    let a = v.take(1);
    let b = v.take(2);
    let c = v.take(3);
    let d = v.take(4);
    assert(v.drop_last() =~= d);
    assert(d.drop_last() =~= c);
    assert(c.drop_last() =~= b);
    assert(b.drop_last() =~= a);
    assert(a =~= seq![v[0]]);
    text_of_one(v[0]);
    assert(text_of(b) == text_of(a) + v[1].content);
    assert(text_of(c) == text_of(b) + v[2].content);
    assert(text_of(d) == text_of(c) + v[3].content);
    assert(text_of(v) == text_of(d) + v[4].content);
}

/// What a terminal is sent to set its clipboard carries the text: decoded, it is
/// the text's bytes again. Passed through tmux, every escape character of the
/// sequence is doubled, and nothing else is changed.
#[verifier::rlimit(40)]
pub proof fn the_clipboard_gets_the_text(bytes: Seq<u8>, a: Seq<char>, b: Seq<char>)
    ensures
        ({
            let s = osc52_text(bytes, false);
            let n = s.len() as int;
            &&& s.take(7) == seq![ESC, ']', '5', '2', ';', 'c', ';']
            &&& s.last() == '\u{7}'
            &&& b64_bytes(s.subrange(7, n - 1)) == bytes
        }),
        osc52_text(bytes, true) == seq![ESC, 'P', 't', 'm', 'u', 'x', ';'] + doubled(
            osc52_text(bytes, false),
        ) + seq![ESC, '\\'],
        lacks(a, ESC) ==> doubled(a) == a,
        doubled(a.push(ESC) + b) == doubled(a) + seq![ESC, ESC] + doubled(b),
{
    let s = osc52_text(bytes, false);
    let n = s.len() as int;
    b64_round_trip(bytes);
    assert(s.take(7) =~= seq![ESC, ']', '5', '2', ';', 'c', ';']);
    assert(s.subrange(7, n - 1) =~= b64_text(bytes));
    doubling_goes_on(a.push(ESC), b);
    assert(a.push(ESC).drop_last() =~= a);
    assert(doubled(a.push(ESC)) =~= doubled(a) + seq![ESC, ESC]);
    if lacks(a, ESC) {
        plain_is_not_doubled(a);
    }
}

proof fn doubling_goes_on(a: Seq<char>, b: Seq<char>)
    ensures
        doubled(a + b) == doubled(a) + doubled(b),
    decreases b.len(),
{
    if b.len() == 0 {
        assert(a + b =~= a);
        assert(doubled(a) + doubled(b) =~= doubled(a));
    } else {
        doubling_goes_on(a, b.drop_last());
        assert((a + b).drop_last() =~= a + b.drop_last());
        assert((a + b).last() == b.last());
        assert(doubled(a + b) =~= doubled(a) + doubled(b));
    }
}

proof fn plain_is_not_doubled(a: Seq<char>)
    requires
        lacks(a, ESC),
    ensures
        doubled(a) == a,
    decreases a.len(),
{
    if a.len() > 0 {
        let f = a.drop_last();
        assert forall|i: int| 0 <= i < f.len() implies (#[trigger] f[i]) != ESC by {
            assert(f[i] == a[i]);
        }
        assert(a[a.len() - 1] != ESC);
        plain_is_not_doubled(f);
        assert(f.push(a.last()) =~= a);
    }
}

/// A text is cut at the last place that does not split a character.
pub proof fn a_cut_is_as_late_as_it_can_be(b: Seq<u8>, max: int)
    requires
        0 <= max,
    ensures
        0 <= cut_before(b, max) <= max,
        cut_before(b, max) > 0 ==> is_char_boundary(b, cut_before(b, max)),
        forall|i: int| cut_before(b, max) < i <= max ==> !is_char_boundary(b, i),
    decreases max,
{
    if max > 0 && !is_char_boundary(b, max) {
        a_cut_is_as_late_as_it_can_be(b, max - 1);
    }
}

/// The cells that hints take all together.
pub open spec fn all_hint_cells(hints: Seq<(Seq<char>, Seq<char>)>, n: int) -> int
    decreases n,
{
    if n <= 0 {
        0
    } else {
        all_hint_cells(hints, n - 1) + hint_cells(hints, n - 1)
    }
}

/// A bar that has the room shows every hint, its key and its label.
pub proof fn every_hint_is_shown_where_there_is_room(
    hints: Seq<(Seq<char>, Seq<char>)>,
    k: int,
    max: int,
)
    requires
        0 <= k < hints.len(),
        all_hint_cells(hints, hints.len() as int) <= max,
    ensures
        holds(text_of(hints_from(hints, 0, 0, max)), hints[k].0),
        holds(text_of(hints_from(hints, 0, 0, max)), hints[k].1),
{
    hints_are_shown(hints, 0, k, max);
}

proof fn later_hints_take_cells(hints: Seq<(Seq<char>, Seq<char>)>, i: int, n: int)
    requires
        0 <= i <= n,
    ensures
        all_hint_cells(hints, i) + (n - i) <= all_hint_cells(hints, n),
    decreases n - i,
{
    if i < n {
        later_hints_take_cells(hints, i, n - 1);
    }
}

#[verifier::rlimit(40)]
proof fn hints_are_shown(hints: Seq<(Seq<char>, Seq<char>)>, i: int, k: int, max: int)
    requires
        0 <= i <= k < hints.len(),
        all_hint_cells(hints, hints.len() as int) <= max,
    ensures
        holds(text_of(hints_from(hints, i, all_hint_cells(hints, i), max)), hints[k].0),
        holds(text_of(hints_from(hints, i, all_hint_cells(hints, i), max)), hints[k].1),
    decreases k - i,
{
    let used = all_hint_cells(hints, i);
    let v = hints_from(hints, i, used, max);
    later_hints_take_cells(hints, i + 1, hints.len() as int);
    assert(crate::ui::keybar::hint_fits(hints, i, used, max));
    let head = crate::ui::keybar::hint_gap(i) + crate::ui::theme::key_hint_of(hints[i].0, hints[i].1);
    let rest = hints_from(hints, i + 1, all_hint_cells(hints, i + 1), max);
    assert(v == head + rest);
    if i < k {
        hints_are_shown(hints, i + 1, k, max);
        text_of_concat(head, rest);
        ends_with(text_of(head), text_of(rest));
        crate::text_laws::holding_is_transitive(text_of(v), text_of(rest), hints[k].0);
        crate::text_laws::holding_is_transitive(text_of(v), text_of(rest), hints[k].1);
    } else {
        hint_is_read(hints, i, rest);
    }
}

#[verifier::rlimit(40)]
proof fn hint_is_read(hints: Seq<(Seq<char>, Seq<char>)>, i: int, rest: Seq<SpanView>)
    requires
        0 <= i < hints.len(),
    ensures
        ({
            let head = crate::ui::keybar::hint_gap(i) + crate::ui::theme::key_hint_of(
                hints[i].0,
                hints[i].1,
            );
            &&& holds(text_of(head + rest), hints[i].0)
            &&& holds(text_of(head + rest), hints[i].1)
        }),
{
    let gap = crate::ui::keybar::hint_gap(i);
    let hint = crate::ui::theme::key_hint_of(hints[i].0, hints[i].1);
    let v = gap + hint + rest;
    let g = gap.len() as int;
    assert(v[g] == hint[0]);
    assert(v[g + 1] == hint[1]);
    starts_with(hints[i].0, Seq::empty());
    assert(hints[i].0 + Seq::<char>::empty() =~= hints[i].0);
    a_span_is_read(v, g, hints[i].0);
    ends_with(" "@, hints[i].1);
    a_span_is_read(v, g + 1, hints[i].1);
}

proof fn ends_with(a: Seq<char>, b: Seq<char>)
    ensures
        holds(a + b, b),
{
    assert((a + b).subrange(a.len() as int, (a.len() + b.len()) as int) =~= b);
    assert(stands_at(a + b, b, a.len() as int));
}

proof fn starts_with(a: Seq<char>, b: Seq<char>)
    ensures
        holds(a + b, a),
{
    assert((a + b).subrange(0, a.len() as int) =~= a);
    assert(stands_at(a + b, a, 0));
}

proof fn padding_starts_with(s: Seq<char>, width: nat)
    ensures
        holds(padded(s, width), s),
{
    if s.len() < width {
        starts_with(s, crate::text::repeated(' ', (width - s.len()) as nat));
    } else {
        starts_with(s, Seq::empty());
        assert(s + Seq::<char>::empty() =~= s);
    }
}

/// The help has a row for every entry, with its keys and what they do: one below
/// the other, or in two columns.
#[verifier::rlimit(40)]
pub proof fn every_entry_is_in_the_help(entries: Seq<(Seq<char>, Seq<char>)>, i: int, wide: bool)
    requires
        0 <= i < entries.len(),
    ensures
        ({
            let rows = help_rows(entries, wide);
            let mid = (entries.len() as int + 1) / 2;
            let at = if !wide || i < mid { i } else { i - mid };
            &&& 0 <= at < rows.len()
            &&& holds(line_text(rows[at]), entries[i].0)
            &&& holds(line_text(rows[at]), entries[i].1)
        }),
{
    let rows = help_rows(entries, wide);
    let mid = (entries.len() as int + 1) / 2;
    if wide {
        if i < mid {
            left_is_read(entries, i);
            assert(rows[i] == wide_row(entries, i));
        } else {
            right_is_read(entries, i);
            assert(rows[i - mid] == wide_row(entries, i - mid));
        }
    } else {
        let row = narrow_row(entries, i);
        assert(rows[i] == row);
        padding_starts_with(entries[i].0, column_width(entries, true));
        a_span_is_read(row.spans, 0, entries[i].0);
        ends_with("  "@, entries[i].1);
        a_span_is_read(row.spans, 1, entries[i].1);
    }
}

#[verifier::rlimit(40)]
proof fn left_is_read(entries: Seq<(Seq<char>, Seq<char>)>, i: int)
    requires
        0 <= i < (entries.len() as int + 1) / 2,
    ensures
        holds(line_text(wide_row(entries, i)), entries[i].0),
        holds(line_text(wide_row(entries, i)), entries[i].1),
{
    let mid = (entries.len() as int + 1) / 2;
    let left = entries.take(mid);
    let row = wide_row(entries, i);
    assert(left[i] == entries[i]);
    padding_starts_with(entries[i].0, column_width(left, true));
    a_span_is_read(row.spans, 0, entries[i].0);
    let p = padded(entries[i].1, column_width(left, false));
    padding_starts_with(entries[i].1, column_width(left, false));
    ends_with("  "@, p);
    crate::text_laws::holding_is_transitive("  "@ + p, p, entries[i].1);
    a_span_is_read(row.spans, 1, entries[i].1);
}

#[verifier::rlimit(40)]
proof fn right_is_read(entries: Seq<(Seq<char>, Seq<char>)>, i: int)
    requires
        (entries.len() as int + 1) / 2 <= i < entries.len(),
    ensures
        ({
            let at = i - (entries.len() as int + 1) / 2;
            &&& holds(line_text(wide_row(entries, at)), entries[i].0)
            &&& holds(line_text(wide_row(entries, at)), entries[i].1)
        }),
{
    let mid = (entries.len() as int + 1) / 2;
    let right = entries.skip(mid);
    let at = i - mid;
    let row = wide_row(entries, at);
    assert(right[at] == entries[i]);
    assert(at < right.len());
    padding_starts_with(entries[i].0, column_width(right, true));
    a_span_is_read(row.spans, 3, entries[i].0);
    ends_with("  "@, entries[i].1);
    a_span_is_read(row.spans, 4, entries[i].1);
}

/// Wrapping makes no more lines than allowed, and every line looks and is aligned
/// as the one that was wrapped. There is always at least one.
pub proof fn wrapped_lines_are_bounded(line: LineView, width: u16, indent: usize, max: usize, i: int)
    requires
        width > 0,
        max > 0,
        0 <= i < wrapped_line(line, width, indent, max).len(),
    ensures
        1 <= wrapped_line(line, width, indent, max).len() <= max,
        wrapped_line(line, width, indent, max)[i].style == line.style,
        wrapped_line(line, width, indent, max)[i].alignment == line.alignment,
{
    let o = Wrapping {
        width: width as nat,
        indent: if indent < width {
            indent as nat
        } else {
            (width - 1) as nat
        },
        style: line.style,
        alignment: line.alignment,
        max_lines: max as nat,
    };
    let s = Wrapped { done: Seq::empty(), cur: crate::ui::wrap::empty_draft(o.width, 0) };
    spans_stay_like(s, line.spans, o);
}

/// Whether the finished lines are no more than allowed, and look like what was
/// wrapped.
pub open spec fn are_like(s: Wrapped, o: Wrapping) -> bool {
    &&& s.done.len() <= o.max_lines
    &&& forall|i: int|
        0 <= i < s.done.len() ==> (#[trigger] s.done[i]).style == o.style && s.done[i].alignment
            == o.alignment
}

proof fn clusters_stay_like(
    s: Wrapped,
    gs: Seq<Seq<char>>,
    style: crate::ui::style::Style,
    o: Wrapping,
)
    requires
        are_like(s, o),
    ensures
        are_like(after_clusters(s, gs, style, o), o),
    decreases gs.len(),
{
    if gs.len() > 0 {
        clusters_stay_like(s, gs.drop_last(), style, o);
        let t = after_clusters(s, gs.drop_last(), style, o);
        assert(are_like(after_cluster(t, gs.last(), style, o), o));
    }
}

proof fn parts_stay_like(
    s: Wrapped,
    parts: Seq<Seq<char>>,
    style: crate::ui::style::Style,
    o: Wrapping,
)
    requires
        are_like(s, o),
    ensures
        are_like(after_parts(s, parts, style, o), o),
    decreases parts.len(),
{
    if parts.len() > 0 {
        parts_stay_like(s, parts.drop_last(), style, o);
        let t = after_parts(s, parts.drop_last(), style, o);
        assert(are_like(after_break(t, o), o));
        let u = if parts.len() > 1 { after_break(t, o) } else { t };
        clusters_stay_like(u, crate::ui::wrap::grapheme_clusters(parts.last()), style, o);
    }
}

proof fn spans_stay_like(s: Wrapped, spans: Seq<SpanView>, o: Wrapping)
    requires
        are_like(s, o),
    ensures
        are_like(after_spans(s, spans, o), o),
    decreases spans.len(),
{
    if spans.len() > 0 {
        spans_stay_like(s, spans.drop_last(), o);
        parts_stay_like(
            after_spans(s, spans.drop_last(), o),
            crate::text::split_on(spans.last().content, '\n'),
            spans.last().style,
            o,
        );
    }
}

} // verus!
