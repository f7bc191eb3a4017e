//! What wrapping keeps of a text.

use crate::text::{is_white_space, repeated, split_on};
use crate::ui::style::{text_of, text_of_one, LineView, SpanView, Style};
use crate::ui::wrap::{
    after_break, after_cluster, after_clusters, after_parts, after_spans, empty_draft, finished,
    grapheme_clusters, leads_blank, next_line, shortened, trimmed_draft, with_cluster, wrapped_line,
    Draft, Wrapped, Wrapping,
};
use vstd::prelude::*;

verus! {

/// A text without its white space.
pub open spec fn solid(s: Seq<char>) -> Seq<char> {
    s.filter(|c: char| !is_white_space(c))
}

proof fn solid_goes_on(a: Seq<char>, b: Seq<char>)
    ensures
        solid(a + b) == solid(a) + solid(b),
{
    Seq::filter_distributes_over_add(a, b, |c: char| !is_white_space(c));
}

proof fn blanks_are_not_solid(s: Seq<char>)
    requires
        forall|i: int| 0 <= i < s.len() ==> is_white_space(#[trigger] s[i]),
    ensures
        solid(s) == Seq::<char>::empty(),
    decreases s.len(),
{
    reveal(Seq::filter);
    if s.len() > 0 {
        let f = s.drop_last();
        assert forall|i: int| 0 <= i < f.len() implies is_white_space(#[trigger] f[i]) by {
            assert(f[i] == s[i]);
        }
        blanks_are_not_solid(f);
        assert(is_white_space(s[s.len() - 1]));
    } else {
        assert(solid(s) =~= Seq::<char>::empty());
    }
}

/// What the first lines hold, without white space.
pub open spec fn kept(lines: Seq<LineView>) -> Seq<char>
    decreases lines.len(),
{
    if lines.len() == 0 {
        Seq::empty()
    } else {
        kept(lines.drop_last()) + solid(text_of(lines.last().spans))
    }
}

/// What is kept of a wrapping under construction.
pub open spec fn held(s: Wrapped) -> Seq<char> {
    kept(s.done) + solid(text_of(s.cur.spans))
}

/// Clusters, one after the other.
pub open spec fn glued(gs: Seq<Seq<char>>) -> Seq<char>
    decreases gs.len(),
{
    if gs.len() == 0 {
        Seq::empty()
    } else {
        glued(gs.drop_last()) + gs.last()
    }
}

/// The clusters of texts, without white space.
pub open spec fn solid_parts(parts: Seq<Seq<char>>) -> Seq<char>
    decreases parts.len(),
{
    if parts.len() == 0 {
        Seq::empty()
    } else {
        solid_parts(parts.drop_last()) + solid(glued(grapheme_clusters(parts.last())))
    }
}

/// The clusters of spans, without white space.
pub open spec fn solid_spans(spans: Seq<SpanView>) -> Seq<char>
    decreases spans.len(),
{
    if spans.len() == 0 {
        Seq::empty()
    } else {
        solid_spans(spans.drop_last()) + solid_parts(split_on(spans.last().content, '\n'))
    }
}

proof fn shortening_keeps(d: Draft)
    ensures
        solid(text_of(shortened(d).spans)) == solid(text_of(d.spans)),
    decreases text_of(d.spans).len() + d.spans.len(),
{
    if d.width > d.indent && d.spans.len() > 0 {
        let last = d.spans.last();
        let front = d.spans.drop_last();
        assert(text_of(d.spans) == text_of(front) + last.content);
        if last.content.len() == 0 {
            assert(text_of(front) + last.content =~= text_of(front));
            shortening_keeps(Draft { spans: front, ..d });
        } else if is_white_space(last.content.last()) {
            let c = last.content.last();
            let w = crate::ui::theme::str_cells(seq![c]);
            let rest = last.content.drop_last();
            let spans = if rest.len() == 0 {
                front
            } else {
                front.push(crate::ui::style::styled(rest, last.style))
            };
            if rest.len() > 0 {
                assert(spans.drop_last() =~= front);
                assert(text_of(spans) == text_of(front) + rest);
            } else {
                assert(text_of(front) + rest =~= text_of(front));
            }
            assert(text_of(d.spans) =~= text_of(spans) + seq![c]);
            solid_goes_on(text_of(spans), seq![c]);
            blanks_are_not_solid(seq![c]);
            assert(solid(text_of(spans)) + Seq::<char>::empty() =~= solid(text_of(spans)));
            shortening_keeps(
                Draft {
                    spans,
                    width: (if d.width > w {
                        d.width - w
                    } else {
                        0
                    }) as nat,
                    ..d
                },
            );
        }
    }
}

proof fn a_cluster_is_appended(d: Draft, g: Seq<char>, style: Style)
    ensures
        text_of(with_cluster(d, g, style).spans) == text_of(d.spans) + g,
{
    let after = with_cluster(d, g, style).spans;
    if d.spans.len() > 0 && d.spans.last().style == style {
        let front = d.spans.drop_last();
        assert(after.drop_last() =~= front);
        assert(text_of(after) =~= text_of(d.spans) + g);
    } else {
        assert(after.drop_last() =~= d.spans);
    }
}

proof fn an_indent_is_not_solid(available: nat, indent: nat)
    ensures
        solid(text_of(empty_draft(available, indent).spans)) == Seq::<char>::empty(),
{
    let d = empty_draft(available, indent);
    if indent > 0 {
        text_of_one(d.spans[0]);
        assert(d.spans =~= seq![d.spans[0]]);
        blanks_are_not_solid(repeated(' ', indent));
    } else {
        blanks_are_not_solid(Seq::empty());
    }
}

/// Whether a line without content is blank.
spec fn is_plain(s: Wrapped) -> bool {
    !s.cur.has_content ==> solid(text_of(s.cur.spans)) == Seq::<char>::empty()
}

proof fn a_break_keeps(s: Wrapped, o: Wrapping)
    ensures
        held(next_line(s, o)) == held(s),
        is_plain(next_line(s, o)),
        next_line(s, o).done.len() == s.done.len() + 1,
{
    let t = next_line(s, o);
    let l = finished(trimmed_draft(s.cur), o);
    shortening_keeps(s.cur);
    assert(t.done.drop_last() =~= s.done);
    an_indent_is_not_solid(o.width, o.indent);
    assert(held(t) =~= kept(s.done) + solid(text_of(s.cur.spans)));
}

proof fn one_cluster_is_kept(s: Wrapped, g: Seq<char>, style: Style, o: Wrapping)
    requires
        is_plain(s),
        after_cluster(s, g, style, o).done.len() < o.max_lines,
    ensures
        held(after_cluster(s, g, style, o)) == held(s) + solid(g),
        is_plain(after_cluster(s, g, style, o)),
        s.done.len() <= after_cluster(s, g, style, o).done.len(),
{
    let t = if s.cur.has_content && s.cur.width + crate::ui::theme::str_cells(g) > s.cur.available {
        a_break_keeps(s, o);
        next_line(s, o)
    } else {
        s
    };
    if leads_blank(s.cur, g) {
        blanks_are_not_solid(g);
        assert(held(s) + solid(g) =~= held(s));
    } else if leads_blank(t.cur, g) {
        blanks_are_not_solid(g);
        assert(held(t) + solid(g) =~= held(t));
    } else {
        a_cluster_is_appended(t.cur, g, style);
        solid_goes_on(text_of(t.cur.spans), g);
        assert(kept(t.done) + (solid(text_of(t.cur.spans)) + solid(g)) =~= held(t) + solid(g));
    }
}

proof fn lines_grow(s: Wrapped, g: Seq<char>, style: Style, o: Wrapping)
    ensures
        s.done.len() <= after_cluster(s, g, style, o).done.len(),
{
}

proof fn clusters_are_kept(s: Wrapped, gs: Seq<Seq<char>>, style: Style, o: Wrapping)
    requires
        is_plain(s),
        after_clusters(s, gs, style, o).done.len() < o.max_lines,
    ensures
        held(after_clusters(s, gs, style, o)) == held(s) + solid(glued(gs)),
        is_plain(after_clusters(s, gs, style, o)),
        s.done.len() <= after_clusters(s, gs, style, o).done.len(),
    decreases gs.len(),
{
    if gs.len() == 0 {
        blanks_are_not_solid(Seq::empty());
        assert(held(s) + Seq::<char>::empty() =~= held(s));
    } else {
        let f = gs.drop_last();
        let t = after_clusters(s, f, style, o);
        lines_grow(t, gs.last(), style, o);
        clusters_are_kept(s, f, style, o);
        one_cluster_is_kept(t, gs.last(), style, o);
        solid_goes_on(glued(f), gs.last());
        assert(held(s) + solid(glued(f)) + solid(gs.last()) =~= held(s) + (solid(glued(f)) + solid(
            gs.last(),
        )));
    }
}

proof fn clusters_make_lines(s: Wrapped, gs: Seq<Seq<char>>, style: Style, o: Wrapping)
    ensures
        s.done.len() <= after_clusters(s, gs, style, o).done.len(),
    decreases gs.len(),
{
    if gs.len() > 0 {
        clusters_make_lines(s, gs.drop_last(), style, o);
        lines_grow(after_clusters(s, gs.drop_last(), style, o), gs.last(), style, o);
    }
}

proof fn parts_make_lines(s: Wrapped, parts: Seq<Seq<char>>, style: Style, o: Wrapping)
    ensures
        s.done.len() <= after_parts(s, parts, style, o).done.len(),
    decreases parts.len(),
{
    if parts.len() > 0 {
        parts_make_lines(s, parts.drop_last(), style, o);
        let t = after_parts(s, parts.drop_last(), style, o);
        let u = if parts.len() > 1 { after_break(t, o) } else { t };
        clusters_make_lines(u, grapheme_clusters(parts.last()), style, o);
    }
}

proof fn parts_are_kept(s: Wrapped, parts: Seq<Seq<char>>, style: Style, o: Wrapping)
    requires
        is_plain(s),
        after_parts(s, parts, style, o).done.len() < o.max_lines,
    ensures
        held(after_parts(s, parts, style, o)) == held(s) + solid_parts(parts),
        is_plain(after_parts(s, parts, style, o)),
    decreases parts.len(),
{
    if parts.len() == 0 {
        assert(held(s) + Seq::<char>::empty() =~= held(s));
    } else {
        let f = parts.drop_last();
        let t = after_parts(s, f, style, o);
        let u = if parts.len() > 1 { after_break(t, o) } else { t };
        let gs = grapheme_clusters(parts.last());
        clusters_make_lines(u, gs, style, o);
        parts_are_kept(s, f, style, o);
        a_break_keeps(t, o);
        clusters_are_kept(u, gs, style, o);
        assert(held(s) + solid_parts(f) + solid(glued(gs)) =~= held(s) + (solid_parts(f) + solid(
            glued(gs),
        )));
    }
}

proof fn spans_are_kept(s: Wrapped, spans: Seq<SpanView>, o: Wrapping)
    requires
        is_plain(s),
        after_spans(s, spans, o).done.len() < o.max_lines,
    ensures
        held(after_spans(s, spans, o)) == held(s) + solid_spans(spans),
        is_plain(after_spans(s, spans, o)),
    decreases spans.len(),
{
    if spans.len() == 0 {
        assert(held(s) + Seq::<char>::empty() =~= held(s));
    } else {
        let f = spans.drop_last();
        let t = after_spans(s, f, o);
        let parts = split_on(spans.last().content, '\n');
        parts_make_lines(t, parts, spans.last().style, o);
        spans_are_kept(s, f, o);
        parts_are_kept(t, parts, spans.last().style, o);
        assert(held(s) + solid_spans(f) + solid_parts(parts) =~= held(s) + (solid_spans(f)
            + solid_parts(parts)));
    }
}

/// Wrapping loses no character but white space, and keeps the order: where the
/// lines that are allowed suffice, what they hold is what was to be wrapped.
pub proof fn wrapping_keeps_the_text(line: LineView, width: u16, indent: usize, max: usize)
    requires
        width > 0,
        wrapped_line(line, width, indent, max).len() < max,
    ensures
        kept(wrapped_line(line, width, indent, max)) == solid_spans(line.spans),
{
    let o = Wrapping {
        width: width as nat,
        indent: if indent < width {
            indent as nat
        } else {
            (width - 1) as nat
        },
        style: line.style,
        alignment: line.alignment,
        max_lines: max as nat,
    };
    let s = Wrapped { done: Seq::empty(), cur: empty_draft(o.width, 0) };
    an_indent_is_not_solid(o.width, 0);
    let t = after_spans(s, line.spans, o);
    assert(t.done.len() < max);
    spans_are_kept(s, line.spans, o);
    assert(held(s) =~= Seq::<char>::empty());
    assert(held(s) + solid_spans(line.spans) =~= solid_spans(line.spans));
    let r = wrapped_line(line, width, indent, max);
    if t.cur.has_content || t.done.len() == 0 {
        assert(r.drop_last() =~= t.done);
    } else {
        assert(held(t) =~= kept(t.done));
    }
}

} // verus!
