//! Wrapping styled lines at grapheme boundaries, with continuation lines
//! indented.

use crate::text::{
    chars_of, is_white_space, pieces, repeat, repeated, split_chars, split_on, string_of, texts,
    white_space,
};
use crate::ui::style::{
    line_views, line_views_push, plain, raw, span_views, span_views_push, styled, text_of,
    Alignment, Line, LineView, Span, SpanView, Style,
};
use crate::ui::theme::{str_cells, str_width};
use unicode_segmentation::UnicodeSegmentation;
use vstd::prelude::*;

verus! {

/// The extended grapheme clusters of a text, in order.
pub uninterp spec fn grapheme_clusters(s: Seq<char>) -> Seq<Seq<char>>;

/// Calls `unicode_segmentation::UnicodeSegmentation::graphemes` for extended
/// clusters: the clusters of `s`, in order. Together they are all of `s`.
#[verifier::external_body]
fn graphemes_of(s: &str) -> (r: Vec<String>)
    ensures
        texts(r@) == grapheme_clusters(s@),
        texts(r@).flatten() == s@,
{
    UnicodeSegmentation::graphemes(s, true).map(|g| g.to_string()).collect()
}

/// A line under construction.
pub struct Draft {
    pub spans: Seq<SpanView>,
    pub width: nat,
    pub available: nat,
    pub indent: nat,
    pub has_content: bool,
}

/// A sum of cells, held at the largest that can be counted.
pub open spec fn cell_sum(a: nat, b: nat) -> nat {
    if a + b > usize::MAX {
        usize::MAX as nat
    } else {
        a + b
    }
}

/// An empty line with `indent` blanks before its content.
pub open spec fn empty_draft(available: nat, indent: nat) -> Draft {
    Draft {
        spans: if indent > 0 {
            seq![raw(repeated(' ', indent))]
        } else {
            Seq::empty()
        },
        width: indent,
        available,
        indent,
        has_content: false,
    }
}

/// Whether `s` holds white space only.
pub open spec fn all_blank(s: Seq<char>) -> bool {
    forall|i: int| 0 <= i < s.len() ==> is_white_space(#[trigger] s[i])
}

/// Whether the cluster `g` is white space that the line would start with.
pub open spec fn leads_blank(d: Draft, g: Seq<char>) -> bool {
    d.indent > 0 && !d.has_content && all_blank(g)
}

/// `d` with the cluster `g` appended.
pub open spec fn with_cluster(d: Draft, g: Seq<char>, style: Style) -> Draft {
    Draft {
        spans: if d.spans.len() > 0 && d.spans.last().style == style {
            d.spans.drop_last().push(styled(d.spans.last().content + g, style))
        } else {
            d.spans.push(styled(g, style))
        },
        width: cell_sum(d.width, str_cells(g)),
        has_content: true,
        ..d
    }
}

/// `d` after white space has been taken off its end, down to its indent.
pub open spec fn shortened(d: Draft) -> Draft
    decreases text_of(d.spans).len() + d.spans.len(),
{
    if d.width <= d.indent || d.spans.len() == 0 {
        d
    } else {
        let last = d.spans.last();
        let front = d.spans.drop_last();
        if last.content.len() == 0 {
            shortened(Draft { spans: front, ..d })
        } else if !is_white_space(last.content.last()) {
            d
        } else {
            let w = str_cells(seq![last.content.last()]);
            let rest = last.content.drop_last();
            let spans = if rest.len() == 0 {
                front
            } else {
                front.push(styled(rest, last.style))
            };
            proof {
                if rest.len() > 0 {
                    assert(spans.drop_last() == front);
                }
            }
            shortened(
                Draft {
                    spans,
                    width: (if d.width > w {
                        d.width - w
                    } else {
                        0
                    }) as nat,
                    ..d
                },
            )
        }
    }
}

/// `d` without the white space that it ends with.
pub open spec fn trimmed_draft(d: Draft) -> Draft {
    let t = shortened(d);
    Draft { has_content: t.width > t.indent, ..t }
}

/// How lines are to be wrapped.
pub struct Wrapping {
    pub width: nat,
    pub indent: nat,
    pub style: Style,
    pub alignment: Option<Alignment>,
    pub max_lines: nat,
}

/// The lines finished so far, and the one under construction.
pub struct Wrapped {
    pub done: Seq<LineView>,
    pub cur: Draft,
}

/// The finished line of a draft.
pub open spec fn finished(d: Draft, o: Wrapping) -> LineView {
    LineView { spans: d.spans, style: o.style, alignment: o.alignment }
}

/// `s` with its line finished and a continuation line begun.
pub open spec fn next_line(s: Wrapped, o: Wrapping) -> Wrapped {
    Wrapped {
        done: s.done.push(finished(trimmed_draft(s.cur), o)),
        cur: empty_draft(o.width, o.indent),
    }
}

/// `s` after one cluster. Once all allowed lines are finished, nothing changes.
pub open spec fn after_cluster(s: Wrapped, g: Seq<char>, style: Style, o: Wrapping) -> Wrapped {
    if s.done.len() >= o.max_lines || leads_blank(s.cur, g) {
        s
    } else if s.cur.has_content && s.cur.width + str_cells(g) > s.cur.available {
        let t = next_line(s, o);
        if t.done.len() >= o.max_lines || leads_blank(t.cur, g) {
            t
        } else {
            Wrapped { cur: with_cluster(t.cur, g, style), ..t }
        }
    } else {
        Wrapped { cur: with_cluster(s.cur, g, style), ..s }
    }
}

/// `s` after clusters, in order.
pub open spec fn after_clusters(s: Wrapped, gs: Seq<Seq<char>>, style: Style, o: Wrapping) -> Wrapped
    decreases gs.len(),
{
    if gs.len() == 0 {
        s
    } else {
        after_cluster(after_clusters(s, gs.drop_last(), style, o), gs.last(), style, o)
    }
}

/// `s` after a line break.
pub open spec fn after_break(s: Wrapped, o: Wrapping) -> Wrapped {
    if s.done.len() >= o.max_lines {
        s
    } else {
        next_line(s, o)
    }
}

/// `s` after texts with a line break between each two.
pub open spec fn after_parts(s: Wrapped, parts: Seq<Seq<char>>, style: Style, o: Wrapping) -> Wrapped
    decreases parts.len(),
{
    if parts.len() == 0 {
        s
    } else {
        let before = after_parts(s, parts.drop_last(), style, o);
        after_clusters(
            if parts.len() > 1 {
                after_break(before, o)
            } else {
                before
            },
            grapheme_clusters(parts.last()),
            style,
            o,
        )
    }
}

/// `s` after spans, in order.
pub open spec fn after_spans(s: Wrapped, spans: Seq<SpanView>, o: Wrapping) -> Wrapped
    decreases spans.len(),
{
    if spans.len() == 0 {
        s
    } else {
        after_parts(
            after_spans(s, spans.drop_last(), o),
            split_on(spans.last().content, '\n'),
            spans.last().style,
            o,
        )
    }
}

/// `line` wrapped to `width` cells, in at most `max_lines` lines.
pub open spec fn wrapped_line(
    line: LineView,
    width: u16,
    continuation_indent: usize,
    max_lines: usize,
) -> Seq<LineView> {
    if width == 0 || max_lines == 0 {
        seq![LineView { spans: Seq::empty(), style: plain(), alignment: None }]
    } else {
        let o = Wrapping {
            width: width as nat,
            indent: if continuation_indent < width {
                continuation_indent as nat
            } else {
                (width - 1) as nat
            },
            style: line.style,
            alignment: line.alignment,
            max_lines: max_lines as nat,
        };
        let s = after_spans(
            Wrapped { done: Seq::empty(), cur: empty_draft(o.width, 0) },
            line.spans,
            o,
        );
        if s.done.len() < max_lines && (s.cur.has_content || s.done.len() == 0) {
            s.done.push(finished(s.cur, o))
        } else {
            s.done
        }
    }
}

/// The lines finished so far, and the one under construction.
pub open spec fn state_of(done: Seq<Line>, cur: Draft) -> Wrapped {
    Wrapped { done: line_views(done), cur }
}

struct Piece {
    chars: Vec<char>,
    style: Style,
}

spec fn piece_views(v: Seq<Piece>) -> Seq<SpanView> {
    v.map_values(|p: Piece| styled(p.chars@, p.style))
}

struct WrappedLine {
    spans: Vec<Piece>,
    width: usize,
    available_width: usize,
    indent_width: usize,
    has_content: bool,
}

struct Options {
    width: usize,
    indent: usize,
    style: Style,
    alignment: Option<Alignment>,
    max_lines: usize,
}

impl Options {
    spec fn view(&self) -> Wrapping {
        Wrapping {
            width: self.width as nat,
            indent: self.indent as nat,
            style: self.style,
            alignment: self.alignment,
            max_lines: self.max_lines as nat,
        }
    }
}

impl WrappedLine {
    spec fn view(&self) -> Draft {
        Draft {
            spans: piece_views(self.spans@),
            width: self.width as nat,
            available: self.available_width as nat,
            indent: self.indent_width as nat,
            has_content: self.has_content,
        }
    }

    fn new(available_width: usize, indent: usize) -> (r: Self)
        ensures
            r.view() == empty_draft(available_width as nat, indent as nat),
    {
        let mut spans: Vec<Piece> = Vec::new();
        if indent > 0 {
            let blanks = repeat(' ', indent);
            spans.push(Piece { chars: chars_of(blanks.as_str()), style: Style::default() });
        }
        let r = WrappedLine {
            spans,
            width: indent,
            available_width,
            indent_width: indent,
            has_content: false,
        };
        assert(r.view().spans =~= empty_draft(available_width as nat, indent as nat).spans);
        r
    }

    fn is_trimmable_leading_whitespace(&self, grapheme: &str) -> (r: bool)
        ensures
            r == leads_blank(self.view(), grapheme@),
    {
        if self.indent_width == 0 || self.has_content {
            return false;
        }
        let cs = chars_of(grapheme);
        let mut i: usize = 0;
        while i < cs.len()
            invariant
                i <= cs@.len(),
                cs@ == grapheme@,
                forall|j: int| 0 <= j < i ==> is_white_space(#[trigger] cs@[j]),
            decreases cs@.len() - i,
        {
            if !white_space(cs[i]) {
                return false;
            }
            i += 1;
        }
        true
    }

    fn trim_trailing_whitespace(&mut self)
        ensures
            final(self).view() == trimmed_draft(old(self).view()),
    {
        let ghost want = shortened(self.view());
        let ghost wanted_content = self.has_content;
        let mut more = true;
        while more
            invariant
                want == shortened(self.view()),
                !more ==> want == self.view(),
                self.has_content == old(self).has_content,
                want == shortened(old(self).view()),
            decreases more as int, text_of(piece_views(self.spans@)).len() + self.spans@.len(),
        {
            let ghost d = self.view();
            if self.width <= self.indent_width {
                more = false;
            } else {
                let n: usize = self.spans.len();
                if n == 0 {
                    more = false;
                } else {
                    let ghost before = piece_views(self.spans@);
                    assert(before.last() == styled(
                        self.spans@[n - 1].chars@,
                        self.spans@[n - 1].style,
                    ));
                    match self.spans.pop() {
                        Some(last) => {
                            let mut last = last;
                            assert(piece_views(self.spans@) =~= before.drop_last());
                            match last.chars.pop() {
                                None => {
                                    assert(before.last().content.len() == 0);
                                },
                                Some(ch) => {
                                    if !white_space(ch) {
                                        last.chars.push(ch);
                                        assert(last.chars@ =~= before.last().content);
                                        self.spans.push(last);
                                        assert(piece_views(self.spans@) =~= before);
                                        assert(self.view() == d);
                                        more = false;
                                    } else {
                                        let mut one = String::new();
                                        one.push(ch);
                                        assert(one@ =~= seq![ch]);
                                        let w = str_width(one.as_str());
                                        self.width = self.width.saturating_sub(w);
                                        let ghost rest = last.chars@;
                                        let ghost style = last.style;
                                        assert(rest =~= before.last().content.drop_last());
                                        if last.chars.len() > 0 {
                                            self.spans.push(last);
                                            assert(piece_views(self.spans@)
                                                =~= before.drop_last().push(styled(rest, style)));
                                            assert(piece_views(self.spans@).drop_last()
                                                =~= before.drop_last());
                                        }
                                    }
                                },
                            }
                        },
                        None => {
                            more = false;
                        },
                    }
                }
            }
        }
        self.has_content = self.width > self.indent_width;
    }

    fn push(&mut self, grapheme: &str, style: Style)
        ensures
            final(self).view() == with_cluster(old(self).view(), grapheme@, style),
    {
        let ghost before = piece_views(self.spans@);
        let mut cs = chars_of(grapheme);
        let n: usize = self.spans.len();
        if n > 0 && self.spans[n - 1].style == style {
            assert(before.last() == styled(self.spans@[n - 1].chars@, style));
            let ghost held = self.spans@[n - 1].chars@;
            if let Some(last) = self.spans.pop() {
                let mut last = last;
                last.chars.append(&mut cs);
                self.spans.push(last);
                assert(last.chars@ =~= held + grapheme@);
                assert(piece_views(self.spans@) =~= before.drop_last().push(
                    styled(held + grapheme@, style),
                ));
            }
        } else {
            self.spans.push(Piece { chars: cs, style });
            assert(piece_views(self.spans@) =~= before.push(styled(grapheme@, style)));
        }
        self.width = self.width.saturating_add(str_width(grapheme));
        self.has_content = true;
    }

    fn into_line(self, o: &Options) -> (r: Line)
        ensures
            r@ == finished(self.view(), o.view()),
    {
        broadcast use span_views_push;

        let mut spans: Vec<Span> = Vec::new();
        let mut i: usize = 0;
        assert(span_views(spans@) =~= piece_views(self.spans@).take(0));
        while i < self.spans.len()
            invariant
                i <= self.spans@.len(),
                span_views(spans@) == piece_views(self.spans@).take(i as int),
            decreases self.spans@.len() - i,
        {
            let ghost before = span_views(spans@);
            let span = Span {
                content: string_of(self.spans[i].chars.as_slice()),
                style: self.spans[i].style,
            };
            assert(span@ == piece_views(self.spans@)[i as int]);
            assert(piece_views(self.spans@).take(i + 1) =~= before.push(span@));
            spans.push(span);
            i += 1;
        }
        assert(piece_views(self.spans@).take(i as int) =~= piece_views(self.spans@));
        Line { spans, style: o.style, alignment: o.alignment }
    }
}

/// Wraps a styled line to the available cell width, indenting continuation
/// lines. White space is dropped where a line breaks.
pub fn wrap_line(line: Line, width: u16, continuation_indent: usize, max_lines: usize) -> (r: Vec<
    Line,
>)
    ensures
        line_views(r@) == wrapped_line(line@, width, continuation_indent, max_lines),
{
    broadcast use line_views_push;

    let mut wrapped: Vec<Line> = Vec::new();
    assert(line_views(wrapped@) =~= Seq::<LineView>::empty());
    if width == 0 || max_lines == 0 {
        let blank = Line { spans: Vec::new(), style: Style::default(), alignment: None };
        assert(blank@.spans =~= Seq::<SpanView>::empty());
        wrapped.push(blank);
        return wrapped;
    }
    let w: usize = width as usize;
    let o = Options {
        width: w,
        indent: if continuation_indent < w { continuation_indent } else { w - 1 },
        style: line.style,
        alignment: line.alignment,
        max_lines,
    };
    let mut current = WrappedLine::new(w, 0);
    let ghost start = Wrapped { done: Seq::empty(), cur: empty_draft(w as nat, 0) };
    let ghost all = line@.spans;
    let mut i: usize = 0;
    while i < line.spans.len()
        invariant
            i <= line.spans@.len(),
            all == line@.spans,
            o.max_lines == max_lines,
            max_lines > 0,
            state_of(wrapped@, current.view()) == after_spans(
                start,
                all.take(i as int),
                o.view(),
            ),
            wrapped@.len() <= max_lines,
        decreases line.spans@.len() - i,
    {
        assert(all.take(i + 1).drop_last() == all.take(i as int));
        assert(all[i as int] == line.spans@[i as int]@);
        append_wrapped_span(&mut wrapped, &mut current, &line.spans[i], &o);
        i += 1;
    }
    assert(all.take(i as int) == all);
    if wrapped.len() < max_lines && (current.has_content || wrapped.len() == 0) {
        wrapped.push(current.into_line(&o));
    }
    wrapped
}

fn append_wrapped_span(
    wrapped: &mut Vec<Line>,
    current: &mut WrappedLine,
    span: &Span,
    o: &Options,
)
    requires
        old(wrapped)@.len() <= o.max_lines,
    ensures
        state_of(final(wrapped)@, final(current).view()) == after_parts(
            state_of(old(wrapped)@, old(current).view()),
            split_on(span@.content, '\n'),
            span.style,
            o.view(),
        ),
        final(wrapped)@.len() <= o.max_lines,
{
    let ghost start = state_of(wrapped@, current.view());
    let cs = chars_of(span.content.as_str());
    let parts = split_chars(cs.as_slice(), '\n');
    let ghost all = pieces(parts@);
    let mut i: usize = 0;
    while i < parts.len()
        invariant
            i <= parts@.len(),
            all == pieces(parts@),
            state_of(wrapped@, current.view()) == after_parts(
                start,
                all.take(i as int),
                span.style,
                o.view(),
            ),
            wrapped@.len() <= o.max_lines,
        decreases parts@.len() - i,
    {
        assert(all.take(i + 1).drop_last() == all.take(i as int));
        assert(all[i as int] == parts@[i as int]@);
        if i > 0 && wrapped.len() < o.max_lines {
            finish_line(wrapped, current, o);
        }
        let part = string_of(parts[i].as_slice());
        append_text(wrapped, current, part.as_str(), span.style, o);
        i += 1;
    }
    assert(all.take(i as int) == all);
}

fn finish_line(wrapped: &mut Vec<Line>, current: &mut WrappedLine, o: &Options)
    ensures
        state_of(final(wrapped)@, final(current).view()) == next_line(
            state_of(old(wrapped)@, old(current).view()),
            o.view(),
        ),
        final(wrapped)@.len() == old(wrapped)@.len() + 1,
{
    broadcast use line_views_push;

    current.trim_trailing_whitespace();
    let mut fresh = WrappedLine::new(o.width, o.indent);
    std::mem::swap(current, &mut fresh);
    wrapped.push(fresh.into_line(o));
}

fn append_text(
    wrapped: &mut Vec<Line>,
    current: &mut WrappedLine,
    part: &str,
    style: Style,
    o: &Options,
)
    requires
        old(wrapped)@.len() <= o.max_lines,
    ensures
        state_of(final(wrapped)@, final(current).view())
            == after_clusters(
            state_of(old(wrapped)@, old(current).view()),
            grapheme_clusters(part@),
            style,
            o.view(),
        ),
        final(wrapped)@.len() <= o.max_lines,
{
    let ghost start = state_of(wrapped@, current.view());
    let clusters = graphemes_of(part);
    let ghost all = texts(clusters@);
    let mut i: usize = 0;
    while i < clusters.len()
        invariant
            i <= clusters@.len(),
            all == texts(clusters@),
            state_of(wrapped@, current.view()) == after_clusters(
                start,
                all.take(i as int),
                style,
                o.view(),
            ),
            wrapped@.len() <= o.max_lines,
        decreases clusters@.len() - i,
    {
        assert(all.take(i + 1).drop_last() == all.take(i as int));
        assert(all[i as int] == clusters@[i as int]@);
        let g = clusters[i].as_str();
        if wrapped.len() < o.max_lines && !current.is_trimmable_leading_whitespace(g) {
            let w = str_width(g);
            let over = w > current.available_width || current.width > current.available_width - w;
            if current.has_content && over {
                finish_line(wrapped, current, o);
                if wrapped.len() < o.max_lines && !current.is_trimmable_leading_whitespace(g) {
                    current.push(g, style);
                }
            } else {
                current.push(g, style);
            }
        }
        i += 1;
    }
    assert(all.take(i as int) == all);
}

} // verus!
