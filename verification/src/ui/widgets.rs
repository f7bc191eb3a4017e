//! Small render helpers shared by the screens.

use crate::engine::{EngineView, TaskEngine};
use crate::paths::components;
use crate::plan_cache::{age_text, seconds_between};
use crate::task::ResourceCounts;
use crate::text::{concat, decimal, decimal_of, texts};
use crate::ui::theme;
use crate::ui::frame::{number, say4};
use crate::ui::style::{span_views, span_views_push, styled, Color, Span, SpanView, Style};
use crate::ui::theme::{
    in_bold, in_color, COUNT_ADD, COUNT_CHANGE, COUNT_DESTROY, COUNT_FORGET, COUNT_IMPORT,
    COUNT_NONE, MARK,
};
use vstd::prelude::*;

verus! {

/// The span for one count: nothing when it is zero.
pub open spec fn count_span(n: u32, symbol: Seq<char>, label: Seq<char>, c: Color) -> Seq<SpanView> {
    if n > 0 {
        seq![styled("  "@ + symbol + decimal(n as nat) + " "@ + label, in_color(c))]
    } else {
        Seq::empty()
    }
}

/// The spans for resource counts: none before a summary was seen, a dimmed `=`
/// for a summary without changes, and otherwise every count that is not zero.
pub open spec fn spans_of_counts(c: ResourceCounts) -> Seq<SpanView> {
    if !c.has_summary && !c.no_changes {
        Seq::empty()
    } else if c.no_changes || c.counts_nothing() {
        seq![styled("  ="@, in_color(COUNT_NONE))]
    } else {
        count_span(c.add, "+"@, "add"@, COUNT_ADD) + count_span(
            c.change,
            "~"@,
            "change"@,
            COUNT_CHANGE,
        ) + count_span(c.destroy, "-"@, "destroy"@, COUNT_DESTROY) + count_span(
            c.import,
            "i"@,
            "import"@,
            COUNT_IMPORT,
        ) + count_span(c.forget, "f"@, "forget"@, COUNT_FORGET)
    }
}

fn push_count(spans: &mut Vec<Span>, n: u32, symbol: &str, label: &str, c: Color)
    ensures
        span_views(final(spans)@) == span_views(old(spans)@) + count_span(n, symbol@, label@, c),
{
    broadcast use span_views_push;

    if n > 0 {
        let mut text = "  ".to_owned();
        text.append(symbol);
        text.append(decimal_of(n as u64).as_str());
        text.append(" ");
        text.append(label);
        spans.push(Span::styled(text.as_str(), Style::default().fg(c)));
    }
}

/// Coloured spans for resource operation counts.
pub fn count_spans(counts: &ResourceCounts) -> (r: Vec<Span>)
    ensures
        span_views(r@) == spans_of_counts(*counts),
{
    broadcast use span_views_push;

    let mut spans: Vec<Span> = Vec::new();
    assert(span_views(spans@) == Seq::<SpanView>::empty());
    if !counts.has_summary && !counts.no_changes {
        return spans;
    }
    if counts.no_changes || counts.all_zero() {
        spans.push(Span::styled("  =", Style::default().fg(COUNT_NONE)));
        return spans;
    }
    push_count(&mut spans, counts.add, "+", "add", COUNT_ADD);
    push_count(&mut spans, counts.change, "~", "change", COUNT_CHANGE);
    push_count(&mut spans, counts.destroy, "-", "destroy", COUNT_DESTROY);
    push_count(&mut spans, counts.import, "i", "import", COUNT_IMPORT);
    push_count(&mut spans, counts.forget, "f", "forget", COUNT_FORGET);
    spans
}

/// The badge of a module's cached plan: how old it is and, for a plan that is
/// restricted, to how many targets.
pub open spec fn plan_badge(e: EngineView, path: Seq<char>) -> Seq<SpanView> {
    if e.plans.dom().contains(components(path)) {
        let p = e.plans[components(path)];
        let age = age_text(seconds_between(p.created_at, e.clock));
        if p.targets.len() > 0 {
            seq![styled("  P:"@ + age + "·T"@ + decimal(p.targets.len()), in_bold(MARK))]
        } else {
            seq![styled("  P:"@ + age, in_bold(Color::Green))]
        }
    } else {
        Seq::empty()
    }
}

/// Appends the badge of a module's cached plan, if it has one.
pub fn push_plan_badge(spans: &mut Vec<Span>, engine: &TaskEngine, path: &str)
    ensures
        span_views(final(spans)@) == span_views(old(spans)@) + plan_badge(engine@, path@),
{
    broadcast use span_views_push;

    let ghost had = span_views(spans@);
    if let Some(entry) = engine.plan_cache.get(path) {
        let age = entry.age_str(engine.clock);
        let n: usize = entry.targets.len();
        assert(texts(entry.targets@).len() == n);
        if entry.is_targeted() {
            spans.push(
                Span::styled(
                    say4("  P:", age.as_str(), "·T", number(n).as_str()).as_str(),
                    theme::plan_marker_targeted(),
                ),
            );
        } else {
            spans.push(Span::styled(concat("  P:", age.as_str()).as_str(), theme::plan_marker()));
        }
    }
    assert(span_views(spans@) =~= had + plan_badge(engine@, path@));
}

/// Appends spans to spans.
pub fn push_spans(spans: &mut Vec<Span>, more: Vec<Span>)
    ensures
        span_views(final(spans)@) == span_views(old(spans)@) + span_views(more@),
{
    let ghost a = spans@;
    let ghost b = more@;
    let mut more = more;
    spans.append(&mut more);
    assert(span_views(spans@) =~= span_views(a) + span_views(b));
}

} // verus!
