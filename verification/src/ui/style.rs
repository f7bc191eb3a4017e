//! Colours, styles and styled text.

use vstd::prelude::*;

verus! {

/// A terminal colour.
#[derive(Debug, Clone, Copy, PartialEq, Eq, Structural)]
pub enum Color {
    Reset,
    Black,
    Red,
    Green,
    Yellow,
    Blue,
    Magenta,
    Cyan,
    Gray,
    DarkGray,
    LightRed,
    LightGreen,
    LightYellow,
    LightBlue,
    LightMagenta,
    LightCyan,
    White,
    Rgb(u8, u8, u8),
    Indexed(u8),
}

/// Text attributes, each on or off.
#[derive(Debug, Clone, Copy, PartialEq, Eq, Structural)]
pub struct Modifiers {
    pub bold: bool,
    pub dim: bool,
    pub italic: bool,
    pub underlined: bool,
    pub reversed: bool,
    pub crossed_out: bool,
}

/// How a piece of text is drawn. What is not set is left as it is.
#[derive(Debug, Clone, Copy, PartialEq, Eq, Structural)]
pub struct Style {
    pub fg: Option<Color>,
    pub bg: Option<Color>,
    pub add_modifier: Modifiers,
}

/// No attribute.
pub open spec fn no_modifiers() -> Modifiers {
    Modifiers {
        bold: false,
        dim: false,
        italic: false,
        underlined: false,
        reversed: false,
        crossed_out: false,
    }
}

/// The style that sets nothing.
pub open spec fn plain() -> Style {
    Style { fg: None, bg: None, add_modifier: no_modifiers() }
}

impl Default for Style {
    fn default() -> (r: Self)
        ensures
            r == plain(),
    {
        Style {
            fg: None,
            bg: None,
            add_modifier: Modifiers {
                bold: false,
                dim: false,
                italic: false,
                underlined: false,
                reversed: false,
                crossed_out: false,
            },
        }
    }
}

impl Style {
    pub open spec fn with_fg(self, c: Color) -> Style {
        Style { fg: Some(c), ..self }
    }

    pub open spec fn with_bg(self, c: Color) -> Style {
        Style { bg: Some(c), ..self }
    }

    pub open spec fn with_bold(self) -> Style {
        Style { add_modifier: Modifiers { bold: true, ..self.add_modifier }, ..self }
    }

    pub open spec fn with_dim(self) -> Style {
        Style { add_modifier: Modifiers { dim: true, ..self.add_modifier }, ..self }
    }

    pub open spec fn with_italic(self) -> Style {
        Style { add_modifier: Modifiers { italic: true, ..self.add_modifier }, ..self }
    }

    pub open spec fn with_underlined(self) -> Style {
        Style { add_modifier: Modifiers { underlined: true, ..self.add_modifier }, ..self }
    }

    pub open spec fn with_reversed(self) -> Style {
        Style { add_modifier: Modifiers { reversed: true, ..self.add_modifier }, ..self }
    }

    pub open spec fn with_crossed_out(self) -> Style {
        Style { add_modifier: Modifiers { crossed_out: true, ..self.add_modifier }, ..self }
    }

    /// This style with the foreground `c`.
    pub fn fg(self, c: Color) -> (r: Style)
        ensures
            r == self.with_fg(c),
    {
        Style { fg: Some(c), bg: self.bg, add_modifier: self.add_modifier }
    }

    /// This style with the background `c`.
    pub fn bg(self, c: Color) -> (r: Style)
        ensures
            r == self.with_bg(c),
    {
        Style { fg: self.fg, bg: Some(c), add_modifier: self.add_modifier }
    }

    /// This style in bold.
    pub fn bold(self) -> (r: Style)
        ensures
            r == self.with_bold(),
    {
        let mut r = self;
        r.add_modifier.bold = true;
        r
    }

    /// This style, dimmed.
    pub fn dim(self) -> (r: Style)
        ensures
            r == self.with_dim(),
    {
        let mut r = self;
        r.add_modifier.dim = true;
        r
    }

    /// This style in italics.
    pub fn italic(self) -> (r: Style)
        ensures
            r == self.with_italic(),
    {
        let mut r = self;
        r.add_modifier.italic = true;
        r
    }

    /// This style, underlined.
    pub fn underlined(self) -> (r: Style)
        ensures
            r == self.with_underlined(),
    {
        let mut r = self;
        r.add_modifier.underlined = true;
        r
    }

    /// This style with foreground and background exchanged on the terminal.
    pub fn reversed(self) -> (r: Style)
        ensures
            r == self.with_reversed(),
    {
        let mut r = self;
        r.add_modifier.reversed = true;
        r
    }

    /// This style, struck through.
    pub fn crossed_out(self) -> (r: Style)
        ensures
            r == self.with_crossed_out(),
    {
        let mut r = self;
        r.add_modifier.crossed_out = true;
        r
    }
}

/// A piece of text in one style.
#[derive(Debug)]
pub struct Span {
    pub content: String,
    pub style: Style,
}

/// The text and the style of a span.
pub struct SpanView {
    pub content: Seq<char>,
    pub style: Style,
}

impl View for Span {
    type V = SpanView;

    open spec fn view(&self) -> SpanView {
        SpanView { content: self.content@, style: self.style }
    }
}

/// The spans of a sequence.
pub open spec fn span_views(spans: Seq<Span>) -> Seq<SpanView> {
    spans.map_values(|s: Span| s@)
}

/// A span of `content` in `style`.
pub open spec fn styled(content: Seq<char>, style: Style) -> SpanView {
    SpanView { content, style }
}

/// A span of `content` that sets no style.
pub open spec fn raw(content: Seq<char>) -> SpanView {
    SpanView { content, style: plain() }
}

impl Span {
    /// A span of `content` in `style`.
    pub fn styled(content: &str, style: Style) -> (r: Span)
        ensures
            r@ == styled(content@, style),
    {
        Span { content: content.to_owned(), style }
    }

    /// A span of `content` that sets no style.
    pub fn raw(content: &str) -> (r: Span)
        ensures
            r@ == raw(content@),
    {
        Span { content: content.to_owned(), style: Style::default() }
    }
}

impl Clone for Span {
    fn clone(&self) -> (r: Self)
        ensures
            r == *self,
    {
        Span { content: self.content.clone(), style: self.style }
    }
}

/// Where a line stands in its area.
#[derive(Debug, Clone, Copy, PartialEq, Eq, Structural)]
pub enum Alignment {
    Left,
    Center,
    Right,
}

/// A line of spans, with a style of its own below theirs.
#[derive(Debug)]
pub struct Line {
    pub spans: Vec<Span>,
    pub style: Style,
    pub alignment: Option<Alignment>,
}

/// The spans, style and alignment of a line.
pub struct LineView {
    pub spans: Seq<SpanView>,
    pub style: Style,
    pub alignment: Option<Alignment>,
}

impl View for Line {
    type V = LineView;

    open spec fn view(&self) -> LineView {
        LineView { spans: span_views(self.spans@), style: self.style, alignment: self.alignment }
    }
}

/// The lines of a sequence.
pub open spec fn line_views(lines: Seq<Line>) -> Seq<LineView> {
    lines.map_values(|l: Line| l@)
}

/// A line of `spans` that sets nothing of its own.
pub open spec fn line_of(spans: Seq<SpanView>) -> LineView {
    LineView { spans, style: plain(), alignment: None }
}

/// The text of `spans`, one after the other.
pub open spec fn text_of(spans: Seq<SpanView>) -> Seq<char>
    decreases spans.len(),
{
    if spans.len() == 0 {
        Seq::empty()
    } else {
        text_of(spans.drop_last()) + spans.last().content
    }
}

/// The text of two runs of spans is the text of the one, then of the other.
pub proof fn text_of_concat(a: Seq<SpanView>, b: Seq<SpanView>)
    ensures
        text_of(a + b) == text_of(a) + text_of(b),
    decreases b.len(),
{
    if b.len() == 0 {
        assert(a + b == a);
        assert(text_of(a) + text_of(b) == text_of(a));
    } else {
        text_of_concat(a, b.drop_last());
        assert((a + b).drop_last() == a + b.drop_last());
        assert((text_of(a) + text_of(b.drop_last())) + b.last().content == text_of(a) + (text_of(
            b.drop_last(),
        ) + b.last().content));
    }
}

/// The text of a single span.
pub proof fn text_of_one(s: SpanView)
    ensures
        text_of(seq![s]) == s.content,
{
    assert(seq![s].drop_last() == Seq::<SpanView>::empty());
    reveal_with_fuel(text_of, 2);
    assert(Seq::<char>::empty() + s.content == s.content);
}

/// A line of `spans` that sets nothing of its own.
pub fn line(spans: Vec<Span>) -> (r: Line)
    ensures
        r@ == line_of(span_views(spans@)),
        r.spans == spans,
{
    Line { spans, style: Style::default(), alignment: None }
}

/// The view of spans grows with the spans.
pub broadcast proof fn span_views_push(spans: Seq<Span>, s: Span)
    ensures
        #[trigger] span_views(spans.push(s)) == span_views(spans).push(s@),
{
    assert(span_views(spans.push(s)) =~= span_views(spans).push(s@));
}

/// The view of lines grows with the lines.
pub broadcast proof fn line_views_push(lines: Seq<Line>, l: Line)
    ensures
        #[trigger] line_views(lines.push(l)) == line_views(lines).push(l@),
{
    assert(line_views(lines.push(l)) =~= line_views(lines).push(l@));
}

} // verus!
