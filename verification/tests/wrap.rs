use rug::ui::style;
use rug::ui::style::{Color, Line, Span, Style};
use rug::ui::wrap::wrap_line;

fn plain(text: &str) -> Line {
    style::line(vec![Span::raw(text)])
}

fn texts(lines: Vec<Line>) -> Vec<String> {
    lines
        .into_iter()
        .map(|l| l.spans.iter().map(|s| s.content.as_str()).collect())
        .collect()
}

#[test]
fn wraps_long_lines_with_continuation_indent() {
    let rendered = texts(wrap_line(plain("abcdefghij"), 4, 2, 10));

    assert_eq!(rendered, vec!["abcd", "  ef", "  gh", "  ij"]);
}

#[test]
fn trims_padding_at_wrap_boundaries() {
    let rendered = texts(wrap_line(plain("ab    cd"), 4, 2, 10));

    assert_eq!(rendered, vec!["ab", "  cd"]);
}

#[test]
fn preserves_span_styles_across_wraps() {
    let style = Style::default().fg(Color::Green);
    let lines = wrap_line(style::line(vec![Span::styled("abcdef", style)]), 3, 1, 10);

    assert_eq!(lines[0].spans[0].style, style);
    assert_eq!(lines[1].spans[1].style, style);
}

#[test]
fn caps_wrapped_line_count() {
    let rendered = texts(wrap_line(plain("abcdefghij"), 3, 1, 2));

    assert_eq!(rendered, vec!["abc", " de"]);
}

#[test]
fn clusters_are_not_torn_apart() {
    let rendered = texts(wrap_line(plain("ae\u{0301}b"), 2, 0, 10));
    assert_eq!(rendered, vec!["ae\u{0301}", "b"]);
}
