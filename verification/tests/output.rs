use rug::ui::output::{apply_sgr, parse_ansi, slice_spans};
use rug::ui::style;
use rug::ui::style::{Color, Line, Span, Style};
use rug::util::strip_ansi;

fn one(text: &str, style: Style) -> Line {
    style::line(vec![Span::styled(text, style)])
}

#[test]
fn slice_mid_span() {
    let line = one("hello world", Style::default().fg(Color::Green));
    let sliced = slice_spans(&line, 3..8, None);
    assert_eq!(sliced.spans.len(), 1);
    assert_eq!(sliced.spans[0].content, "lo wo");
    assert_eq!(sliced.spans[0].style, Style::default().fg(Color::Green));
}

#[test]
fn slice_across_span_boundary() {
    let line = style::line(vec![
        Span::styled("abc", Style::default().fg(Color::Red)),
        Span::styled("defgh", Style::default().fg(Color::Blue)),
    ]);
    // "bc" from the first span, "def" from the second.
    let sliced = slice_spans(&line, 1..6, None);
    assert_eq!(sliced.spans.len(), 2);
    assert_eq!(sliced.spans[0].content, "bc");
    assert_eq!(sliced.spans[0].style, Style::default().fg(Color::Red));
    assert_eq!(sliced.spans[1].content, "def");
    assert_eq!(sliced.spans[1].style, Style::default().fg(Color::Blue));
}

#[test]
fn slice_full_range_equals_whole_line() {
    let line = one("abcdef", Style::default().fg(Color::Yellow));
    let sliced = slice_spans(&line, 0..6, None);
    assert_eq!(sliced.spans.len(), 1);
    assert_eq!(sliced.spans[0].content, "abcdef");
}

#[test]
fn slice_empty_range_produces_empty_line() {
    let line = one("abcdef", Style::default().fg(Color::Yellow));
    let sliced = slice_spans(&line, 3..3, None);
    assert!(sliced.spans.is_empty());
}

#[test]
fn slice_range_end_beyond_text_clamps() {
    let line = one("abc", Style::default().fg(Color::Yellow));
    let sliced = slice_spans(&line, 1..1000, None);
    assert_eq!(sliced.spans.len(), 1);
    assert_eq!(sliced.spans[0].content, "bc");
}

#[test]
fn slice_selection_overlay_partial() {
    let line = one("hello world", Style::default().fg(Color::Green));
    // The selection covers "llo w".
    let sliced = slice_spans(&line, 0..11, Some(2..7));
    assert_eq!(sliced.spans.len(), 3);
    assert_eq!(sliced.spans[0].content, "he");
    assert!(!sliced.spans[0].style.add_modifier.reversed);
    assert_eq!(sliced.spans[0].style.fg, Some(Color::Green));

    assert_eq!(sliced.spans[1].content, "llo w");
    assert!(sliced.spans[1].style.add_modifier.reversed);
    assert_eq!(sliced.spans[1].style.fg, Some(Color::Green));

    assert_eq!(sliced.spans[2].content, "orld");
    assert!(!sliced.spans[2].style.add_modifier.reversed);
    assert_eq!(sliced.spans[2].style.fg, Some(Color::Green));
}

#[test]
fn slice_selection_outside_range_no_reverse() {
    let line = one("hello world", Style::default());
    let sliced = slice_spans(&line, 0..5, Some(6..11));
    assert!(sliced.spans.iter().all(|s| !s.style.add_modifier.reversed));
}

#[test]
fn slice_selection_none_no_reverse() {
    let line = one("hello world", Style::default());
    let sliced = slice_spans(&line, 0..11, None);
    assert!(sliced.spans.iter().all(|s| !s.style.add_modifier.reversed));
}

#[test]
fn slice_multibyte() {
    let line = one("日本語", Style::default().fg(Color::Cyan));
    let sliced = slice_spans(&line, 1..3, None);
    assert_eq!(sliced.spans.len(), 1);
    assert_eq!(sliced.spans[0].content, "本語");
}

#[test]
fn parse_ansi_and_strip_ansi_agree_on_text() {
    let cases = [
        "plain text",
        "\x1b[1;32mgreen\x1b[0m mixed",
        "pre\x1b[2Kpost",
        "trailing\x1b[3",
    ];
    for s in cases {
        let parsed_text: String =
            parse_ansi(s).spans.iter().map(|sp| sp.content.as_str()).collect();
        let stripped = strip_ansi(s);
        assert_eq!(
            parsed_text, stripped,
            "parse_ansi/strip_ansi text mismatch for {s:?}"
        );
    }
}

#[test]
fn escape_codes_set_and_reset_styles() {
    let l = parse_ansi("\x1b[1;32mgreen\x1b[0m mixed");
    assert_eq!(l.spans[0].content, "green");
    assert_eq!(l.spans[0].style.fg, Some(Color::Green));
    assert!(l.spans[0].style.add_modifier.bold);
    assert_eq!(l.spans[1].content, " mixed");
    assert_eq!(l.spans[1].style, Style::default());

    let code: Vec<char> = "31".chars().collect();
    assert_eq!(apply_sgr(&code, Style::default()).fg, Some(Color::Red));
}
