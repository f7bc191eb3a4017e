use rug::ui::style;
use rug::ui::style::{Color, Line, Span};
use rug::ui::theme::{
    command_text, cursor_row, lift_color, lift_fg, line_width, muted, spinner, ACCENT, COUNT_ADD,
    COUNT_CHANGE, COUNT_DESTROY, COUNT_FORGET, COUNT_IMPORT, COUNT_NONE, ERR, MARK, MUTED, OK, WARN,
};

const PALETTE: &[Color] = &[
    ACCENT,
    MUTED,
    MARK,
    OK,
    ERR,
    WARN,
    COUNT_ADD,
    COUNT_CHANGE,
    COUNT_DESTROY,
    COUNT_IMPORT,
    COUNT_FORGET,
    COUNT_NONE,
    Color::Black,
    Color::Blue,
    Color::Reset,
    Color::White,
    Color::Gray,
    Color::LightBlue,
];

fn plain(text: &str) -> Line {
    style::line(vec![Span::raw(text)])
}

#[test]
fn lift_color_never_yields_the_cursor_background() {
    for &c in PALETTE {
        assert_ne!(
            lift_color(c),
            MUTED,
            "{c:?} lifts to the cursor bar's own colour: it would be invisible"
        );
    }
}

#[test]
fn lift_color_is_idempotent() {
    for &c in PALETTE {
        assert_eq!(lift_color(lift_color(c)), lift_color(c), "{c:?}");
    }
}

#[test]
fn lift_fg_leaves_unstyled_spans_alone() {
    let line = style::line(vec![
        Span::raw("plain"),
        Span::styled("muted", muted()),
        Span::styled("cmd", command_text()),
    ]);
    let lifted = lift_fg(line);
    assert_eq!(lifted.spans[0].style.fg, None, "no fg to lift");
    assert_eq!(lifted.spans[1].style.fg, Some(Color::Gray));
    assert_eq!(lifted.spans[2].style.fg, Some(Color::LightBlue));
}

#[test]
fn cursor_row_pads_to_the_full_width() {
    let row = cursor_row(plain("abc"), 10);
    assert_eq!(line_width(&row), 10);
    assert_eq!(row.style.bg, Some(MUTED));
}

#[test]
fn cursor_row_handles_content_wider_than_the_row() {
    let row = cursor_row(plain("abcdefghij"), 4);
    assert_eq!(line_width(&row), 10);
}

#[test]
fn wide_characters_take_two_cells() {
    assert_eq!(line_width(&plain("日本")), 4);
    let row = cursor_row(plain("日本"), 10);
    assert_eq!(line_width(&row), 10);
}

#[test]
fn the_spinner_turns_every_other_tick() {
    assert_eq!(spinner(0), spinner(1));
    assert_ne!(spinner(1), spinner(2));
    assert_eq!(spinner(0), spinner(8));
}
