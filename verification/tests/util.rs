use rug::util::strip_ansi;

#[test]
fn plain_text_passthrough() {
    assert_eq!(strip_ansi("hello world"), "hello world");
}

#[test]
fn strips_ansi_sequences() {
    assert_eq!(strip_ansi("\x1b[1m\x1b[32mhello\x1b[0m"), "hello");
}

#[test]
fn handles_unterminated_escape() {
    assert_eq!(strip_ansi("abc\x1b["), "abc");
}

#[test]
fn stripped_text_is_never_longer() {
    for s in ["", "\x1b", "\x1b[", "\x1b[31", "a\x1b[31mb", "\x1bx", "日\x1b[0m本"] {
        assert!(strip_ansi(s).chars().count() <= s.chars().count());
    }
    assert_eq!(strip_ansi("日\x1b[0m本"), "日本");
}
