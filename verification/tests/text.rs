use rug::text::{
    chars_of, comes_before, decimal_of, insert_text, lines_of, parse_u32, string_of, trim_chars,
    white_space, words_of,
};

#[test]
fn white_space_is_what_unicode_calls_white_space() {
    for n in 0..=char::MAX as u32 {
        if let Some(c) = char::from_u32(n) {
            assert_eq!(white_space(c), c.is_whitespace(), "U+{n:04X}");
        }
    }
}

#[test]
fn trimming_is_that_of_strings() {
    for s in ["", " ", " a b ", "\t日 \u{3000}", "x"] {
        assert_eq!(string_of(&trim_chars(&chars_of(s))), s.trim());
    }
}

#[test]
fn lines_are_those_of_strings() {
    for s in ["", "a", "a\n", "a\nb", "a\r\nb\r\n", "\n\n", "a\rb"] {
        let expected: Vec<&str> = s.lines().collect();
        assert_eq!(lines_of(s), expected, "{s:?}");
    }
}

#[test]
fn words_are_those_of_strings() {
    for s in ["", "  ", "a b", "  a\tb  c "] {
        let words: Vec<String> = words_of(&chars_of(s)).iter().map(|w| string_of(w)).collect();
        let expected: Vec<&str> = s.split_whitespace().collect();
        assert_eq!(words, expected, "{s:?}");
    }
}

#[test]
fn numbers_are_those_of_strings() {
    for n in [0u64, 9, 10, 99, 100, 4_294_967_295, u64::MAX] {
        assert_eq!(decimal_of(n), n.to_string());
    }
    for s in ["", "0", "12", "+7", "-1", "4294967295", "4294967296", "1x", "+"] {
        assert_eq!(parse_u32(&chars_of(s)), s.parse::<u32>().ok(), "{s:?}");
    }
}

#[test]
fn texts_are_ordered_like_strings() {
    let words = ["", "a", "ab", "b", "日", "é", "A"];
    for a in words {
        for b in words {
            assert_eq!(comes_before(a, b), a < b, "{a:?} {b:?}");
        }
    }
    let mut sorted: Vec<String> = Vec::new();
    for w in ["b", "a", "é", "b", ""] {
        insert_text(&mut sorted, w);
    }
    assert_eq!(sorted, vec!["", "a", "b", "é"]);
}
