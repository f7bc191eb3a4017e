use rug::ui::clipboard::{b64, osc52_sequence, truncate_on_char_boundary, MAX_OSC52_BYTES};

#[test]
fn test_b64_empty() {
    assert_eq!(b64(b""), "");
}

#[test]
fn test_b64_single() {
    assert_eq!(b64(b"f"), "Zg==");
}

#[test]
fn test_b64_two() {
    assert_eq!(b64(b"fo"), "Zm8=");
}

#[test]
fn test_b64_three() {
    assert_eq!(b64(b"foo"), "Zm9v");
}

#[test]
fn test_b64_four() {
    assert_eq!(b64(b"foob"), "Zm9vYg==");
}

#[test]
fn test_b64_five() {
    assert_eq!(b64(b"fooba"), "Zm9vYmE=");
}

#[test]
fn test_b64_six() {
    assert_eq!(b64(b"foobar"), "Zm9vYmFy");
}

#[test]
fn test_b64_null_and_ff() {
    assert_eq!(b64(&[0x00]), "AA==");
    assert_eq!(b64(&[0xff]), "/w==");
    assert_eq!(b64(&[0x00, 0xff]), "AP8=");
}

#[test]
fn test_osc52_sequence_plain() {
    let result = osc52_sequence("test", false);
    assert_eq!(result, "\x1b]52;c;dGVzdA==\x07");
}

#[test]
fn test_osc52_sequence_tmux() {
    let result = osc52_sequence("test", true);
    let expected = "\x1bPtmux;\x1b\x1b]52;c;dGVzdA==\x07\x1b\\";
    assert_eq!(result, expected);
}

#[test]
fn test_truncate_on_char_boundary_within_bounds() {
    let s = "hello";
    assert_eq!(truncate_on_char_boundary(s, 10), "hello");
}

#[test]
fn test_truncate_on_char_boundary_exact() {
    let s = "hello";
    assert_eq!(truncate_on_char_boundary(s, 5), "hello");
}

#[test]
fn test_truncate_on_char_boundary_mid_char() {
    // A cut at byte 4 would split the two bytes of 'é'.
    let s = "café";
    assert_eq!(truncate_on_char_boundary(s, 4), "caf");
}

#[test]
fn test_truncate_on_char_boundary_before_multibyte() {
    let s = "café";
    assert_eq!(truncate_on_char_boundary(s, 3), "caf");
}

#[test]
fn test_truncate_on_char_boundary_include_multibyte() {
    let s = "café";
    assert_eq!(truncate_on_char_boundary(s, 5), "café");
}

#[test]
fn test_truncate_on_char_boundary_zero_max() {
    let s = "hello";
    assert_eq!(truncate_on_char_boundary(s, 0), "");
}

#[test]
fn test_osc52_with_special_chars() {
    let text = "line1\nline2";
    let result = osc52_sequence(text, false);
    assert_eq!(result, "\x1b]52;c;bGluZTEKbGluZTI=\x07");
}

#[test]
fn every_byte_has_its_place_in_base64() {
    let all: Vec<u8> = (0..=255).collect();
    let text = b64(&all);
    assert_eq!(text.len(), 344);
    assert!(text.starts_with("AAECAwQFBgcICQoLDA0ODxAREhMUFRYXGBkaGxwdHh8g"));
    assert!(text.ends_with("+fr7/P3+/w=="));
}

#[test]
fn the_limit_keeps_a_sequence_below_what_terminals_take() {
    assert!(MAX_OSC52_BYTES > 0);
    let long = "é".repeat(MAX_OSC52_BYTES);
    let cut = truncate_on_char_boundary(&long, MAX_OSC52_BYTES);
    assert!(cut.len() <= MAX_OSC52_BYTES);
    assert!(cut.chars().all(|c| c == 'é'));
}
