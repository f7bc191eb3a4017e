//! Clipboard text for the terminal: base64 and the OSC 52 sequence.

use crate::text::chars_of;
use crate::util::ESC;
use vstd::prelude::*;
use vstd::string::StringSliceAdditionalSpecFns;
use vstd::utf8::is_char_boundary;

verus! {

/// The most bytes of text that are put into an OSC 52 sequence; terminals limit
/// its size.
pub const MAX_OSC52_BYTES: usize = 1_000_000;

/// The base64 character of a value below 64.
pub open spec fn b64_char(v: int) -> char {
    if v < 26 {
        ((v + 65) as u8) as char
    } else if v < 52 {
        ((v - 26 + 97) as u8) as char
    } else if v < 62 {
        ((v - 52 + 48) as u8) as char
    } else if v == 62 {
        '+'
    } else {
        '/'
    }
}

/// The base64 text of `data`: four characters for every three bytes, the last
/// group padded with `=`.
pub open spec fn b64_text(data: Seq<u8>) -> Seq<char>
    decreases data.len(),
{
    if data.len() == 0 {
        Seq::empty()
    } else if data.len() == 1 {
        let a = data[0] as int;
        seq![b64_char(a / 4), b64_char((a % 4) * 16), '=', '=']
    } else if data.len() == 2 {
        let a = data[0] as int;
        let b = data[1] as int;
        seq![b64_char(a / 4), b64_char((a % 4) * 16 + b / 16), b64_char((b % 16) * 4), '=']
    } else {
        let a = data[0] as int;
        let b = data[1] as int;
        let c = data[2] as int;
        seq![
            b64_char(a / 4),
            b64_char((a % 4) * 16 + b / 16),
            b64_char((b % 16) * 4 + c / 64),
            b64_char(c % 64),
        ] + b64_text(data.skip(3))
    }
}

fn sextet(v: u8) -> (r: char)
    requires
        v < 64,
    ensures
        r == b64_char(v as int),
{
    if v < 26 {
        (v + 65) as char
    } else if v < 52 {
        (v - 26 + 97) as char
    } else if v < 62 {
        (v - 52 + 48) as char
    } else if v == 62 {
        '+'
    } else {
        '/'
    }
}

/// Base64 with the standard alphabet and padding.
pub fn b64(data: &[u8]) -> (r: String)
    ensures
        r@ == b64_text(data@),
{
    let mut out = String::new();
    let mut i: usize = 0;
    assert(data@.skip(0) == data@);
    while data.len() - i >= 3
        invariant
            i <= data@.len(),
            out@ + b64_text(data@.skip(i as int)) == b64_text(data@),
        decreases data@.len() - i,
    {
        let ghost before = out@;
        let ghost rest = data@.skip(i as int);
        let a: u8 = data[i];
        let b: u8 = data[i + 1];
        let c: u8 = data[i + 2];
        out.push(sextet(a / 4));
        out.push(sextet((a % 4) * 16 + b / 16));
        out.push(sextet((b % 16) * 4 + c / 64));
        out.push(sextet(c % 64));
        i += 3;
        assert(rest.skip(3) == data@.skip(i as int));
        assert(out@ + b64_text(data@.skip(i as int)) =~= before + b64_text(rest));
    }
    let ghost before = out@;
    let ghost rest = data@.skip(i as int);
    if data.len() - i == 1 {
        let a: u8 = data[i];
        out.push(sextet(a / 4));
        out.push(sextet((a % 4) * 16));
        out.push('=');
        out.push('=');
    } else if data.len() - i == 2 {
        let a: u8 = data[i];
        let b: u8 = data[i + 1];
        out.push(sextet(a / 4));
        out.push(sextet((a % 4) * 16 + b / 16));
        out.push(sextet((b % 16) * 4));
        out.push('=');
    }
    assert(out@ =~= before + b64_text(rest));
    out
}

/// The value of a base64 character.
pub open spec fn b64_value(c: char) -> int {
    if 'A' <= c <= 'Z' {
        c as int - 65
    } else if 'a' <= c <= 'z' {
        c as int - 97 + 26
    } else if '0' <= c <= '9' {
        c as int - 48 + 52
    } else if c == '+' {
        62
    } else {
        63
    }
}

/// The bytes that a base64 text stands for.
pub open spec fn b64_bytes(s: Seq<char>) -> Seq<u8>
    decreases s.len(),
{
    if s.len() < 4 {
        Seq::empty()
    } else {
        let w = b64_value(s[0]);
        let x = b64_value(s[1]);
        let y = b64_value(s[2]);
        let z = b64_value(s[3]);
        if s[2] == '=' {
            seq![(w * 4 + x / 16) as u8]
        } else if s[3] == '=' {
            seq![(w * 4 + x / 16) as u8, ((x % 16) * 16 + y / 4) as u8]
        } else {
            seq![
                (w * 4 + x / 16) as u8,
                ((x % 16) * 16 + y / 4) as u8,
                ((y % 4) * 64 + z) as u8,
            ] + b64_bytes(s.skip(4))
        }
    }
}

proof fn b64_char_has_its_value(v: int)
    requires
        0 <= v < 64,
    ensures
        b64_value(b64_char(v)) == v,
        b64_char(v) != '=',
{
}

/// Base64 loses nothing: the text stands for the bytes it was made of. It has
/// four characters for every three bytes begun.
pub proof fn b64_round_trip(data: Seq<u8>)
    ensures
        b64_bytes(b64_text(data)) == data,
        b64_text(data).len() == (data.len() + 2) / 3 * 4,
    decreases data.len(),
{
    let s = b64_text(data);
    if data.len() == 0 {
        assert(b64_bytes(s) =~= data);
    } else {
        let a = data[0] as int;
        b64_char_has_its_value(a / 4);
        if data.len() == 1 {
            b64_char_has_its_value((a % 4) * 16);
            assert(b64_bytes(s) =~= data);
        } else {
            let b = data[1] as int;
            b64_char_has_its_value((a % 4) * 16 + b / 16);
            if data.len() == 2 {
                b64_char_has_its_value((b % 16) * 4);
                assert(b64_bytes(s) =~= data);
            } else {
                let c = data[2] as int;
                b64_char_has_its_value((b % 16) * 4 + c / 64);
                b64_char_has_its_value(c % 64);
                b64_round_trip(data.skip(3));
                assert(s.skip(4) =~= b64_text(data.skip(3)));
                assert(b64_bytes(s) =~= data);
            }
        }
    }
}

/// The last place at or before `max` at which the bytes `b` may be cut without
/// splitting a character.
pub open spec fn cut_before(b: Seq<u8>, max: int) -> int
    decreases max,
{
    if max <= 0 || is_char_boundary(b, max) {
        max
    } else {
        cut_before(b, max - 1)
    }
}

/// `s` cut to at most `max` bytes without splitting a character.
pub fn truncate_on_char_boundary(s: &str, max: usize) -> (r: &str)
    ensures
        s.spec_bytes().len() <= max ==> r@ == s@,
        s.spec_bytes().len() > max ==> r.spec_bytes() == s.spec_bytes().take(
            cut_before(s.spec_bytes(), max as int),
        ),
        r.spec_bytes().len() <= max,
{
    let ghost b = s.spec_bytes();
    if s.as_bytes().len() <= max {
        return s;
    }
    proof {
        vstd::utf8::encode_utf8_valid_utf8(s@);
        vstd::utf8::is_char_boundary_start_end_of_seq(b);
    }
    let mut i: usize = max;
    while i > 0 && !s.is_char_boundary(i)
        invariant
            i <= max,
            b == s.spec_bytes(),
            cut_before(b, max as int) == cut_before(b, i as int),
        decreases i,
    {
        i -= 1;
    }
    let r = s.split_at(i).0;
    assert(b.subrange(0, i as int) == b.take(i as int));
    r
}

/// `s` with every escape character doubled.
pub open spec fn doubled(s: Seq<char>) -> Seq<char>
    decreases s.len(),
{
    if s.len() == 0 {
        Seq::empty()
    } else if s.last() == ESC {
        doubled(s.drop_last()).push(ESC).push(ESC)
    } else {
        doubled(s.drop_last()).push(s.last())
    }
}

/// The sequence that sets the clipboard to `bytes`.
pub open spec fn osc52_plain(bytes: Seq<u8>) -> Seq<char> {
    seq![ESC, ']', '5', '2', ';', 'c', ';'] + b64_text(bytes) + seq!['\u{7}']
}

/// The sequence that sets the clipboard to `bytes`, passed through tmux where
/// asked for.
pub open spec fn osc52_text(bytes: Seq<u8>, tmux_wrap: bool) -> Seq<char> {
    if tmux_wrap {
        seq![ESC, 'P', 't', 'm', 'u', 'x', ';'] + doubled(osc52_plain(bytes)) + seq![ESC, '\\']
    } else {
        osc52_plain(bytes)
    }
}

/// The OSC 52 sequence that sets the clipboard to `text`. With `tmux_wrap` it is
/// wrapped in a tmux passthrough, every escape character doubled, so that it
/// reaches the outer terminal.
pub fn osc52_sequence(text: &str, tmux_wrap: bool) -> (r: String)
    ensures
        r@ == osc52_text(text.spec_bytes(), tmux_wrap),
{
    proof {
        reveal_strlit("]52;c;");
        reveal_strlit("Ptmux;");
    }
    let ghost bytes = text.spec_bytes();
    let encoded = b64(text.as_bytes());
    let mut plain = String::new();
    plain.push(ESC);
    plain.append("]52;c;");
    plain.append(encoded.as_str());
    plain.push('\u{7}');
    assert(plain@ =~= osc52_plain(bytes));
    if !tmux_wrap {
        return plain;
    }
    let cs = chars_of(plain.as_str());
    let mut out = String::new();
    out.push(ESC);
    out.append("Ptmux;");
    let ghost head = out@;
    let mut i: usize = 0;
    assert(out@ =~= head + doubled(cs@.take(0)));
    while i < cs.len()
        invariant
            i <= cs@.len(),
            out@ == head + doubled(cs@.take(i as int)),
        decreases cs@.len() - i,
    {
        let c = cs[i];
        assert(cs@.take(i + 1).drop_last() == cs@.take(i as int));
        let ghost before = out@;
        if c == ESC {
            out.push(ESC);
        }
        out.push(c);
        i += 1;
        assert(out@ =~= head + doubled(cs@.take(i as int)));
    }
    assert(cs@.take(i as int) == cs@);
    out.push(ESC);
    out.push('\\');
    assert(out@ =~= osc52_text(bytes, tmux_wrap));
    out
}

} // verus!
