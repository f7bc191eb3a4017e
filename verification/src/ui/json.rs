//! Colours for lines of JSON, and for what a filter matches.

use crate::text::{
    chars_of, copy_range, find, first_at, holds, is_text, lowercase, string_of, trim_end_chars,
    trim_end_of, trim_start, white_space,
};
use crate::ui::frame::{byte_len, bytes_in, five, one, three};
use crate::ui::style::{line_of, raw, styled, text_of, Color, Line, LineView, Span, SpanView};
use crate::ui::theme::{colored, in_bold, in_color};
use vstd::prelude::*;
use vstd::utf8::{decode_utf8, encode_utf8, is_char_boundary};

verus! {

/// Where a JSON string that has begun before `i` ends: behind the next quote
/// that is not escaped.
pub open spec fn quote_end(s: Seq<char>, i: int) -> Option<int>
    decreases s.len() + 1 - i,
{
    if i < 0 || i >= s.len() {
        None
    } else if s[i] == '\\' {
        quote_end(s, i + 2)
    } else if s[i] == '"' {
        Some(i + 1)
    } else {
        quote_end(s, i + 1)
    }
}

/// Where the JSON string at `start` ends; none where there is no string, or it
/// does not end.
pub open spec fn string_end(s: Seq<char>, start: int) -> Option<int> {
    if 0 <= start < s.len() && s[start] == '"' {
        quote_end(s, start + 1)
    } else {
        None
    }
}

/// The position behind the closing quote of the JSON string at `start`; none
/// where the string is not well formed.
pub fn json_string_end(cs: &[char], start: usize) -> (r: Option<usize>)
    ensures
        (match r {
            Some(k) => Some(k as int),
            None => None,
        }) == string_end(cs@, start as int),
        r is Some ==> r->0 <= cs@.len(),
{
    if start >= cs.len() || cs[start] != '"' {
        return None;
    }
    let mut i: usize = start + 1;
    while i < cs.len()
        invariant
            i <= cs@.len() + 1,
            string_end(cs@, start as int) == quote_end(cs@, i as int),
        decreases cs@.len() + 1 - i,
    {
        if cs[i] == '\\' {
            if i + 1 >= cs.len() {
                assert(quote_end(cs@, i + 2) is None);
                return None;
            }
            i += 2;
        } else if cs[i] == '"' {
            return Some(i + 1);
        } else {
            i += 1;
        }
    }
    None
}

/// The span of a JSON value.
pub open spec fn value_span(v: Seq<char>) -> SpanView {
    styled(
        v,
        in_color(
            if v == "true"@ || v == "false"@ {
                Color::Magenta
            } else if v == "null"@ {
                Color::DarkGray
            } else if is_bracket(v) {
                Color::DarkGray
            } else if v.len() > 0 && v[0] == '"' {
                Color::Green
            } else {
                Color::Cyan
            },
        ),
    )
}

/// Whether a text is a bracket or a brace.
pub open spec fn is_bracket(v: Seq<char>) -> bool {
    v == "{"@ || v == "["@ || v == "}"@ || v == "]"@
}

fn bracket(cs: &[char]) -> (r: bool)
    ensures
        r == is_bracket(cs@),
{
    is_text(cs, "{") || is_text(cs, "[") || is_text(cs, "}") || is_text(cs, "]")
}

/// The span of a JSON value, in the colour of its kind.
pub fn json_value_span(v: &[char]) -> (r: Span)
    ensures
        r@ == value_span(v@),
{
    let color = if is_text(v, "true") || is_text(v, "false") {
        Color::Magenta
    } else if is_text(v, "null") || bracket(v) {
        Color::DarkGray
    } else if v.len() > 0 && v[0] == '"' {
        Color::Green
    } else {
        Color::Cyan
    };
    Span::styled(string_of(v).as_str(), colored(color))
}

/// A comma, where the text ends with one.
pub open spec fn comma_of(s: Seq<char>) -> Seq<char> {
    if s.len() > 0 && s.last() == ',' {
        ","@
    } else {
        ""@
    }
}

fn comma(cs: &[char]) -> (r: &'static str)
    ensures
        r@ == comma_of(cs@),
{
    if cs.len() > 0 && cs[cs.len() - 1] == ',' {
        ","
    } else {
        ""
    }
}

/// The text behind the key of a line, from its colon on; none where the line
/// has no key.
pub open spec fn after_key(t: Seq<char>) -> Option<(Seq<char>, Seq<char>)> {
    match string_end(t, 0) {
        Some(k) => {
            let rest = trim_start(t.skip(k));
            if rest.len() > 0 && rest[0] == ':' {
                Some((t.take(k), trim_start(rest.skip(1))))
            } else {
                None
            }
        },
        None => None,
    }
}

/// A line of JSON in colours: brackets alone, a key with its value, or a value.
pub open spec fn json_line(line: Seq<char>) -> LineView {
    let t = trim_start(line);
    let indent = line.take(line.len() - t.len());
    let body = trim_end_of(t, ',');
    if is_bracket(body) {
        line_of(seq![styled(line, in_color(Color::DarkGray))])
    } else {
        match after_key(t) {
            Some((key, value)) => line_of(
                seq![
                    raw(indent),
                    styled(key, in_color(Color::Yellow)),
                    raw(": "@),
                    value_span(trim_end_of(value, ',')),
                    raw(comma_of(value)),
                ],
            ),
            None => line_of(seq![raw(indent), value_span(body), raw(comma_of(t))]),
        }
    }
}

fn trim_front(cs: &[char]) -> (r: Vec<char>)
    ensures
        r@ == trim_start(cs@),
        r@.len() <= cs@.len(),
        r@ == cs@.skip(cs@.len() - r@.len()),
{
    let mut a: usize = 0;
    assert(cs@.skip(0) == cs@);
    while a < cs.len() && white_space(cs[a])
        invariant
            a <= cs.len(),
            trim_start(cs@) == trim_start(cs@.skip(a as int)),
        decreases cs.len() - a,
    {
        assert(cs@.skip(a as int).skip(1) == cs@.skip(a as int + 1));
        a += 1;
    }
    let r = copy_range(cs, a, cs.len());
    assert(r@ == cs@.skip(a as int));
    r
}

fn split_key(t: &[char]) -> (r: Option<(Vec<char>, Vec<char>)>)
    ensures
        (match r {
            Some((k, v)) => Some((k@, v@)),
            None => None,
        }) == after_key(t@),
{
    match json_string_end(t, 0) {
        Some(k) => {
            let rest = trim_front(copy_range(t, k, t.len()).as_slice());
            assert(t@.subrange(k as int, t@.len() as int) == t@.skip(k as int));
            if rest.len() > 0 && rest[0] == ':' {
                let key = copy_range(t, 0, k);
                assert(key@ == t@.take(k as int));
                let tail = copy_range(rest.as_slice(), 1, rest.len());
                assert(tail@ == rest@.skip(1));
                Some((key, trim_front(tail.as_slice())))
            } else {
                None
            }
        },
        None => None,
    }
}

/// One line of JSON that was laid out over several lines, in colours.
pub fn style_json_line(line: &str) -> (r: Line)
    ensures
        r@ == json_line(line@),
{
    let cs = chars_of(line);
    let t = trim_front(cs.as_slice());
    let n: usize = cs.len() - t.len();
    let indent_chars = copy_range(cs.as_slice(), 0, n);
    assert(indent_chars@ == cs@.take(n as int));
    let indent = string_of(indent_chars.as_slice());
    let body = trim_end_chars(t.as_slice(), ',');
    if bracket(body.as_slice()) {
        return one(Span::styled(line, colored(Color::DarkGray)));
    }
    match split_key(t.as_slice()) {
        Some((key, value)) => {
            let v = trim_end_chars(value.as_slice(), ',');
            five(
                Span::raw(indent.as_str()),
                Span::styled(string_of(key.as_slice()).as_str(), colored(Color::Yellow)),
                Span::raw(": "),
                json_value_span(v.as_slice()),
                Span::raw(comma(value.as_slice())),
            )
        },
        None => three(
            Span::raw(indent.as_str()),
            json_value_span(body.as_slice()),
            Span::raw(comma(t.as_slice())),
        ),
    }
}

/// The first place of `p` in `s`.
pub open spec fn first_place(s: Seq<char>, p: Seq<char>) -> Option<int> {
    if holds(s, p) {
        Some(choose|i: int| first_at(s, p, i))
    } else {
        None
    }
}

/// The text of the bytes from `a` up to `b`.
pub open spec fn bytes_between(s: Seq<char>, a: int, b: int) -> Seq<char> {
    decode_utf8(encode_utf8(s).subrange(a, b))
}

/// A text with the first match of a filter highlighted. The match is found in
/// the lower-case text; where its bytes are not characters of the text itself,
/// nothing is highlighted.
pub open spec fn highlighted_match(text: Seq<char>, filter: Seq<char>) -> Seq<SpanView> {
    let lower = lowercase(text);
    let bytes = encode_utf8(text);
    match first_place(lower, filter) {
        Some(k) => {
            let pos = byte_len(lower.take(k)) as int;
            let end = pos + byte_len(filter);
            if is_char_boundary(bytes, pos) && is_char_boundary(bytes, end) {
                seq![
                    raw(bytes_between(text, 0, pos)),
                    styled(bytes_between(text, pos, end), in_bold(Color::Yellow)),
                    raw(bytes_between(text, end, bytes.len() as int)),
                ]
            } else {
                seq![raw(text)]
            }
        },
        None => seq![raw(text)],
    }
}

proof fn boundary_of_rest(bytes: Seq<u8>, a: int, b: int)
    requires
        vstd::utf8::valid_utf8(bytes),
        is_char_boundary(bytes, a),
        is_char_boundary(bytes, b),
        0 <= a <= b <= bytes.len(),
    ensures
        is_char_boundary(bytes.subrange(a, bytes.len() as int), b - a),
{
    let rest = bytes.subrange(a, bytes.len() as int);
    vstd::utf8::valid_utf8_split(bytes, a);
    vstd::utf8::is_char_boundary_start_end_of_seq(rest);
    if b < bytes.len() {
        vstd::utf8::is_char_boundary_iff_not_is_continuation_byte(bytes, b);
        vstd::utf8::is_char_boundary_iff_not_is_continuation_byte(rest, b - a);
        assert(rest[b - a] == bytes[b]);
    }
}

proof fn boundary_is_within(bytes: Seq<u8>, i: int)
    requires
        vstd::utf8::valid_utf8(bytes),
        is_char_boundary(bytes, i),
    ensures
        0 <= i <= bytes.len(),
{
    reveal_with_fuel(is_char_boundary, 2);
}

fn split_at_bytes(text: &str, pos: usize, end: usize) -> (r: (String, String, String))
    requires
        pos <= end,
        is_char_boundary(encode_utf8(text@), pos as int),
        is_char_boundary(encode_utf8(text@), end as int),
    ensures
        r.0@ == bytes_between(text@, 0, pos as int),
        r.1@ == bytes_between(text@, pos as int, end as int),
        r.2@ == bytes_between(text@, end as int, byte_len(text@) as int),
{
    let ghost b = encode_utf8(text@);
    proof {
        vstd::utf8::encode_utf8_valid_utf8(text@);
        boundary_is_within(b, pos as int);
        boundary_is_within(b, end as int);
        boundary_of_rest(b, pos as int, end as int);
    }
    let (front, rest) = text.split_at(pos);
    let (middle, back) = rest.split_at(end - pos);
    proof {
        vstd::utf8::encode_utf8_decode_utf8(front@);
        vstd::utf8::encode_utf8_decode_utf8(middle@);
        vstd::utf8::encode_utf8_decode_utf8(back@);
        assert(encode_utf8(middle@) =~= b.subrange(pos as int, end as int));
        assert(encode_utf8(back@) =~= b.subrange(end as int, b.len() as int));
    }
    (front.to_owned(), middle.to_owned(), back.to_owned())
}

/// `text` with the first match of `filter`, which is in lower case, in bold.
pub fn highlight_filter_match(text: &str, filter: &str) -> (r: Line)
    ensures
        r@ == line_of(highlighted_match(text@, filter@)),
{
    let lower = text.to_lowercase();
    let cs = chars_of(lower.as_str());
    let ghost bytes = encode_utf8(text@);
    if let Some(k) = find(cs.as_slice(), filter) {
        proof {
            assert(first_at(lower@, filter@, k as int));
            assert(holds(lower@, filter@)) by {
                assert(crate::text::stands_at(lower@, filter@, k as int));
            }
            let c = choose|i: int| first_at(lower@, filter@, i);
            assert(c == k) by {
                if c < k {
                    assert(!crate::text::stands_at(lower@, filter@, c));
                } else if k < c {
                    assert(!crate::text::stands_at(lower@, filter@, k as int));
                }
            }
        }
        let head = copy_range(cs.as_slice(), 0, k);
        assert(head@ == cs@.take(k as int));
        let pos = bytes_in(string_of(head.as_slice()).as_str());
        let len = bytes_in(filter);
        let size = bytes_in(text);
        assert(bytes.len() == size);
        if len <= usize::MAX - pos && text.is_char_boundary(pos) && text.is_char_boundary(
            pos + len,
        ) {
            let (a, b, c) = split_at_bytes(text, pos, pos + len);
            return three(
                Span::raw(a.as_str()),
                Span::styled(b.as_str(), colored(Color::Yellow).bold()),
                Span::raw(c.as_str()),
            );
        }
        proof {
            if len > usize::MAX - pos {
                vstd::utf8::encode_utf8_valid_utf8(text@);
                if is_char_boundary(bytes, pos + len) {
                    boundary_is_within(bytes, pos + len);
                }
            }
        }
    }
    one(Span::raw(text))
}

/// Highlighting a match keeps the text as it is.
pub proof fn highlighting_keeps_the_text(text: Seq<char>, filter: Seq<char>)
    ensures
        text_of(highlighted_match(text, filter)) == text,
{
    reveal_with_fuel(text_of, 4);
    let spans = highlighted_match(text, filter);
    let lower = lowercase(text);
    let b = encode_utf8(text);
    vstd::utf8::encode_utf8_valid_utf8(text);
    vstd::utf8::encode_utf8_decode_utf8(text);
    if spans.len() == 3 {
        let k = first_place(lower, filter)->0;
        let pos = byte_len(lower.take(k)) as int;
        let end = pos + byte_len(filter);
        boundary_is_within(b, pos);
        boundary_is_within(b, end);
        boundary_of_rest(b, pos, end);
        let rest = b.subrange(pos, b.len() as int);
        vstd::utf8::valid_utf8_split(b, pos);
        vstd::utf8::decode_utf8_split(b, pos);
        vstd::utf8::decode_utf8_split(rest, end - pos);
        assert(rest.subrange(0, end - pos) =~= b.subrange(pos, end));
        assert(rest.subrange(end - pos, rest.len() as int) =~= b.subrange(end, b.len() as int));
        assert(text_of(spans) =~= spans[0].content + spans[1].content + spans[2].content);
        assert(text_of(spans) =~= text);
    } else {
        assert(text_of(spans) =~= spans[0].content);
    }
}

} // verus!
