//! Removal of terminal escape sequences.

use crate::text::chars_of;
use vstd::prelude::*;

verus! {

/// The character that starts an escape sequence.
pub const ESC: char = '\u{1b}';

/// Whether `c` is an ASCII letter.
pub open spec fn is_letter(c: char) -> bool {
    'a' <= c <= 'z' || 'A' <= c <= 'Z'
}

/// Whether an escape sequence opens in `s` at `i`.
pub open spec fn opens_at(s: Seq<char>, i: int) -> bool {
    0 <= i && i + 1 < s.len() && s[i] == ESC && s[i + 1] == '['
}

/// The position of the first letter of `s` from `i` on, or the length of `s`.
pub open spec fn letter_from(s: Seq<char>, i: int) -> int
    decreases s.len() - i,
{
    if i >= s.len() || is_letter(s[i]) {
        i
    } else {
        letter_from(s, i + 1)
    }
}

/// Where the text goes on after the body of an escape sequence that starts at
/// `i`: behind its final letter, or at the end when it has none.
pub open spec fn after_escape(s: Seq<char>, i: int) -> int {
    let k = letter_from(s, i);
    if k < s.len() {
        k + 1
    } else {
        k
    }
}

/// The letter search never moves back and never leaves the text.
pub proof fn letter_from_bounds(s: Seq<char>, i: int)
    requires
        i <= s.len(),
    ensures
        i <= letter_from(s, i) <= s.len(),
        letter_from(s, i) < s.len() ==> is_letter(s[letter_from(s, i)]),
        forall|j: int| i <= j < letter_from(s, i) ==> !is_letter(#[trigger] s[j]),
    decreases s.len() - i,
{
    if i < s.len() && !is_letter(s[i]) {
        letter_from_bounds(s, i + 1);
    }
}

/// The text of `s` from `i` on, without escape sequences.
pub open spec fn stripped_from(s: Seq<char>, i: int) -> Seq<char>
    decreases s.len() - i,
{
    if i < 0 || i >= s.len() {
        Seq::empty()
    } else if opens_at(s, i) {
        proof {
            letter_from_bounds(s, i + 2);
        }
        stripped_from(s, after_escape(s, i + 2))
    } else {
        seq![s[i]] + stripped_from(s, i + 1)
    }
}

/// `s` without escape sequences.
pub open spec fn stripped(s: Seq<char>) -> Seq<char> {
    stripped_from(s, 0)
}

/// Whether `c` is an ASCII letter.
pub fn letter(c: char) -> (r: bool)
    ensures
        r == is_letter(c),
{
    ('a' <= c && c <= 'z') || ('A' <= c && c <= 'Z')
}

/// The position of the first letter of `cs` from `from` on, or its length.
pub fn next_letter(cs: &[char], from: usize) -> (r: usize)
    requires
        from <= cs@.len(),
    ensures
        r == letter_from(cs@, from as int),
        from <= r <= cs@.len(),
{
    let mut i: usize = from;
    while i < cs.len() && !letter(cs[i])
        invariant
            from <= i <= cs@.len(),
            letter_from(cs@, from as int) == letter_from(cs@, i as int),
        decreases cs@.len() - i,
    {
        i += 1;
    }
    i
}

/// Removes the escape sequences of `s`: everything from `ESC [` up to the next
/// ASCII letter, or to the end where there is none.
///
/// Terraform and tofu emit colours even when piped on some configurations.
pub fn strip_ansi(s: &str) -> (r: String)
    ensures
        r@ == stripped(s@),
{
    let cs = chars_of(s);
    let mut out = String::new();
    let mut i: usize = 0;
    while i < cs.len()
        invariant
            i <= cs@.len(),
            cs@ == s@,
            out@ + stripped_from(cs@, i as int) == stripped(s@),
        decreases cs@.len() - i,
    {
        let c = cs[i];
        if c == ESC && i + 1 < cs.len() && cs[i + 1] == '[' {
            let k = next_letter(cs.as_slice(), i + 2);
            i = if k < cs.len() { k + 1 } else { k };
        } else {
            let ghost before = out@;
            out.push(c);
            assert(before + (seq![c] + stripped_from(cs@, i + 1)) == out@ + stripped_from(
                cs@,
                i + 1,
            ));
            i += 1;
        }
    }
    assert(out@ + stripped_from(cs@, i as int) == out@);
    out
}

/// Text that holds no escape character is left as it is.
pub proof fn plain_text_is_kept(s: Seq<char>)
    requires
        !s.contains(ESC),
    ensures
        stripped(s) == s,
{
    plain_tail_is_kept(s, 0);
    assert(s.skip(0) == s);
}

proof fn plain_tail_is_kept(s: Seq<char>, i: int)
    requires
        !s.contains(ESC),
        0 <= i <= s.len(),
    ensures
        stripped_from(s, i) == s.skip(i),
    decreases s.len() - i,
{
    if i < s.len() {
        plain_tail_is_kept(s, i + 1);
        assert(seq![s[i]] + s.skip(i + 1) == s.skip(i));
    }
}

/// Removing escape sequences never makes a text longer.
pub proof fn stripped_is_no_longer(s: Seq<char>)
    ensures
        stripped(s).len() <= s.len(),
{
    stripped_tail_is_no_longer(s, 0);
}

proof fn stripped_tail_is_no_longer(s: Seq<char>, i: int)
    requires
        0 <= i <= s.len(),
    ensures
        stripped_from(s, i).len() <= s.len() - i,
    decreases s.len() - i,
{
    if i < s.len() {
        if opens_at(s, i) {
            letter_from_bounds(s, i + 2);
            stripped_tail_is_no_longer(s, after_escape(s, i + 2));
        } else {
            stripped_tail_is_no_longer(s, i + 1);
        }
    }
}

} // verus!
