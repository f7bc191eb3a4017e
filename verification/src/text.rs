//! Text as sequences of characters: trimming, splitting, searching, decimal
//! numbers and ordering.

use vstd::prelude::*;

verus! {

/// `String::push` appends one character to the end of the string.
pub assume_specification[ String::push ](s: &mut String, c: char)
    ensures
        final(s)@ == old(s)@.push(c),
;

/// `String::pop` takes the last character off the string and returns it; an
/// empty string gives none and stays empty.
pub assume_specification[ String::pop ](s: &mut String) -> (r: Option<char>)
    ensures
        match r {
            Some(c) => old(s)@.len() > 0 && c == old(s)@.last() && final(s)@ == old(s)@.drop_last(),
            None => old(s)@.len() == 0 && final(s)@ == old(s)@,
        },
;

/// The lowercase form of a text.
pub uninterp spec fn lowercase(s: Seq<char>) -> Seq<char>;

/// `str::to_lowercase` gives the lowercase form of the text, character by
/// character as Unicode defines it.
pub assume_specification[ str::to_lowercase ](s: &str) -> (r: String)
    ensures
        r@ == lowercase(s@),
;

/// The uppercase form of a text.
pub uninterp spec fn uppercase(s: Seq<char>) -> Seq<char>;

/// `str::to_uppercase` gives the uppercase form of the text, character by
/// character as Unicode defines it.
pub assume_specification[ str::to_uppercase ](s: &str) -> (r: String)
    ensures
        r@ == uppercase(s@),
;

/// The texts of a sequence of strings.
pub open spec fn texts(v: Seq<String>) -> Seq<Seq<char>> {
    v.map_values(|s: String| s@)
}

/// The texts grow with the strings.
pub broadcast proof fn texts_push(v: Seq<String>, s: String)
    ensures
        #[trigger] texts(v.push(s)) == texts(v).push(s@),
{
    assert(texts(v.push(s)) =~= texts(v).push(s@));
}

/// The characters with the Unicode property `White_Space`.
pub open spec fn is_white_space(c: char) -> bool {
    ||| '\u{9}' <= c <= '\u{d}'
    ||| c == '\u{20}'
    ||| c == '\u{85}'
    ||| c == '\u{a0}'
    ||| c == '\u{1680}'
    ||| '\u{2000}' <= c <= '\u{200a}'
    ||| c == '\u{2028}'
    ||| c == '\u{2029}'
    ||| c == '\u{202f}'
    ||| c == '\u{205f}'
    ||| c == '\u{3000}'
}

/// Whether `c` is white space.
pub fn white_space(c: char) -> (r: bool)
    ensures
        r == is_white_space(c),
{
    ('\u{9}' <= c && c <= '\u{d}') || c == '\u{20}' || c == '\u{85}' || c == '\u{a0}' || c
        == '\u{1680}' || ('\u{2000}' <= c && c <= '\u{200a}') || c == '\u{2028}' || c == '\u{2029}'
        || c == '\u{202f}' || c == '\u{205f}' || c == '\u{3000}'
}

/// The characters of `s`, in order.
pub fn chars_of(s: &str) -> (r: Vec<char>)
    ensures
        r@ == s@,
{
    let mut out: Vec<char> = Vec::new();
    for c in it: s.chars()
        invariant
            it.seq() == s@,
            out@ == s@.take(it.index() as int),
    {
        out.push(c);
    }
    out
}

/// The string that holds `cs`.
pub fn string_of(cs: &[char]) -> (r: String)
    ensures
        r@ == cs@,
{
    let mut out = String::new();
    let mut i: usize = 0;
    while i < cs.len()
        invariant
            i <= cs.len(),
            out@ == cs@.take(i as int),
        decreases cs.len() - i,
    {
        out.push(cs[i]);
        i += 1;
    }
    assert(cs@.take(i as int) == cs@);
    out
}

/// Whether two strings hold the same text.
pub fn same(a: &str, b: &str) -> (r: bool)
    ensures
        r == (a@ == b@),
{
    a.to_owned() == b.to_owned()
}

/// `s` without the white space it starts with.
pub open spec fn trim_start(s: Seq<char>) -> Seq<char>
    decreases s.len(),
{
    if s.len() > 0 && is_white_space(s[0]) {
        trim_start(s.skip(1))
    } else {
        s
    }
}

/// `s` without the white space it ends with.
pub open spec fn trim_end(s: Seq<char>) -> Seq<char>
    decreases s.len(),
{
    if s.len() > 0 && is_white_space(s.last()) {
        trim_end(s.drop_last())
    } else {
        s
    }
}

/// `s` without leading and trailing white space.
pub open spec fn trim(s: Seq<char>) -> Seq<char> {
    trim_end(trim_start(s))
}

/// `s` without the characters `c` it ends with.
pub open spec fn trim_end_of(s: Seq<char>, c: char) -> Seq<char>
    decreases s.len(),
{
    if s.len() > 0 && s.last() == c {
        trim_end_of(s.drop_last(), c)
    } else {
        s
    }
}

/// Whether `s` begins with `p`.
pub open spec fn begins(s: Seq<char>, p: Seq<char>) -> bool {
    p.len() <= s.len() && s.take(p.len() as int) == p
}

/// Whether `p` stands in `s` at position `i`.
pub open spec fn stands_at(s: Seq<char>, p: Seq<char>, i: int) -> bool {
    0 <= i && i + p.len() <= s.len() && s.subrange(i, i + p.len()) == p
}

/// Whether `p` stands somewhere in `s`.
pub open spec fn holds(s: Seq<char>, p: Seq<char>) -> bool {
    exists|i: int| stands_at(s, p, i)
}

/// Whether `i` is the first position at which `p` stands in `s`.
pub open spec fn first_at(s: Seq<char>, p: Seq<char>, i: int) -> bool {
    &&& stands_at(s, p, i)
    &&& forall|j: int| 0 <= j < i ==> !stands_at(s, p, j)
}

/// `cs` without leading and trailing white space.
pub fn trim_chars(cs: &[char]) -> (r: Vec<char>)
    ensures
        r@ == trim(cs@),
{
    let mut a: usize = 0;
    assert(cs@.skip(0) == cs@);
    while a < cs.len() && white_space(cs[a])
        invariant
            a <= cs.len(),
            trim_start(cs@) == trim_start(cs@.skip(a as int)),
        decreases cs.len() - a,
    {
        assert(cs@.skip(a as int).skip(1) == cs@.skip(a as int + 1));
        a += 1;
    }
    let ghost rest = cs@.skip(a as int);
    assert(trim_start(cs@) == rest);
    let mut b: usize = cs.len();
    while b > a && white_space(cs[b - 1])
        invariant
            a <= b <= cs.len(),
            rest == cs@.skip(a as int),
            trim_end(rest) == trim_end(cs@.subrange(a as int, b as int)),
        decreases b,
    {
        assert(cs@.subrange(a as int, b as int).drop_last() == cs@.subrange(a as int, b - 1));
        b -= 1;
    }
    copy_range(cs, a, b)
}

/// The characters of `cs` from `from` up to `to`.
pub fn copy_range(cs: &[char], from: usize, to: usize) -> (r: Vec<char>)
    requires
        from <= to <= cs@.len(),
    ensures
        r@ == cs@.subrange(from as int, to as int),
{
    let mut out: Vec<char> = Vec::new();
    let mut i: usize = from;
    while i < to
        invariant
            from <= i <= to <= cs@.len(),
            out@ == cs@.subrange(from as int, i as int),
        decreases to - i,
    {
        out.push(cs[i]);
        assert(cs@.subrange(from as int, i as int).push(cs@[i as int]) == cs@.subrange(
            from as int,
            i + 1,
        ));
        i += 1;
    }
    out
}

/// `cs` without the characters `c` it ends with.
pub fn trim_end_chars(cs: &[char], c: char) -> (r: Vec<char>)
    ensures
        r@ == trim_end_of(cs@, c),
{
    let mut b: usize = cs.len();
    assert(cs@.subrange(0, b as int) == cs@);
    while b > 0 && cs[b - 1] == c
        invariant
            b <= cs.len(),
            trim_end_of(cs@, c) == trim_end_of(cs@.subrange(0, b as int), c),
        decreases b,
    {
        assert(cs@.subrange(0, b as int).drop_last() == cs@.subrange(0, b - 1));
        b -= 1;
    }
    copy_range(cs, 0, b)
}

/// Whether `p` stands in `cs` at position `at`.
pub fn matches_at(cs: &[char], p: &[char], at: usize) -> (r: bool)
    ensures
        r == stands_at(cs@, p@, at as int),
{
    if at > cs.len() || p.len() > cs.len() - at {
        return false;
    }
    let mut i: usize = 0;
    while i < p.len()
        invariant
            i <= p.len(),
            at + p.len() <= cs.len(),
            forall|j: int| 0 <= j < i ==> p@[j] == cs@[at + j],
        decreases p.len() - i,
    {
        if cs[at + i] != p[i] {
            assert(cs@.subrange(at as int, at + p.len())[i as int] != p@[i as int]);
            return false;
        }
        i += 1;
    }
    assert(cs@.subrange(at as int, at + p.len()) == p@);
    true
}

/// Whether `cs` begins with `p`.
pub fn begins_with(cs: &[char], p: &str) -> (r: bool)
    ensures
        r == begins(cs@, p@),
{
    let p = chars_of(p);
    let r = matches_at(cs, p.as_slice(), 0);
    assert(p@.len() <= cs@.len() ==> cs@.take(p@.len() as int) == cs@.subrange(
        0,
        p@.len() as int,
    ));
    r
}

/// The first position at which `p` stands in `cs`, if there is one.
pub fn find(cs: &[char], p: &str) -> (r: Option<usize>)
    ensures
        match r {
            Some(i) => first_at(cs@, p@, i as int),
            None => !holds(cs@, p@),
        },
{
    let p = chars_of(p);
    find_from(cs, p.as_slice(), 0)
}

/// The first position from `from` on at which `p` stands in `cs`, if there is one.
pub fn find_from(cs: &[char], p: &[char], from: usize) -> (r: Option<usize>)
    ensures
        match r {
            Some(i) => {
                &&& from <= i
                &&& stands_at(cs@, p@, i as int)
                &&& forall|j: int| from <= j < i ==> !stands_at(cs@, p@, j)
            },
            None => forall|j: int| from <= j ==> !stands_at(cs@, p@, j),
        },
{
    let mut i: usize = from;
    while i <= cs.len()
        invariant
            from <= i,
            i <= cs.len() + 1 || i == from,
            forall|j: int| from <= j < i ==> !stands_at(cs@, p@, j),
        decreases cs.len() + 1 - i,
    {
        if matches_at(cs, p, i) {
            return Some(i);
        }
        if i == cs.len() {
            return None;
        }
        i += 1;
    }
    None
}

/// Whether `p` stands somewhere in `cs`.
pub fn contains(cs: &[char], p: &str) -> (r: bool)
    ensures
        r == holds(cs@, p@),
{
    find(cs, p).is_some()
}

/// `s` cut at every `sep`: one piece more than there are separators.
pub open spec fn split_on(s: Seq<char>, sep: char) -> Seq<Seq<char>>
    decreases s.len(),
{
    if s.len() == 0 {
        seq![Seq::<char>::empty()]
    } else {
        let rest = split_on(s.drop_last(), sep);
        if s.last() == sep {
            rest.push(Seq::empty())
        } else {
            rest.drop_last().push(rest.last().push(s.last()))
        }
    }
}

/// `s` cut at every white space character.
pub open spec fn split_blank(s: Seq<char>) -> Seq<Seq<char>>
    decreases s.len(),
{
    if s.len() == 0 {
        seq![Seq::<char>::empty()]
    } else {
        let rest = split_blank(s.drop_last());
        if is_white_space(s.last()) {
            rest.push(Seq::empty())
        } else {
            rest.drop_last().push(rest.last().push(s.last()))
        }
    }
}

/// The words of `s`: the non-empty pieces between white space.
pub open spec fn words(s: Seq<char>) -> Seq<Seq<char>> {
    split_blank(s).filter(|w: Seq<char>| w.len() > 0)
}

/// The pieces of a vector of character vectors.
pub open spec fn pieces(v: Seq<Vec<char>>) -> Seq<Seq<char>> {
    v.map_values(|w: Vec<char>| w@)
}

/// Cutting a text leaves at least one piece.
pub proof fn split_on_has_a_piece(s: Seq<char>, sep: char)
    ensures
        split_on(s, sep).len() > 0,
    decreases s.len(),
{
    if s.len() > 0 {
        split_on_has_a_piece(s.drop_last(), sep);
    }
}

proof fn split_blank_nonempty(s: Seq<char>)
    ensures
        split_blank(s).len() > 0,
    decreases s.len(),
{
    if s.len() > 0 {
        split_blank_nonempty(s.drop_last());
    }
}

/// The pieces of `cs` between the separators `sep`.
pub fn split_chars(cs: &[char], sep: char) -> (r: Vec<Vec<char>>)
    ensures
        pieces(r@) == split_on(cs@, sep),
{
    let mut out: Vec<Vec<char>> = Vec::new();
    let mut cur: Vec<char> = Vec::new();
    let mut i: usize = 0;
    assert(pieces(out@).push(cur@) == split_on(cs@.take(0), sep));
    while i < cs.len()
        invariant
            i <= cs.len(),
            pieces(out@).push(cur@) == split_on(cs@.take(i as int), sep),
        decreases cs.len() - i,
    {
        let c = cs[i];
        assert(cs@.take(i + 1).drop_last() == cs@.take(i as int));
        let ghost before = pieces(out@);
        let ghost piece = cur@;
        assert(before.push(piece).drop_last() == before);
        if c == sep {
            out.push(cur);
            cur = Vec::new();
            assert(pieces(out@) == before.push(piece));
        } else {
            cur.push(c);
        }
        i += 1;
        assert(pieces(out@).push(cur@) == split_on(cs@.take(i as int), sep));
    }
    let ghost before = pieces(out@);
    let ghost piece = cur@;
    out.push(cur);
    assert(pieces(out@) == before.push(piece));
    assert(cs@.take(i as int) == cs@);
    out
}

/// The words of `cs`.
pub fn words_of(cs: &[char]) -> (r: Vec<Vec<char>>)
    ensures
        pieces(r@) == words(cs@),
{
    let ghost full = |w: Seq<char>| w.len() > 0;
    let mut out: Vec<Vec<char>> = Vec::new();
    let mut cur: Vec<char> = Vec::new();
    let mut i: usize = 0;
    proof {
        reveal(Seq::filter);
        assert(split_blank(cs@.take(0)).drop_last() == Seq::<Seq<char>>::empty());
        assert(pieces(out@) == Seq::<Seq<char>>::empty());
    }
    while i < cs.len()
        invariant
            i <= cs.len(),
            full == (|w: Seq<char>| w.len() > 0),
            pieces(out@) == split_blank(cs@.take(i as int)).drop_last().filter(full),
            cur@ == split_blank(cs@.take(i as int)).last(),
        decreases cs.len() - i,
    {
        let c = cs[i];
        let ghost before = pieces(out@);
        let ghost piece = cur@;
        let ghost cut = split_blank(cs@.take(i as int));
        proof {
            assert(cs@.take(i + 1).drop_last() == cs@.take(i as int));
            split_blank_nonempty(cs@.take(i as int));
            assert(cut.drop_last().push(piece) == cut);
            cut.drop_last().lemma_filter_push(piece, full);
        }
        if white_space(c) {
            if cur.len() > 0 {
                out.push(cur);
                assert(pieces(out@) == before.push(piece));
            }
            cur = Vec::new();
            assert(cut.push(Seq::empty()).drop_last() == cut);
        } else {
            cur.push(c);
            assert(cut.drop_last().push(piece.push(c)).drop_last() == cut.drop_last());
        }
        i += 1;
    }
    proof {
        assert(cs@.take(i as int) == cs@);
        split_blank_nonempty(cs@);
        let cut = split_blank(cs@);
        assert(cut.drop_last().push(cut.last()) == cut);
        cut.drop_last().lemma_filter_push(cut.last(), full);
    }
    let ghost before = pieces(out@);
    let ghost piece = cur@;
    if cur.len() > 0 {
        out.push(cur);
        assert(pieces(out@) == before.push(piece));
    }
    out
}

/// The decimal digit of a value below ten.
pub open spec fn digit(d: int) -> char {
    ((d + 48) as u8) as char
}

/// `n` in decimal notation.
pub open spec fn decimal(n: nat) -> Seq<char>
    decreases n,
{
    if n < 10 {
        seq![digit(n as int)]
    } else {
        decimal(n / 10).push(digit((n % 10) as int))
    }
}

/// `n` in decimal notation.
pub fn decimal_of(n: u64) -> (r: String)
    ensures
        r@ == decimal(n as nat),
    decreases n,
{
    let d: u8 = (n % 10) as u8 + 48;
    let c: char = d as char;
    if n < 10 {
        let mut s = String::new();
        s.push(c);
        s
    } else {
        let mut s = decimal_of(n / 10);
        s.push(c);
        s
    }
}

/// Whether `c` is an ASCII digit.
pub open spec fn is_digit(c: char) -> bool {
    '0' <= c <= '9'
}

/// Whether `s` holds ASCII digits only.
pub open spec fn all_digits(s: Seq<char>) -> bool {
    forall|i: int| 0 <= i < s.len() ==> is_digit(#[trigger] s[i])
}

/// The number that a sequence of digits denotes.
pub open spec fn digits_value(s: Seq<char>) -> nat
    decreases s.len(),
{
    if s.len() == 0 {
        0
    } else {
        digits_value(s.drop_last()) * 10 + (s.last() as int - 48) as nat
    }
}

/// `s` without one leading plus sign.
pub open spec fn unsigned_part(s: Seq<char>) -> Seq<char> {
    if s.len() > 0 && s[0] == '+' {
        s.skip(1)
    } else {
        s
    }
}

/// The `u32` that `s` denotes: an optional plus sign and at least one digit,
/// nothing else, with a value in range.
pub open spec fn u32_value(s: Seq<char>) -> Option<u32> {
    let d = unsigned_part(s);
    if d.len() > 0 && all_digits(d) && digits_value(d) <= u32::MAX {
        Some(digits_value(d) as u32)
    } else {
        None
    }
}

proof fn digits_value_grows(s: Seq<char>, i: int)
    requires
        0 <= i <= s.len(),
        all_digits(s),
    ensures
        digits_value(s.take(i)) <= digits_value(s),
    decreases s.len() - i,
{
    if i < s.len() {
        digits_value_grows(s, i + 1);
        assert(s.take(i + 1).drop_last() == s.take(i));
        assert(is_digit(s[i]));
    } else {
        assert(s.take(i) == s);
    }
}

/// Reads a `u32` in decimal notation.
pub fn parse_u32(cs: &[char]) -> (r: Option<u32>)
    ensures
        r == u32_value(cs@),
{
    let from: usize = if cs.len() > 0 && cs[0] == '+' { 1 } else { 0 };
    let ghost d = unsigned_part(cs@);
    assert(d == cs@.skip(from as int));
    if from == cs.len() {
        return None;
    }
    let mut v: u32 = 0;
    let mut i: usize = from;
    while i < cs.len()
        invariant
            from <= i <= cs.len(),
            d == unsigned_part(cs@),
            d == cs@.skip(from as int),
            d.len() > 0,
            forall|j: int| 0 <= j < i - from ==> is_digit(d[j]),
            v == digits_value(d.take(i - from)),
        decreases cs.len() - i,
    {
        let c = cs[i];
        assert(c == d[i - from]);
        if c < '0' || c > '9' {
            assert(!is_digit(d[i - from]));
            return None;
        }
        let x: u32 = c as u32 - 48;
        assert(d.take(i - from + 1).drop_last() == d.take(i - from));
        let w: u64 = v as u64 * 10 + x as u64;
        if w > 0xffff_ffff {
            proof {
                if all_digits(d) {
                    digits_value_grows(d, i - from + 1);
                }
            }
            return None;
        }
        v = w as u32;
        i += 1;
    }
    assert(d.take(i - from) == d);
    Some(v)
}

/// The pieces of `parts` with `sep` between each two.
pub open spec fn joined(parts: Seq<Seq<char>>, sep: Seq<char>) -> Seq<char>
    decreases parts.len(),
{
    if parts.len() == 0 {
        Seq::empty()
    } else if parts.len() == 1 {
        parts[0]
    } else {
        joined(parts.drop_last(), sep) + sep + parts.last()
    }
}

/// The strings of `parts` with `sep` between each two.
pub fn join(parts: &Vec<String>, sep: &str) -> (r: String)
    ensures
        r@ == joined(texts(parts@), sep@),
{
    let mut out = String::new();
    let mut i: usize = 0;
    while i < parts.len()
        invariant
            i <= parts.len(),
            out@ == joined(texts(parts@).take(i as int), sep@),
        decreases parts.len() - i,
    {
        let ghost all = texts(parts@);
        assert(all.take(i + 1).drop_last() == all.take(i as int));
        if i > 0 {
            out.append(sep);
        }
        out.append(parts[i].as_str());
        i += 1;
        assert(out@ == joined(all.take(i as int), sep@));
    }
    assert(texts(parts@).take(i as int) == texts(parts@));
    out
}

/// Whether `cs` is exactly the text `s`.
pub fn is_text(cs: &[char], s: &str) -> (r: bool)
    ensures
        r == (cs@ == s@),
{
    let p = chars_of(s);
    let r = p.len() == cs.len() && matches_at(cs, p.as_slice(), 0);
    assert(cs@.subrange(0, cs@.len() as int) == cs@);
    r
}

/// `a` followed by `b`.
pub fn concat(a: &str, b: &str) -> (r: String)
    ensures
        r@ == a@ + b@,
{
    let mut r = a.to_owned();
    r.append(b);
    r
}

/// `n` copies of `c`.
pub open spec fn repeated(c: char, n: nat) -> Seq<char> {
    Seq::new(n, |i: int| c)
}

/// The string of `n` copies of `c`.
pub fn repeat(c: char, n: usize) -> (r: String)
    ensures
        r@ == repeated(c, n as nat),
{
    let mut out = String::new();
    let mut i: usize = 0;
    while i < n
        invariant
            i <= n,
            out@ == repeated(c, i as nat),
        decreases n - i,
    {
        out.push(c);
        i += 1;
        assert(out@ == repeated(c, i as nat));
    }
    out
}

/// A copy of a list of strings.
pub fn copy_strings(v: &Vec<String>) -> (r: Vec<String>)
    ensures
        r@ == v@,
{
    let mut out: Vec<String> = Vec::new();
    let mut i: usize = 0;
    while i < v.len()
        invariant
            i <= v.len(),
            out@ == v@.take(i as int),
        decreases v.len() - i,
    {
        out.push(v[i].clone());
        i += 1;
    }
    assert(v@.take(i as int) == v@);
    out
}

/// Whether one of the strings of `v` holds the text `s`.
pub fn any_is(v: &Vec<String>, s: &str) -> (r: bool)
    ensures
        r == texts(v@).contains(s@),
{
    let mut i: usize = 0;
    while i < v.len()
        invariant
            i <= v.len(),
            forall|j: int| 0 <= j < i ==> texts(v@)[j] != s@,
        decreases v.len() - i,
    {
        if same(v[i].as_str(), s) {
            assert(texts(v@)[i as int] == s@);
            return true;
        }
        i += 1;
    }
    false
}

/// `s` without the characters `c` it starts with.
pub open spec fn trim_start_of(s: Seq<char>, c: char) -> Seq<char>
    decreases s.len(),
{
    if s.len() > 0 && s[0] == c {
        trim_start_of(s.skip(1), c)
    } else {
        s
    }
}

/// `cs` without the characters `c` it starts with.
pub fn trim_start_chars(cs: &[char], c: char) -> (r: Vec<char>)
    ensures
        r@ == trim_start_of(cs@, c),
{
    let mut a: usize = 0;
    assert(cs@.skip(0) == cs@);
    while a < cs.len() && cs[a] == c
        invariant
            a <= cs.len(),
            trim_start_of(cs@, c) == trim_start_of(cs@.skip(a as int), c),
        decreases cs.len() - a,
    {
        assert(cs@.skip(a as int).skip(1) == cs@.skip(a + 1));
        a += 1;
    }
    assert(cs@.subrange(a as int, cs@.len() as int) == cs@.skip(a as int));
    copy_range(cs, a, cs.len())
}

/// `s` without one carriage return at its end.
pub open spec fn without_return(s: Seq<char>) -> Seq<char> {
    if s.len() > 0 && s.last() == '\r' {
        s.drop_last()
    } else {
        s
    }
}

/// The lines of `s`: cut at every newline, with the carriage return before it;
/// a newline at the very end opens no further line.
pub open spec fn lines(s: Seq<char>) -> Seq<Seq<char>> {
    let cut = split_on(s, '\n');
    let ended = cut.drop_last().map_values(|l: Seq<char>| without_return(l));
    if cut.last().len() == 0 {
        ended
    } else {
        ended.push(cut.last())
    }
}

/// The lines of `s`.
pub fn lines_of(s: &str) -> (r: Vec<String>)
    ensures
        texts(r@) == lines(s@),
{
    broadcast use texts_push;

    let cs = chars_of(s);
    let cut = split_chars(cs.as_slice(), '\n');
    let ghost all = pieces(cut@);
    let ghost ended = all.drop_last().map_values(|l: Seq<char>| without_return(l));
    proof {
        split_on_has_a_piece(s@, '\n');
        assert(all.last() == cut@.last()@);
    }
    let n: usize = cut.len() - 1;
    let mut out: Vec<String> = Vec::new();
    let mut i: usize = 0;
    assert(texts(out@) =~= ended.take(0));
    while i < n
        invariant
            i <= n,
            n == cut@.len() - 1,
            all == pieces(cut@),
            ended == all.drop_last().map_values(|l: Seq<char>| without_return(l)),
            texts(out@) == ended.take(i as int),
        decreases n - i,
    {
        let l: usize = cut[i].len();
        let end: usize = if l > 0 && cut[i][l - 1] == '\r' {
            l - 1
        } else {
            l
        };
        let ghost piece = all[i as int];
        assert(piece == cut@[i as int]@);
        let t = string_of(copy_range(cut[i].as_slice(), 0, end).as_slice());
        assert(t@ =~= without_return(piece));
        assert(ended.take(i + 1) =~= ended.take(i as int).push(t@));
        out.push(t);
        i += 1;
    }
    assert(ended.take(i as int) =~= ended);
    if cut[n].len() > 0 {
        out.push(string_of(cut[n].as_slice()));
    }
    out
}

/// Whether `a` comes before `b` in the order of their characters.
pub open spec fn lex_lt(a: Seq<char>, b: Seq<char>) -> bool
    decreases a.len(),
{
    if b.len() == 0 {
        false
    } else if a.len() == 0 {
        true
    } else if a[0] != b[0] {
        a[0] < b[0]
    } else {
        lex_lt(a.skip(1), b.skip(1))
    }
}

/// Nothing comes before itself.
pub proof fn lex_irreflexive(a: Seq<char>)
    ensures
        !lex_lt(a, a),
    decreases a.len(),
{
    if a.len() > 0 {
        lex_irreflexive(a.skip(1));
    }
}

/// The order is transitive.
pub proof fn lex_transitive(a: Seq<char>, b: Seq<char>, c: Seq<char>)
    requires
        lex_lt(a, b),
        lex_lt(b, c),
    ensures
        lex_lt(a, c),
    decreases a.len(),
{
    if a.len() > 0 && b.len() > 0 && c.len() > 0 && a[0] == b[0] && b[0] == c[0] {
        lex_transitive(a.skip(1), b.skip(1), c.skip(1));
    }
}

/// Of two different texts, one comes before the other.
pub proof fn lex_total(a: Seq<char>, b: Seq<char>)
    ensures
        lex_lt(a, b) || lex_lt(b, a) || a == b,
    decreases a.len(),
{
    if a.len() == 0 && b.len() == 0 {
        assert(a =~= b);
    } else if a.len() > 0 && b.len() > 0 && a[0] == b[0] {
        lex_total(a.skip(1), b.skip(1));
        if a.skip(1) == b.skip(1) {
            assert(a =~= seq![a[0]] + a.skip(1));
            assert(b =~= seq![b[0]] + b.skip(1));
        }
    }
}

/// Whether `a` comes before `b` in the order of their characters.
pub fn comes_before(a: &str, b: &str) -> (r: bool)
    ensures
        r == lex_lt(a@, b@),
{
    let ca = chars_of(a);
    let cb = chars_of(b);
    let mut i: usize = 0;
    assert(ca@.skip(0) == ca@ && cb@.skip(0) == cb@);
    while i < ca.len() && i < cb.len() && ca[i] == cb[i]
        invariant
            i <= ca@.len(),
            i <= cb@.len(),
            lex_lt(ca@, cb@) == lex_lt(ca@.skip(i as int), cb@.skip(i as int)),
        decreases ca@.len() - i,
    {
        assert(ca@.skip(i as int).skip(1) == ca@.skip(i + 1));
        assert(cb@.skip(i as int).skip(1) == cb@.skip(i + 1));
        i += 1;
    }
    if i == cb.len() {
        false
    } else if i == ca.len() {
        true
    } else {
        ca[i] < cb[i]
    }
}

/// The text of an integer in decimal notation.
pub open spec fn signed_decimal(n: int) -> Seq<char> {
    if n < 0 {
        "-"@ + decimal((-n) as nat)
    } else {
        decimal(n as nat)
    }
}

/// The text of an integer in decimal notation.
pub fn signed_decimal_of(n: i32) -> (r: String)
    ensures
        r@ == signed_decimal(n as int),
{
    if n < 0 {
        let m: i64 = -(n as i64);
        concat("-", decimal_of(m as u64).as_str())
    } else {
        decimal_of(n as u64)
    }
}

/// How many of the texts at the front of `sorted` do not come after `p`.
pub open spec fn place_among(sorted: Seq<Seq<char>>, p: Seq<char>) -> int
    decreases sorted.len(),
{
    if sorted.len() == 0 || !lex_lt(p, sorted.last()) {
        sorted.len() as int
    } else {
        place_among(sorted.drop_last(), p)
    }
}

/// `sorted` with `p` in its place, unless it is there already.
pub open spec fn with_text(sorted: Seq<Seq<char>>, p: Seq<char>) -> Seq<Seq<char>> {
    if sorted.contains(p) {
        sorted
    } else {
        sorted.insert(place_among(sorted, p), p)
    }
}

/// The texts of `v` in order, each once.
pub open spec fn sorted_texts(v: Seq<Seq<char>>) -> Seq<Seq<char>>
    decreases v.len(),
{
    if v.len() == 0 {
        v
    } else {
        with_text(sorted_texts(v.drop_last()), v.last())
    }
}

/// Whether each text comes before the ones behind it.
pub open spec fn is_ascending(v: Seq<Seq<char>>) -> bool {
    forall|i: int, j: int| 0 <= i < j < v.len() ==> lex_lt(#[trigger] v[i], #[trigger] v[j])
}

proof fn place_among_bounds(sorted: Seq<Seq<char>>, p: Seq<char>)
    requires
        is_ascending(sorted),
        !sorted.contains(p),
    ensures
        0 <= place_among(sorted, p) <= sorted.len(),
        forall|i: int| place_among(sorted, p) <= i < sorted.len() ==> lex_lt(p, #[trigger] sorted[i]),
        forall|i: int| 0 <= i < place_among(sorted, p) ==> lex_lt(#[trigger] sorted[i], p),
    decreases sorted.len(),
{
    let k = place_among(sorted, p);
    if sorted.len() > 0 {
        let front = sorted.drop_last();
        if lex_lt(p, sorted.last()) {
            assert(!front.contains(p)) by {
                if front.contains(p) {
                    let i = choose|i: int| 0 <= i < front.len() && front[i] == p;
                    assert(sorted[i] == p);
                }
            }
            place_among_bounds(front, p);
            assert forall|i: int| k <= i < sorted.len() implies lex_lt(p, #[trigger] sorted[i]) by {
                if i < front.len() {
                    assert(front[i] == sorted[i]);
                }
            }
            assert forall|i: int| 0 <= i < k implies lex_lt(#[trigger] sorted[i], p) by {
                assert(front[i] == sorted[i]);
            }
        } else {
            let l = sorted.len() - 1;
            assert(sorted.contains(sorted[l]));
            lex_total(p, sorted[l]);
            assert forall|i: int| 0 <= i < k implies lex_lt(#[trigger] sorted[i], p) by {
                if i < l {
                    lex_transitive(sorted[i], sorted[l], p);
                }
            }
        }
    }
}

/// Ordering texts gives an ascending sequence that holds the same texts.
pub proof fn sorted_texts_are_the_texts(v: Seq<Seq<char>>)
    ensures
        is_ascending(sorted_texts(v)),
        forall|t: Seq<char>| #[trigger] sorted_texts(v).contains(t) <==> v.contains(t),
    decreases v.len(),
{
    if v.len() > 0 {
        let front = v.drop_last();
        let p = v.last();
        let before = sorted_texts(front);
        let after = sorted_texts(v);
        sorted_texts_are_the_texts(front);
        if !before.contains(p) {
            place_among_bounds(before, p);
            let k = place_among(before, p);
            assert(after == before.insert(k, p));
            assert forall|i: int, j: int| 0 <= i < j < after.len() implies lex_lt(
                #[trigger] after[i],
                #[trigger] after[j],
            ) by {
                let i0 = if i < k {
                    i
                } else {
                    i - 1
                };
                let j0 = if j < k {
                    j
                } else {
                    j - 1
                };
                if i == k {
                    assert(after[j] == before[j0]);
                } else if j == k {
                    assert(after[i] == before[i0]);
                } else {
                    assert(after[i] == before[i0] && after[j] == before[j0]);
                }
            }
        }
        assert forall|t: Seq<char>| #[trigger] after.contains(t) <==> v.contains(t) by {
            if after.contains(t) {
                let i = choose|i: int| 0 <= i < after.len() && after[i] == t;
                if !before.contains(p) {
                    let k = place_among(before, p);
                    if i == k {
                        assert(v[v.len() - 1] == t);
                    } else {
                        assert(before[if i < k {
                            i
                        } else {
                            i - 1
                        }] == t);
                        assert(before.contains(t));
                    }
                } else {
                    assert(before.contains(t));
                }
                if before.contains(t) {
                    let m = choose|m: int| 0 <= m < front.len() && front[m] == t;
                    assert(v[m] == t);
                }
            }
            if v.contains(t) {
                let m = choose|m: int| 0 <= m < v.len() && v[m] == t;
                if m == v.len() - 1 {
                    if !before.contains(p) {
                        assert(after[place_among(before, p)] == t);
                    }
                } else {
                    assert(front[m] == t);
                    assert(before.contains(t));
                    let i = choose|i: int| 0 <= i < before.len() && before[i] == t;
                    if !before.contains(p) {
                        let k = place_among(before, p);
                        assert(after[if i < k {
                            i
                        } else {
                            i + 1
                        }] == t);
                    }
                }
            }
        }
    }
}

/// Puts `s` into its place in `sorted`, unless it is there already.
pub fn insert_text(sorted: &mut Vec<String>, s: &str)
    requires
        is_ascending(texts(old(sorted)@)),
    ensures
        texts(final(sorted)@) == with_text(texts(old(sorted)@), s@),
{
    let ghost all = texts(sorted@);
    if any_is(sorted, s) {
        return ;
    }
    let mut k: usize = sorted.len();
    assert(all.take(k as int) =~= all);
    while k > 0 && comes_before(s, sorted[k - 1].as_str())
        invariant
            k <= sorted@.len(),
            all == texts(sorted@),
            place_among(all, s@) == place_among(all.take(k as int), s@),
        decreases k,
    {
        assert(all.take(k as int).drop_last() =~= all.take(k - 1));
        assert(all[k - 1] == sorted@[k - 1]@);
        k -= 1;
    }
    assert(k > 0 ==> all[k - 1] == sorted@[k - 1]@);
    sorted.insert(k, s.to_owned());
    assert(texts(sorted@) =~= all.insert(k as int, s@));
}

} // verus!
