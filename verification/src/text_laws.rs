//! What cutting and trimming text keeps to.

use crate::text::{
    begins, holds, is_white_space, joined, lines, split_on, split_on_has_a_piece, stands_at, trim,
    trim_end, trim_start,
};
use vstd::prelude::*;

verus! {

/// Whether a text is white space only.
pub open spec fn is_blank(s: Seq<char>) -> bool {
    forall|i: int| 0 <= i < s.len() ==> is_white_space(#[trigger] s[i])
}

/// Whether a text neither begins nor ends with white space, and is not empty.
pub open spec fn is_tight(s: Seq<char>) -> bool {
    s.len() > 0 && !is_white_space(s[0]) && !is_white_space(s.last())
}

/// Whether `c` does not occur in `s`.
pub open spec fn lacks(s: Seq<char>, c: char) -> bool {
    forall|i: int| 0 <= i < s.len() ==> (#[trigger] s[i]) != c
}

proof fn trim_start_drops(pad: Seq<char>, s: Seq<char>)
    requires
        is_blank(pad),
        s.len() > 0,
        !is_white_space(s[0]),
    ensures
        trim_start(pad + s) == s,
    decreases pad.len(),
{
    if pad.len() == 0 {
        assert(pad + s =~= s);
    } else {
        assert((pad + s)[0] == pad[0]);
        assert(is_white_space(pad[0]));
        let rest = pad.skip(1);
        assert forall|i: int| 0 <= i < rest.len() implies is_white_space(#[trigger] rest[i]) by {
            assert(rest[i] == pad[i + 1]);
        }
        assert((pad + s).skip(1) =~= rest + s);
        trim_start_drops(rest, s);
    }
}

proof fn trim_end_drops(s: Seq<char>, pad: Seq<char>)
    requires
        is_blank(pad),
        s.len() > 0,
        !is_white_space(s.last()),
    ensures
        trim_end(s + pad) == s,
    decreases pad.len(),
{
    if pad.len() == 0 {
        assert(s + pad =~= s);
    } else {
        assert((s + pad).last() == pad.last());
        assert(is_white_space(pad[pad.len() - 1]));
        let rest = pad.drop_last();
        assert forall|i: int| 0 <= i < rest.len() implies is_white_space(#[trigger] rest[i]) by {
            assert(rest[i] == pad[i]);
        }
        assert((s + pad).drop_last() =~= s + rest);
        trim_end_drops(s, rest);
    }
}

/// Trimming takes away the white space around a text, and nothing of the text.
pub proof fn trimming_keeps_the_text(before: Seq<char>, s: Seq<char>, after: Seq<char>)
    requires
        is_blank(before),
        is_blank(after),
        is_tight(s),
    ensures
        trim(before + s + after) == s,
{
    assert(before + s + after =~= before + (s + after));
    assert((s + after)[0] == s[0]);
    trim_start_drops(before, s + after);
    trim_end_drops(s, after);
}

proof fn trim_start_is_a_part(s: Seq<char>)
    ensures
        exists|a: int| 0 <= a <= s.len() && trim_start(s) == #[trigger] s.skip(a),
    decreases s.len(),
{
    if s.len() > 0 && is_white_space(s[0]) {
        trim_start_is_a_part(s.skip(1));
        let a = choose|a: int|
            0 <= a <= s.skip(1).len() && trim_start(s.skip(1)) == #[trigger] s.skip(1).skip(a);
        assert(s.skip(1).skip(a) =~= s.skip(a + 1));
    } else {
        assert(s.skip(0) =~= s);
    }
}

proof fn trim_end_is_a_part(s: Seq<char>)
    ensures
        exists|b: int| 0 <= b <= s.len() && trim_end(s) == #[trigger] s.take(b),
    decreases s.len(),
{
    if s.len() > 0 && is_white_space(s.last()) {
        trim_end_is_a_part(s.drop_last());
        let b = choose|b: int|
            0 <= b <= s.drop_last().len() && trim_end(s.drop_last()) == #[trigger] s.drop_last().take(
                b,
            );
        assert(s.drop_last().take(b) =~= s.take(b));
    } else {
        assert(s.take(s.len() as int) =~= s);
    }
}

/// What is left of a trimmed text stands in the text.
pub proof fn trimmed_text_stands_in_the_text(s: Seq<char>)
    ensures
        holds(s, trim(s)),
{
    trim_start_is_a_part(s);
    let a = choose|a: int| 0 <= a <= s.len() && trim_start(s) == #[trigger] s.skip(a);
    let t = s.skip(a);
    trim_end_is_a_part(t);
    let b = choose|b: int| 0 <= b <= t.len() && trim_end(t) == #[trigger] t.take(b);
    assert(s.subrange(a, a + b) =~= t.take(b));
    assert(stands_at(s, trim(s), a));
}

/// What stands in a part of a text stands in the text.
pub proof fn holding_is_transitive(s: Seq<char>, t: Seq<char>, u: Seq<char>)
    requires
        holds(s, t),
        holds(t, u),
    ensures
        holds(s, u),
{
    let i = choose|i: int| stands_at(s, t, i);
    let j = choose|j: int| stands_at(t, u, j);
    assert(s.subrange(i + j, i + j + u.len()) =~= s.subrange(i, i + t.len()).subrange(
        j,
        j + u.len(),
    ));
    assert(stands_at(s, u, i + j));
}

/// Cutting two texts with a separator between them gives the pieces of both.
pub proof fn cutting_goes_on(a: Seq<char>, b: Seq<char>, sep: char)
    ensures
        split_on(a.push(sep) + b, sep) == split_on(a, sep) + split_on(b, sep),
    decreases b.len(),
{
    let s = a.push(sep) + b;
    if b.len() == 0 {
        assert(s =~= a.push(sep));
        assert(s.drop_last() =~= a);
        assert(split_on(a, sep) + split_on(b, sep) =~= split_on(a, sep).push(Seq::empty()));
    } else {
        cutting_goes_on(a, b.drop_last(), sep);
        assert(s.drop_last() =~= a.push(sep) + b.drop_last());
        assert(s.last() == b.last());
        let front = split_on(b.drop_last(), sep);
        split_on_has_a_piece(b.drop_last(), sep);
        let x = split_on(a, sep);
        if b.last() == sep {
            assert((x + front).push(Seq::empty()) =~= x + front.push(Seq::empty()));
        } else {
            let l = front.last().push(b.last());
            assert((x + front).last() == front.last());
            assert((x + front).drop_last().push(l) =~= x + front.drop_last().push(l));
        }
    }
}

/// A text without the separator is one piece.
pub proof fn an_uncut_text_is_one_piece(s: Seq<char>, sep: char)
    requires
        lacks(s, sep),
    ensures
        split_on(s, sep) == seq![s],
    decreases s.len(),
{
    if s.len() == 0 {
        assert(s =~= Seq::<char>::empty());
    } else {
        let front = s.drop_last();
        assert forall|i: int| 0 <= i < front.len() implies (#[trigger] front[i]) != sep by {
            assert(front[i] == s[i]);
        }
        an_uncut_text_is_one_piece(front, sep);
        assert(s[s.len() - 1] != sep);
        let rest = seq![front];
        assert(front.push(s.last()) =~= s);
        assert(rest.drop_last().push(rest.last().push(s.last())) =~= seq![s]);
    }
}

/// Every piece of a cut text stands in the text.
pub proof fn pieces_stand_in_the_text(s: Seq<char>, sep: char, i: int)
    requires
        0 <= i < split_on(s, sep).len(),
    ensures
        holds(s, split_on(s, sep)[i]),
    decreases s.len(),
{
    pieces_are_parts(s, sep);
}

proof fn pieces_are_parts(s: Seq<char>, sep: char)
    ensures
        forall|i: int| 0 <= i < split_on(s, sep).len() ==> holds(s, #[trigger] split_on(s, sep)[i]),
        split_on(s, sep).last().len() <= s.len(),
        s.skip(s.len() - split_on(s, sep).last().len()) == split_on(s, sep).last(),
    decreases s.len(),
{
    split_on_has_a_piece(s, sep);
    let cut = split_on(s, sep);
    if s.len() == 0 {
        assert(s.subrange(0, 0) =~= cut[0]);
        assert(stands_at(s, cut[0], 0));
        assert(s.skip(0) =~= cut.last());
    } else {
        let front = s.drop_last();
        pieces_are_parts(front, sep);
        split_on_has_a_piece(front, sep);
        let rest = split_on(front, sep);
        let last = cut.last();
        if s.last() == sep {
            assert(s.skip(s.len() as int) =~= last);
        } else {
            assert(last == rest.last().push(s.last()));
            assert(s.skip(s.len() - last.len()) =~= front.skip(front.len() - rest.last().len()).push(
                s.last(),
            ));
        }
        assert forall|i: int| 0 <= i < cut.len() implies holds(s, #[trigger] cut[i]) by {
            if i < cut.len() - 1 {
                assert(cut[i] == rest[i]);
                assert(holds(front, rest[i]));
                let k = choose|k: int| stands_at(front, rest[i], k);
                assert(s.subrange(k, k + rest[i].len()) =~= front.subrange(k, k + rest[i].len()));
                assert(stands_at(s, cut[i], k));
            } else {
                let k = s.len() - last.len();
                assert(s.subrange(k, k + last.len()) =~= s.skip(k));
                assert(stands_at(s, cut[i], k));
            }
        }
    }
}

/// Every line of a text stands in the text.
pub proof fn lines_stand_in_the_text(s: Seq<char>, i: int)
    requires
        0 <= i < lines(s).len(),
    ensures
        holds(s, lines(s)[i]),
{
    let cut = split_on(s, '\n');
    split_on_has_a_piece(s, '\n');
    pieces_stand_in_the_text(s, '\n', i);
    let l = cut[i];
    let k = choose|k: int| stands_at(s, l, k);
    let m = lines(s)[i];
    assert(m == l || (l.len() > 0 && m == l.drop_last()));
    assert(s.subrange(k, k + m.len()) =~= l.take(m.len() as int)) by {
        assert(s.subrange(k, k + l.len()) == l);
    }
    assert(l.take(m.len() as int) =~= m);
    assert(stands_at(s, m, k));
}

/// A line between line ends is a line of the text, without the carriage return
/// that it may end with.
pub proof fn a_line_is_found(before: Seq<char>, l: Seq<char>, after: Seq<char>) -> (i: int)
    requires
        lacks(l, '\n'),
        l.len() > 0,
        before.len() == 0 || before.last() == '\n',
        after.len() == 0 || after[0] == '\n',
    ensures
        0 <= i < lines(before + l + after).len(),
        ({
            let found = lines(before + l + after)[i];
            found == l || (l.last() == '\r' && found == l.drop_last())
        }),
{
    let s = before + l + after;
    an_uncut_text_is_one_piece(l, '\n');
    let tail = l + after;
    let tail_cut = split_on(tail, '\n');
    if after.len() == 0 {
        assert(tail =~= l);
    } else {
        assert(tail =~= l.push('\n') + after.skip(1));
        cutting_goes_on(l, after.skip(1), '\n');
        split_on_has_a_piece(after.skip(1), '\n');
    }
    assert(tail_cut[0] == l);
    let cut = split_on(s, '\n');
    let i = if before.len() == 0 {
        assert(s =~= tail);
        0
    } else {
        let head = before.drop_last();
        assert(s =~= head.push('\n') + tail);
        cutting_goes_on(head, tail, '\n');
        split_on(head, '\n').len() as int
    };
    assert(cut[i] == l);
    split_on_has_a_piece(s, '\n');
    i
}

/// Texts that are joined can be cut apart again where none of them holds what
/// they were joined with.
pub proof fn joined_texts_can_be_cut(v: Seq<Seq<char>>, sep: Seq<char>, c: char)
    requires
        v.len() > 0,
        sep == seq![c],
        forall|i: int| 0 <= i < v.len() ==> lacks(#[trigger] v[i], c),
    ensures
        split_on(joined(v, sep), c) == v,
    decreases v.len(),
{
    an_uncut_text_is_one_piece(v[v.len() - 1], c);
    if v.len() == 1 {
        assert(v =~= seq![v[0]]);
    } else {
        let front = v.drop_last();
        assert forall|i: int| 0 <= i < front.len() implies lacks(#[trigger] front[i], c) by {
            assert(front[i] == v[i]);
        }
        joined_texts_can_be_cut(front, sep, c);
        let t = joined(front, sep);
        assert(joined(v, sep) =~= t.push(c) + v.last());
        cutting_goes_on(t, v.last(), c);
        assert(front + seq![v.last()] =~= v);
    }
}

/// Blanks, tabs and line ends are white space; letters, digits and the signs of
/// a file are not.
pub proof fn blanks_and_line_ends_are_white_space(c: char)
    ensures
        is_white_space(' '),
        is_white_space('\t'),
        is_white_space('\n'),
        is_white_space('\r'),
        '!' <= c <= '~' ==> !is_white_space(c),
{
}

} // verus!
