//! What is read out of the output of a task: counts, locks and plain text.

use crate::lock::{
    bare, is_border, is_complete, last_block, lock_of, nothing_found, opens_block, scanned,
    with_line, without_border, Found, LockView,
};
use crate::task::{
    clean_line, no_counts, part_counts, run_time, segment_counts, summary_of, with_part,
    ResourceCounts, TaskView,
};
use crate::text::{
    all_digits, begins, decimal, digit, digits_value, holds, is_digit, is_white_space, split_blank,
    split_on, trim, trim_end_of, u32_value, unsigned_part, words,
};
use crate::text_laws::{
    an_uncut_text_is_one_piece, cutting_goes_on, is_blank, is_tight, lacks, trimming_keeps_the_text,
};
use crate::util::{
    after_escape, is_letter, letter_from, letter_from_bounds, opens_at, plain_text_is_kept,
    stripped, stripped_from, ESC,
};
use vstd::prelude::*;

verus! {

proof fn stripping_starts_anywhere(s: Seq<char>, i: int)
    requires
        0 <= i <= s.len(),
    ensures
        stripped_from(s, i) == stripped(s.skip(i)),
{
    stripping_shifts(s, s.skip(i), i, 0);
}

proof fn stripping_shifts(s: Seq<char>, t: Seq<char>, i: int, j: int)
    requires
        0 <= i <= s.len(),
        t == s.skip(i),
        0 <= j <= t.len(),
    ensures
        stripped_from(t, j) == stripped_from(s, i + j),
    decreases t.len() - j,
{
    if j < t.len() {
        assert(t[j] == s[i + j]);
        if opens_at(t, j) {
            letter_shifts(s, t, i, j + 2);
            letter_from_bounds(t, j + 2);
            stripping_shifts(s, t, i, after_escape(t, j + 2));
        } else {
            stripping_shifts(s, t, i, j + 1);
        }
    }
}

proof fn letter_shifts(s: Seq<char>, t: Seq<char>, i: int, j: int)
    requires
        0 <= i <= s.len(),
        t == s.skip(i),
        0 <= j <= t.len(),
    ensures
        letter_from(s, i + j) == i + letter_from(t, j),
    decreases t.len() - j,
{
    if j < t.len() {
        assert(t[j] == s[i + j]);
        letter_shifts(s, t, i, j + 1);
    }
}

/// An escape sequence, from its opening to its final letter, is dropped, and
/// the text around it is kept.
pub proof fn an_escape_sequence_is_dropped(
    before: Seq<char>,
    body: Seq<char>,
    letter: char,
    after: Seq<char>,
)
    requires
        lacks(before, ESC),
        is_letter(letter),
        forall|i: int| 0 <= i < body.len() ==> !is_letter(#[trigger] body[i]),
    ensures
        stripped(before + seq![ESC, '['] + body.push(letter) + after) == before + stripped(after),
    decreases before.len(),
{
    let s = before + seq![ESC, '['] + body.push(letter) + after;
    if before.len() > 0 {
        let rest = before.skip(1);
        assert forall|i: int| 0 <= i < rest.len() implies (#[trigger] rest[i]) != ESC by {
            assert(rest[i] == before[i + 1]);
        }
        assert(s[0] == before[0]);
        assert(before[0] != ESC);
        an_escape_sequence_is_dropped(rest, body, letter, after);
        assert(s.skip(1) =~= rest + seq![ESC, '['] + body.push(letter) + after);
        stripping_starts_anywhere(s, 1);
        assert(seq![before[0]] + (rest + stripped(after)) =~= before + stripped(after));
    } else {
        assert(s[0] == ESC && s[1] == '[');
        let k = 2 + body.len() as int;
        assert(s[k] == letter);
        assert forall|i: int| 2 <= i < k implies !is_letter(#[trigger] s[i]) by {
            assert(s[i] == body[i - 2]);
        }
        letter_from_bounds(s, 2);
        assert(letter_from(s, 2) == k);
        stripping_starts_anywhere(s, k + 1);
        assert(s.skip(k + 1) =~= after);
        assert(before + stripped(after) =~= stripped(after));
    }
}

/// A number in decimal notation is read back as that number.
pub proof fn a_number_is_read_back(n: u32)
    ensures
        u32_value(decimal(n as nat)) == Some(n),
{
    decimal_is_digits(n as nat);
    let d = decimal(n as nat);
    assert(is_digit(d[0]));
    assert(unsigned_part(d) == d);
}

proof fn decimal_is_digits(n: nat)
    ensures
        decimal(n).len() > 0,
        all_digits(decimal(n)),
        digits_value(decimal(n)) == n,
    decreases n,
{
    let d = decimal(n);
    if n < 10 {
        digit_is_itself(n as int);
        assert(d.drop_last() =~= Seq::<char>::empty());
        assert(digits_value(d.drop_last()) == 0);
    } else {
        decimal_is_digits(n / 10);
        digit_is_itself((n % 10) as int);
        assert(d.drop_last() =~= decimal(n / 10));
        assert forall|i: int| 0 <= i < d.len() implies is_digit(#[trigger] d[i]) by {
            if i < d.len() - 1 {
                assert(d[i] == decimal(n / 10)[i]);
            }
        }
    }
}

proof fn digit_is_itself(d: int)
    requires
        0 <= d < 10,
    ensures
        is_digit(digit(d)),
        digit(d) as int - 48 == d,
{
}

/// Whether a text is a single word.
pub open spec fn is_word(s: Seq<char>) -> bool {
    s.len() > 0 && forall|i: int| 0 <= i < s.len() ==> !is_white_space(#[trigger] s[i])
}

proof fn split_blank_goes_on(a: Seq<char>, c: char, b: Seq<char>)
    requires
        is_white_space(c),
    ensures
        split_blank(a.push(c) + b) == split_blank(a) + split_blank(b),
        split_blank(b).len() > 0,
    decreases b.len(),
{
    let s = a.push(c) + b;
    if b.len() == 0 {
        assert(s =~= a.push(c));
        assert(s.drop_last() =~= a);
        assert(split_blank(a) + split_blank(b) =~= split_blank(a).push(Seq::empty()));
    } else {
        split_blank_goes_on(a, c, b.drop_last());
        assert(s.drop_last() =~= a.push(c) + b.drop_last());
        assert(s.last() == b.last());
        let front = split_blank(b.drop_last());
        let x = split_blank(a);
        if is_white_space(b.last()) {
            assert((x + front).push(Seq::empty()) =~= x + front.push(Seq::empty()));
        } else {
            let l = front.last().push(b.last());
            assert((x + front).last() == front.last());
            assert((x + front).drop_last().push(l) =~= x + front.drop_last().push(l));
        }
    }
}

proof fn a_word_is_one_piece(s: Seq<char>)
    requires
        forall|i: int| 0 <= i < s.len() ==> !is_white_space(#[trigger] s[i]),
    ensures
        split_blank(s) == seq![s],
    decreases s.len(),
{
    if s.len() == 0 {
        assert(s =~= Seq::<char>::empty());
    } else {
        let front = s.drop_last();
        assert forall|i: int| 0 <= i < front.len() implies !is_white_space(#[trigger] front[i]) by {
            assert(front[i] == s[i]);
        }
        a_word_is_one_piece(front);
        assert(!is_white_space(s[s.len() - 1]));
        let rest = seq![front];
        assert(front.push(s.last()) =~= s);
        assert(rest.drop_last().push(rest.last().push(s.last())) =~= seq![s]);
    }
}

/// The words of a text are the words that stand between its blanks, in order.
pub proof fn words_stand_between_blanks(a: Seq<char>, b: Seq<char>, c: Seq<char>)
    requires
        is_word(a),
        is_word(b),
        is_word(c),
    ensures
        words(a + " "@ + b) == seq![a, b],
        words(a + " "@ + b + " "@ + c) == seq![a, b, c],
{
    reveal_strlit(" ");
    let full = |w: Seq<char>| w.len() > 0;
    a_word_is_one_piece(a);
    a_word_is_one_piece(b);
    a_word_is_one_piece(c);
    let two = a + " "@ + b;
    assert(two =~= a.push(' ') + b);
    split_blank_goes_on(a, ' ', b);
    assert(split_blank(two) =~= seq![a, b]);
    let three = a + " "@ + b + " "@ + c;
    assert(three =~= two.push(' ') + c);
    split_blank_goes_on(two, ' ', c);
    assert(split_blank(three) =~= seq![a, b, c]);
    reveal_with_fuel(Seq::filter, 4);
    assert(seq![a, b].drop_last() =~= seq![a]);
    assert(seq![a].drop_last() =~= Seq::<Seq<char>>::empty());
    assert(seq![a, b, c].drop_last() =~= seq![a, b]);
    assert(seq![a].filter(full) =~= seq![a]);
    assert(seq![a, b].filter(full) =~= seq![a, b]);
    assert(seq![a, b, c].filter(full) =~= seq![a, b, c]);
}

/// The counts with the one that a verb of a summary stands for set.
pub open spec fn counts_with(c: ResourceCounts, verb: Seq<char>, n: u32) -> ResourceCounts {
    ResourceCounts {
        add: if verb == "add"@ || verb == "added"@ { n } else { c.add },
        change: if verb == "change"@ || verb == "changed"@ { n } else { c.change },
        destroy: if verb == "destroy"@ || verb == "destroyed"@ { n } else { c.destroy },
        import: if verb == "import"@ || verb == "imported"@ { n } else { c.import },
        forget: if verb == "forget"@ || verb == "forgotten"@ || verb == "remove"@ || verb
            == "removed"@ {
            n
        } else {
            c.forget
        },
        ..c
    }
}

proof fn verbs_differ()
    ensures
        "add"@.len() == 3,
        "added"@.len() == 5,
        "change"@.len() == 6,
        "changed"@.len() == 7,
        "destroy"@.len() == 7,
        "destroyed"@.len() == 9,
        "import"@.len() == 6,
        "imported"@.len() == 8,
        "forget"@.len() == 6,
        "forgotten"@.len() == 9,
        "remove"@.len() == 6,
        "removed"@.len() == 7,
        "change"@[0] == 'c',
        "changed"@[0] == 'c',
        "destroy"@[0] == 'd',
        "destroyed"@[0] == 'd',
        "import"@[0] == 'i',
        "forget"@[0] == 'f',
        "forgotten"@[0] == 'f',
        "remove"@[0] == 'r',
        "removed"@[0] == 'r',
{
    reveal_strlit("add");
    reveal_strlit("added");
    reveal_strlit("change");
    reveal_strlit("changed");
    reveal_strlit("destroy");
    reveal_strlit("destroyed");
    reveal_strlit("import");
    reveal_strlit("imported");
    reveal_strlit("forget");
    reveal_strlit("forgotten");
    reveal_strlit("remove");
    reveal_strlit("removed");
}

proof fn digits_are_a_word(n: nat)
    ensures
        is_word(decimal(n)),
        lacks(decimal(n), ','),
        lacks(decimal(n), '.'),
        lacks(decimal(n), ESC),
{
    decimal_is_digits(n);
    let d = decimal(n);
    assert forall|i: int| 0 <= i < d.len() implies !is_white_space(#[trigger] d[i]) && d[i] != ','
        && d[i] != '.' && d[i] != ESC by {
        assert(is_digit(d[i]));
    }
}

/// How a summary counts one kind of operation: as planned, or as done.
pub open spec fn counted_as(n: u32, planned: bool, verb: Seq<char>) -> Seq<char> {
    if planned {
        decimal(n as nat) + " to "@ + verb
    } else {
        decimal(n as nat) + " "@ + verb
    }
}

/// The word between the number and the verb of a summary.
pub open spec fn between(planned: bool) -> Seq<char> {
    if planned {
        "to"@
    } else {
        ""@
    }
}

proof fn no_dot_stays(s: Seq<char>)
    requires
        s.len() == 0 || s.last() != '.',
    ensures
        trim_end_of(s, '.') == s,
        trim_end_of(s.push('.'), '.') == s,
{
    assert(s.push('.').drop_last() =~= s);
}

#[verifier::rlimit(40)]
proof fn a_part_is_read(
    c: ResourceCounts,
    lead: Seq<char>,
    n: u32,
    planned: bool,
    verb: Seq<char>,
    dot: bool,
)
    requires
        is_blank(lead),
        is_word(verb),
        lacks(verb, '.'),
    ensures
        with_part(
            c,
            lead + (if dot {
                counted_as(n, planned, verb).push('.')
            } else {
                counted_as(n, planned, verb)
            }),
            between(planned),
        ) == counts_with(c, verb, n),
{
    reveal_strlit(" to ");
    reveal_strlit(" ");
    reveal_strlit("to");
    reveal_strlit("");
    let d = decimal(n as nat);
    digits_are_a_word(n as nat);
    a_number_is_read_back(n);
    let body = counted_as(n, planned, verb);
    assert(body[0] == d[0]);
    assert(!is_white_space(d[0]));
    assert(body.last() == verb[verb.len() - 1]);
    assert(verb[verb.len() - 1] != '.');
    let full = if dot { body.push('.') } else { body };
    assert(is_tight(full));
    trimming_keeps_the_text(lead, full, Seq::empty());
    assert(lead + full + Seq::<char>::empty() =~= lead + full);
    no_dot_stays(body);
    assert(is_word("to"@)) by {
        assert("to"@[0] == 't' && "to"@[1] == 'o');
    }
    words_stand_between_blanks(d, verb, verb);
    words_stand_between_blanks(d, "to"@, verb);
    if planned {
        assert(body =~= d + " "@ + "to"@ + " "@ + verb);
    }
    verbs_differ();
}

/// Each `N to verb` of a plan summary, and each `N verb` of the summary of what
/// was done, sets its own count to N, and leaves the counts that stand before it
/// as they are, whatever they are.
#[verifier::rlimit(40)]
pub proof fn each_part_sets_its_count(
    before: Seq<char>,
    n: u32,
    planned: bool,
    verb: Seq<char>,
    dot: bool,
)
    requires
        is_word(verb),
        lacks(verb, '.'),
        lacks(verb, ','),
    ensures
        ({
            let part = if dot {
                counted_as(n, planned, verb).push('.')
            } else {
                counted_as(n, planned, verb)
            };
            &&& segment_counts(before + ", "@ + part, between(planned)) == counts_with(
                segment_counts(before, between(planned)),
                verb,
                n,
            )
            &&& segment_counts(part, between(planned)) == counts_with(no_counts(), verb, n)
        }),
{
    let part = if dot {
        counted_as(n, planned, verb).push('.')
    } else {
        counted_as(n, planned, verb)
    };
    let sep = between(planned);
    reveal_strlit(", ");
    reveal_strlit(" to ");
    reveal_strlit(" ");
    digits_are_a_word(n as nat);
    let d = decimal(n as nat);
    let spaced = seq![' '] + part;
    assert forall|i: int| 0 <= i < part.len() implies (#[trigger] part[i]) != ',' by {
        if i < d.len() {
            assert(part[i] == d[i]);
        } else if planned && d.len() + 4 <= i < d.len() + 4 + verb.len() {
            assert(part[i] == verb[i - d.len() - 4]);
        } else if !planned && d.len() + 1 <= i < d.len() + 1 + verb.len() {
            assert(part[i] == verb[i - d.len() - 1]);
        }
    }
    assert forall|i: int| 0 <= i < spaced.len() implies (#[trigger] spaced[i]) != ',' by {
        if i > 0 {
            assert(spaced[i] == part[i - 1]);
        }
    }
    an_uncut_text_is_one_piece(part, ',');
    an_uncut_text_is_one_piece(spaced, ',');
    let text = before + ", "@ + part;
    assert(text =~= before.push(',') + spaced);
    cutting_goes_on(before, spaced, ',');
    let cut = split_on(before, ',');
    assert(split_on(text, ',') =~= cut.push(spaced));
    assert(cut.push(spaced).drop_last() =~= cut);
    a_part_is_read(part_counts(cut, sep), seq![' '], n, planned, verb, dot);
    a_part_is_read(no_counts(), Seq::empty(), n, planned, verb, dot);
    assert(Seq::<char>::empty() + part =~= part);
    assert(seq![part].drop_last() =~= Seq::<Seq<char>>::empty());
    assert(part_counts(Seq::empty(), sep) == no_counts());
    assert(part_counts(seq![part], sep) == with_part(no_counts(), part, sep));
    assert(part_counts(cut.push(spaced), sep) == with_part(part_counts(cut, sep), spaced, sep));
}

/// The texts that a summary line starts with: of a plan, of an apply, of a
/// destroy.
pub open spec fn summary_lead(planned: bool, destroyed: bool) -> Seq<char> {
    if planned {
        "Plan: "@
    } else if destroyed {
        "Destroy complete! Resources: "@
    } else {
        "Apply complete! Resources: "@
    }
}

/// A summary line is known by how it starts, whatever white space stands around
/// it, and its counts are those of the parts that follow. A line that says
/// `No changes.` counts nothing. Neither is told apart by anything else.
#[verifier::rlimit(40)]
pub proof fn summaries_are_recognised(
    before: Seq<char>,
    planned: bool,
    destroyed: bool,
    text: Seq<char>,
    after: Seq<char>,
)
    requires
        is_blank(before),
        is_blank(after),
        is_tight(text),
        lacks(before, ESC),
        lacks(text, ESC),
        lacks(after, ESC),
    ensures
        summary_of(clean_line(before + (summary_lead(planned, destroyed) + text) + after)) == Some(
            ResourceCounts { has_summary: true, ..segment_counts(text, between(planned)) },
        ),
        summary_of(clean_line(before + ("No changes."@ + text) + after)) == Some(
            ResourceCounts {
                add: 0,
                change: 0,
                destroy: 0,
                import: 0,
                forget: 0,
                no_changes: true,
                has_summary: true,
            },
        ),
{
    reveal_strlit("Plan: ");
    reveal_strlit("Apply complete! Resources: ");
    reveal_strlit("Destroy complete! Resources: ");
    reveal_strlit("No changes.");
    let lead = summary_lead(planned, destroyed);
    let line = lead + text;
    let none = "No changes."@ + text;
    assert(is_tight(line)) by {
        assert(line[0] == lead[0]);
        assert(line.last() == text.last());
    }
    assert(is_tight(none)) by {
        assert(none[0] == 'N');
        assert(none.last() == text.last());
    }
    trimming_keeps_the_text(before, line, after);
    trimming_keeps_the_text(before, none, after);
    no_escape_around(before, line, after, lead, text);
    no_escape_around(before, none, after, "No changes."@, text);
    assert(line.take(lead.len() as int) =~= lead);
    assert(line.skip(lead.len() as int) =~= text);
    assert(none.take(11) =~= "No changes."@);
    assert(line[0] == lead[0]);
    assert(line.len() >= 11 ==> line.take(11)[0] == lead[0]);
    assert(line.len() >= 6 ==> line.take(6)[0] == lead[0]);
    assert(line.len() >= 27 ==> line.take(27)[0] == lead[0]);
}

proof fn no_escape_around(
    before: Seq<char>,
    line: Seq<char>,
    after: Seq<char>,
    lead: Seq<char>,
    text: Seq<char>,
)
    requires
        line == lead + text,
        lacks(before, ESC),
        lacks(text, ESC),
        lacks(after, ESC),
        lacks(lead, ESC),
    ensures
        stripped(before + line + after) == before + line + after,
{
    let s = before + line + after;
    assert(!s.contains(ESC)) by {
        if s.contains(ESC) {
            let i = choose|i: int| 0 <= i < s.len() && s[i] == ESC;
            let a = before.len() as int;
            let b = a + lead.len() as int;
            let c = b + text.len() as int;
            if i < a {
                assert(s[i] == before[i]);
            } else if i < b {
                assert(s[i] == lead[i - a]);
            } else if i < c {
                assert(s[i] == text[i - b]);
            } else {
                assert(s[i] == after[i - c]);
            }
        }
    }
    plain_text_is_kept(s);
}

/// What a task that is over took does not change with time; what a running task
/// has taken grows as time goes by; before its start a task has taken no time.
pub proof fn time_passes_for_running_tasks(t: TaskView, now: u64, later: u64)
    requires
        now <= later,
    ensures
        t.started_at is None ==> run_time(t, now) is None,
        t.started_at is Some && t.finished_at is Some && t.started_at->0 <= t.finished_at->0
            ==> run_time(t, now) == Some((t.finished_at->0 - t.started_at->0) as nat),
        t.started_at is Some && t.finished_at is None && t.started_at->0 <= now ==> run_time(t, now)
            is Some && run_time(t, now)->0 + t.started_at->0 == now && run_time(t, later)->0
            - run_time(t, now)->0 == later - now,
{
}

/// What an error message says is read without the border that frames it.
pub proof fn borders_are_dropped(border: Seq<char>, text: Seq<char>)
    requires
        forall|i: int|
            0 <= i < border.len() ==> (#[trigger] border[i]) == ' ' || border[i] == '\u{2502}'
                || border[i] == '\u{2577}' || border[i] == '\u{2575}',
        text.len() > 0,
        text[0] != ' ',
        text[0] != '\u{2502}',
        text[0] != '\u{2577}',
        text[0] != '\u{2575}',
        lacks(text, ESC),
    ensures
        bare(border + text) == text,
    decreases border.len(),
{
    let s = border + text;
    assert(!s.contains(ESC)) by {
        if s.contains(ESC) {
            let i = choose|i: int| 0 <= i < s.len() && s[i] == ESC;
            if i < border.len() {
                assert(s[i] == border[i]);
            } else {
                assert(s[i] == text[i - border.len()]);
            }
        }
    }
    plain_text_is_kept(s);
    border_goes(border, text);
}

proof fn border_goes(border: Seq<char>, text: Seq<char>)
    requires
        forall|i: int| 0 <= i < border.len() ==> is_border(#[trigger] border[i]),
        text.len() > 0,
        !is_border(text[0]),
    ensures
        without_border(border + text) == text,
    decreases border.len(),
{
    let s = border + text;
    if border.len() > 0 {
        assert(s[0] == border[0]);
        assert(s.skip(1) =~= border.skip(1) + text);
        assert forall|i: int| 0 <= i < border.skip(1).len() implies is_border(
            #[trigger] border.skip(1)[i],
        ) by {
            assert(border.skip(1)[i] == border[i + 1]);
        }
        border_goes(border.skip(1), text);
    } else {
        assert(s =~= text);
    }
}

/// Whether among `lines`, behind line `k`, line `i` alone starts with `key`, and
/// `value` follows there.
pub open spec fn alone_says(
    lines: Seq<Seq<char>>,
    k: int,
    i: int,
    key: Seq<char>,
    value: Seq<char>,
) -> bool {
    &&& k < i < lines.len()
    &&& trim(bare(lines[i])) == key + value
    &&& forall|j: int|
        k < j < lines.len() && j != i ==> !begins(trim(bare(#[trigger] lines[j])), key)
}

proof fn a_key_is_seen(key: Seq<char>, value: Seq<char>)
    ensures
        begins(key + value, key),
        (key + value).skip(key.len() as int) == value,
{
    assert((key + value).take(key.len() as int) =~= key);
    assert((key + value).skip(key.len() as int) =~= value);
}

#[verifier::rlimit(40)]
proof fn the_scan_finds(
    lines: Seq<Seq<char>>,
    k: int,
    p: int,
    f: Found,
    at: (int, int, int),
    v: (Seq<char>, Seq<char>, Seq<char>),
)
    requires
        0 <= k < p <= lines.len(),
        alone_says(lines, k, at.0, "ID:"@, v.0),
        alone_says(lines, k, at.1, "Who:"@, v.1),
        alone_says(lines, k, at.2, "Operation:"@, v.2),
        f.id == (if at.0 < p { Some(trim(v.0)) } else { None }),
        f.who == (if at.1 < p { trim(v.1) } else { Seq::<char>::empty() }),
        f.operation == (if at.2 < p { trim(v.2) } else { Seq::<char>::empty() }),
    ensures
        scanned(lines, p, f).id == Some(trim(v.0)),
        scanned(lines, p, f).who == trim(v.1),
        scanned(lines, p, f).operation == trim(v.2),
    decreases lines.len() - p,
{
    if p < lines.len() {
        reveal_strlit("ID:");
        reveal_strlit("Who:");
        reveal_strlit("Operation:");
        a_key_is_seen("ID:"@, v.0);
        a_key_is_seen("Who:"@, v.1);
        a_key_is_seen("Operation:"@, v.2);
        let t = trim(bare(lines[p]));
        if p == at.0 {
            assert(t[0] == 'I');
        } else if p == at.1 {
            assert(t[0] == 'W');
            assert(!begins(t, "ID:"@));
        } else if p == at.2 {
            assert(t[0] == 'O');
            assert(!begins(t, "ID:"@));
            assert(!begins(t, "Who:"@));
        }
        let g = with_line(f, lines[p]);
        if !is_complete(g) {
            the_scan_finds(lines, k, p + 1, g, at, v);
        }
    }
}

proof fn the_last_block_is_found(lines: Seq<Seq<char>>, k: int, n: int)
    requires
        0 <= k < n <= lines.len(),
        opens_block(lines[k]),
        forall|j: int| k < j < n ==> !opens_block(#[trigger] lines[j]),
    ensures
        last_block(lines, n) == Some(k),
    decreases n,
{
    if n - 1 > k {
        assert(!opens_block(lines[n - 1]));
        the_last_block_is_found(lines, k, n - 1);
    }
}

proof fn no_block_is_found(lines: Seq<Seq<char>>, n: int)
    requires
        n <= lines.len(),
        forall|j: int| 0 <= j < n ==> !opens_block(#[trigger] lines[j]),
    ensures
        last_block(lines, n) is None,
    decreases n,
{
    if n > 0 {
        assert(!opens_block(lines[n - 1]));
        no_block_is_found(lines, n - 1);
    }
}

/// The lock that is reported is the one that the last `Lock Info:` block of the
/// output names: its ID, who holds it, and for what, in whatever order these
/// lines stand and whatever stands between them.
pub proof fn a_printed_lock_is_read_back(
    lines: Seq<Seq<char>>,
    k: int,
    at: (int, int, int),
    id: Seq<char>,
    who: Seq<char>,
    operation: Seq<char>,
)
    requires
        0 <= k < lines.len(),
        holds(bare(lines[k]), "Lock Info:"@),
        forall|j: int| k < j < lines.len() ==> !holds(bare(#[trigger] lines[j]), "Lock Info:"@),
        alone_says(lines, k, at.0, "ID:"@, id),
        alone_says(lines, k, at.1, "Who:"@, who),
        alone_says(lines, k, at.2, "Operation:"@, operation),
    ensures
        lock_of(lines) == Some(
            LockView { id: trim(id), who: trim(who), operation: trim(operation) },
        ),
{
    the_last_block_is_found(lines, k, lines.len() as int);
    the_scan_finds(lines, k, k + 1, nothing_found(), at, (id, who, operation));
}

/// Without a `Lock Info:` line there is no lock, and without an `ID:` line in
/// the block there is none either.
pub proof fn no_lock_without_a_block_and_an_id(lines: Seq<Seq<char>>, k: int)
    requires
        0 <= k <= lines.len(),
        forall|j: int| k <= j < lines.len() ==> !holds(bare(#[trigger] lines[j]), "Lock Info:"@),
        forall|j: int| k <= j < lines.len() ==> !begins(trim(bare(#[trigger] lines[j])), "ID:"@),
        k > 0 ==> holds(bare(lines[k - 1]), "Lock Info:"@),
    ensures
        lock_of(lines) is None,
{
    if k == 0 {
        no_block_is_found(lines, lines.len() as int);
    } else {
        the_last_block_is_found(lines, k - 1, lines.len() as int);
        no_id_is_found(lines, k, nothing_found());
    }
}

proof fn no_id_is_found(lines: Seq<Seq<char>>, p: int, f: Found)
    requires
        0 <= p <= lines.len(),
        f.id is None,
        forall|j: int| p <= j < lines.len() ==> !begins(trim(bare(#[trigger] lines[j])), "ID:"@),
    ensures
        scanned(lines, p, f).id is None,
    decreases lines.len() - p,
{
    if p < lines.len() {
        assert(!begins(trim(bare(lines[p])), "ID:"@));
        no_id_is_found(lines, p + 1, with_line(f, lines[p]));
    }
}

} // verus!
