//! State locks, as read from task output.

use crate::text::{
    begins, begins_with, chars_of, concat, copy_range, holds, string_of, texts, trim, trim_chars,
};
use crate::util::{strip_ansi, stripped};
use vstd::prelude::*;

verus! {

/// Who holds a state lock, and for what.
#[derive(Debug)]
pub struct LockInfo {
    pub id: String,
    pub who: String,
    pub operation: String,
}

/// Whether `c` belongs to the border that frames error messages.
pub open spec fn is_border(c: char) -> bool {
    c == '\u{2502}' || c == '\u{2577}' || c == '\u{2575}' || c == ' '
}

/// `s` without the border it starts with.
pub open spec fn without_border(s: Seq<char>) -> Seq<char>
    decreases s.len(),
{
    if s.len() > 0 && is_border(s[0]) {
        without_border(s.skip(1))
    } else {
        s
    }
}

/// An output line without escape sequences and without its border.
pub open spec fn bare(line: Seq<char>) -> Seq<char> {
    without_border(stripped(line))
}

/// Removes escape sequences and the box-drawing border of an output line.
pub fn strip_border(s: &str) -> (r: String)
    ensures
        r@ == bare(s@),
{
    let cs = bare_chars(s);
    string_of(cs.as_slice())
}

fn bare_chars(s: &str) -> (r: Vec<char>)
    ensures
        r@ == bare(s@),
{
    let clean = strip_ansi(s);
    let cs = chars_of(clean.as_str());
    let mut i: usize = 0;
    assert(cs@.skip(0) == cs@);
    while i < cs.len() && (cs[i] == '\u{2502}' || cs[i] == '\u{2577}' || cs[i] == '\u{2575}' || cs[i]
        == ' ')
        invariant
            i <= cs.len(),
            without_border(cs@) == without_border(cs@.skip(i as int)),
        decreases cs.len() - i,
    {
        assert(cs@.skip(i as int).skip(1) == cs@.skip(i + 1));
        i += 1;
    }
    assert(cs@.subrange(i as int, cs@.len() as int) == cs@.skip(i as int));
    copy_range(cs.as_slice(), i, cs.len())
}

/// What a scan of a lock block has found so far.
pub struct Found {
    pub id: Option<Seq<char>>,
    pub who: Seq<char>,
    pub operation: Seq<char>,
}

/// Nothing found yet.
pub open spec fn nothing_found() -> Found {
    Found { id: None, who: Seq::empty(), operation: Seq::empty() }
}

/// The value of a `key: value` line.
pub open spec fn field_value(line: Seq<char>, key: Seq<char>) -> Seq<char> {
    trim(line.skip(key.len() as int))
}

/// What is found once `line` has been read too.
pub open spec fn with_line(f: Found, line: Seq<char>) -> Found {
    let t = trim(bare(line));
    if begins(t, "ID:"@) {
        Found { id: Some(field_value(t, "ID:"@)), ..f }
    } else if begins(t, "Who:"@) {
        Found { who: field_value(t, "Who:"@), ..f }
    } else if begins(t, "Operation:"@) {
        Found { operation: field_value(t, "Operation:"@), ..f }
    } else {
        f
    }
}

/// Whether nothing is left to look for.
pub open spec fn is_complete(f: Found) -> bool {
    f.id is Some && f.who.len() > 0 && f.operation.len() > 0
}

/// What a scan of `lines` from `i` on finds, beginning with `f`: it ends at the
/// line that completes the block.
pub open spec fn scanned(lines: Seq<Seq<char>>, i: int, f: Found) -> Found
    decreases lines.len() - i,
{
    if i >= lines.len() {
        f
    } else {
        let g = with_line(f, lines[i]);
        if is_complete(g) {
            g
        } else {
            scanned(lines, i + 1, g)
        }
    }
}

/// Whether `line` opens a lock block.
pub open spec fn opens_block(line: Seq<char>) -> bool {
    holds(bare(line), "Lock Info:"@)
}

/// The line at which the last lock block of the first `n` lines opens.
pub open spec fn last_block(lines: Seq<Seq<char>>, n: int) -> Option<int>
    decreases n,
{
    if n <= 0 {
        None
    } else if opens_block(lines[n - 1]) {
        Some(n - 1)
    } else {
        last_block(lines, n - 1)
    }
}

/// A lock as text.
pub struct LockView {
    pub id: Seq<char>,
    pub who: Seq<char>,
    pub operation: Seq<char>,
}

impl View for LockInfo {
    type V = LockView;

    open spec fn view(&self) -> LockView {
        LockView { id: self.id@, who: self.who@, operation: self.operation@ }
    }
}

/// The view of a lock, if there is one.
pub open spec fn lock_view(l: Option<LockInfo>) -> Option<LockView> {
    match l {
        Some(l) => Some(l@),
        None => None,
    }
}

/// The lock that a lock block reports, from the line after its marker on; none
/// where the block names no ID.
pub open spec fn block_lock(lines: Seq<Seq<char>>, from: int) -> Option<LockView> {
    let f = scanned(lines, from, nothing_found());
    match f.id {
        Some(id) => Some(LockView { id, who: f.who, operation: f.operation }),
        None => None,
    }
}

/// The lock that the last lock block of `lines` reports.
pub open spec fn lock_of(lines: Seq<Seq<char>>) -> Option<LockView> {
    match last_block(lines, lines.len() as int) {
        Some(i) => block_lock(lines, i + 1),
        None => None,
    }
}

/// Reads the lock that tofu or terraform reports in `lines`.
///
/// Whenever locking fails, a `Lock Info:` block is printed, whatever the
/// backend. The last block counts. Without one, or where it names no ID, there
/// is no lock to report.
pub fn parse_lock_from_output(lines: &[String]) -> (r: Option<LockInfo>)
    ensures
        lock_view(r) == lock_of(texts(lines@)),
{
    let ghost all = texts(lines@);
    let mut k: usize = lines.len();
    while k > 0
        invariant
            k <= lines.len(),
            all == texts(lines@),
            last_block(all, lines@.len() as int) == last_block(all, k as int),
        decreases k,
    {
        let clean = bare_chars(lines[k - 1].as_str());
        assert(all[k - 1] == lines@[k - 1]@);
        if crate::text::contains(clean.as_slice(), "Lock Info:") {
            return read_block(lines, k);
        }
        k -= 1;
    }
    None
}

/// Reads the fields of the lock block that starts at line `from`.
fn read_block(lines: &[String], from: usize) -> (r: Option<LockInfo>)
    requires
        from <= lines@.len(),
    ensures
        lock_view(r) == block_lock(texts(lines@), from as int),
{
    let ghost all = texts(lines@);
    let ghost want = scanned(all, from as int, nothing_found());
    let mut id: Option<String> = None;
    let mut who = String::new();
    let mut operation = String::new();
    let mut i: usize = from;
    let ghost mut f = nothing_found();
    while i < lines.len()
        invariant_except_break
            scanned(all, i as int, f) == want,
        invariant
            from <= i <= lines.len(),
            all == texts(lines@),
            f.id == (match id {
                Some(t) => Some(t@),
                None => None,
            }),
            f.who == who@,
            f.operation == operation@,
        ensures
            f == want,
        decreases lines.len() - i,
    {
        let clean = bare_chars(lines[i].as_str());
        let t = trim_chars(clean.as_slice());
        assert(all[i as int] == lines@[i as int]@);
        proof {
            reveal_strlit("ID:");
            reveal_strlit("Who:");
            reveal_strlit("Operation:");
            f = with_line(f, all[i as int]);
        }
        if begins_with(t.as_slice(), "ID:") {
            id = Some(value_from(t.as_slice(), 3));
        } else if begins_with(t.as_slice(), "Who:") {
            who = value_from(t.as_slice(), 4);
        } else if begins_with(t.as_slice(), "Operation:") {
            operation = value_from(t.as_slice(), 10);
        }
        i += 1;
        if id.is_some() && !who.as_str().is_empty() && !operation.as_str().is_empty() {
            break;
        }
    }
    match id {
        Some(id) => Some(LockInfo { id, who, operation }),
        None => None,
    }
}

fn value_from(t: &[char], from: usize) -> (r: String)
    requires
        from <= t@.len(),
    ensures
        r@ == trim(t@.skip(from as int)),
{
    let rest = copy_range(t, from, t.len());
    assert(t@.subrange(from as int, t@.len() as int) == t@.skip(from as int));
    string_of(trim_chars(rest.as_slice()).as_slice())
}

/// The path of the lock file that a local backend keeps beside a state file.
pub fn lock_info_path(state_path: &str) -> (r: String)
    ensures
        r@ == state_path@ + ".lock.info"@,
{
    concat(state_path, ".lock.info")
}

} // verus!
