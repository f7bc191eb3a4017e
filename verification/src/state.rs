//! Resource addresses and the contents of terraform state.

use crate::paths::{components, join_path, joined_path, normalize_path, path_text, resolved};
use crate::text::{
    begins, chars_of, concat, copy_range, join, joined, matches_at, same, string_of, texts, trim,
    trim_chars, trim_start_chars, trim_start_of,
};
use vstd::prelude::*;

verus! {

// ── Address helpers ──

/// The reading of an address up to some point.
pub struct Reading {
    pub segments: Seq<Seq<char>>,
    pub current: Seq<char>,
    pub depth: int,
    pub in_string: bool,
    pub escaped: bool,
}

/// The reading of `s`: a dot ends a segment unless it stands in brackets or in
/// a quoted string, in which a backslash escapes the next character.
pub open spec fn reading(s: Seq<char>) -> Reading
    decreases s.len(),
{
    if s.len() == 0 {
        Reading {
            segments: Seq::empty(),
            current: Seq::empty(),
            depth: 0,
            in_string: false,
            escaped: false,
        }
    } else {
        let r = reading(s.drop_last());
        let c = s.last();
        let kept = Reading { current: r.current.push(c), escaped: false, ..r };
        if r.escaped {
            kept
        } else if c == '\\' && r.in_string {
            Reading { escaped: true, ..kept }
        } else if c == '"' {
            Reading { in_string: !r.in_string, ..kept }
        } else if c == '[' && !r.in_string {
            Reading { depth: r.depth + 1, ..kept }
        } else if c == ']' && !r.in_string {
            Reading { depth: r.depth - 1, ..kept }
        } else if c == '.' && r.depth == 0 && !r.in_string {
            Reading { segments: r.segments.push(r.current), current: Seq::empty(), ..r }
        } else {
            kept
        }
    }
}

/// The top-level segments of an address.
pub open spec fn top_segments(s: Seq<char>) -> Seq<Seq<char>> {
    reading(s).segments.push(reading(s).current)
}

/// Splits an address at its dots, but for those inside a `[...]` index, which
/// can itself hold a quoted string with dots and escapes.
pub fn split_top_segments(addr: &str) -> (r: Vec<String>)
    ensures
        texts(r@) == top_segments(addr@),
{
    let cs = chars_of(addr);
    let mut segments: Vec<String> = Vec::new();
    let mut start: usize = 0;
    let mut depth: i128 = 0;
    let mut in_string = false;
    let mut escaped = false;
    let mut i: usize = 0;
    assert(texts(segments@) =~= Seq::<Seq<char>>::empty());
    assert(cs@.subrange(0, 0) =~= Seq::<char>::empty());
    while i < cs.len()
        invariant
            start <= i <= cs@.len(),
            -(i as int) <= depth <= i,
            ({
                let r = reading(cs@.take(i as int));
                &&& texts(segments@) == r.segments
                &&& cs@.subrange(start as int, i as int) == r.current
                &&& depth == r.depth
                &&& in_string == r.in_string
                &&& escaped == r.escaped
            }),
        decreases cs@.len() - i,
    {
        let c = cs[i];
        let ghost r = reading(cs@.take(i as int));
        assert(cs@.take(i + 1).drop_last() == cs@.take(i as int));
        assert(cs@.subrange(start as int, i + 1) =~= r.current.push(c));
        if escaped {
            escaped = false;
        } else if c == '\\' && in_string {
            escaped = true;
        } else if c == '"' {
            in_string = !in_string;
        } else if c == '[' && !in_string {
            depth = depth + 1;
        } else if c == ']' && !in_string {
            depth = depth - 1;
        } else if c == '.' && depth == 0 && !in_string {
            let seg = string_of(copy_range(cs.as_slice(), start, i).as_slice());
            let ghost before = texts(segments@);
            let ghost view = seg@;
            segments.push(seg);
            assert(texts(segments@) =~= before.push(view));
            start = i + 1;
            assert(cs@.subrange(start as int, i + 1) =~= Seq::<char>::empty());
        }
        i += 1;
    }
    assert(cs@.take(i as int) == cs@);
    let seg = string_of(copy_range(cs.as_slice(), start, i).as_slice());
    let ghost before = texts(segments@);
    let ghost view = seg@;
    segments.push(seg);
    assert(texts(segments@) =~= before.push(view));
    segments
}

proof fn joined_grows(parts: Seq<Seq<char>>, last: Seq<char>, sep: Seq<char>)
    ensures
        joined(parts.push(last), sep) == if parts.len() == 0 {
            last
        } else {
            joined(parts, sep) + sep + last
        },
{
    assert(parts.push(last).drop_last() =~= parts);
}

/// The segments of an address, with dots between them, are the address.
pub proof fn segments_make_up_the_address(s: Seq<char>)
    ensures
        joined(top_segments(s), "."@) == s,
    decreases s.len(),
{
    reveal_strlit(".");
    let r = reading(s);
    if s.len() == 0 {
        assert(top_segments(s) =~= seq![Seq::<char>::empty()]);
        assert(joined(top_segments(s), "."@) =~= s);
    } else {
        segments_make_up_the_address(s.drop_last());
        let b = reading(s.drop_last());
        let c = s.last();
        joined_grows(b.segments, b.current, "."@);
        joined_grows(r.segments, r.current, "."@);
        if !b.escaped && c == '.' && b.depth == 0 && !b.in_string {
            assert(r.segments == b.segments.push(b.current));
            assert(joined(top_segments(s), "."@) =~= s.drop_last() + "."@ + Seq::<char>::empty());
            assert(s.drop_last() + "."@ + Seq::<char>::empty() =~= s);
        } else {
            assert(r.segments == b.segments);
            assert(r.current == b.current.push(c));
            assert(s =~= s.drop_last().push(c));
            assert(joined(top_segments(s), "."@) =~= s);
        }
    }
}

/// The number of leading segments that name modules, counted from `k`: pairs of
/// `module` and a name, as long as two segments are left for the resource.
pub open spec fn module_segments(segs: Seq<Seq<char>>, k: int) -> int
    decreases segs.len() - k,
{
    if 0 <= k && segs.len() >= k + 4 && segs[k] == "module"@ {
        module_segments(segs, k + 2)
    } else {
        k
    }
}

/// The module part of an address; none for a resource of the root module.
pub open spec fn prefix_of(addr: Seq<char>) -> Option<Seq<char>> {
    let segs = top_segments(addr);
    let k = module_segments(segs, 0);
    if k == 0 {
        None
    } else {
        Some(joined(segs.take(k), "."@))
    }
}

/// The view of an optional string.
pub open spec fn opt_text(s: Option<String>) -> Option<Seq<char>> {
    match s {
        Some(t) => Some(t@),
        None => None,
    }
}

/// The full module prefix of a resource address; none for a root resource.
pub fn module_prefix(addr: &str) -> (r: Option<String>)
    ensures
        opt_text(r) == prefix_of(addr@),
{
    let segs = split_top_segments(addr);
    let ghost all = texts(segs@);
    let n: usize = segs.len();
    let mut k: usize = 0;
    while n - k >= 4 && same(segs[k].as_str(), "module")
        invariant
            k <= n,
            n == segs@.len(),
            all == texts(segs@),
            module_segments(all, 0) == module_segments(all, k as int),
        decreases n - k,
    {
        assert(all[k as int] == segs@[k as int]@);
        k += 2;
    }
    assert(n - k >= 4 ==> all[k as int] == segs@[k as int]@);
    if k == 0 {
        None
    } else {
        let mut head = segs;
        head.truncate(k);
        assert(texts(head@) =~= all.take(k as int));
        Some(join(&head, "."))
    }
}

/// Whether `addr` is `prefix` or lies below it: `prefix` followed by a dot or
/// an index.
pub open spec fn covered(addr: Seq<char>, prefix: Seq<char>) -> bool {
    ||| addr == prefix
    ||| begins(addr, prefix) && addr.len() > prefix.len() && (addr[prefix.len() as int] == '.'
        || addr[prefix.len() as int] == '[')
}

/// Whether `addr` is `prefix` itself or a descendant of it. So `module.net`
/// does not cover `module.net2.x`, but does cover `module.net["a"].x`.
pub fn is_covered_by(addr: &str, prefix: &str) -> (r: bool)
    ensures
        r == covered(addr@, prefix@),
{
    let a = chars_of(addr);
    let p = chars_of(prefix);
    let n: usize = p.len();
    assert(n <= a@.len() ==> a@.take(n as int) == a@.subrange(0, n as int));
    if !matches_at(a.as_slice(), p.as_slice(), 0) {
        assert(a@ == p@ ==> a@.subrange(0, n as int) =~= p@);
        return false;
    }
    if a.len() == n {
        assert(a@.take(n as int) =~= a@);
        return true;
    }
    a[n] == '.' || a[n] == '['
}

/// An address covers itself.
pub proof fn covering_is_reflexive(a: Seq<char>)
    ensures
        covered(a, a),
{
}

/// What lies below something that lies below a prefix lies below the prefix.
pub proof fn covering_is_transitive(a: Seq<char>, b: Seq<char>, c: Seq<char>)
    requires
        covered(a, b),
        covered(b, c),
    ensures
        covered(a, c),
{
    if a != b && b != c {
        assert(a.take(c.len() as int) =~= b.take(c.len() as int));
        assert(a.take(b.len() as int)[c.len() as int] == b[c.len() as int]);
    }
}

/// Two addresses that cover each other are the same.
pub proof fn covering_is_antisymmetric(a: Seq<char>, b: Seq<char>)
    requires
        covered(a, b),
        covered(b, a),
    ensures
        a == b,
{
}

pub proof fn module_segments_bounds(segs: Seq<Seq<char>>, k: int)
    requires
        0 <= k <= segs.len(),
    ensures
        k <= module_segments(segs, k) <= segs.len(),
        k < segs.len() ==> module_segments(segs, k) < segs.len(),
    decreases segs.len() - k,
{
    if segs.len() >= k + 4 && segs[k] == "module"@ {
        module_segments_bounds(segs, k + 2);
    }
}

proof fn joined_splits(parts: Seq<Seq<char>>, k: int, sep: Seq<char>)
    requires
        0 < k < parts.len(),
    ensures
        joined(parts, sep) == joined(parts.take(k), sep) + sep + joined(parts.skip(k), sep),
    decreases parts.len() - k,
{
    let front = parts.drop_last();
    if k == parts.len() - 1 {
        assert(parts.take(k) =~= front);
        assert(parts.skip(k) =~= seq![parts.last()]);
    } else {
        joined_splits(front, k, sep);
        assert(front.take(k) =~= parts.take(k));
        assert(front.skip(k) =~= parts.skip(k).drop_last());
        assert(parts.skip(k).last() == parts.last());
        assert(joined(parts, sep) =~= joined(parts.take(k), sep) + sep + joined(parts.skip(k), sep));
    }
}

/// The module prefix of an address covers the address, and is shorter.
pub proof fn prefix_covers_its_address(addr: Seq<char>)
    requires
        prefix_of(addr) is Some,
    ensures
        covered(addr, prefix_of(addr)->0),
        prefix_of(addr)->0.len() < addr.len(),
{
    reveal_strlit(".");
    let segs = top_segments(addr);
    let k = module_segments(segs, 0);
    module_segments_bounds(segs, 0);
    segments_make_up_the_address(addr);
    joined_splits(segs, k, "."@);
    let p = joined(segs.take(k), "."@);
    assert(addr.take(p.len() as int) =~= p);
}

/// Whether a reading stands outside of brackets and strings, so that a dot would
/// end a segment.
pub open spec fn is_between(r: Reading) -> bool {
    r.depth == 0 && !r.in_string && !r.escaped
}

pub proof fn reading_goes_on(a: Seq<char>, b: Seq<char>)
    requires
        is_between(reading(a)),
    ensures
        ({
            let r = reading(a.push('.') + b);
            let after = reading(b);
            &&& r.segments == top_segments(a) + after.segments
            &&& r.current == after.current
            &&& r.depth == after.depth
            &&& r.in_string == after.in_string
            &&& r.escaped == after.escaped
        }),
        top_segments(a.push('.') + b) == top_segments(a) + top_segments(b),
    decreases b.len(),
{
    let s = a.push('.') + b;
    if b.len() == 0 {
        assert(s =~= a.push('.'));
        assert(s.drop_last() =~= a);
        assert(top_segments(a) + Seq::<Seq<char>>::empty() =~= top_segments(a));
    } else {
        reading_goes_on(a, b.drop_last());
        assert(s.drop_last() =~= a.push('.') + b.drop_last());
        assert(s.last() == b.last());
        let before = reading(b.drop_last());
        assert(top_segments(a) + before.segments.push(before.current) =~= (top_segments(a)
            + before.segments).push(before.current));
    }
    let after = reading(b);
    assert((top_segments(a) + after.segments).push(after.current) =~= top_segments(a)
        + top_segments(b));
}

pub proof fn segments_end_between(s: Seq<char>, k: int)
    requires
        0 < k <= reading(s).segments.len(),
    ensures
        ({
            let p = joined(reading(s).segments.take(k), "."@);
            &&& is_between(reading(p))
            &&& top_segments(p) == reading(s).segments.take(k)
            &&& p.len() < s.len()
            &&& s.take(p.len() as int + 1) == p.push('.')
        }),
    decreases s.len(),
{
    let front = s.drop_last();
    let b = reading(front);
    let r = reading(s);
    if k <= b.segments.len() {
        segments_end_between(front, k);
        assert(r.segments.take(k) =~= b.segments.take(k));
        let p = joined(r.segments.take(k), "."@);
        assert(s.take(p.len() as int + 1) =~= front.take(p.len() as int + 1));
    } else {
        assert(r.segments == b.segments.push(b.current));
        assert(r.segments.take(k) =~= top_segments(front));
        segments_make_up_the_address(front);
        assert(s.take(front.len() as int + 1) =~= front.push('.'));
    }
}

/// The first `k` segments of an address make up an address of their own, and so
/// do the others, with a dot in between.
pub proof fn an_address_can_be_cut(s: Seq<char>, k: int)
    requires
        0 < k < top_segments(s).len(),
    ensures
        ({
            let p = joined(top_segments(s).take(k), "."@);
            let rest = joined(top_segments(s).skip(k), "."@);
            &&& s == p.push('.') + rest
            &&& top_segments(p) == top_segments(s).take(k)
            &&& top_segments(rest) == top_segments(s).skip(k)
        }),
{
    let segs = top_segments(s);
    segments_end_between(s, k);
    assert(reading(s).segments.take(k) =~= segs.take(k));
    let p = joined(segs.take(k), "."@);
    let rest = s.skip(p.len() as int + 1);
    assert(s =~= p.push('.') + rest);
    reading_goes_on(p, rest);
    assert(top_segments(rest) =~= segs.skip(k));
    segments_make_up_the_address(rest);
}

pub proof fn module_pairs(segs: Seq<Seq<char>>, k: int)
    requires
        0 <= k <= segs.len(),
    ensures
        ({
            let m = module_segments(segs, k);
            &&& (m - k) % 2 == 0
            &&& segs.len() >= k + 2 ==> segs.len() >= m + 2
            &&& segs.len() < m + 4 || segs[m] != "module"@
            &&& forall|j: int|
                k <= j < m && (j - k) % 2 == 0 ==> (#[trigger] segs[j]) == "module"@
        }),
    decreases segs.len() - k,
{
    if segs.len() >= k + 4 && segs[k] == "module"@ {
        module_pairs(segs, k + 2);
        module_segments_bounds(segs, k + 2);
    }
}

pub proof fn same_module_pairs(segs: Seq<Seq<char>>, other: Seq<Seq<char>>, k: int, m: int)
    requires
        0 <= k <= m,
        (m - k) % 2 == 0,
        m + 2 <= other.len(),
        m <= segs.len(),
        other.take(m) == segs.take(m),
        forall|j: int| k <= j < m && (j - k) % 2 == 0 ==> (#[trigger] segs[j]) == "module"@,
        other.len() < m + 4 || other[m] != "module"@,
    ensures
        module_segments(other, k) == m,
    decreases m - k,
{
    if k < m {
        assert(segs[k] == "module"@);
        assert(other.take(m)[k] == segs.take(m)[k]);
        same_module_pairs(segs, other, k + 2, m);
    }
}

/// An address has a module prefix exactly where it begins with `module` and has
/// at least four segments. What is left behind the prefix, and a dot, is the
/// address of a resource within the module: it has at least two segments, and no
/// module prefix of its own.
pub proof fn a_leaf_is_left(addr: Seq<char>)
    ensures
        prefix_of(addr) is None <==> top_segments(addr)[0] != "module"@ || top_segments(addr).len()
            < 4,
        prefix_of(addr) is Some ==> ({
            let p = prefix_of(addr)->0;
            let leaf = addr.skip(p.len() as int + 1);
            &&& addr == p.push('.') + leaf
            &&& top_segments(addr) == top_segments(p) + top_segments(leaf)
            &&& top_segments(leaf).len() >= 2
            &&& prefix_of(leaf) is None
        }),
{
    let segs = top_segments(addr);
    let k = module_segments(segs, 0);
    module_segments_bounds(segs, 0);
    module_pairs(segs, 0);
    if segs.len() >= 4 && segs[0] == "module"@ {
        module_segments_bounds(segs, 2);
    }
    if k > 0 {
        an_address_can_be_cut(addr, k);
        let p = joined(segs.take(k), "."@);
        let leaf = joined(segs.skip(k), "."@);
        assert(addr.skip(p.len() as int + 1) =~= leaf);
        assert(segs =~= segs.take(k) + segs.skip(k));
        assert(segs.skip(k)[0] == segs[k]);
    }
}

/// A module prefix is the prefix of every address within the module: of the
/// prefix, a dot, and an address without a module prefix that has at least two
/// segments.
pub proof fn a_prefix_is_found_again(addr: Seq<char>, leaf: Seq<char>)
    requires
        prefix_of(addr) is Some,
        prefix_of(leaf) is None,
        top_segments(leaf).len() >= 2,
    ensures
        prefix_of(prefix_of(addr)->0.push('.') + leaf) == prefix_of(addr),
{
    let segs = top_segments(addr);
    let k = module_segments(segs, 0);
    let p = prefix_of(addr)->0;
    module_segments_bounds(segs, 0);
    module_pairs(segs, 0);
    an_address_can_be_cut(addr, k);
    segments_end_between(addr, k);
    assert(reading(addr).segments.take(k) =~= segs.take(k));
    let other = segs.take(k) + top_segments(leaf);
    reading_goes_on(p, leaf);
    a_leaf_is_left(leaf);
    assert(other.take(k) =~= segs.take(k));
    assert(other[k] == top_segments(leaf)[0]);
    same_module_pairs(segs, other, 0, k);
}

/// The prefix of a resource directly below a module prefix is that prefix.
pub proof fn a_module_holds_its_resources(addr: Seq<char>)
    requires
        prefix_of(addr) is Some,
    ensures
        prefix_of(prefix_of(addr)->0 + ".t.n"@) == prefix_of(addr),
{
    let p = prefix_of(addr)->0;
    let leaf = seq!['t', '.', 'n'];
    reveal_strlit(".t.n");
    assert(p + ".t.n"@ =~= p.push('.') + leaf);
    two_segments_are_short();
    a_leaf_is_left(leaf);
    a_prefix_is_found_again(addr, leaf);
}

proof fn two_segments_are_short()
    ensures
        top_segments(seq!['t', '.', 'n']).len() == 2,
{
    let none = Seq::<char>::empty();
    let t = seq!['t'];
    let dot = seq!['t', '.'];
    let all = seq!['t', '.', 'n'];
    assert(t.drop_last() =~= none);
    assert(dot.drop_last() =~= t);
    assert(all.drop_last() =~= dot);
    assert(reading(none).segments.len() == 0);
    assert(reading(t).segments.len() == 0);
    assert(reading(dot).segments.len() == 1);
    assert(reading(all).segments.len() == 1);
}

/// The part of an address behind its module prefix.
pub open spec fn leaf_of(addr: Seq<char>) -> Seq<char> {
    match prefix_of(addr) {
        Some(p) => trim_start_of(addr.skip(p.len() as int), '.'),
        None => addr,
    }
}

/// Whether the part behind any module prefix names a data source.
pub fn is_data_address(addr: &str) -> (r: bool)
    ensures
        r == begins(leaf_of(addr@), "data."@),
{
    let cs = chars_of(addr);
    match module_prefix(addr) {
        Some(p) => {
            proof {
                prefix_covers_its_address(addr@);
            }
            let n: usize = chars_of(p.as_str()).len();
            let rest = copy_range(cs.as_slice(), n, cs.len());
            assert(rest@ =~= addr@.skip(n as int));
            let leaf = trim_start_chars(rest.as_slice(), '.');
            crate::text::begins_with(leaf.as_slice(), "data.")
        },
        None => crate::text::begins_with(cs.as_slice(), "data."),
    }
}

// ── State contents ──

/// What tells one instance of a resource from another.
#[derive(Debug)]
pub enum IndexKey {
    /// No index, or a null one.
    Absent,
    /// A number, as it is written.
    Number(String),
    /// A string, without its quotes.
    Text(String),
    /// Any other value, as it is written.
    Other(String),
}

/// An index as text.
pub enum IndexKeyView {
    Absent,
    Number(Seq<char>),
    Text(Seq<char>),
    Other(Seq<char>),
}

impl View for IndexKey {
    type V = IndexKeyView;

    open spec fn view(&self) -> IndexKeyView {
        match self {
            IndexKey::Absent => IndexKeyView::Absent,
            IndexKey::Number(t) => IndexKeyView::Number(t@),
            IndexKey::Text(t) => IndexKeyView::Text(t@),
            IndexKey::Other(t) => IndexKeyView::Other(t@),
        }
    }
}

/// One instance object of a resource block.
#[derive(Debug)]
pub struct Instance {
    pub index_key: IndexKey,
    /// The value of `status`, where it is a string.
    pub status: Option<String>,
    /// The whole object as JSON text.
    pub body: String,
}

/// A single addressable resource instance, one line of `terraform state list`.
#[derive(Debug)]
pub struct StateResource {
    pub address: String,
    pub instance: Instance,
}

impl StateResource {
    /// Whether the instance is marked as tainted.
    pub fn is_tainted(&self) -> (r: bool)
        ensures
            r == (opt_text(self.instance.status) == Some("tainted"@)),
    {
        match &self.instance.status {
            Some(s) => same(s.as_str(), "tainted"),
            None => false,
        }
    }
}

/// A resource block of a state file.
#[derive(Debug)]
pub struct TfResource {
    pub mode: String,
    pub resource_type: String,
    pub name: String,
    pub module: Option<String>,
    pub instances: Vec<Instance>,
}

/// The result of reading a module's state.
#[derive(Debug)]
pub enum StateContent {
    /// A read is in flight.
    Loading,
    /// The module was never initialized and has no local state file.
    NotInitialized,
    /// No resources in state.
    NoState,
    Resources(Vec<StateResource>),
    /// State could not be read or parsed; the message is shown to the user.
    Error(String),
}

/// The address of a resource block, without an instance index.
pub open spec fn base_address(r: TfResource) -> Seq<char> {
    let named = r.resource_type@ + "."@ + r.name@;
    let leaf = if r.mode@ == "data"@ {
        "data."@ + named
    } else {
        named
    };
    match r.module {
        Some(m) => m@ + "."@ + leaf,
        None => leaf,
    }
}

/// The suffix that an index key gives an address.
pub open spec fn index_suffix(k: IndexKey) -> Seq<char> {
    match k {
        IndexKey::Number(t) => "["@ + t@ + "]"@,
        IndexKey::Text(t) => "[\""@ + t@ + "\"]"@,
        IndexKey::Other(t) => "["@ + t@ + "]"@,
        IndexKey::Absent => Seq::empty(),
    }
}

/// Builds the address of a resource block, without an instance index.
pub fn build_base_address(r: &TfResource) -> (a: String)
    ensures
        a@ == base_address(*r),
{
    let mut named = r.resource_type.clone();
    named.append(".");
    named.append(r.name.as_str());
    let leaf = if same(r.mode.as_str(), "data") {
        concat("data.", named.as_str())
    } else {
        named
    };
    match &r.module {
        Some(m) => {
            let mut full = m.clone();
            full.append(".");
            full.append(leaf.as_str());
            full
        },
        None => leaf,
    }
}

fn suffix_of(k: &IndexKey) -> (r: String)
    ensures
        r@ == index_suffix(*k),
{
    match k {
        IndexKey::Number(t) => {
            let mut s = "[".to_owned();
            s.append(t.as_str());
            s.append("]");
            s
        },
        IndexKey::Text(t) => {
            let mut s = "[\"".to_owned();
            s.append(t.as_str());
            s.append("\"]");
            s
        },
        IndexKey::Other(t) => {
            let mut s = "[".to_owned();
            s.append(t.as_str());
            s.append("]");
            s
        },
        IndexKey::Absent => String::new(),
    }
}

/// Whether `out` lists the instances of `r`, in order, each under its address.
pub open spec fn expands(r: TfResource, out: Seq<StateResource>) -> bool {
    &&& out.len() == r.instances@.len()
    &&& forall|i: int|
        0 <= i < out.len() ==> (#[trigger] out[i]).instance == r.instances@[i] && out[i].address@
            == base_address(r) + index_suffix(r.instances@[i].index_key)
}

/// Expands a resource block into one resource per instance. An instance without
/// an index gets no suffix.
pub fn expand_resource(r: TfResource) -> (out: Vec<StateResource>)
    ensures
        expands(r, out@),
{
    let ghost before = r;
    let base = build_base_address(&r);
    let mut rest = r.instances;
    let ghost all = rest@;
    let mut out: Vec<StateResource> = Vec::new();
    while rest.len() > 0
        invariant
            base@ == base_address(before),
            all == before.instances@,
            out@.len() + rest@.len() == all.len(),
            rest@ == all.skip(out@.len() as int),
            forall|i: int|
                0 <= i < out@.len() ==> (#[trigger] out@[i]).instance == all[i]
                    && out@[i].address@ == base_address(before) + index_suffix(all[i].index_key),
        decreases rest@.len(),
    {
        let instance = rest.remove(0);
        let suffix = suffix_of(&instance.index_key);
        let address = concat(base.as_str(), suffix.as_str());
        out.push(StateResource { address, instance });
        assert(rest@ =~= all.skip(out@.len() as int));
    }
    out
}

/// The number of instances of the first `n` blocks.
pub open spec fn instances_before(rs: Seq<TfResource>, n: int) -> nat
    decreases n,
{
    if n <= 0 {
        0
    } else {
        instances_before(rs, n - 1) + rs[n - 1].instances@.len()
    }
}

/// Whether `out` is the concatenation of the expansions of `rs`.
pub open spec fn expands_all(rs: Seq<TfResource>, out: Seq<StateResource>) -> bool {
    &&& out.len() == instances_before(rs, rs.len() as int)
    &&& forall|i: int|
        0 <= i < rs.len() ==> expands(
            #[trigger] rs[i],
            out.subrange(instances_before(rs, i) as int, instances_before(rs, i + 1) as int),
        )
}

/// The content of a state file that was parsed into `parsed`: its resource
/// blocks, if it has any, or the reason why it could not be parsed.
///
/// Blocks with several instances give several addresses, in the order in which
/// `terraform state list` shows them. A file that cannot be parsed is an error,
/// never an empty state.
pub fn parsed_state(parsed: Result<Option<Vec<TfResource>>, String>) -> (r: StateContent)
    ensures
        match parsed {
            Err(e) => r matches StateContent::Error(m) && m@ == "failed to parse state: "@ + e@,
            Ok(blocks) => {
                let rs = match blocks {
                    Some(v) => v@,
                    None => Seq::empty(),
                };
                if instances_before(rs, rs.len() as int) == 0 {
                    r == StateContent::NoState
                } else {
                    r matches StateContent::Resources(out) && expands_all(rs, out@)
                }
            },
        },
{
    let mut rest = match parsed {
        Err(e) => {
            return StateContent::Error(concat("failed to parse state: ", e.as_str()));
        },
        Ok(Some(v)) => v,
        Ok(None) => Vec::new(),
    };
    let ghost rs = rest@;
    let mut out: Vec<StateResource> = Vec::new();
    let ghost mut n: int = 0;
    while rest.len() > 0
        invariant
            0 <= n <= rs.len(),
            rest@ == rs.skip(n),
            out@.len() == instances_before(rs, n),
            forall|i: int|
                0 <= i < n ==> instances_before(rs, i) <= instances_before(rs, i + 1) <= out@.len()
                    && expands(
                    #[trigger] rs[i],
                    out@.subrange(
                        instances_before(rs, i) as int,
                        instances_before(rs, i + 1) as int,
                    ),
                ),
        decreases rest@.len(),
    {
        let block = rest.remove(0);
        let ghost block_view = block;
        let mut more = expand_resource(block);
        let ghost added = more@;
        let ghost before = out@;
        out.append(&mut more);
        proof {
            assert(block_view == rs[n]);
            assert(out@ =~= before + added);
            assert(out@.subrange(before.len() as int, out@.len() as int) =~= added);
            assert forall|i: int| 0 <= i < n implies expands(
                #[trigger] rs[i],
                out@.subrange(
                    instances_before(rs, i) as int,
                    instances_before(rs, i + 1) as int,
                ),
            ) by {
                assert(out@.subrange(
                    instances_before(rs, i) as int,
                    instances_before(rs, i + 1) as int,
                ) =~= before.subrange(
                    instances_before(rs, i) as int,
                    instances_before(rs, i + 1) as int,
                ));
            }
            n = n + 1;
            assert(rest@ =~= rs.skip(n));
        }
    }
    if out.len() == 0 {
        StateContent::NoState
    } else {
        StateContent::Resources(out)
    }
}

// ── Where state is read from ──

/// The backend that a module was initialized with.
#[derive(Debug)]
pub struct BackendConfig {
    pub backend_type: String,
    /// The configured state path, where there is one.
    pub path: Option<String>,
}

/// The state path that a local backend is configured with.
pub open spec fn configured_path(
    module_dir: Seq<char>,
    backend: Option<BackendConfig>,
) -> Option<Seq<char>> {
    match backend {
        Some(b) => if b.backend_type@ == "local"@ && b.path is Some {
            Some(path_text(resolved(components(joined_path(module_dir, (b.path->0)@)))))
        } else {
            None
        },
        None => None,
    }
}

/// The state path that a local backend is configured with, resolved against the
/// module directory.
pub fn configured_state_path(module_dir: &str, backend: &Option<BackendConfig>) -> (r: Option<
    String,
>)
    ensures
        opt_text(r) == configured_path(module_dir@, *backend),
{
    match backend {
        Some(b) => match &b.path {
            Some(p) => if same(b.backend_type.as_str(), "local") {
                Some(normalize_path(join_path(module_dir, p.as_str()).as_str()))
            } else {
                None
            },
            None => None,
        },
        None => None,
    }
}

/// Which state file to read for an initialized module, given what exists: the
/// configured local path, else `terraform.tfstate` in the module directory.
pub fn resolve_state_path(
    module_dir: &str,
    backend: &Option<BackendConfig>,
    configured_exists: bool,
    default_exists: bool,
) -> (r: Option<String>)
    ensures
        opt_text(r) == (if configured_exists && configured_path(module_dir@, *backend) is Some {
            configured_path(module_dir@, *backend)
        } else if default_exists {
            Some(joined_path(module_dir@, "terraform.tfstate"@))
        } else {
            None
        }),
{
    if configured_exists {
        if let Some(p) = configured_state_path(module_dir, backend) {
            return Some(p);
        }
    }
    if default_exists {
        Some(join_path(module_dir, "terraform.tfstate"))
    } else {
        None
    }
}

/// Whether a module's backend keeps its state elsewhere.
pub fn is_remote_backend(backend: &Option<BackendConfig>) -> (r: bool)
    ensures
        r == (backend is Some && (backend->0).backend_type@ != "local"@),
{
    match backend {
        Some(b) => !same(b.backend_type.as_str(), "local"),
        None => false,
    }
}

/// Where the state of a module comes from.
#[derive(Debug)]
pub enum StateSource {
    /// A file to read.
    File(String),
    /// The remote backend, by `state pull`.
    Pull,
    /// Nowhere: the module is initialized and has no state.
    NoState,
    /// Nowhere: the module was never initialized.
    NotInitialized,
}

/// Decides where the state of a module comes from. A module counts as
/// initialized when it has a `.terraform` directory; without one, a local state
/// file is still read.
pub fn state_source(
    module_dir: &str,
    initialized: bool,
    resolved: Option<String>,
    remote: bool,
    local_exists: bool,
) -> (r: StateSource)
    ensures
        match r {
            StateSource::File(p) => if initialized {
                opt_text(resolved) == Some(p@)
            } else {
                local_exists && p@ == joined_path(module_dir@, "terraform.tfstate"@)
            },
            StateSource::Pull => initialized && resolved is None && remote,
            StateSource::NoState => initialized && resolved is None && !remote,
            StateSource::NotInitialized => !initialized && !local_exists,
        },
{
    if initialized {
        match resolved {
            Some(p) => StateSource::File(p),
            None => if remote {
                StateSource::Pull
            } else {
                StateSource::NoState
            },
        }
    } else if local_exists {
        StateSource::File(join_path(module_dir, "terraform.tfstate"))
    } else {
        StateSource::NotInitialized
    }
}

/// The message for a `state pull` that failed and wrote `stderr`.
pub fn pull_failure(stderr: &str) -> (r: StateContent)
    ensures
        r matches StateContent::Error(m) && m@ == (if trim(stderr@).len() == 0 {
            "`state pull` failed"@
        } else {
            trim(stderr@)
        }),
{
    let t = trim_chars(chars_of(stderr).as_slice());
    if t.len() == 0 {
        StateContent::Error("`state pull` failed".to_owned())
    } else {
        StateContent::Error(string_of(t.as_slice()))
    }
}

} // verus!
