//! Slash-separated paths as text.

use crate::text::{
    chars_of, concat, is_text, join, joined, pieces, same, split_chars, split_on,
    split_on_has_a_piece, string_of, texts,
};
use vstd::prelude::*;

verus! {

/// The named components of `p`: its pieces between slashes, without the empty
/// ones and without `.`.
pub open spec fn named_components(p: Seq<char>) -> Seq<Seq<char>> {
    split_on(p, '/').filter(|s: Seq<char>| s.len() > 0 && s != "."@)
}

/// What stands before the named components: the root, a leading `.`, or nothing.
pub open spec fn lead_component(p: Seq<char>) -> Seq<Seq<char>> {
    if p.len() > 0 && p[0] == '/' {
        seq!["/"@]
    } else if split_on(p, '/')[0] == "."@ {
        seq!["."@]
    } else {
        Seq::empty()
    }
}

/// The components of `p`: repeated and trailing slashes do not count, nor does
/// a `.` but at the very beginning.
pub open spec fn components(p: Seq<char>) -> Seq<Seq<char>> {
    lead_component(p) + named_components(p)
}

/// The components of `p`.
pub fn components_of(p: &str) -> (r: Vec<String>)
    ensures
        texts(r@) == components(p@),
{
    let cs = chars_of(p);
    let parts = split_chars(cs.as_slice(), '/');
    let ghost named = |s: Seq<char>| s.len() > 0 && s != "."@;
    let ghost cut = pieces(parts@);
    let ghost lead = lead_component(p@);
    let mut out: Vec<String> = Vec::new();
    assert(texts(out@) == Seq::<Seq<char>>::empty());
    if cs.len() > 0 && cs[0] == '/' {
        out.push("/".to_owned());
    } else if parts.len() > 0 && is_text(parts[0].as_slice(), ".") {
        assert(cut[0] == parts@[0]@);
        out.push(".".to_owned());
    } else {
        proof {
            split_on_has_a_piece(p@, '/');
            assert(cut[0] == parts@[0]@);
        }
    }
    assert(texts(out@) == lead);
    let mut i: usize = 0;
    assert(cut.take(0).filter(named) == Seq::<Seq<char>>::empty()) by {
        reveal(Seq::filter);
    }
    assert(lead + Seq::<Seq<char>>::empty() == lead);
    while i < parts.len()
        invariant
            i <= parts.len(),
            cut == pieces(parts@),
            named == (|s: Seq<char>| s.len() > 0 && s != "."@),
            texts(out@) == lead + cut.take(i as int).filter(named),
        decreases parts.len() - i,
    {
        let ghost piece = parts@[i as int]@;
        proof {
            assert(cut.take(i + 1) == cut.take(i as int).push(piece));
            cut.take(i as int).lemma_filter_push(piece, named);
        }
        if parts[i].len() > 0 && !is_text(parts[i].as_slice(), ".") {
            let ghost before = texts(out@);
            out.push(string_of(parts[i].as_slice()));
            assert(texts(out@) == before.push(piece));
        }
        i += 1;
        assert(texts(out@) == lead + cut.take(i as int).filter(named));
    }
    assert(cut.take(i as int) == cut);
    out
}

/// A path is the same with a slash at its end.
pub proof fn a_slash_at_the_end_does_not_count(p: Seq<char>)
    requires
        p.len() > 0,
    ensures
        components(p.push('/')) == components(p),
{
    let named = |s: Seq<char>| s.len() > 0 && s != "."@;
    let longer = p.push('/');
    assert(longer.drop_last() =~= p);
    split_on_has_a_piece(p, '/');
    let cut = split_on(p, '/');
    assert(split_on(longer, '/') == cut.push(Seq::empty()));
    cut.lemma_filter_push(Seq::empty(), named);
    assert(named_components(longer) == named_components(p));
    assert(split_on(longer, '/')[0] == cut[0]);
}

/// Whether two paths are the same, component by component.
pub fn same_path(a: &str, b: &str) -> (r: bool)
    ensures
        r == (components(a@) == components(b@)),
{
    if same(a, b) {
        return true;
    }
    let ca = components_of(a);
    let cb = components_of(b);
    let ghost va = texts(ca@);
    let ghost vb = texts(cb@);
    assert(va.len() == ca@.len() && vb.len() == cb@.len());
    if ca.len() != cb.len() {
        return false;
    }
    let mut i: usize = 0;
    while i < ca.len()
        invariant
            i <= ca@.len(),
            ca@.len() == cb@.len(),
            va == texts(ca@),
            vb == texts(cb@),
            va == components(a@),
            vb == components(b@),
            forall|j: int| 0 <= j < i ==> va[j] == vb[j],
        decreases ca@.len() - i,
    {
        assert(va[i as int] == ca@[i as int]@ && vb[i as int] == cb@[i as int]@);
        if !same(ca[i].as_str(), cb[i].as_str()) {
            return false;
        }
        i += 1;
    }
    assert(va =~= vb);
    true
}

/// `a` with `b` appended: `b` alone when it is absolute.
pub open spec fn joined_path(a: Seq<char>, b: Seq<char>) -> Seq<char> {
    if b.len() > 0 && b[0] == '/' {
        b
    } else if a.len() > 0 && a.last() != '/' {
        a.push('/') + b
    } else {
        a + b
    }
}

/// `a` with `b` appended: `b` alone when it is absolute.
pub fn join_path(a: &str, b: &str) -> (r: String)
    ensures
        r@ == joined_path(a@, b@),
{
    let ca = chars_of(a);
    let cb = chars_of(b);
    if cb.len() > 0 && cb[0] == '/' {
        b.to_owned()
    } else {
        let mut out = a.to_owned();
        if ca.len() > 0 && ca[ca.len() - 1] != '/' {
            out.push('/');
        }
        out.append(b);
        out
    }
}

/// The components left when every `..` takes back the component before it.
/// The root is never taken back.
pub open spec fn resolved(comps: Seq<Seq<char>>) -> Seq<Seq<char>>
    decreases comps.len(),
{
    if comps.len() == 0 {
        Seq::empty()
    } else {
        let before = resolved(comps.drop_last());
        let c = comps.last();
        if c == ".."@ {
            if before.len() > 0 && before.last() != "/"@ {
                before.drop_last()
            } else {
                before
            }
        } else if c == "."@ {
            before
        } else {
            before.push(c)
        }
    }
}

/// The text of a path with the components `comps`.
pub open spec fn path_text(comps: Seq<Seq<char>>) -> Seq<char> {
    if comps.len() > 0 && comps[0] == "/"@ {
        "/"@ + joined(comps.skip(1), "/"@)
    } else {
        joined(comps, "/"@)
    }
}

/// Resolves the `..` components of a path without asking the disk.
pub fn normalize_path(path: &str) -> (r: String)
    ensures
        r@ == path_text(resolved(components(path@))),
{
    let comps = components_of(path);
    let ghost all = texts(comps@);
    let mut out: Vec<String> = Vec::new();
    let mut i: usize = 0;
    assert(texts(out@) == resolved(all.take(0)));
    while i < comps.len()
        invariant
            i <= comps.len(),
            all == texts(comps@),
            texts(out@) == resolved(all.take(i as int)),
        decreases comps.len() - i,
    {
        let ghost before = texts(out@);
        assert(all.take(i + 1).drop_last() == all.take(i as int));
        let c = chars_of(comps[i].as_str());
        if is_text(c.as_slice(), "..") {
            if out.len() > 0 {
                let last = chars_of(out[out.len() - 1].as_str());
                assert(before.last() == last@);
                if !is_text(last.as_slice(), "/") {
                    out.pop();
                    assert(texts(out@) == before.drop_last());
                }
            }
        } else if is_text(c.as_slice(), ".") {
        } else {
            out.push(comps[i].clone());
            assert(texts(out@) == before.push(c@));
        }
        i += 1;
    }
    assert(all.take(i as int) == all);
    let ghost kept = texts(out@);
    if out.len() > 0 && crate::text::same(out[0].as_str(), "/") {
        let rest = out.split_off(1);
        assert(texts(rest@) == kept.skip(1));
        concat("/", join(&rest, "/").as_str())
    } else {
        join(&out, "/")
    }
}

/// Whether a path does not begin at the root.
pub open spec fn is_relative(p: Seq<char>) -> bool {
    p.len() == 0 || p[0] != '/'
}

/// What `std::path::Path::strip_prefix` leaves of `path` without `base`, as
/// text; none where `base` is no prefix of it.
pub uninterp spec fn stripped_path(path: Seq<char>, base: Seq<char>) -> Option<Seq<char>>;

/// Calls `std::path::Path::strip_prefix`. It succeeds exactly where the
/// components of `base` are the first ones of `path`, and gives a path that,
/// joined onto `base`, is `path` again, component by component. Below a `base`
/// that is not empty, what is left is relative.
#[verifier::external_body]
pub(crate) fn strip_path_prefix(path: &str, base: &str) -> (r: Option<String>)
    ensures
        match r {
            Some(t) => stripped_path(path@, base@) == Some(t@) && components(
                joined_path(base@, t@),
            ) == components(path@),
            None => stripped_path(path@, base@) is None,
        },
        r is Some <==> components(base@).is_prefix_of(components(path@)),
        r is Some && components(base@).len() > 0 ==> is_relative(r->0@),
{
    match std::path::Path::new(path).strip_prefix(base) {
        Ok(rest) => Some(rest.to_string_lossy().into_owned()),
        Err(_) => None,
    }
}

} // verus!
