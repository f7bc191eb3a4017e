//! What paths are made of, and where configuration is looked for.

use crate::config::{is_reached, DirFacts};
use crate::paths::{components, joined_path, lead_component, named_components, resolved};
use crate::state::{configured_path, BackendConfig};
use crate::text::{joined, split_on};
use crate::text_laws::{cutting_goes_on, joined_texts_can_be_cut, lacks};
use vstd::prelude::*;

verus! {

/// Whether a text can be the name of a file or a directory.
pub open spec fn is_file_name(s: Seq<char>) -> bool {
    s.len() > 0 && lacks(s, '/') && s != "."@ && s != ".."@
}

/// Whether all of these can be.
pub open spec fn are_file_names(v: Seq<Seq<char>>) -> bool {
    forall|i: int| 0 <= i < v.len() ==> is_file_name(#[trigger] v[i])
}

proof fn names_pass(v: Seq<Seq<char>>)
    requires
        are_file_names(v),
    ensures
        v.filter(|s: Seq<char>| s.len() > 0 && s != "."@) == v,
    decreases v.len(),
{
    let named = |s: Seq<char>| s.len() > 0 && s != "."@;
    reveal(Seq::filter);
    if v.len() > 0 {
        let front = v.drop_last();
        assert forall|i: int| 0 <= i < front.len() implies is_file_name(#[trigger] front[i]) by {
            assert(front[i] == v[i]);
        }
        names_pass(front);
        assert(is_file_name(v[v.len() - 1]));
        assert(front.push(v.last()) =~= v);
    }
}

proof fn a_slash_cuts_at_once(p: Seq<char>)
    ensures
        split_on("/"@ + p, '/') == seq![Seq::<char>::empty()] + split_on(p, '/'),
{
    reveal_strlit("/");
    let none = Seq::<char>::empty();
    assert("/"@ + p =~= none.push('/') + p);
    cutting_goes_on(none, p, '/');
}

proof fn names_are_cut(v: Seq<Seq<char>>)
    requires
        are_file_names(v),
    ensures
        named_components(joined(v, "/"@)) == v,
        v.len() > 0 ==> split_on(joined(v, "/"@), '/') == v,
        v.len() > 0 ==> joined(v, "/"@).len() > 0 && joined(v, "/"@)[0] != '/',
{
    reveal_strlit("/");
    assert("/"@ =~= seq!['/']);
    let named = |s: Seq<char>| s.len() > 0 && s != "."@;
    let p = joined(v, "/"@);
    if v.len() > 0 {
        assert forall|i: int| 0 <= i < v.len() implies lacks(#[trigger] v[i], '/') by {
            assert(is_file_name(v[i]));
        }
        joined_texts_can_be_cut(v, "/"@, '/');
        names_pass(v);
        assert(is_file_name(v[0]));
        if p.len() == 0 {
            assert(split_on(p, '/') == seq![Seq::<char>::empty()]);
            assert(v[0].len() == 0);
        } else if p[0] == '/' {
            assert(p =~= "/"@ + p.skip(1));
            a_slash_cuts_at_once(p.skip(1));
            assert(v[0].len() == 0);
        }
    } else {
        reveal(Seq::filter);
        assert(split_on(p, '/') == seq![Seq::<char>::empty()]);
        assert(seq![Seq::<char>::empty()].drop_last() =~= Seq::<Seq<char>>::empty());
        assert(seq![Seq::<char>::empty()].drop_last().filter(named) =~= Seq::<Seq<char>>::empty());
        assert(named_components(p) =~= v);
    }
}

/// The components of a path are the names that it is made of, in order; those of
/// one from the root have the root before them.
#[verifier::rlimit(40)]
pub proof fn a_path_is_made_of_its_names(v: Seq<Seq<char>>)
    requires
        are_file_names(v),
        v.len() > 0,
    ensures
        components(joined(v, "/"@)) == v,
        components("/"@ + joined(v, "/"@)) == seq!["/"@] + v,
{
    reveal_strlit("/");
    reveal_strlit(".");
    let named = |s: Seq<char>| s.len() > 0 && s != "."@;
    let none = Seq::<char>::empty();
    let p = joined(v, "/"@);
    names_are_cut(v);
    assert(is_file_name(v[0]));
    assert(lead_component(p) =~= Seq::<Seq<char>>::empty());
    assert(components(p) =~= v);
    let q = "/"@ + p;
    assert(q[0] == '/');
    a_slash_cuts_at_once(p);
    Seq::filter_distributes_over_add(seq![none], v, named);
    reveal(Seq::filter);
    assert(seq![none].drop_last() =~= Seq::<Seq<char>>::empty());
    assert(seq![none].drop_last().filter(named) =~= Seq::<Seq<char>>::empty());
    assert(seq![none].filter(named) =~= Seq::<Seq<char>>::empty());
    names_pass(v);
    assert(named_components(q) =~= v);
}

/// A relative path that is appended goes on where the other ends; a path from
/// the root takes its place.
#[verifier::rlimit(40)]
pub proof fn a_relative_path_goes_on(v: Seq<Seq<char>>, w: Seq<Seq<char>>)
    requires
        are_file_names(v),
        are_file_names(w),
        v.len() > 0,
        w.len() > 0,
    ensures
        components(joined_path("/"@ + joined(v, "/"@), joined(w, "/"@))) == seq!["/"@] + v + w,
        joined_path("/"@ + joined(v, "/"@), "/"@ + joined(w, "/"@)) == "/"@ + joined(w, "/"@),
{
    reveal_strlit("/");
    let a = "/"@ + joined(v, "/"@);
    let b = joined(w, "/"@);
    let named = |s: Seq<char>| s.len() > 0 && s != "."@;
    names_are_cut(v);
    names_are_cut(w);
    a_path_is_made_of_its_names(v);
    assert(named_components(a) =~= v) by {
        assert(a[0] == '/');
        assert(components(a) == seq!["/"@] + named_components(a));
        assert(components(a).skip(1) =~= named_components(a));
        assert((seq!["/"@] + v).skip(1) =~= v);
    }
    joined_does_not_end_in_slash(v);
    assert(a.last() == joined(v, "/"@).last());
    let p = joined_path(a, b);
    assert(p == a.push('/') + b);
    cutting_goes_on(a, b, '/');
    Seq::filter_distributes_over_add(split_on(a, '/'), split_on(b, '/'), named);
    assert(named_components(p) =~= v + w);
    assert(p[0] == '/');
    assert(components(p) =~= seq!["/"@] + v + w);
    let c = "/"@ + b;
    assert(c[0] == '/');
}

proof fn joined_does_not_end_in_slash(v: Seq<Seq<char>>)
    requires
        are_file_names(v),
        v.len() > 0,
    ensures
        joined(v, "/"@).len() > 0,
        joined(v, "/"@).last() != '/',
{
    let l = v.last();
    assert(is_file_name(v[v.len() - 1]));
    assert(l[l.len() - 1] != '/');
    names_are_cut(v);
    if v.len() > 1 {
        let t = joined(v.drop_last(), "/"@) + "/"@;
        assert((t + l).last() == l.last());
    }
}

/// A step down to a directory and up again leads back; plain names stay.
pub proof fn a_step_down_and_up_leads_back(v: Seq<Seq<char>>, n: Seq<char>)
    requires
        is_file_name(n),
    ensures
        resolved(v.push(n).push(".."@)) == resolved(v),
        resolved(v.push("."@)) == resolved(v),
        resolved(v.push(n)) == resolved(v).push(n),
{
    reveal_strlit("/");
    reveal_strlit(".");
    reveal_strlit("..");
    assert(v.push(n).drop_last() =~= v);
    assert(v.push(n).push(".."@).drop_last() =~= v.push(n));
    assert(v.push("."@).drop_last() =~= v);
    assert(n != "/"@) by {
        if n == "/"@ {
            assert(n[0] == '/');
        }
    }
    assert("."@.len() != ".."@.len());
    let down = resolved(v.push(n));
    assert(down == resolved(v).push(n));
    assert(down.last() == n);
    let up = v.push(n).push(".."@);
    assert(up.last() == ".."@);
    assert(resolved(up) == down.drop_last());
    assert(down.drop_last() =~= resolved(v));
}

/// Nothing leads up from the root.
pub proof fn nothing_is_above_the_root()
    ensures
        resolved(seq!["/"@, ".."@]) == seq!["/"@],
{
    reveal_strlit("/");
    reveal_strlit(".");
    reveal_strlit("..");
    let two = seq!["/"@, ".."@];
    assert(two.drop_last() =~= seq!["/"@]);
    assert(seq!["/"@].drop_last() =~= Seq::<Seq<char>>::empty());
    assert(resolved(Seq::<Seq<char>>::empty()) =~= Seq::<Seq<char>>::empty());
    assert("/"@[0] == '/' && "."@[0] == '.');
    assert("/"@.len() != ".."@.len());
    assert(resolved(seq!["/"@]) =~= seq!["/"@]);
}

proof fn names_resolve_to_themselves(v: Seq<Seq<char>>)
    requires
        are_file_names(v),
    ensures
        resolved(seq!["/"@] + v) == seq!["/"@] + v,
    decreases v.len(),
{
    reveal_strlit("/");
    reveal_strlit(".");
    reveal_strlit("..");
    let all = seq!["/"@] + v;
    assert("/"@[0] == '/' && "."@[0] == '.');
    assert("/"@.len() != ".."@.len());
    if v.len() == 0 {
        assert(all =~= seq!["/"@]);
        assert(all.drop_last() =~= Seq::<Seq<char>>::empty());
        assert(resolved(all.drop_last()) =~= Seq::<Seq<char>>::empty());
        assert(resolved(all) =~= all);
    } else {
        let front = v.drop_last();
        assert forall|i: int| 0 <= i < front.len() implies is_file_name(#[trigger] front[i]) by {
            assert(front[i] == v[i]);
        }
        names_resolve_to_themselves(front);
        assert(is_file_name(v[v.len() - 1]));
        assert(all.drop_last() =~= seq!["/"@] + front);
        assert((seq!["/"@] + front).push(v.last()) =~= all);
    }
}

/// The state of a local backend with a path lies at that path: below the module
/// directory where the path is relative, else where it says. No other backend
/// has a configured state path.
#[verifier::rlimit(40)]
pub proof fn a_local_backend_has_its_state_below_the_module(
    dir: Seq<Seq<char>>,
    below: Seq<Seq<char>>,
    b: BackendConfig,
)
    requires
        are_file_names(dir),
        are_file_names(below),
        dir.len() > 0,
        below.len() > 0,
    ensures
        ({
            let at = configured_path("/"@ + joined(dir, "/"@), Some(b));
            &&& b.backend_type@ == "local"@ && b.path is Some && (b.path->0)@ == joined(below, "/"@)
                ==> at == Some("/"@ + joined(dir + below, "/"@))
            &&& b.backend_type@ == "local"@ && b.path is Some && (b.path->0)@ == "/"@ + joined(
                below,
                "/"@,
            ) ==> at == Some("/"@ + joined(below, "/"@))
            &&& b.backend_type@ != "local"@ || b.path is None ==> at is None
        }),
{
    a_relative_path_goes_on(dir, below);
    let all = dir + below;
    assert forall|i: int| 0 <= i < all.len() implies is_file_name(#[trigger] all[i]) by {
        if i < dir.len() {
            assert(all[i] == dir[i]);
        } else {
            assert(all[i] == below[i - dir.len()]);
        }
    }
    names_resolve_to_themselves(all);
    assert(seq!["/"@] + dir + below =~= seq!["/"@] + all);
    assert((seq!["/"@] + all).skip(1) =~= all);
    names_resolve_to_themselves(below);
    a_path_is_made_of_its_names(below);
    assert((seq!["/"@] + below).skip(1) =~= below);
}

/// The search for a configuration file goes up from directory to directory. It
/// ends with the first one that is a repository or the home directory: nothing
/// above is reached. Up to there, every directory is reached unless one before it
/// has the file.
pub proof fn the_search_ends_at_the_repository(dirs: Seq<DirFacts>, i: int, k: int)
    requires
        0 <= i < k < dirs.len(),
    ensures
        dirs[i].has_git || dirs[i].is_home || dirs[i].has_config ==> !is_reached(dirs, k),
        (forall|j: int|
            0 <= j < k ==> !(#[trigger] dirs[j]).has_git && !dirs[j].is_home && !dirs[j].has_config)
            ==> is_reached(dirs, k),
        is_reached(dirs, 0),
{
}

} // verus!
