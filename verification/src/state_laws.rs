//! What is listed of a state, and where it is found again.

use crate::state::{
    a_leaf_is_left, base_address, covered, expands, expands_all, instances_before, is_between,
    leaf_of, prefix_of, reading, reading_goes_on, same_module_pairs, segments_make_up_the_address,
    top_segments, IndexKey, StateResource, TfResource,
};
use crate::text::{begins, trim_start_of};
use vstd::prelude::*;

verus! {

/// The characters that mean something in an address.
pub open spec fn is_sign(c: char) -> bool {
    c == '.' || c == '[' || c == ']' || c == '"' || c == '\\'
}

/// Whether a text is a plain name: not empty, and without such characters.
pub open spec fn is_name(s: Seq<char>) -> bool {
    s.len() > 0 && forall|i: int| 0 <= i < s.len() ==> !is_sign(#[trigger] s[i])
}

/// Whether `m` is the address of a module: pairs of `module` and a name, which
/// may carry an index.
pub open spec fn is_module_address(m: Seq<char>) -> bool {
    let segs = top_segments(m);
    &&& is_between(reading(m))
    &&& segs.len() >= 2
    &&& segs.len() % 2 == 0
    &&& forall|i: int| 0 <= i < segs.len() && i % 2 == 0 ==> (#[trigger] segs[i]) == "module"@
}

/// The address of a resource in a child module is the module, a dot, and the
/// address that the same resource would have in the root module. This holds of
/// managed resources and of data sources.
pub proof fn a_child_module_leads_the_address(r: TfResource, root: TfResource)
    requires
        r.module is Some,
        root.module is None,
        root.mode@ == r.mode@,
        root.resource_type@ == r.resource_type@,
        root.name@ == r.name@,
    ensures
        base_address(r) == (r.module->0)@ + "."@ + base_address(root),
{
}

/// In the root module a managed resource is called by its type and its name, and
/// a data source is called the same with `data` in front.
pub proof fn a_root_resource_is_called_by_type_and_name(r: TfResource)
    requires
        r.module is None,
    ensures
        r.mode@ != "data"@ ==> base_address(r) == r.resource_type@ + "."@ + r.name@,
        r.mode@ == "data"@ ==> base_address(r) == "data."@ + r.resource_type@ + "."@ + r.name@,
{
    assert("data."@ + (r.resource_type@ + "."@ + r.name@) =~= "data."@ + r.resource_type@ + "."@
        + r.name@);
}

/// Every instance of a block is listed once, in order, under the address of the
/// block, with its index in brackets, a text in quotes, and nothing for an
/// instance without an index.
pub proof fn an_instance_is_told_by_its_index(r: TfResource, out: Seq<StateResource>, i: int)
    requires
        expands(r, out),
        0 <= i < r.instances@.len(),
    ensures
        out.len() == r.instances@.len(),
        out[i].instance == r.instances@[i],
        match r.instances@[i].index_key {
            IndexKey::Absent => out[i].address@ == base_address(r),
            IndexKey::Number(t) => out[i].address@ == base_address(r) + "["@ + t@ + "]"@,
            IndexKey::Other(t) => out[i].address@ == base_address(r) + "["@ + t@ + "]"@,
            IndexKey::Text(t) => out[i].address@ == base_address(r) + "[\""@ + t@ + "\"]"@,
        },
{
    match r.instances@[i].index_key {
        IndexKey::Absent => {
            assert(out[i].address@ =~= base_address(r));
        },
        IndexKey::Number(t) => {
            assert(out[i].address@ =~= base_address(r) + "["@ + t@ + "]"@);
        },
        IndexKey::Other(t) => {
            assert(out[i].address@ =~= base_address(r) + "["@ + t@ + "]"@);
        },
        IndexKey::Text(t) => {
            assert(out[i].address@ =~= base_address(r) + "[\""@ + t@ + "\"]"@);
        },
    }
}

proof fn a_name_is_one_segment(s: Seq<char>)
    requires
        is_name(s) || s.len() == 0,
    ensures
        reading(s).segments.len() == 0,
        reading(s).current == s,
        is_between(reading(s)),
    decreases s.len(),
{
    if s.len() > 0 {
        let front = s.drop_last();
        assert forall|i: int| 0 <= i < front.len() implies !is_sign(#[trigger] front[i]) by {
            assert(front[i] == s[i]);
        }
        a_name_is_one_segment(front);
        assert(!is_sign(s[s.len() - 1]));
        assert(s =~= front.push(s.last()));
    } else {
        assert(s =~= Seq::<char>::empty());
    }
}

proof fn a_dotted_name_begins_with_it(s: Seq<char>, rest: Seq<char>)
    requires
        is_name(s),
    ensures
        top_segments(s.push('.') + rest) == seq![s] + top_segments(rest),
        top_segments(rest).len() >= 1,
{
    a_name_is_one_segment(s);
    reading_goes_on(s, rest);
    assert(top_segments(s) =~= seq![s]);
}

proof fn behind_a_module(m: Seq<char>, leaf: Seq<char>)
    requires
        is_module_address(m),
        top_segments(leaf).len() >= 2,
        top_segments(leaf)[0] != "module"@,
    ensures
        prefix_of(m.push('.') + leaf) == Some(m),
{
    let segs = top_segments(m);
    let k = segs.len() as int;
    let all = segs + top_segments(leaf);
    reading_goes_on(m, leaf);
    assert(all.take(k) =~= segs);
    assert(segs.take(k) =~= segs);
    assert(all[k] == top_segments(leaf)[0]);
    same_module_pairs(segs, all, 0, k);
    segments_make_up_the_address(m);
}

/// A listed resource is found in the module that its block names: the module
/// prefix of its address is that module, whatever the resource is and however
/// many instances it has. A resource of the root module has no module prefix.
/// The part of the address behind the prefix tells data sources from managed
/// resources.
#[verifier::rlimit(40)]
pub proof fn a_listed_resource_is_in_its_module(r: TfResource, out: Seq<StateResource>, i: int)
    requires
        expands(r, out),
        0 <= i < out.len(),
        is_name(r.resource_type@),
        r.resource_type@ != "module"@,
        r.resource_type@ != "data"@,
        r.module is Some ==> is_module_address((r.module->0)@),
    ensures
        r.module is None ==> prefix_of(out[i].address@) is None,
        r.module is Some ==> prefix_of(out[i].address@) == Some((r.module->0)@),
        r.module is Some ==> covered(out[i].address@, (r.module->0)@),
        begins(leaf_of(out[i].address@), "data."@) <==> r.mode@ == "data"@,
{
    reveal_strlit("data.");
    reveal_strlit("data");
    reveal_strlit("module");
    reveal_strlit(".");
    let suffix = crate::state::index_suffix(r.instances@[i].index_key);
    let kind = r.resource_type@;
    let end = r.name@ + suffix;
    let own = kind.push('.') + end;
    a_dotted_name_begins_with_it(kind, end);
    let leaf = if r.mode@ == "data"@ {
        let data = "data"@;
        assert(is_name(data));
        a_dotted_name_begins_with_it(data, own);
        data.push('.') + own
    } else {
        own
    };
    assert("data."@ =~= "data"@.push('.'));
    assert(top_segments(leaf).len() >= 2);
    assert(top_segments(leaf)[0] == if r.mode@ == "data"@ {
        "data"@
    } else {
        kind
    });
    assert("data"@ != "module"@) by {
        assert("data"@.len() != "module"@.len());
    }
    a_leaf_is_left(leaf);
    assert(prefix_of(leaf) is None);
    leaf_begins_with_data(kind, end, leaf, r.mode@ == "data"@);
    match r.module {
        Some(m) => {
            let m = m@;
            assert(out[i].address@ =~= m.push('.') + leaf);
            behind_a_module(m, leaf);
            crate::state::prefix_covers_its_address(out[i].address@);
            assert(out[i].address@.skip(m.len() as int) =~= seq!['.'] + leaf);
            let rest = seq!['.'] + leaf;
            assert(rest.skip(1) =~= leaf);
            assert(leaf[0] != '.');
            reveal_with_fuel(trim_start_of, 2);
            assert(leaf_of(out[i].address@) == leaf);
        },
        None => {
            assert(out[i].address@ =~= leaf);
        },
    }
}

proof fn leaf_begins_with_data(kind: Seq<char>, end: Seq<char>, leaf: Seq<char>, data: bool)
    requires
        is_name(kind),
        kind != "data"@,
        leaf == if data {
            "data"@.push('.') + (kind.push('.') + end)
        } else {
            kind.push('.') + end
        },
    ensures
        begins(leaf, "data."@) <==> data,
        leaf.len() > 0,
        leaf[0] != '.',
{
    reveal_strlit("data.");
    reveal_strlit("data");
    if data {
        assert(leaf.take(5) =~= "data."@);
    } else {
        assert(!is_sign(kind[0]));
        if begins(leaf, "data."@) {
            assert(leaf.take(5)[4] == '.');
            assert(leaf[4] == '.');
            if kind.len() > 4 {
                assert(!is_sign(kind[4]));
            } else if kind.len() < 4 {
                assert(leaf[kind.len() as int] == '.');
                assert(leaf.take(5)[kind.len() as int] == '.');
            } else {
                assert(kind =~= leaf.take(5).take(4));
                assert("data."@.take(4) =~= "data"@);
            }
        }
    }
}

/// Every instance of every block of a state is listed, the blocks in order and
/// the instances of each in order, and nothing else is listed.
#[verifier::rlimit(40)]
pub proof fn every_instance_is_listed(rs: Seq<TfResource>, out: Seq<StateResource>, b: int, j: int)
    requires
        expands_all(rs, out),
        0 <= b < rs.len(),
        0 <= j < rs[b].instances@.len(),
    ensures
        ({
            let k = instances_before(rs, b) + j;
            &&& k < out.len()
            &&& out[k].instance == rs[b].instances@[j]
            &&& begins(out[k].address@, base_address(rs[b]))
        }),
        out.len() == instances_before(rs, rs.len() as int),
        instances_before(rs, 0) == 0,
        instances_before(rs, b + 1) == instances_before(rs, b) + rs[b].instances@.len(),
{
    instances_grow(rs, b + 1, rs.len() as int);
    let from = instances_before(rs, b) as int;
    let part = out.subrange(from, instances_before(rs, b + 1) as int);
    assert(expands(rs[b], part));
    assert(part[j] == out[from + j]);
    assert(out[from + j].address@.take(base_address(rs[b]).len() as int) =~= base_address(rs[b]));
}

proof fn instances_grow(rs: Seq<TfResource>, i: int, n: int)
    requires
        0 <= i <= n <= rs.len(),
    ensures
        instances_before(rs, i) <= instances_before(rs, n),
    decreases n - i,
{
    if i < n {
        instances_grow(rs, i, n - 1);
    }
}

/// A module covers what lies below it or is an instance of it, and itself; not
/// what merely begins with its name, nor anything else.
pub proof fn covering_goes_by_whole_names(p: Seq<char>, c: char, rest: Seq<char>, other: Seq<char>)
    ensures
        covered(p, p),
        covered(p + "."@ + rest, p),
        covered(p + "["@ + rest, p),
        c != '.' && c != '[' ==> !covered(p.push(c) + rest, p),
        other.len() < p.len() || other.take(p.len() as int) != p ==> !covered(other, p),
{
    reveal_strlit(".");
    reveal_strlit("[");
    let n = p.len() as int;
    let a = p + "."@ + rest;
    let b = p + "["@ + rest;
    let d = p.push(c) + rest;
    assert(a.take(n) =~= p && a[n] == '.');
    assert(b.take(n) =~= p && b[n] == '[');
    assert(d.take(n) =~= p && d[n] == c);
    assert(p.take(n) =~= p);
}

} // verus!
