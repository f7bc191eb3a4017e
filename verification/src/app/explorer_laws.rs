//! What the rows and the targets of the explorer keep to.

use crate::app::explorer::{
    any_covers, covered_by_another, explorer_rows, group_rows, groups, is_member, loose_targets,
    managed_below, members, passes, prefixes_of, root_rows, tainted_addresses, uncovered,
    ExplorerView, RowView,
};
use crate::app::types::ExplorerOpKind;
use crate::state::{covered, covering_is_reflexive, covering_is_transitive, leaf_of, prefix_of};
use crate::text::{
    begins, holds, is_ascending, lex_irreflexive, lex_lt, lowercase, sorted_texts,
    sorted_texts_are_the_texts,
};
use vstd::prelude::*;

verus! {

/// Whether a row shows the `i`-th resource.
pub open spec fn shows(row: RowView, i: int) -> bool {
    row is Resource && row->res_idx == i
}

/// Whether a resource is shown: without a filter all are; else those whose
/// address holds it, whatever the case of their letters.
pub open spec fn is_shown(addrs: Seq<Seq<char>>, filter: Seq<char>, i: int) -> bool {
    0 <= i < addrs.len() && (filter.len() == 0 || holds(lowercase(addrs[i]), lowercase(filter)))
}

proof fn root_rows_are(addrs: Seq<Seq<char>>, filter: Seq<char>, n: int)
    requires
        n <= addrs.len(),
    ensures
        forall|k: int|
            0 <= k < root_rows(addrs, filter, n).len() ==> {
                let row = #[trigger] root_rows(addrs, filter, n)[k];
                &&& row is Resource
                &&& !row->indent
                &&& 0 <= row->res_idx < n
                &&& prefix_of(addrs[row->res_idx]) is None
                &&& passes(addrs[row->res_idx], filter)
            },
        forall|a: int, b: int|
            0 <= a < b < root_rows(addrs, filter, n).len() ==> (#[trigger] root_rows(
                addrs,
                filter,
                n,
            )[a])->res_idx < (#[trigger] root_rows(addrs, filter, n)[b])->res_idx,
        forall|i: int|
            0 <= i < n && prefix_of(addrs[i]) is None && passes(addrs[i], filter) ==> exists|k: int|
                0 <= k < root_rows(addrs, filter, n).len() && shows(
                    #[trigger] root_rows(addrs, filter, n)[k],
                    i,
                ),
    decreases n,
{
    if n > 0 {
        root_rows_are(addrs, filter, n - 1);
        let before = root_rows(addrs, filter, n - 1);
        let after = root_rows(addrs, filter, n);
        assert forall|i: int|
            0 <= i < n && prefix_of(addrs[i]) is None && passes(
                addrs[i],
                filter,
            ) implies exists|k: int| 0 <= k < after.len() && shows(#[trigger] after[k], i) by {
            if i < n - 1 {
                let k = choose|k: int| 0 <= k < before.len() && shows(#[trigger] before[k], i);
                assert(shows(after[k], i));
            } else {
                assert(shows(after[before.len() as int], i));
            }
        }
    }
}

proof fn members_are(addrs: Seq<Seq<char>>, filter: Seq<char>, prefix: Seq<char>, n: int)
    requires
        n <= addrs.len(),
    ensures
        forall|k: int|
            0 <= k < members(addrs, filter, prefix, n).len() ==> {
                let i = #[trigger] members(addrs, filter, prefix, n)[k];
                0 <= i < n && is_member(addrs, filter, prefix, i)
            },
        forall|a: int, b: int|
            0 <= a < b < members(addrs, filter, prefix, n).len() ==> #[trigger] members(
                addrs,
                filter,
                prefix,
                n,
            )[a] < #[trigger] members(addrs, filter, prefix, n)[b],
        forall|i: int|
            0 <= i < n && #[trigger] is_member(addrs, filter, prefix, i) ==> members(
                addrs,
                filter,
                prefix,
                n,
            ).contains(i),
    decreases n,
{
    if n > 0 {
        members_are(addrs, filter, prefix, n - 1);
        let before = members(addrs, filter, prefix, n - 1);
        let after = members(addrs, filter, prefix, n);
        assert forall|i: int|
            0 <= i < n && #[trigger] is_member(
                addrs,
                filter,
                prefix,
                i,
            ) implies after.contains(i) by {
            if i < n - 1 {
                let k = choose|k: int| 0 <= k < before.len() && before[k] == i;
                assert(after[k] == i);
            } else {
                assert(after[before.len() as int] == i);
            }
        }
    }
}

/// A row of a group: the header of `prefix`, or one of its members.
spec fn of_group(addrs: Seq<Seq<char>>, filter: Seq<char>, prefix: Seq<char>, row: RowView) -> bool {
    match row {
        RowView::ModuleHeader { prefix: p, count } => p == prefix && count > 0 && count == members(
            addrs,
            filter,
            prefix,
            addrs.len() as int,
        ).len(),
        RowView::Resource { res_idx, indent } => indent && 0 <= res_idx < addrs.len() && is_member(
            addrs,
            filter,
            prefix,
            res_idx,
        ),
    }
}

proof fn group_rows_are(addrs: Seq<Seq<char>>, filter: Seq<char>, prefix: Seq<char>)
    ensures
        forall|k: int|
            0 <= k < group_rows(addrs, filter, prefix).len() ==> of_group(
                addrs,
                filter,
                prefix,
                #[trigger] group_rows(addrs, filter, prefix)[k],
            ),
        forall|a: int, b: int, i: int|
            0 <= a < b < group_rows(addrs, filter, prefix).len() && #[trigger] shows(
                group_rows(addrs, filter, prefix)[a],
                i,
            ) ==> !#[trigger] shows(group_rows(addrs, filter, prefix)[b], i),
        forall|i: int|
            0 <= i < addrs.len() && #[trigger] is_member(
                addrs,
                filter,
                prefix,
                i,
            ) ==> exists|k: int|
                0 <= k < group_rows(addrs, filter, prefix).len() && shows(
                    #[trigger] group_rows(addrs, filter, prefix)[k],
                    i,
                ),
{
    let n = addrs.len() as int;
    members_are(addrs, filter, prefix, n);
    let ms = members(addrs, filter, prefix, n);
    let rows = group_rows(addrs, filter, prefix);
    assert forall|k: int| 0 <= k < rows.len() implies of_group(
        addrs,
        filter,
        prefix,
        #[trigger] rows[k],
    ) by {
        if k > 0 {
            assert(rows[k] == (RowView::Resource { res_idx: ms[k - 1], indent: true }));
        }
    }
    assert forall|a: int, b: int, i: int|
        0 <= a < b < rows.len() && #[trigger] shows(rows[a], i) implies !#[trigger] shows(
        rows[b],
        i,
    ) by {
        if a > 0 {
            assert(rows[a] == (RowView::Resource { res_idx: ms[a - 1], indent: true }));
            assert(rows[b] == (RowView::Resource { res_idx: ms[b - 1], indent: true }));
            assert(ms[a - 1] < ms[b - 1]);
        }
    }
    assert forall|i: int|
        0 <= i < addrs.len() && #[trigger] is_member(addrs, filter, prefix, i) implies exists|k: int|
        0 <= k < rows.len() && shows(#[trigger] rows[k], i) by {
        let k = choose|k: int| 0 <= k < ms.len() && ms[k] == i;
        assert(rows[k + 1] == (RowView::Resource { res_idx: ms[k], indent: true }));
        assert(shows(rows[k + 1], i));
    }
}

/// A row of one of the first `k` groups.
spec fn of_groups(
    addrs: Seq<Seq<char>>,
    filter: Seq<char>,
    prefixes: Seq<Seq<char>>,
    k: int,
    row: RowView,
) -> bool {
    exists|g: int| 0 <= g < k && of_group(addrs, filter, #[trigger] prefixes[g], row)
}

proof fn groups_are(addrs: Seq<Seq<char>>, filter: Seq<char>, prefixes: Seq<Seq<char>>, k: int)
    requires
        k <= prefixes.len(),
        prefixes.no_duplicates(),
    ensures
        forall|j: int|
            0 <= j < groups(addrs, filter, prefixes, k).len() ==> of_groups(
                addrs,
                filter,
                prefixes,
                k,
                #[trigger] groups(addrs, filter, prefixes, k)[j],
            ),
        forall|a: int, b: int, i: int|
            0 <= a < b < groups(addrs, filter, prefixes, k).len() && #[trigger] shows(
                groups(addrs, filter, prefixes, k)[a],
                i,
            ) ==> !#[trigger] shows(groups(addrs, filter, prefixes, k)[b], i),
        forall|g: int, i: int|
            0 <= g < k && 0 <= i < addrs.len() && #[trigger] is_member(
                addrs,
                filter,
                prefixes[g],
                i,
            ) ==> exists|j: int|
                0 <= j < groups(addrs, filter, prefixes, k).len() && shows(
                    #[trigger] groups(addrs, filter, prefixes, k)[j],
                    i,
                ),
    decreases k,
{
    if k > 0 {
        groups_are(addrs, filter, prefixes, k - 1);
        group_rows_are(addrs, filter, prefixes[k - 1]);
        let before = groups(addrs, filter, prefixes, k - 1);
        let own = group_rows(addrs, filter, prefixes[k - 1]);
        let all = groups(addrs, filter, prefixes, k);
        assert(all == before + own);
        assert forall|j: int| 0 <= j < all.len() implies of_groups(
            addrs,
            filter,
            prefixes,
            k,
            #[trigger] all[j],
        ) by {
            if j < before.len() {
                assert(all[j] == before[j]);
                let g = choose|g: int|
                    0 <= g < k - 1 && of_group(addrs, filter, #[trigger] prefixes[g], before[j]);
                assert(of_group(addrs, filter, prefixes[g], all[j]));
            } else {
                assert(all[j] == own[j - before.len()]);
                assert(of_group(addrs, filter, prefixes[k - 1], all[j]));
            }
        }
        assert forall|a: int, b: int, i: int|
            0 <= a < b < all.len() && #[trigger] shows(all[a], i) implies !#[trigger] shows(
            all[b],
            i,
        ) by {
            if b < before.len() {
                assert(shows(before[a], i));
                assert(all[b] == before[b]);
                assert(!shows(before[b], i));
            } else if a >= before.len() {
                assert(all[a] == own[a - before.len()]);
                assert(all[b] == own[b - before.len()]);
                assert(shows(own[a - before.len()], i));
                assert(!shows(own[b - before.len()], i));
            } else {
                assert(all[a] == before[a]);
                assert(all[b] == own[b - before.len()]);
                let g = choose|g: int|
                    0 <= g < k - 1 && of_group(addrs, filter, #[trigger] prefixes[g], before[a]);
                assert(of_group(addrs, filter, prefixes[k - 1], own[b - before.len()]));
                if shows(all[b], i) {
                    assert(prefixes[g] == prefixes[k - 1]);
                }
            }
        }
        assert forall|g: int, i: int|
            0 <= g < k && 0 <= i < addrs.len() && #[trigger] is_member(
                addrs,
                filter,
                prefixes[g],
                i,
            ) implies exists|j: int| 0 <= j < all.len() && shows(#[trigger] all[j], i) by {
            if g < k - 1 {
                let j = choose|j: int| 0 <= j < before.len() && shows(#[trigger] before[j], i);
                assert(all[j] == before[j]);
                assert(shows(all[j], i));
            } else {
                let j = choose|j: int| 0 <= j < own.len() && shows(#[trigger] own[j], i);
                assert(all[before.len() + j] == own[j]);
                assert(shows(all[before.len() + j], i));
            }
        }
    }
}

proof fn prefixes_are(addrs: Seq<Seq<char>>, n: int)
    requires
        n <= addrs.len(),
    ensures
        forall|i: int|
            0 <= i < n && prefix_of(#[trigger] addrs[i]) is Some ==> prefixes_of(
                addrs,
                n,
            ).contains(prefix_of(addrs[i])->0),
    decreases n,
{
    if n > 0 {
        prefixes_are(addrs, n - 1);
        let before = prefixes_of(addrs, n - 1);
        let after = prefixes_of(addrs, n);
        assert forall|i: int|
            0 <= i < n && prefix_of(#[trigger] addrs[i]) is Some implies after.contains(
            prefix_of(addrs[i])->0,
        ) by {
            if i < n - 1 {
                let k = choose|k: int| 0 <= k < before.len() && before[k] == prefix_of(addrs[i])->0;
                assert(after[k] == before[k]);
            } else {
                assert(after[before.len() as int] == prefix_of(addrs[i])->0);
            }
        }
    }
}

proof fn ascending_has_no_duplicates(v: Seq<Seq<char>>)
    requires
        is_ascending(v),
    ensures
        v.no_duplicates(),
{
    assert forall|i: int, j: int| 0 <= i < v.len() && 0 <= j < v.len() && i != j implies v[i]
        != v[j] by {
        lex_irreflexive(v[i]);
        if i < j {
            assert(lex_lt(v[i], v[j]));
        } else {
            assert(lex_lt(v[j], v[i]));
        }
    }
}

/// Every row of the explorer is of a resource that passes the filter, indented
/// exactly where the resource lies in a module, or heads a group that has such
/// resources.
pub proof fn rows_show_what_passes(addrs: Seq<Seq<char>>, filter: Seq<char>, k: int)
    requires
        0 <= k < explorer_rows(addrs, filter).len(),
    ensures
        match explorer_rows(addrs, filter)[k] {
            RowView::Resource { res_idx, indent } => is_shown(addrs, filter, res_idx) && indent == (
            prefix_of(addrs[res_idx]) is Some),
            RowView::ModuleHeader { prefix, count } => count > 0 && count == members(
                addrs,
                filter,
                prefix,
                addrs.len() as int,
            ).len(),
        },
{
    let n = addrs.len() as int;
    let prefixes = sorted_texts(prefixes_of(addrs, n));
    sorted_texts_are_the_texts(prefixes_of(addrs, n));
    ascending_has_no_duplicates(prefixes);
    root_rows_are(addrs, filter, n);
    groups_are(addrs, filter, prefixes, prefixes.len() as int);
    let roots = root_rows(addrs, filter, n);
    let rest = groups(addrs, filter, prefixes, prefixes.len() as int);
    let row = explorer_rows(addrs, filter)[k];
    if k < roots.len() {
        assert(row == roots[k]);
    } else {
        assert(row == rest[k - roots.len()]);
        let g = choose|g: int|
            0 <= g < prefixes.len() && of_group(addrs, filter, #[trigger] prefixes[g], row);
        assert(of_group(addrs, filter, prefixes[g], row));
    }
}

/// Every resource that passes the filter has a row, and only one.
pub proof fn each_resource_has_one_row(addrs: Seq<Seq<char>>, filter: Seq<char>, i: int)
    requires
        is_shown(addrs, filter, i),
    ensures
        exists|k: int|
            0 <= k < explorer_rows(addrs, filter).len() && shows(
                #[trigger] explorer_rows(addrs, filter)[k],
                i,
            ),
        forall|a: int, b: int|
            0 <= a < explorer_rows(addrs, filter).len() && 0 <= b < explorer_rows(
                addrs,
                filter,
            ).len() && shows(#[trigger] explorer_rows(addrs, filter)[a], i) && shows(
                #[trigger] explorer_rows(addrs, filter)[b],
                i,
            ) ==> a == b,
{
    let n = addrs.len() as int;
    let found = prefixes_of(addrs, n);
    let prefixes = sorted_texts(found);
    sorted_texts_are_the_texts(found);
    ascending_has_no_duplicates(prefixes);
    root_rows_are(addrs, filter, n);
    prefixes_are(addrs, n);
    groups_are(addrs, filter, prefixes, prefixes.len() as int);
    let roots = root_rows(addrs, filter, n);
    let rest = groups(addrs, filter, prefixes, prefixes.len() as int);
    let rows = explorer_rows(addrs, filter);
    match prefix_of(addrs[i]) {
        None => {
            let k = choose|k: int| 0 <= k < roots.len() && shows(#[trigger] roots[k], i);
            assert(rows[k] == roots[k]);
            assert(shows(rows[k], i));
        },
        Some(p) => {
            assert(found.contains(p));
            assert(prefixes.contains(p));
            let g = choose|g: int| 0 <= g < prefixes.len() && prefixes[g] == p;
            assert(is_member(addrs, filter, prefixes[g], i));
            let j = choose|j: int| 0 <= j < rest.len() && shows(#[trigger] rest[j], i);
            assert(rows[roots.len() + j] == rest[j]);
            assert(shows(rows[roots.len() + j], i));
        },
    }
    assert forall|a: int, b: int|
        0 <= a < b < rows.len() && shows(#[trigger] rows[a], i) && shows(
            #[trigger] rows[b],
            i,
        ) implies a == b by {
        if b < roots.len() {
            assert(rows[a] == roots[a] && rows[b] == roots[b]);
            assert(roots[a]->res_idx < roots[b]->res_idx);
        } else if a >= roots.len() {
            assert(rows[a] == rest[a - roots.len()] && rows[b] == rest[b - roots.len()]);
            assert(shows(rest[a - roots.len()], i));
            assert(!shows(rest[b - roots.len()], i));
        } else {
            assert(rows[a] == roots[a] && rows[b] == rest[b - roots.len()]);
            assert(prefix_of(addrs[roots[a]->res_idx]) is None);
            let row = rest[b - roots.len()];
            let g = choose|g: int|
                0 <= g < prefixes.len() && of_group(addrs, filter, #[trigger] prefixes[g], row);
            assert(of_group(addrs, filter, prefixes[g], row));
        }
    }
}

proof fn uncovered_are(prefixes: Seq<Seq<char>>, n: int)
    requires
        n <= prefixes.len(),
    ensures
        forall|p: Seq<char>| #[trigger]
            uncovered(prefixes, n).contains(p) ==> prefixes.contains(p) && !covered_by_another(
                prefixes,
                p,
            ),
        forall|i: int|
            0 <= i < n && !covered_by_another(prefixes, #[trigger] prefixes[i]) ==> uncovered(
                prefixes,
                n,
            ).contains(prefixes[i]),
    decreases n,
{
    if n > 0 {
        uncovered_are(prefixes, n - 1);
        let before = uncovered(prefixes, n - 1);
        let after = uncovered(prefixes, n);
        assert forall|p: Seq<char>| #[trigger] after.contains(p) implies prefixes.contains(p)
            && !covered_by_another(prefixes, p) by {
            let k = choose|k: int| 0 <= k < after.len() && after[k] == p;
            if k < before.len() {
                assert(before[k] == p);
                assert(before.contains(p));
            } else {
                assert(prefixes[n - 1] == p);
            }
        }
        assert forall|i: int|
            0 <= i < n && !covered_by_another(
                prefixes,
                #[trigger] prefixes[i],
            ) implies after.contains(prefixes[i]) by {
            if i < n - 1 {
                assert(before.contains(prefixes[i]));
                let k = choose|k: int| 0 <= k < before.len() && before[k] == prefixes[i];
                assert(after[k] == prefixes[i]);
            } else {
                assert(after[before.len() as int] == prefixes[i]);
            }
        }
    }
}

proof fn loose_are(
    addrs: Seq<Seq<char>>,
    selected: Seq<usize>,
    prefixes: Seq<Seq<char>>,
    n: int,
)
    requires
        n <= selected.len(),
    ensures
        forall|a: Seq<char>| #[trigger]
            loose_targets(addrs, selected, prefixes, n).contains(a) ==> !any_covers(prefixes, a),
        forall|i: int|
            0 <= i < n && selected[i] < addrs.len() && !any_covers(
                prefixes,
                addrs[#[trigger] selected[i] as int],
            ) ==> loose_targets(addrs, selected, prefixes, n).contains(addrs[selected[i] as int]),
    decreases n,
{
    if n > 0 {
        loose_are(addrs, selected, prefixes, n - 1);
        let before = loose_targets(addrs, selected, prefixes, n - 1);
        let after = loose_targets(addrs, selected, prefixes, n);
        assert forall|a: Seq<char>| #[trigger] after.contains(a) implies !any_covers(
            prefixes,
            a,
        ) by {
            let k = choose|k: int| 0 <= k < after.len() && after[k] == a;
            if k < before.len() {
                assert(before[k] == a);
                assert(before.contains(a));
            }
        }
        assert forall|i: int|
            0 <= i < n && selected[i] < addrs.len() && !any_covers(
                prefixes,
                addrs[#[trigger] selected[i] as int],
            ) implies after.contains(addrs[selected[i] as int]) by {
            let a = addrs[selected[i] as int];
            if i < n - 1 {
                assert(before.contains(a));
                let k = choose|k: int| 0 <= k < before.len() && before[k] == a;
                assert(after[k] == a);
            } else {
                assert(after[before.len() as int] == a);
            }
        }
    }
}

proof fn widest_cover(prefixes: Seq<Seq<char>>, p: Seq<char>)
    requires
        prefixes.contains(p),
    ensures
        exists|q: Seq<char>| #[trigger]
            prefixes.contains(q) && !covered_by_another(prefixes, q) && covered(p, q),
    decreases p.len(),
{
    if covered_by_another(prefixes, p) {
        let j = choose|j: int|
            0 <= j < prefixes.len() && (#[trigger] prefixes[j]) != p && covered(p, prefixes[j]);
        let q = prefixes[j];
        assert(prefixes.contains(q));
        widest_cover(prefixes, q);
        let w = choose|w: Seq<char>| #[trigger]
            prefixes.contains(w) && !covered_by_another(prefixes, w) && covered(q, w);
        covering_is_transitive(p, q, w);
        assert(prefixes.contains(w) && covered(p, w));
    } else {
        covering_is_reflexive(p);
        assert(prefixes.contains(p) && covered(p, p));
    }
}

/// An operation covers the whole selection: for every selected module prefix
/// there is a target that covers it, and so for every selected resource.
pub proof fn targets_cover_the_selection(e: ExplorerView)
    requires
        e.content is Resources,
    ensures
        forall|k: int|
            0 <= k < e.module_select.len() ==> any_covers(
                e.targets(),
                #[trigger] e.module_select[k],
            ),
        forall|k: int|
            0 <= k < e.multi_select.len() && e.multi_select[k] < e.addrs().len() ==> any_covers(
                e.targets(),
                e.addrs()[#[trigger] e.multi_select[k] as int],
            ),
{
    let all = e.module_select;
    let kept = e.target_prefixes();
    let loose = loose_targets(e.addrs(), e.multi_select, kept, e.multi_select.len() as int);
    sorted_texts_are_the_texts(uncovered(all, all.len() as int));
    uncovered_are(all, all.len() as int);
    loose_are(e.addrs(), e.multi_select, kept, e.multi_select.len() as int);
    if all.len() > 0 || e.multi_select.len() > 0 {
        let ts = e.targets();
        assert(ts == kept + loose);
        assert forall|k: int| 0 <= k < all.len() implies any_covers(ts, #[trigger] all[k]) by {
            let p = all[k];
            assert(all.contains(p));
            widest_cover(all, p);
            let q = choose|q: Seq<char>| #[trigger]
                all.contains(q) && !covered_by_another(all, q) && covered(p, q);
            let i = choose|i: int| 0 <= i < all.len() && all[i] == q;
            assert(uncovered(all, all.len() as int).contains(all[i]));
            assert(kept.contains(q));
            let m = choose|m: int| 0 <= m < kept.len() && kept[m] == q;
            assert(ts[m] == q);
            assert(covered(p, ts[m]));
        }
        assert forall|k: int|
            0 <= k < e.multi_select.len() && e.multi_select[k] < e.addrs().len() implies any_covers(
            ts,
            e.addrs()[#[trigger] e.multi_select[k] as int],
        ) by {
            let a = e.addrs()[e.multi_select[k] as int];
            if any_covers(kept, a) {
                let j = choose|j: int| 0 <= j < kept.len() && covered(a, #[trigger] kept[j]);
                assert(ts[j] == kept[j]);
                assert(covered(a, ts[j]));
            } else {
                assert(loose.contains(a));
                let j = choose|j: int| 0 <= j < loose.len() && loose[j] == a;
                assert(ts[kept.len() + j] == a);
                covering_is_reflexive(a);
                assert(covered(a, ts[kept.len() + j]));
            }
        }
    }
}

/// No target of a selection is redundant: no module prefix among the targets
/// covers another one, or a resource that is targeted beside it.
pub proof fn targets_are_not_redundant(e: ExplorerView, i: int, j: int)
    requires
        e.content is Resources,
        e.module_select.len() > 0 || e.multi_select.len() > 0,
        0 <= i < e.target_prefixes().len(),
        0 <= j < e.targets().len(),
        i != j,
    ensures
        e.targets()[i] == e.target_prefixes()[i],
        !covered(e.targets()[j], e.targets()[i]),
{
    let all = e.module_select;
    let kept = e.target_prefixes();
    let loose = loose_targets(e.addrs(), e.multi_select, kept, e.multi_select.len() as int);
    sorted_texts_are_the_texts(uncovered(all, all.len() as int));
    uncovered_are(all, all.len() as int);
    ascending_has_no_duplicates(kept);
    loose_are(e.addrs(), e.multi_select, kept, e.multi_select.len() as int);
    let ts = e.targets();
    assert(ts == kept + loose);
    assert(kept.contains(kept[i]));
    let k = choose|k: int| 0 <= k < all.len() && all[k] == kept[i];
    if j < kept.len() {
        assert(kept.contains(kept[j]));
        assert(!covered_by_another(all, kept[j]));
        assert(kept[i] != kept[j]);
        assert(all[k] != kept[j]);
    } else {
        assert(loose.contains(loose[j - kept.len()]));
        assert(!any_covers(kept, loose[j - kept.len()]));
    }
}

/// Whether a target of a taint stands for `addr`: it is that resource, or a
/// module that `addr` lies in as a managed resource.
pub open spec fn stands_for(addrs: Seq<Seq<char>>, target: Seq<char>, addr: Seq<char>) -> bool {
    if addrs.contains(target) {
        addr == target
    } else {
        addrs.contains(addr) && covered(addr, target) && !begins(leaf_of(addr), "data."@)
    }
}

proof fn managed_below_are(addrs: Seq<Seq<char>>, target: Seq<char>, n: int, addr: Seq<char>)
    requires
        0 <= n <= addrs.len(),
    ensures
        managed_below(addrs, target, n).contains(addr) <==> addrs.take(n).contains(addr) && covered(
            addr,
            target,
        ) && !begins(leaf_of(addr), "data."@),
    decreases n,
{
    if n > 0 {
        managed_below_are(addrs, target, n - 1, addr);
        let before = managed_below(addrs, target, n - 1);
        let last = addrs[n - 1];
        assert(addrs.take(n) == addrs.take(n - 1).push(last));
        push_contains(addrs.take(n - 1), last, addr);
        push_contains(before, last, addr);
    }
}

proof fn push_contains(s: Seq<Seq<char>>, a: Seq<char>, b: Seq<char>)
    ensures
        s.push(a).contains(b) <==> s.contains(b) || a == b,
{
    if s.contains(b) {
        let i = choose|i: int| 0 <= i < s.len() && s[i] == b;
        assert(s.push(a)[i] == b);
    }
    if a == b {
        assert(s.push(a)[s.len() as int] == b);
    }
}

proof fn sum_contains(s: Seq<Seq<char>>, t: Seq<Seq<char>>, b: Seq<char>)
    ensures
        (s + t).contains(b) <==> s.contains(b) || t.contains(b),
{
    if s.contains(b) {
        let i = choose|i: int| 0 <= i < s.len() && s[i] == b;
        assert((s + t)[i] == b);
    }
    if t.contains(b) {
        let i = choose|i: int| 0 <= i < t.len() && t[i] == b;
        assert((s + t)[s.len() + i] == b);
    }
}

proof fn tainted_are(addrs: Seq<Seq<char>>, targets: Seq<Seq<char>>, n: int, addr: Seq<char>)
    requires
        0 <= n <= targets.len(),
    ensures
        tainted_addresses(addrs, targets, n).contains(addr) <==> exists|i: int|
            0 <= i < n && stands_for(addrs, #[trigger] targets[i], addr),
    decreases n,
{
    if n > 0 {
        tainted_are(addrs, targets, n - 1, addr);
        let t = targets[n - 1];
        let own = if addrs.contains(t) {
            seq![t]
        } else {
            managed_below(addrs, t, addrs.len() as int)
        };
        sum_contains(tainted_addresses(addrs, targets, n - 1), own, addr);
        managed_below_are(addrs, t, addrs.len() as int, addr);
        assert(addrs.take(addrs.len() as int) == addrs);
        if addrs.contains(t) && addr == t {
            assert(own[0] == addr);
        }
        assert(own.contains(addr) <==> stands_for(addrs, t, addr));
    }
}

/// A taint is run on single resources of the state: on each that is targeted,
/// and on the managed resources of each targeted module, and on nothing else. So
/// no data source is tainted for the sake of its module.
pub proof fn taint_expands_modules(e: ExplorerView, addr: Seq<char>)
    ensures
        e.op_addresses(ExplorerOpKind::Taint).contains(addr) <==> exists|i: int|
            0 <= i < e.targets().len() && stands_for(e.addrs(), #[trigger] e.targets()[i], addr),
        e.op_addresses(ExplorerOpKind::Taint).contains(addr) ==> e.addrs().contains(addr),
{
    tainted_are(e.addrs(), e.targets(), e.targets().len() as int, addr);
}

/// Nothing is targeted that was not selected: every target is a selected module
/// or the address of a selected resource.
pub proof fn targets_come_from_the_selection(e: ExplorerView, j: int)
    requires
        e.content is Resources,
        e.module_select.len() > 0 || e.multi_select.len() > 0,
        0 <= j < e.targets().len(),
    ensures
        e.module_select.contains(e.targets()[j]) || exists|k: int|
            0 <= k < e.multi_select.len() && e.multi_select[k] < e.addrs().len() && e.addrs()[
            #[trigger] e.multi_select[k] as int] == e.targets()[j],
{
    let all = e.module_select;
    let kept = e.target_prefixes();
    let loose = loose_targets(e.addrs(), e.multi_select, kept, e.multi_select.len() as int);
    sorted_texts_are_the_texts(uncovered(all, all.len() as int));
    uncovered_are(all, all.len() as int);
    loose_come_from(e.addrs(), e.multi_select, kept, e.multi_select.len() as int);
    assert(e.targets() == kept + loose);
    if j < kept.len() {
        assert(kept.contains(kept[j]));
    } else {
        assert(loose.contains(loose[j - kept.len()]));
    }
}

proof fn loose_come_from(
    addrs: Seq<Seq<char>>,
    selected: Seq<usize>,
    prefixes: Seq<Seq<char>>,
    n: int,
)
    requires
        n <= selected.len(),
    ensures
        forall|a: Seq<char>| #[trigger]
            loose_targets(addrs, selected, prefixes, n).contains(a) ==> exists|k: int|
                0 <= k < selected.len() && selected[k] < addrs.len() && addrs[
                #[trigger] selected[k] as int] == a,
    decreases n,
{
    if n > 0 {
        loose_come_from(addrs, selected, prefixes, n - 1);
        let before = loose_targets(addrs, selected, prefixes, n - 1);
        let after = loose_targets(addrs, selected, prefixes, n);
        assert forall|a: Seq<char>| #[trigger] after.contains(a) implies exists|k: int|
            0 <= k < selected.len() && selected[k] < addrs.len() && addrs[
            #[trigger] selected[k] as int] == a by {
            let k = choose|k: int| 0 <= k < after.len() && after[k] == a;
            if k < before.len() {
                assert(before[k] == a);
                assert(before.contains(a));
            } else {
                assert(addrs[selected[n - 1] as int] == a);
            }
        }
    }
}

/// The places of the resources that are shown below a module.
pub open spec fn group_places(
    addrs: Seq<Seq<char>>,
    filter: Seq<char>,
    prefix: Seq<char>,
    n: int,
) -> Set<int> {
    Set::new(|i: int| 0 <= i < n && prefix_of(addrs[i]) == Some(prefix) && is_shown(addrs, filter, i))
}

/// The number at the head of a group is that of the resources shown below it.
pub proof fn a_group_is_counted(
    addrs: Seq<Seq<char>>,
    filter: Seq<char>,
    prefix: Seq<char>,
    n: int,
)
    requires
        0 <= n <= addrs.len(),
    ensures
        group_places(addrs, filter, prefix, n).finite(),
        members(addrs, filter, prefix, n).len() == group_places(addrs, filter, prefix, n).len(),
    decreases n,
{
    let now = group_places(addrs, filter, prefix, n);
    if n <= 0 {
        assert(now =~= Set::<int>::empty());
    } else {
        a_group_is_counted(addrs, filter, prefix, n - 1);
        let before = group_places(addrs, filter, prefix, n - 1);
        if is_member(addrs, filter, prefix, n - 1) {
            assert(now =~= before.insert(n - 1));
        } else {
            assert(now =~= before);
        }
    }
}

} // verus!
