//! The state explorer: the resources of one module, grouped by module prefix,
//! filtered, selected and operated on.

use crate::app::types::{
    DetailView, ExplorerOpKind, OpResult, OpResultView, PendingOp, PendingOpView, ResourceDetail,
};
use crate::state::{
    covered, is_covered_by, is_data_address, leaf_of, module_prefix, opt_text, prefix_of,
    IndexKeyView, StateContent, StateResource,
};
use crate::text::{
    begins, chars_of, contains, copy_strings, holds, insert_text, lowercase, same, sorted_texts,
    sorted_texts_are_the_texts, texts, texts_push,
};
use vstd::prelude::*;

verus! {

/// One row of the explorer: a module header, or a resource, indented when it
/// belongs to a group.
#[derive(Debug, PartialEq, Eq)]
pub enum ExplorerRow {
    ModuleHeader { prefix: String, count: usize },
    /// The resource's index regardless of the filter.
    Resource { res_idx: usize, indent: bool },
}

/// A row as text.
pub enum RowView {
    ModuleHeader { prefix: Seq<char>, count: int },
    Resource { res_idx: int, indent: bool },
}

impl View for ExplorerRow {
    type V = RowView;

    open spec fn view(&self) -> RowView {
        match self {
            ExplorerRow::ModuleHeader { prefix, count } => RowView::ModuleHeader {
                prefix: prefix@,
                count: *count as int,
            },
            ExplorerRow::Resource { res_idx, indent } => RowView::Resource {
                res_idx: *res_idx as int,
                indent: *indent,
            },
        }
    }
}

/// The rows of a sequence.
pub open spec fn row_views(v: Seq<ExplorerRow>) -> Seq<RowView> {
    v.map_values(|r: ExplorerRow| r@)
}

/// The addresses of resources.
pub open spec fn addresses(rs: Seq<StateResource>) -> Seq<Seq<char>> {
    rs.map_values(|r: StateResource| r.address@)
}

/// Whether an address passes the filter: it holds the filter text, whatever the
/// case of the letters.
pub open spec fn passes(addr: Seq<char>, filter: Seq<char>) -> bool {
    filter.len() == 0 || holds(lowercase(addr), lowercase(filter))
}

/// The rows of the root resources among the first `n` addresses.
pub open spec fn root_rows(addrs: Seq<Seq<char>>, filter: Seq<char>, n: int) -> Seq<RowView>
    decreases n,
{
    if n <= 0 {
        Seq::empty()
    } else {
        let before = root_rows(addrs, filter, n - 1);
        if prefix_of(addrs[n - 1]) is None && passes(addrs[n - 1], filter) {
            before.push(RowView::Resource { res_idx: n - 1, indent: false })
        } else {
            before
        }
    }
}

/// Whether the `i`-th address belongs to `prefix` and passes the filter.
pub open spec fn is_member(
    addrs: Seq<Seq<char>>,
    filter: Seq<char>,
    prefix: Seq<char>,
    i: int,
) -> bool {
    prefix_of(addrs[i]) == Some(prefix) && passes(addrs[i], filter)
}

/// The members of `prefix` among the first `n` addresses that pass the filter.
pub open spec fn members(
    addrs: Seq<Seq<char>>,
    filter: Seq<char>,
    prefix: Seq<char>,
    n: int,
) -> Seq<int>
    decreases n,
{
    if n <= 0 {
        Seq::empty()
    } else {
        let before = members(addrs, filter, prefix, n - 1);
        if is_member(addrs, filter, prefix, n - 1) {
            before.push(n - 1)
        } else {
            before
        }
    }
}

/// The rows of one group: its header and its members; none where no member
/// passes the filter.
pub open spec fn group_rows(
    addrs: Seq<Seq<char>>,
    filter: Seq<char>,
    prefix: Seq<char>,
) -> Seq<RowView> {
    let ms = members(addrs, filter, prefix, addrs.len() as int);
    if ms.len() == 0 {
        Seq::empty()
    } else {
        seq![RowView::ModuleHeader { prefix, count: ms.len() as int }] + ms.map_values(
            |i: int| RowView::Resource { res_idx: i, indent: true },
        )
    }
}

/// The module prefixes of the first `n` addresses.
pub open spec fn prefixes_of(addrs: Seq<Seq<char>>, n: int) -> Seq<Seq<char>>
    decreases n,
{
    if n <= 0 {
        Seq::empty()
    } else {
        let before = prefixes_of(addrs, n - 1);
        match prefix_of(addrs[n - 1]) {
            Some(p) => before.push(p),
            None => before,
        }
    }
}

/// The rows of the first `k` groups.
pub open spec fn groups(
    addrs: Seq<Seq<char>>,
    filter: Seq<char>,
    prefixes: Seq<Seq<char>>,
    k: int,
) -> Seq<RowView>
    decreases k,
{
    if k <= 0 {
        Seq::empty()
    } else {
        groups(addrs, filter, prefixes, k - 1) + group_rows(addrs, filter, prefixes[k - 1])
    }
}

/// The rows of the explorer: root resources first, then one group per module
/// prefix in order, each with its members as they come.
pub open spec fn explorer_rows(addrs: Seq<Seq<char>>, filter: Seq<char>) -> Seq<RowView> {
    let prefixes = sorted_texts(prefixes_of(addrs, addrs.len() as int));
    root_rows(addrs, filter, addrs.len() as int) + groups(
        addrs,
        filter,
        prefixes,
        prefixes.len() as int,
    )
}

fn passes_filter(addr: &str, filter: &str) -> (r: bool)
    ensures
        r == passes(addr@, filter@),
{
    filter.is_empty() || contains(
        chars_of(addr.to_lowercase().as_str()).as_slice(),
        filter.to_lowercase().as_str(),
    )
}

proof fn row_views_push(v: Seq<ExplorerRow>, r: ExplorerRow)
    ensures
        row_views(v.push(r)) == row_views(v).push(r@),
{
    assert(row_views(v.push(r)) =~= row_views(v).push(r@));
}

/// Builds the rows of the explorer from `resources` under `filter`.
///
/// Root resources come first, in their order, then one group per module prefix,
/// the prefixes in order. A group shows only where a member passes the filter,
/// and its header counts those that do.
pub fn build_explorer_rows(resources: &Vec<StateResource>, filter: &str) -> (r: Vec<ExplorerRow>)
    ensures
        row_views(r@) == explorer_rows(addresses(resources@), filter@),
{
    let ghost addrs = addresses(resources@);
    let mut rows: Vec<ExplorerRow> = Vec::new();
    let mut prefixes: Vec<String> = Vec::new();
    let mut n: usize = 0;
    assert(row_views(rows@) =~= Seq::<RowView>::empty());
    assert(texts(prefixes@) =~= Seq::<Seq<char>>::empty());
    while n < resources.len()
        invariant
            n <= resources@.len(),
            addrs == addresses(resources@),
            row_views(rows@) == root_rows(addrs, filter@, n as int),
            texts(prefixes@) == sorted_texts(prefixes_of(addrs, n as int)),
        decreases resources@.len() - n,
    {
        let addr = resources[n].address.as_str();
        assert(addrs[n as int] == addr@);
        match module_prefix(addr) {
            None => {
                if passes_filter(addr, filter) {
                    let row = ExplorerRow::Resource { res_idx: n, indent: false };
                    proof {
                        row_views_push(rows@, row);
                    }
                    rows.push(row);
                }
            },
            Some(p) => {
                proof {
                    let before = prefixes_of(addrs, n as int);
                    sorted_texts_are_the_texts(before);
                    assert(before.push(p@).drop_last() =~= before);
                }
                insert_text(&mut prefixes, p.as_str());
            },
        }
        n += 1;
    }
    let ghost roots = row_views(rows@);
    let ghost sorted = texts(prefixes@);
    let mut k: usize = 0;
    assert(roots + groups(addrs, filter@, sorted, 0) =~= roots);
    while k < prefixes.len()
        invariant
            k <= prefixes@.len(),
            addrs == addresses(resources@),
            sorted == texts(prefixes@),
            row_views(rows@) == roots + groups(addrs, filter@, sorted, k as int),
        decreases prefixes@.len() - k,
    {
        let ghost before = row_views(rows@);
        let ghost done = groups(addrs, filter@, sorted, k as int);
        assert(sorted[k as int] == prefixes@[k as int]@);
        push_group(&mut rows, resources, filter, prefixes[k].as_str());
        assert(roots + (done + group_rows(addrs, filter@, sorted[k as int])) =~= before
            + group_rows(addrs, filter@, sorted[k as int]));
        k += 1;
    }
    rows
}

fn push_group(rows: &mut Vec<ExplorerRow>, resources: &Vec<StateResource>, filter: &str, prefix: &str)
    ensures
        row_views(final(rows)@) == row_views(old(rows)@) + group_rows(
            addresses(resources@),
            filter@,
            prefix@,
        ),
{
    let ghost addrs = addresses(resources@);
    let ghost start = row_views(rows@);
    let mut found: Vec<usize> = Vec::new();
    let mut n: usize = 0;
    assert(found@.map_values(|i: usize| i as int) =~= Seq::<int>::empty());
    while n < resources.len()
        invariant
            n <= resources@.len(),
            addrs == addresses(resources@),
            found@.map_values(|i: usize| i as int) == members(addrs, filter@, prefix@, n as int),
        decreases resources@.len() - n,
    {
        let addr = resources[n].address.as_str();
        assert(addrs[n as int] == addr@);
        let belongs = match module_prefix(addr) {
            Some(p) => same(p.as_str(), prefix),
            None => false,
        };
        if belongs && passes_filter(addr, filter) {
            let ghost before = found@.map_values(|i: usize| i as int);
            found.push(n);
            assert(found@.map_values(|i: usize| i as int) =~= before.push(n as int));
        }
        n += 1;
    }
    let ghost ms = members(addrs, filter@, prefix@, addrs.len() as int);
    if found.len() == 0 {
        assert(start + group_rows(addrs, filter@, prefix@) =~= start);
        return ;
    }
    let header = ExplorerRow::ModuleHeader { prefix: prefix.to_owned(), count: found.len() };
    let ghost hv = header@;
    proof {
        row_views_push(rows@, header);
    }
    rows.push(header);
    let ghost shown = ms.map_values(|i: int| RowView::Resource { res_idx: i, indent: true });
    let mut j: usize = 0;
    assert(start.push(hv) + shown.take(0) =~= start.push(hv));
    while j < found.len()
        invariant
            j <= found@.len(),
            found@.map_values(|i: usize| i as int) == ms,
            shown == ms.map_values(|i: int| RowView::Resource { res_idx: i, indent: true }),
            row_views(rows@) == start.push(hv) + shown.take(j as int),
        decreases found@.len() - j,
    {
        let row = ExplorerRow::Resource { res_idx: found[j], indent: true };
        assert(ms[j as int] == found@.map_values(|i: usize| i as int)[j as int]);
        assert(shown[j as int] == row@);
        proof {
            row_views_push(rows@, row);
        }
        rows.push(row);
        assert(start.push(hv) + shown.take(j + 1) =~= (start.push(hv) + shown.take(j as int)).push(
            row@,
        ));
        j += 1;
    }
    assert(shown.take(j as int) =~= shown);
    assert(start + (seq![hv] + shown) =~= start.push(hv) + shown);
}

/// A resource as text.
pub struct ResourceView {
    pub address: Seq<char>,
    pub index_key: IndexKeyView,
    pub status: Option<Seq<char>>,
    pub body: Seq<char>,
}

impl View for StateResource {
    type V = ResourceView;

    open spec fn view(&self) -> ResourceView {
        ResourceView {
            address: self.address@,
            index_key: self.instance.index_key@,
            status: opt_text(self.instance.status),
            body: self.instance.body@,
        }
    }
}

/// Resources as text.
pub open spec fn resource_views(rs: Seq<StateResource>) -> Seq<ResourceView> {
    rs.map_values(|r: StateResource| r@)
}

/// State contents as text.
pub enum ContentView {
    Loading,
    NotInitialized,
    NoState,
    Resources(Seq<ResourceView>),
    Error(Seq<char>),
}

/// The contents as text.
pub open spec fn content_view(c: StateContent) -> ContentView {
    match c {
        StateContent::Loading => ContentView::Loading,
        StateContent::NotInitialized => ContentView::NotInitialized,
        StateContent::NoState => ContentView::NoState,
        StateContent::Resources(rs) => ContentView::Resources(resource_views(rs@)),
        StateContent::Error(m) => ContentView::Error(m@),
    }
}

/// The state explorer of one module.
pub struct StateExplorer {
    pub module_idx: usize,
    pub module_name: String,
    pub content: StateContent,
    /// The highlighted row.
    pub selected: usize,
    pub filter: String,
    /// Whether keys go to the filter.
    pub filter_active: bool,
    /// The drill-down, when it is open.
    pub detail_view: Option<ResourceDetail>,
    /// Selected resources, by index regardless of the filter.
    pub multi_select: Vec<usize>,
    /// Selected module prefixes.
    pub module_select: Vec<String>,
    /// The operation to confirm.
    pub op_confirm: Option<ExplorerOpKind>,
    /// What it would be run on.
    pub op_targets: Vec<String>,
    pub pending_op: Option<PendingOp>,
    pub op_result: Option<OpResult>,
    /// A targeted plan was just queued; shown until the next key.
    pub plan_queued_notice: bool,
    /// The read of the state that is in flight.
    pub loading: Option<u64>,
}

/// The explorer as text.
#[verifier::ext_equal]
pub struct ExplorerView {
    pub module_idx: usize,
    pub module_name: Seq<char>,
    pub content: ContentView,
    pub selected: usize,
    pub filter: Seq<char>,
    pub filter_active: bool,
    pub detail_view: Option<DetailView>,
    pub multi_select: Seq<usize>,
    pub module_select: Seq<Seq<char>>,
    pub op_confirm: Option<ExplorerOpKind>,
    pub op_targets: Seq<Seq<char>>,
    pub pending_op: Option<PendingOpView>,
    pub op_result: Option<OpResultView>,
    pub plan_queued_notice: bool,
    pub loading: Option<u64>,
}

impl View for StateExplorer {
    type V = ExplorerView;

    open spec fn view(&self) -> ExplorerView {
        ExplorerView {
            module_idx: self.module_idx,
            module_name: self.module_name@,
            content: content_view(self.content),
            selected: self.selected,
            filter: self.filter@,
            filter_active: self.filter_active,
            detail_view: match self.detail_view {
                Some(d) => Some(d@),
                None => None,
            },
            multi_select: self.multi_select@,
            module_select: texts(self.module_select@),
            op_confirm: self.op_confirm,
            op_targets: texts(self.op_targets@),
            pending_op: match self.pending_op {
                Some(p) => Some(p@),
                None => None,
            },
            op_result: match self.op_result {
                Some(p) => Some(p@),
                None => None,
            },
            plan_queued_notice: self.plan_queued_notice,
            loading: self.loading,
        }
    }
}

impl ExplorerView {
    /// The addresses of the loaded resources; none where none are loaded.
    pub open spec fn addrs(self) -> Seq<Seq<char>> {
        match self.content {
            ContentView::Resources(rs) => rs.map_values(|r: ResourceView| r.address),
            _ => Seq::empty(),
        }
    }

    /// The rows under the current filter.
    pub open spec fn rows(self) -> Seq<RowView> {
        if self.content is Resources {
            explorer_rows(self.addrs(), self.filter)
        } else {
            Seq::empty()
        }
    }

    /// The highlighted row.
    pub open spec fn row(self) -> Option<RowView> {
        if self.selected < self.rows().len() {
            Some(self.rows()[self.selected as int])
        } else {
            None
        }
    }

    /// The selected prefixes, in order and each once, without those that
    /// another selected prefix covers.
    pub open spec fn target_prefixes(self) -> Seq<Seq<char>> {
        sorted_texts(uncovered(self.module_select, self.module_select.len() as int))
    }

    /// The addresses an operation is aimed at.
    pub open spec fn targets(self) -> Seq<Seq<char>> {
        if self.content !is Resources {
            Seq::empty()
        } else if self.module_select.len() > 0 || self.multi_select.len() > 0 {
            self.target_prefixes() + loose_targets(
                self.addrs(),
                self.multi_select,
                self.target_prefixes(),
                self.multi_select.len() as int,
            )
        } else {
            match self.row() {
                Some(RowView::ModuleHeader { prefix, .. }) => seq![prefix],
                Some(RowView::Resource { res_idx, .. }) => if res_idx < self.addrs().len() {
                    seq![self.addrs()[res_idx]]
                } else {
                    Seq::empty()
                },
                None => Seq::empty(),
            }
        }
    }

    /// The addresses an operation of `kind` is run on.
    pub open spec fn op_addresses(self, kind: ExplorerOpKind) -> Seq<Seq<char>> {
        if kind == ExplorerOpKind::Taint {
            tainted_addresses(self.addrs(), self.targets(), self.targets().len() as int)
        } else {
            self.targets()
        }
    }
}

/// Whether another of `prefixes` covers `p`.
pub open spec fn covered_by_another(prefixes: Seq<Seq<char>>, p: Seq<char>) -> bool {
    exists|j: int|
        0 <= j < prefixes.len() && (#[trigger] prefixes[j]) != p && covered(p, prefixes[j])
}

/// The first `n` of `prefixes`, without those that another one covers.
pub open spec fn uncovered(prefixes: Seq<Seq<char>>, n: int) -> Seq<Seq<char>>
    decreases n,
{
    if n <= 0 {
        Seq::empty()
    } else {
        let before = uncovered(prefixes, n - 1);
        if covered_by_another(prefixes, prefixes[n - 1]) {
            before
        } else {
            before.push(prefixes[n - 1])
        }
    }
}

/// Whether one of `prefixes` covers `addr`.
pub open spec fn any_covers(prefixes: Seq<Seq<char>>, addr: Seq<char>) -> bool {
    exists|j: int| 0 <= j < prefixes.len() && covered(addr, #[trigger] prefixes[j])
}

/// The addresses of the first `n` selected resources that no prefix covers.
pub open spec fn loose_targets(
    addrs: Seq<Seq<char>>,
    selected: Seq<usize>,
    prefixes: Seq<Seq<char>>,
    n: int,
) -> Seq<Seq<char>>
    decreases n,
{
    if n <= 0 {
        Seq::empty()
    } else {
        let before = loose_targets(addrs, selected, prefixes, n - 1);
        let i = selected[n - 1];
        if i < addrs.len() && !any_covers(prefixes, addrs[i as int]) {
            before.push(addrs[i as int])
        } else {
            before
        }
    }
}

/// Those of the first `n` addresses that `target` covers and that are no data
/// sources.
pub open spec fn managed_below(addrs: Seq<Seq<char>>, target: Seq<char>, n: int) -> Seq<Seq<char>>
    decreases n,
{
    if n <= 0 {
        Seq::empty()
    } else {
        let before = managed_below(addrs, target, n - 1);
        if covered(addrs[n - 1], target) && !begins(leaf_of(addrs[n - 1]), "data."@) {
            before.push(addrs[n - 1])
        } else {
            before
        }
    }
}

/// The resources that a taint of the first `n` targets is run on: a resource is
/// taken as it is, a module stands for the managed resources below it.
pub open spec fn tainted_addresses(
    addrs: Seq<Seq<char>>,
    targets: Seq<Seq<char>>,
    n: int,
) -> Seq<Seq<char>>
    decreases n,
{
    if n <= 0 {
        Seq::empty()
    } else {
        let t = targets[n - 1];
        tainted_addresses(addrs, targets, n - 1) + if addrs.contains(t) {
            seq![t]
        } else {
            managed_below(addrs, t, addrs.len() as int)
        }
    }
}

proof fn content_addresses(rs: Seq<StateResource>)
    ensures
        resource_views(rs).map_values(|r: ResourceView| r.address) == addresses(rs),
{
    assert(resource_views(rs).map_values(|r: ResourceView| r.address) =~= addresses(rs));
}

impl StateExplorer {
    /// The loaded resources, if any.
    pub fn resources(&self) -> (r: Option<&Vec<StateResource>>)
        ensures
            match r {
                Some(rs) => self@.content == ContentView::Resources(resource_views(rs@))
                    && self@.addrs() == addresses(rs@),
                None => self@.content !is Resources,
            },
    {
        match &self.content {
            StateContent::Resources(rs) => {
                proof {
                    content_addresses(rs@);
                }
                Some(rs)
            },
            _ => None,
        }
    }

    /// The rows under the current filter; none unless resources are loaded.
    pub fn rows(&self) -> (r: Vec<ExplorerRow>)
        ensures
            row_views(r@) == self@.rows(),
    {
        match self.resources() {
            Some(rs) => build_explorer_rows(rs, self.filter.as_str()),
            None => {
                let v: Vec<ExplorerRow> = Vec::new();
                assert(row_views(v@) =~= self@.rows());
                v
            },
        }
    }

    /// The number of rows, headers included.
    pub fn row_count(&self) -> (r: usize)
        ensures
            r == self@.rows().len(),
    {
        self.rows().len()
    }

    /// The highlighted row, if there is one.
    pub fn selected_row(&self) -> (r: Option<ExplorerRow>)
        ensures
            match r {
                Some(row) => self@.row() == Some(row@),
                None => self@.row() is None,
            },
    {
        let mut rows = self.rows();
        let ghost all = row_views(rows@);
        if self.selected < rows.len() {
            assert(all[self.selected as int] == rows@[self.selected as int]@);
            Some(rows.swap_remove(self.selected))
        } else {
            None
        }
    }

    fn kept_prefixes(&self) -> (r: Vec<String>)
        ensures
            texts(r@) == self@.target_prefixes(),
    {
        let ghost all = texts(self.module_select@);
        let mut out: Vec<String> = Vec::new();
        let mut n: usize = 0;
        assert(texts(out@) =~= sorted_texts(uncovered(all, 0)));
        while n < self.module_select.len()
            invariant
                n <= self.module_select@.len(),
                all == texts(self.module_select@),
                texts(out@) == sorted_texts(uncovered(all, n as int)),
            decreases self.module_select@.len() - n,
        {
            let p = self.module_select[n].as_str();
            assert(all[n as int] == p@);
            if !self.another_covers(p) {
                proof {
                    let before = uncovered(all, n as int);
                    sorted_texts_are_the_texts(before);
                    assert(before.push(p@).drop_last() =~= before);
                }
                insert_text(&mut out, p);
            }
            n += 1;
        }
        out
    }

    fn another_covers(&self, p: &str) -> (r: bool)
        ensures
            r == covered_by_another(texts(self.module_select@), p@),
    {
        let ghost all = texts(self.module_select@);
        let mut j: usize = 0;
        while j < self.module_select.len()
            invariant
                j <= self.module_select@.len(),
                all == texts(self.module_select@),
                forall|i: int| 0 <= i < j ==> (#[trigger] all[i]) == p@ || !covered(p@, all[i]),
            decreases self.module_select@.len() - j,
        {
            let other = self.module_select[j].as_str();
            assert(all[j as int] == other@);
            if !same(other, p) && is_covered_by(p, other) {
                return true;
            }
            j += 1;
        }
        false
    }

    /// The addresses that an operation is aimed at.
    ///
    /// With a selection: the selected module prefixes, in order, without those
    /// that another one covers, then the selected resources that no selected
    /// prefix covers. Without one: the highlighted row.
    pub fn target_addresses(&self) -> (r: Vec<String>)
        ensures
            texts(r@) == self@.targets(),
    {
        broadcast use texts_push;

        let ghost want = self@.targets();
        let mut out: Vec<String> = Vec::new();
        assert(texts(out@) =~= Seq::<Seq<char>>::empty());
        let resources = match self.resources() {
            Some(rs) => rs,
            None => {
                return out;
            },
        };
        let ghost addrs = addresses(resources@);
        if self.module_select.len() > 0 || self.multi_select.len() > 0 {
            let prefixes = self.kept_prefixes();
            let ghost pv = texts(prefixes@);
            let mut out = copy_strings(&prefixes);
            let mut n: usize = 0;
            assert(texts(out@) =~= pv + loose_targets(addrs, self.multi_select@, pv, 0));
            while n < self.multi_select.len()
                invariant
                    n <= self.multi_select@.len(),
                    addrs == addresses(resources@),
                    pv == texts(prefixes@),
                    texts(out@) == pv + loose_targets(addrs, self.multi_select@, pv, n as int),
                decreases self.multi_select@.len() - n,
            {
                let i = self.multi_select[n];
                let ghost had = loose_targets(addrs, self.multi_select@, pv, n as int);
                if i < resources.len() {
                    let addr = resources[i].address.as_str();
                    assert(addrs[i as int] == addr@);
                    if !covers_any(&prefixes, addr) {
                        out.push(addr.to_owned());
                        assert((pv + had).push(addr@) =~= pv + had.push(addr@));
                    }
                }
                n += 1;
            }
            out
        } else {
            match self.selected_row() {
                Some(ExplorerRow::ModuleHeader { prefix, .. }) => {
                    out.push(prefix);
                    assert(texts(out@) =~= want);
                },
                Some(ExplorerRow::Resource { res_idx, .. }) => {
                    if res_idx < resources.len() {
                        assert(addrs[res_idx as int] == resources@[res_idx as int].address@);
                        out.push(resources[res_idx].address.clone());
                        assert(texts(out@) =~= want);
                    }
                },
                None => {},
            }
            out
        }
    }

    /// The addresses that an operation of `kind` is run on. A taint takes
    /// single resources only, so a module stands for the managed resources
    /// below it; every other operation takes module addresses as they are.
    pub fn op_targets_for(&self, kind: ExplorerOpKind) -> (r: Vec<String>)
        ensures
            texts(r@) == self@.op_addresses(kind),
    {
        let targets = self.target_addresses();
        if kind != ExplorerOpKind::Taint {
            return targets;
        }
        let ghost tv = texts(targets@);
        let mut out: Vec<String> = Vec::new();
        assert(texts(out@) =~= Seq::<Seq<char>>::empty());
        match self.resources() {
            None => {
                assert(tv.len() == 0);
                out
            },
            Some(rs) => {
                let ghost addrs = addresses(rs@);
                let mut n: usize = 0;
                while n < targets.len()
                    invariant
                        n <= targets@.len(),
                        tv == texts(targets@),
                        addrs == addresses(rs@),
                        texts(out@) == tainted_addresses(addrs, tv, n as int),
                    decreases targets@.len() - n,
                {
                    assert(tv[n as int] == targets@[n as int]@);
                    push_tainted(&mut out, rs, targets[n].as_str());
                    n += 1;
                }
                out
            },
        }
    }
}

/// Whether one of `prefixes` covers `addr`.
pub fn covers_any(prefixes: &Vec<String>, addr: &str) -> (r: bool)
    ensures
        r == any_covers(texts(prefixes@), addr@),
{
    let ghost all = texts(prefixes@);
    let mut j: usize = 0;
    while j < prefixes.len()
        invariant
            j <= prefixes@.len(),
            all == texts(prefixes@),
            forall|i: int| 0 <= i < j ==> !covered(addr@, #[trigger] all[i]),
        decreases prefixes@.len() - j,
    {
        assert(all[j as int] == prefixes@[j as int]@);
        if is_covered_by(addr, prefixes[j].as_str()) {
            return true;
        }
        j += 1;
    }
    false
}

fn push_tainted(out: &mut Vec<String>, rs: &Vec<StateResource>, target: &str)
    ensures
        texts(final(out)@) == texts(old(out)@) + if addresses(rs@).contains(target@) {
            seq![target@]
        } else {
            managed_below(addresses(rs@), target@, rs@.len() as int)
        },
{
    broadcast use texts_push;

    let ghost addrs = addresses(rs@);
    let ghost start = texts(out@);
    let mut i: usize = 0;
    while i < rs.len()
        invariant
            i <= rs@.len(),
            addrs == addresses(rs@),
            start == texts(out@),
            start == texts(old(out)@),
            forall|j: int| 0 <= j < i ==> (#[trigger] addrs[j]) != target@,
        decreases rs@.len() - i,
    {
        assert(addrs[i as int] == rs@[i as int].address@);
        if same(rs[i].address.as_str(), target) {
            out.push(target.to_owned());
            assert(start.push(target@) =~= start + seq![target@]);
            return ;
        }
        i += 1;
    }
    let mut n: usize = 0;
    assert(start + managed_below(addrs, target@, 0) =~= start);
    while n < rs.len()
        invariant
            n <= rs@.len(),
            addrs == addresses(rs@),
            texts(out@) == start + managed_below(addrs, target@, n as int),
        decreases rs@.len() - n,
    {
        let addr = rs[n].address.as_str();
        assert(addrs[n as int] == addr@);
        let ghost had = managed_below(addrs, target@, n as int);
        if is_covered_by(addr, target) && !is_data_address(addr) {
            out.push(addr.to_owned());
            assert((start + had).push(addr@) =~= start + had.push(addr@));
        }
        n += 1;
    }
}

} // verus!
