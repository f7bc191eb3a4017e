//! Working with the state explorer: moving, filtering, drilling down, and
//! running operations on resources.

use crate::app::explorer::{
    addresses, content_view, resource_views, ContentView, ExplorerRow, ExplorerView, RowView,
    StateExplorer,
};
use crate::app::model::{move_within, moved, toggle, toggled, App, AppView, Request, RequestView};
use crate::app::pane::{less, min_of};
use crate::app::tasks::{push_target_flags, target_flags};
use crate::app::types::{
    entry_views, DetailView, ExplorerOpKind, OpResult, OpResultView, PendingOp, PendingOpView,
    ResourceDetail,
};
use crate::discovery::module_view;
use crate::engine::{after_events, EngineUpdate, EngineView};
use crate::state::{covered, is_covered_by, opt_text, StateContent, StateResource};
use crate::task::TaskEvent;
use crate::text::{concat, decimal, decimal_of, lines, lines_of, same, texts, texts_push};
use vstd::prelude::*;

verus! {

/// A JSON text laid out over several lines; none where it is no JSON.
pub uninterp spec fn json_pretty(body: Seq<char>) -> Option<Seq<char>>;

/// Calls `serde_json::from_str` and `serde_json::to_string_pretty`: the JSON text
/// `body` laid out over several lines, or none where it cannot be parsed.
#[verifier::external_body]
fn pretty_json(body: &str) -> (r: Option<String>)
    ensures
        opt_text(r) == json_pretty(body@),
{
    serde_json::from_str::<serde_json::Value>(body).and_then(
        |v| serde_json::to_string_pretty(&v),
    ).ok()
}

/// The detail view of a resource whose body is laid out as `pretty`.
pub open spec fn detail_of(address: Seq<char>, pretty: Option<Seq<char>>) -> DetailView {
    DetailView {
        address,
        lines: lines(
            match pretty {
                Some(t) => t,
                None => "{}"@,
            },
        ),
        scroll: 0,
    }
}

/// The detail view of a resource whose body is laid out as `pretty`.
pub fn resource_detail(address: String, pretty: Option<String>) -> (r: ResourceDetail)
    ensures
        r@ == detail_of(address@, opt_text(pretty)),
{
    let text = match pretty {
        Some(t) => t,
        None => "{}".to_owned(),
    };
    ResourceDetail { address, lines: lines_of(text.as_str()), scroll: 0 }
}

/// An explorer that was just opened for a module.
pub open spec fn new_explorer(module_idx: usize, module_name: Seq<char>) -> ExplorerView {
    ExplorerView {
        module_idx,
        module_name,
        content: ContentView::Loading,
        selected: 0,
        filter: Seq::empty(),
        filter_active: false,
        detail_view: None,
        multi_select: Seq::empty(),
        module_select: Seq::empty(),
        op_confirm: None,
        op_targets: Seq::empty(),
        pending_op: None,
        op_result: None,
        plan_queued_notice: false,
        loading: None,
    }
}

/// `e` with its highlight held within the rows.
pub open spec fn held(e: ExplorerView) -> ExplorerView {
    let count = e.rows().len();
    ExplorerView {
        selected: if count == 0 {
            0
        } else if e.selected >= count {
            (count - 1) as usize
        } else {
            e.selected
        },
        ..e
    }
}

/// The selected resources that `prefix` does not cover.
pub open spec fn not_covered(addrs: Seq<Seq<char>>, selected: Seq<usize>, prefix: Seq<char>) -> Seq<
    usize,
>
    decreases selected.len(),
{
    if selected.len() == 0 {
        selected
    } else {
        let before = not_covered(addrs, selected.drop_last(), prefix);
        let i = selected.last();
        if i < addrs.len() && covered(addrs[i as int], prefix) {
            before
        } else {
            before.push(i)
        }
    }
}

/// The place of the first text `p` in `v`, or its length.
pub open spec fn text_pos(v: Seq<Seq<char>>, p: Seq<char>) -> int
    decreases v.len(),
{
    if v.len() == 0 {
        0
    } else {
        let k = text_pos(v.drop_last(), p);
        if k < v.len() - 1 {
            k
        } else if v.last() == p {
            v.len() - 1
        } else {
            v.len() as int
        }
    }
}

/// `e` with its highlighted row selected, or taken out of the selection. A
/// prefix that gets selected replaces the resources that it covers.
pub open spec fn row_toggled(e: ExplorerView) -> ExplorerView {
    match e.row() {
        Some(RowView::Resource { res_idx, .. }) => ExplorerView {
            multi_select: toggled(e.multi_select, res_idx as usize),
            ..e
        },
        Some(RowView::ModuleHeader { prefix, .. }) => {
            let k = text_pos(e.module_select, prefix);
            if k < e.module_select.len() {
                ExplorerView { module_select: e.module_select.remove(k), ..e }
            } else {
                ExplorerView {
                    multi_select: not_covered(e.addrs(), e.multi_select, prefix),
                    module_select: e.module_select.push(prefix),
                    ..e
                }
            }
        },
        None => e,
    }
}

/// Whether operations of a kind run one address at a time.
pub open spec fn is_sequential(kind: ExplorerOpKind) -> bool {
    kind == ExplorerOpKind::Taint || kind == ExplorerOpKind::StateRm
}

/// What a batch operation is called while it runs.
pub open spec fn batch_label(targets: Seq<Seq<char>>) -> Seq<char> {
    if targets.len() == 1 {
        targets[0]
    } else {
        decimal(targets.len()) + " targeted resources"@
    }
}

impl AppView {
    pub open spec fn with_explorer(self, e: ExplorerView) -> AppView {
        AppView { explorer: Some(e), ..self }
    }

    /// The application once a read of the explorer's state was asked for,
    /// unless one is in flight.
    pub open spec fn load_started(self) -> AppView {
        match self.explorer {
            Some(e) => if e.loading is Some || e.module_idx >= self.modules.len() {
                self
            } else {
                AppView {
                    explorer: Some(
                        ExplorerView {
                            content: ContentView::Loading,
                            loading: Some(self.load_count),
                            ..e
                        },
                    ),
                    load_count: (if self.load_count == u64::MAX {
                        0
                    } else {
                        self.load_count + 1
                    }) as u64,
                    requests: self.requests.push(
                        RequestView::ReadState {
                            load_id: self.load_count,
                            module_dir: self.modules[e.module_idx as int].path,
                        },
                    ),
                    ..self
                }
            },
            None => self,
        }
    }

    pub open spec fn explorer_opened(self, module_idx: usize) -> AppView {
        if module_idx < self.modules.len() {
            self.with_explorer(
                new_explorer(module_idx, self.modules[module_idx as int].name),
            ).load_started()
        } else {
            self
        }
    }

    /// The application once the answer to a read has come: it counts only where
    /// the explorer still waits for it.
    pub open spec fn state_installed(self, load_id: u64, content: ContentView) -> AppView {
        match self.explorer {
            Some(e) => if e.loading == Some(load_id) {
                self.with_explorer(
                    held(
                        ExplorerView {
                            loading: None,
                            content,
                            multi_select: Seq::empty(),
                            module_select: Seq::empty(),
                            ..e
                        },
                    ),
                )
            } else {
                self
            },
            None => self,
        }
    }

    pub open spec fn explorer_moved(self, delta: int) -> AppView {
        match self.explorer {
            Some(e) => if e.rows().len() == 0 {
                self
            } else {
                self.with_explorer(
                    ExplorerView {
                        selected: moved(e.selected, delta, e.rows().len()) as usize,
                        ..e
                    },
                )
            },
            None => self,
        }
    }

    pub open spec fn explorer_first(self) -> AppView {
        match self.explorer {
            Some(e) => self.with_explorer(ExplorerView { selected: 0, ..e }),
            None => self,
        }
    }

    pub open spec fn explorer_last(self) -> AppView {
        match self.explorer {
            Some(e) => if e.rows().len() > 0 {
                self.with_explorer(ExplorerView { selected: (e.rows().len() - 1) as usize, ..e })
            } else {
                self
            },
            None => self,
        }
    }

    pub open spec fn filter_opened(self) -> AppView {
        match self.explorer {
            Some(e) => self.with_explorer(
                ExplorerView { filter: Seq::empty(), filter_active: true, selected: 0, ..e },
            ),
            None => self,
        }
    }

    pub open spec fn filter_closed(self) -> AppView {
        match self.explorer {
            Some(e) => self.with_explorer(ExplorerView { filter_active: false, ..e }),
            None => self,
        }
    }

    pub open spec fn filter_cleared(self) -> AppView {
        match self.explorer {
            Some(e) => self.with_explorer(
                ExplorerView { filter: Seq::empty(), filter_active: false, selected: 0, ..e },
            ),
            None => self,
        }
    }

    pub open spec fn filter_pushed(self, c: char) -> AppView {
        match self.explorer {
            Some(e) => self.with_explorer(held(ExplorerView { filter: e.filter.push(c), ..e })),
            None => self,
        }
    }

    pub open spec fn filter_popped(self) -> AppView {
        match self.explorer {
            Some(e) => self.with_explorer(
                held(
                    ExplorerView {
                        filter: if e.filter.len() > 0 {
                            e.filter.drop_last()
                        } else {
                            e.filter
                        },
                        ..e
                    },
                ),
            ),
            None => self,
        }
    }

    pub open spec fn detail_opened(self) -> AppView {
        match self.explorer {
            Some(e) => match (e.content, e.row()) {
                (ContentView::Resources(rs), Some(RowView::Resource { res_idx, .. })) =>
                if res_idx < rs.len() {
                    self.with_explorer(
                        ExplorerView {
                            detail_view: Some(
                                detail_of(rs[res_idx].address, json_pretty(rs[res_idx].body)),
                            ),
                            ..e
                        },
                    )
                } else {
                    self
                },
                _ => self,
            },
            None => self,
        }
    }

    pub open spec fn detail_closed(self) -> AppView {
        match self.explorer {
            Some(e) => self.with_explorer(ExplorerView { detail_view: None, ..e }),
            None => self,
        }
    }

    pub open spec fn detail_at(self, scroll: int) -> AppView {
        match self.explorer {
            Some(e) => match e.detail_view {
                Some(d) => self.with_explorer(
                    ExplorerView {
                        detail_view: Some(DetailView { scroll: scroll as usize, ..d }),
                        ..e
                    },
                ),
                None => self,
            },
            None => self,
        }
    }

    /// The last line of the detail view.
    pub open spec fn detail_end(self) -> int {
        less(((self.explorer->0).detail_view->0).lines.len() as int, 1)
    }

    pub open spec fn detail_scrolled(self, delta: int) -> AppView {
        let at = ((self.explorer->0).detail_view->0).scroll as int;
        self.detail_at(
            if delta < 0 {
                less(at, -delta)
            } else {
                min_of(at + delta, self.detail_end())
            },
        )
    }

    pub open spec fn explorer_toggled(self) -> AppView {
        match self.explorer {
            Some(e) => self.with_explorer(row_toggled(e)),
            None => self,
        }
    }

    pub open spec fn explorer_deselected(self) -> AppView {
        match self.explorer {
            Some(e) => self.with_explorer(
                ExplorerView { multi_select: Seq::empty(), module_select: Seq::empty(), ..e },
            ),
            None => self,
        }
    }

    /// Whether the explorer's module exists and a task can be pushed for it.
    pub open spec fn explorer_can_push(self, n: int) -> bool {
        self.explorer is Some ==> (self.explorer->0).module_idx < self.modules.len()
            && self.has_room(n)
    }

    pub open spec fn targeted_plan_pushed(self) -> AppView {
        match self.explorer {
            Some(e) => if e.targets().len() == 0 {
                self
            } else {
                let a = self.plan_pushed(e.module_idx as int, e.targets()).explorer_task_recorded(
                    e.module_idx,
                    self.engine.next_id,
                );
                a.with_explorer(ExplorerView { plan_queued_notice: true, ..e })
            },
            None => self,
        }
    }

    pub open spec fn op_requested(self, kind: ExplorerOpKind) -> AppView {
        match self.explorer {
            Some(e) => if e.op_addresses(kind).len() == 0 {
                self
            } else {
                self.with_explorer(
                    ExplorerView {
                        op_targets: e.op_addresses(kind),
                        op_confirm: Some(kind),
                        ..e
                    },
                )
            },
            None => self,
        }
    }

    pub open spec fn op_dismissed(self) -> AppView {
        match self.explorer {
            Some(e) => self.with_explorer(
                ExplorerView { op_confirm: None, op_targets: Seq::empty(), ..e },
            ),
            None => self,
        }
    }

    /// The application once a task for one address of a sequential operation
    /// was pushed.
    pub open spec fn address_pushed(
        self,
        module_idx: usize,
        kind: ExplorerOpKind,
        addr: Seq<char>,
    ) -> AppView {
        self.pushed(
            module_idx as int,
            kind.command_text(),
            kind.lead_args().push(addr),
            None,
            seq![addr],
            None,
        ).explorer_task_recorded(module_idx, self.engine.next_id)
    }

    /// The application once a confirmed operation has been started: address by
    /// address, or as one command for all of them.
    pub open spec fn op_started(self) -> AppView {
        match self.explorer {
            Some(e) => match e.op_confirm {
                Some(kind) => {
                    let ts = e.op_targets;
                    let bare = ExplorerView { op_confirm: None, op_targets: Seq::empty(), ..e };
                    let id = self.engine.next_id;
                    let busy = ExplorerView {
                        multi_select: Seq::empty(),
                        module_select: Seq::empty(),
                        ..bare
                    };
                    if ts.len() == 0 {
                        self.with_explorer(bare)
                    } else if is_sequential(kind) {
                        self.address_pushed(e.module_idx, kind, ts[0]).with_explorer(
                            ExplorerView {
                                pending_op: Some(
                                    PendingOpView {
                                        kind,
                                        queue: ts.skip(1),
                                        running: Some((id, ts[0])),
                                        done: Seq::empty(),
                                    },
                                ),
                                ..busy
                            },
                        )
                    } else {
                        self.pushed(
                            e.module_idx as int,
                            kind.command_text(),
                            seq!["-auto-approve"@] + target_flags(ts),
                            None,
                            ts,
                            None,
                        ).explorer_task_recorded(e.module_idx, id).with_explorer(
                            ExplorerView {
                                pending_op: Some(
                                    PendingOpView {
                                        kind,
                                        queue: Seq::empty(),
                                        running: Some((id, batch_label(ts))),
                                        done: Seq::empty(),
                                    },
                                ),
                                ..busy
                            },
                        )
                    }
                },
                None => self,
            },
            None => self,
        }
    }

    /// The application after a task has ended: where an operation waits for it,
    /// its next address is started, or its result is shown and the state read
    /// again.
    pub open spec fn op_checked(self, task_id: usize, success: bool) -> AppView {
        if self.explorer is Some && (self.explorer->0).pending_op is Some && (
        (self.explorer->0).pending_op->0).running is Some && (
        ((self.explorer->0).pending_op->0).running->0).0 == task_id {
            let e = self.explorer->0;
            let op = e.pending_op->0;
            let addr = (op.running->0).1;
            let done = op.done.push((addr, success));
            if op.queue.len() == 0 {
                self.with_explorer(
                    ExplorerView {
                        pending_op: None,
                        op_result: Some(OpResultView { kind: op.kind, entries: done }),
                        ..e
                    },
                ).load_started()
            } else {
                let next = op.queue[0];
                self.address_pushed(e.module_idx, op.kind, next).with_explorer(
                    ExplorerView {
                        pending_op: Some(
                            PendingOpView {
                                kind: op.kind,
                                queue: op.queue.skip(1),
                                running: Some((self.engine.next_id, next)),
                                done,
                            },
                        ),
                        ..e
                    },
                )
            }
        } else {
            self
        }
    }

    pub open spec fn ops_checked(self, us: Seq<EngineUpdate>, n: int) -> AppView
        decreases n,
    {
        if n <= 0 {
            self
        } else {
            let before = self.ops_checked(us, n - 1);
            match us[n - 1] {
                EngineUpdate::Finished { task_id, success } => before.op_checked(task_id, success),
                _ => before,
            }
        }
    }

    /// The application after task events: the engine takes them all in, then
    /// operations that wait for an ended task go on.
    pub open spec fn drained(self, events: Seq<TaskEvent>) -> AppView {
        let (e, us) = after_events(self.engine, events);
        AppView {
            spinner_tick: (if self.spinner_tick == u8::MAX {
                0
            } else {
                self.spinner_tick + 1
            }) as u8,
            engine: e,
            ..self
        }.ops_checked(us, us.len() as int)
    }

    pub open spec fn result_dismissed(self) -> AppView {
        match self.explorer {
            Some(e) => self.with_explorer(ExplorerView { op_result: None, ..e }),
            None => self,
        }
    }
}

impl App {
    /// Asks for the explorer's state to be read, unless a read is in flight.
    pub fn spawn_state_load(&mut self)
        ensures
            final(self)@ == old(self)@.load_started(),
    {
        let ghost before = self@;
        let id = self.load_count;
        let idx = match &self.state_explorer {
            Some(e) => {
                if e.loading.is_some() {
                    return ;
                }
                e.module_idx
            },
            None => {
                return ;
            },
        };
        if idx >= self.modules.len() {
            return ;
        }
        assert(before.modules[idx as int] == module_view(self.modules@[idx as int]));
        let module_dir = self.modules[idx].path.clone();
        if let Some(e) = &mut self.state_explorer {
            e.content = StateContent::Loading;
            e.loading = Some(id);
        }
        self.load_count = if id == u64::MAX { 0 } else { id + 1 };
        self.request(Request::ReadState { load_id: id, module_dir });
        assert(self@ =~= before.load_started());
    }

    /// Reads the explorer's state again, in the background.
    pub fn refresh_state_explorer(&mut self)
        ensures
            final(self)@ == old(self)@.load_started(),
    {
        self.spawn_state_load();
    }

    /// Opens the explorer for a module and asks for its state.
    pub fn open_state_explorer(&mut self, module_idx: usize)
        ensures
            final(self)@ == old(self)@.explorer_opened(module_idx),
    {
        let ghost before = self@;
        if module_idx >= self.modules.len() {
            return ;
        }
        assert(before.modules[module_idx as int] == module_view(self.modules@[module_idx as int]));
        let e = StateExplorer {
            module_idx,
            module_name: self.modules[module_idx].display_name.clone(),
            content: StateContent::Loading,
            selected: 0,
            filter: String::new(),
            filter_active: false,
            detail_view: None,
            multi_select: Vec::new(),
            module_select: Vec::new(),
            op_confirm: None,
            op_targets: Vec::new(),
            pending_op: None,
            op_result: None,
            plan_queued_notice: false,
            loading: None,
        };
        assert(e@ =~= new_explorer(module_idx, before.modules[module_idx as int].name));
        self.state_explorer = Some(e);
        assert(self@ =~= before.with_explorer(e@));
        self.spawn_state_load();
    }

    /// Closes the explorer.
    pub fn close_state_explorer(&mut self)
        ensures
            final(self)@ == (AppView { explorer: None, ..old(self)@ }),
    {
        let ghost before = self@;
        self.state_explorer = None;
        assert(self@ =~= (AppView { explorer: None, ..before }));
    }

    /// Takes in the answer to a read of state: the contents, or none where the
    /// read failed. An answer that the explorer does not wait for is dropped.
    pub fn install_state(&mut self, load_id: u64, content: Option<StateContent>)
        ensures
            final(self)@ == old(self)@.state_installed(
                load_id,
                match content {
                    Some(c) => content_view(c),
                    None => ContentView::Error("state load task failed"@),
                },
            ),
    {
        let ghost before = self@;
        if let Some(e) = &mut self.state_explorer {
            if e.loading == Some(load_id) {
                e.loading = None;
                e.content = match content {
                    Some(c) => c,
                    None => StateContent::Error("state load task failed".to_owned()),
                };
                e.multi_select = Vec::new();
                e.module_select = Vec::new();
                hold_selection(e);
            }
        }
        assert(self@ =~= before.state_installed(
            load_id,
            match content {
                Some(c) => content_view(c),
                None => ContentView::Error("state load task failed"@),
            },
        ));
    }

    /// Moves the highlight within the rows.
    pub fn state_explorer_move(&mut self, delta: i32)
        ensures
            final(self)@ == old(self)@.explorer_moved(delta as int),
    {
        let ghost before = self@;
        if let Some(e) = &mut self.state_explorer {
            let count = e.row_count();
            if count > 0 {
                e.selected = move_within(e.selected, delta, count);
            }
        }
        assert(self@ =~= before.explorer_moved(delta as int));
    }

    /// Highlights the first row.
    pub fn state_explorer_go_first(&mut self)
        ensures
            final(self)@ == old(self)@.explorer_first(),
    {
        let ghost before = self@;
        if let Some(e) = &mut self.state_explorer {
            e.selected = 0;
        }
        assert(self@ =~= before.explorer_first());
    }

    /// Highlights the last row.
    pub fn state_explorer_go_last(&mut self)
        ensures
            final(self)@ == old(self)@.explorer_last(),
    {
        let ghost before = self@;
        if let Some(e) = &mut self.state_explorer {
            let count = e.row_count();
            if count > 0 {
                e.selected = count - 1;
            }
        }
        assert(self@ =~= before.explorer_last());
    }

    /// Starts a new filter.
    pub fn state_explorer_activate_filter(&mut self)
        ensures
            final(self)@ == old(self)@.filter_opened(),
    {
        let ghost before = self@;
        if let Some(e) = &mut self.state_explorer {
            e.filter = String::new();
            e.filter_active = true;
            e.selected = 0;
        }
        assert(self@ =~= before.filter_opened());
    }

    /// Stops typing into the filter, which stays applied.
    pub fn state_explorer_deactivate_filter(&mut self)
        ensures
            final(self)@ == old(self)@.filter_closed(),
    {
        let ghost before = self@;
        if let Some(e) = &mut self.state_explorer {
            e.filter_active = false;
        }
        assert(self@ =~= before.filter_closed());
    }

    /// Drops the filter.
    pub fn state_explorer_clear_filter(&mut self)
        ensures
            final(self)@ == old(self)@.filter_cleared(),
    {
        let ghost before = self@;
        if let Some(e) = &mut self.state_explorer {
            e.filter = String::new();
            e.filter_active = false;
            e.selected = 0;
        }
        assert(self@ =~= before.filter_cleared());
    }

    /// Appends a character to the filter.
    pub fn state_explorer_filter_push(&mut self, c: char)
        ensures
            final(self)@ == old(self)@.filter_pushed(c),
    {
        let ghost before = self@;
        if let Some(e) = &mut self.state_explorer {
            e.filter.push(c);
            hold_selection(e);
        }
        assert(self@ =~= before.filter_pushed(c));
    }

    /// Takes the last character off the filter.
    pub fn state_explorer_filter_pop(&mut self)
        ensures
            final(self)@ == old(self)@.filter_popped(),
    {
        let ghost before = self@;
        if let Some(e) = &mut self.state_explorer {
            e.filter.pop();
            hold_selection(e);
        }
        assert(self@ =~= before.filter_popped());
    }

    /// Opens the detail view of the highlighted resource. A header has none.
    pub fn open_resource_detail(&mut self)
        ensures
            final(self)@ == old(self)@.detail_opened(),
    {
        let ghost before = self@;
        let mut detail: Option<ResourceDetail> = None;
        if let Some(e) = &self.state_explorer {
            if let Some(ExplorerRow::Resource { res_idx, .. }) = e.selected_row() {
                if let Some(rs) = e.resources() {
                    if res_idx < rs.len() {
                        assert(resource_views(rs@)[res_idx as int].address
                            == rs@[res_idx as int].address@);
                        assert(resource_views(rs@)[res_idx as int].body
                            == rs@[res_idx as int].instance.body@);
                        let pretty = pretty_json(rs[res_idx].instance.body.as_str());
                        detail = Some(resource_detail(rs[res_idx].address.clone(), pretty));
                    }
                }
            }
        }
        if let Some(d) = detail {
            if let Some(e) = &mut self.state_explorer {
                e.detail_view = Some(d);
            }
        }
        assert(self@ =~= before.detail_opened());
    }

    /// Closes the detail view.
    pub fn close_resource_detail(&mut self)
        ensures
            final(self)@ == old(self)@.detail_closed(),
    {
        let ghost before = self@;
        if let Some(e) = &mut self.state_explorer {
            e.detail_view = None;
        }
        assert(self@ =~= before.detail_closed());
    }

    /// Scrolls the detail view, down where `delta` is positive.
    pub fn resource_detail_scroll(&mut self, delta: i32)
        ensures
            final(self)@ == old(self)@.detail_scrolled(delta as int),
    {
        let ghost before = self@;
        if let Some(e) = &mut self.state_explorer {
            if let Some(d) = &mut e.detail_view {
                let max: usize = d.lines.len().saturating_sub(1);
                if delta < 0 {
                    let up: i64 = -(delta as i64);
                    d.scroll = d.scroll.saturating_sub(up as usize);
                } else {
                    let down: usize = d.scroll.saturating_add(delta as usize);
                    d.scroll = if down < max { down } else { max };
                }
            }
        }
        assert(self@ =~= before.detail_scrolled(delta as int));
    }

    /// Scrolls the detail view to its top.
    pub fn resource_detail_go_first(&mut self)
        ensures
            final(self)@ == old(self)@.detail_at(0),
    {
        let ghost before = self@;
        if let Some(e) = &mut self.state_explorer {
            if let Some(d) = &mut e.detail_view {
                d.scroll = 0;
            }
        }
        assert(self@ =~= before.detail_at(0));
    }

    /// Scrolls the detail view to its last line.
    pub fn resource_detail_go_last(&mut self)
        ensures
            final(self)@ == old(self)@.detail_at(old(self)@.detail_end()),
    {
        let ghost before = self@;
        if let Some(e) = &mut self.state_explorer {
            if let Some(d) = &mut e.detail_view {
                d.scroll = d.lines.len().saturating_sub(1);
            }
        }
        assert(self@ =~= before.detail_at(before.detail_end()));
    }

    /// Selects the highlighted row, or takes it out of the selection. A module
    /// that gets selected replaces the resources below it.
    pub fn state_explorer_toggle_select(&mut self)
        ensures
            final(self)@ == old(self)@.explorer_toggled(),
    {
        let ghost before = self@;
        if let Some(e) = &mut self.state_explorer {
            toggle_row(e);
        }
        assert(self@ =~= before.explorer_toggled());
    }

    /// Selects nothing.
    pub fn state_explorer_clear_select(&mut self)
        ensures
            final(self)@ == old(self)@.explorer_deselected(),
    {
        let ghost before = self@;
        if let Some(e) = &mut self.state_explorer {
            e.multi_select = Vec::new();
            e.module_select = Vec::new();
            assert(texts(e.module_select@) =~= Seq::<Seq<char>>::empty());
        }
        assert(self@ =~= before.explorer_deselected());
    }

    /// Plans the targets of the explorer, without asking.
    pub fn enqueue_targeted_plan(&mut self)
        requires
            old(self)@.explorer_can_push(1),
        ensures
            final(self)@ == old(self)@.targeted_plan_pushed(),
    {
        let ghost before = self@;
        let (idx, targets) = match &self.state_explorer {
            Some(e) => (e.module_idx, e.target_addresses()),
            None => {
                return ;
            },
        };
        if targets.len() == 0 {
            assert(texts(targets@).len() == 0);
            return ;
        }
        assert(texts(targets@).len() > 0);
        let id = self.push_plan_for(idx, &targets);
        self.record_explorer_task(idx, id);
        if let Some(e) = &mut self.state_explorer {
            e.plan_queued_notice = true;
        }
        assert(self@ =~= before.targeted_plan_pushed());
    }

    /// Asks to confirm an operation on the targets of the explorer, if there
    /// are any.
    pub fn request_op_confirm(&mut self, kind: ExplorerOpKind)
        ensures
            final(self)@ == old(self)@.op_requested(kind),
    {
        let ghost before = self@;
        if let Some(e) = &mut self.state_explorer {
            let targets = e.op_targets_for(kind);
            assert(texts(targets@).len() == targets@.len());
            if targets.len() > 0 {
                e.op_targets = targets;
                e.op_confirm = Some(kind);
            }
        }
        assert(self@ =~= before.op_requested(kind));
    }

    /// Drops the operation that was asked about.
    pub fn cancel_op_confirm(&mut self)
        ensures
            final(self)@ == old(self)@.op_dismissed(),
    {
        let ghost before = self@;
        if let Some(e) = &mut self.state_explorer {
            e.op_confirm = None;
            e.op_targets = Vec::new();
            assert(texts(e.op_targets@) =~= Seq::<Seq<char>>::empty());
        }
        assert(self@ =~= before.op_dismissed());
    }

    fn push_address(&mut self, module_idx: usize, kind: ExplorerOpKind, addr: &str) -> (r: usize)
        requires
            module_idx < old(self)@.modules.len(),
            old(self)@.has_room(1),
        ensures
            final(self)@ == old(self)@.address_pushed(module_idx, kind, addr@),
            r == old(self)@.engine.next_id,
    {
        broadcast use texts_push;

        let mut args = kind.pre_args();
        args.push(addr.to_owned());
        let mut only: Vec<String> = Vec::new();
        only.push(addr.to_owned());
        assert(texts(only@) =~= seq![addr@]);
        let id = self.push_task_for(module_idx, kind.command(), args, None, only, None);
        self.record_explorer_task(module_idx, id);
        id
    }

    /// Starts the operation that was confirmed. Taints and removals run one
    /// address at a time; a targeted apply or destroy is one command for all,
    /// and leaves the cached plan of the module alone.
    pub fn start_op(&mut self)
        requires
            old(self)@.explorer_can_push(1),
        ensures
            final(self)@ == old(self)@.op_started(),
    {
        let ghost before = self@;
        let ghost want = before.op_started();
        let mut targets: Vec<String> = Vec::new();
        let (idx, kind) = match &mut self.state_explorer {
            Some(e) => match e.op_confirm {
                Some(kind) => {
                    e.op_confirm = None;
                    std::mem::swap(&mut e.op_targets, &mut targets);
                    assert(texts(e.op_targets@) =~= Seq::<Seq<char>>::empty());
                    (e.module_idx, kind)
                },
                None => {
                    return ;
                },
            },
            None => {
                return ;
            },
        };
        let ghost ts = texts(targets@);
        let ghost e0 = before.explorer->0;
        let ghost bare = ExplorerView { op_confirm: None, op_targets: Seq::empty(), ..e0 };
        assert(self@ =~= before.with_explorer(bare));
        if targets.len() == 0 {
            assert(self@ =~= want);
            return ;
        }
        if kind == ExplorerOpKind::Taint || kind == ExplorerOpKind::StateRm {
            assert(ts[0] == targets@[0]@);
            let first = targets.remove(0);
            assert(texts(targets@) =~= ts.skip(1));
            let id = self.push_address(idx, kind, first.as_str());
            if let Some(e) = &mut self.state_explorer {
                let op = PendingOp {
                    kind,
                    queue: targets,
                    running: Some((id, first)),
                    done: Vec::new(),
                };
                assert(op@.done =~= Seq::<(Seq<char>, bool)>::empty());
                e.pending_op = Some(op);
                e.multi_select = Vec::new();
                e.module_select = Vec::new();
                assert(texts(e.module_select@) =~= Seq::<Seq<char>>::empty());
            }
            assert(self@ =~= want);
        } else {
            let mut args: Vec<String> = Vec::new();
            args.push("-auto-approve".to_owned());
            assert(texts(args@) =~= seq!["-auto-approve"@]);
            push_target_flags(&mut args, &targets);
            let label = if targets.len() == 1 {
                assert(ts[0] == targets@[0]@);
                targets[0].clone()
            } else {
                concat(decimal_of(targets.len() as u64).as_str(), " targeted resources")
            };
            let id = self.push_task_for(idx, kind.command(), args, None, targets, None);
            self.record_explorer_task(idx, id);
            if let Some(e) = &mut self.state_explorer {
                let op = PendingOp {
                    kind,
                    queue: Vec::new(),
                    running: Some((id, label)),
                    done: Vec::new(),
                };
                assert(op@.done =~= Seq::<(Seq<char>, bool)>::empty());
                assert(op@.queue =~= Seq::<Seq<char>>::empty());
                e.pending_op = Some(op);
                e.multi_select = Vec::new();
                e.module_select = Vec::new();
                assert(texts(e.module_select@) =~= Seq::<Seq<char>>::empty());
            }
            assert(self@ =~= want);
        }
    }

    /// Goes on with the operation that waits for a task which has ended: starts
    /// its next address, or shows its result and reads the state again.
    pub fn check_op_completion(&mut self, task_id: usize, success: bool)
        requires
            old(self)@.explorer_can_push(1),
        ensures
            final(self)@ == old(self)@.op_checked(task_id, success),
    {
        let ghost before = self@;
        let ghost want = before.op_checked(task_id, success);
        let waits = match &self.state_explorer {
            Some(e) => match &e.pending_op {
                Some(op) => match &op.running {
                    Some((id, _)) => *id == task_id,
                    None => false,
                },
                None => false,
            },
            None => false,
        };
        if !waits {
            return ;
        }
        let ghost e0 = before.explorer->0;
        let ghost op0 = e0.pending_op->0;
        let mut next: Option<(usize, ExplorerOpKind, String)> = None;
        if let Some(e) = &mut self.state_explorer {
            if let Some(op) = e.pending_op.take() {
                let mut op = op;
                if let Some((_, addr)) = op.running.take() {
                    let ghost had = entry_views(op.done@);
                    let ghost av = addr@;
                    op.done.push((addr, success));
                    assert(entry_views(op.done@) =~= had.push((av, success)));
                }
                if op.queue.len() == 0 {
                    e.op_result = Some(OpResult { kind: op.kind, entries: op.done });
                } else {
                    let ghost q = texts(op.queue@);
                    assert(q[0] == op.queue@[0]@);
                    let addr = op.queue.remove(0);
                    assert(texts(op.queue@) =~= q.skip(1));
                    next = Some((e.module_idx, op.kind, addr));
                    e.pending_op = Some(op);
                }
            }
        }
        match next {
            None => {
                self.spawn_state_load();
            },
            Some((idx, kind, addr)) => {
                let ghost mid = self@;
                assert(mid.engine == before.engine && mid.modules == before.modules);
                let id = self.push_address(idx, kind, addr.as_str());
                if let Some(e) = &mut self.state_explorer {
                    if let Some(op) = &mut e.pending_op {
                        op.running = Some((id, addr));
                    }
                }
                assert(self@ =~= want);
            },
        }
    }

    /// Takes in task events: the engine first, then operations that wait for an
    /// ended task.
    pub fn drain_events(&mut self, events: Vec<TaskEvent>)
        requires
            old(self)@.explorer_can_push(events@.len() as int),
        ensures
            final(self)@ == old(self)@.drained(events@),
    {
        let ghost before = self@;
        let ghost evs = events@;
        self.spinner_tick = if self.spinner_tick == u8::MAX { 0 } else { self.spinner_tick + 1 };
        proof {
            updates_are_fewer(before.engine, evs);
        }
        let updates = self.engine.drain_events(events);
        let ghost mid = self@;
        assert(mid =~= (AppView {
            spinner_tick: mid.spinner_tick,
            engine: after_events(before.engine, evs).0,
            ..before
        }));
        let mut n: usize = 0;
        while n < updates.len()
            invariant
                n <= updates@.len(),
                self@ == mid.ops_checked(updates@, n as int),
                self@.explorer_can_push(updates@.len() - n),
            decreases updates@.len() - n,
        {
            let ghost here = self@;
            if let EngineUpdate::Finished { task_id, success } = updates[n] {
                self.check_op_completion(task_id, success);
                proof {
                    checking_keeps_module(here, task_id, success);
                }
            }
            n += 1;
        }
    }

    /// Closes the result of an operation.
    pub fn dismiss_op_result(&mut self)
        ensures
            final(self)@ == old(self)@.result_dismissed(),
    {
        let ghost before = self@;
        if let Some(e) = &mut self.state_explorer {
            e.op_result = None;
        }
        assert(self@ =~= before.result_dismissed());
    }
}

/// Events give no more updates than there are events, and hand out no ids.
pub proof fn updates_are_fewer(e: EngineView, events: Seq<TaskEvent>)
    ensures
        after_events(e, events).1.len() <= events.len(),
        after_events(e, events).0.next_id == e.next_id,
    decreases events.len(),
{
    if events.len() > 0 {
        updates_are_fewer(e, events.drop_last());
    }
}

proof fn checking_keeps_module(a: AppView, task_id: usize, success: bool)
    ensures
        a.op_checked(task_id, success).explorer is Some == a.explorer is Some,
        a.explorer is Some ==> (a.op_checked(task_id, success).explorer->0).module_idx == (
        a.explorer->0).module_idx,
        a.op_checked(task_id, success).modules == a.modules,
        a.has_room(1) ==> a.op_checked(task_id, success).engine.next_id <= a.engine.next_id + 1,
{
}

fn hold_selection(e: &mut StateExplorer)
    ensures
        final(e)@ == held(old(e)@),
{
    let ghost before = e@;
    let count = e.row_count();
    if count == 0 {
        e.selected = 0;
    } else if e.selected >= count {
        e.selected = count - 1;
    }
    assert(e@ =~= held(before));
}

fn find_text(v: &Vec<String>, p: &str) -> (r: usize)
    ensures
        r == text_pos(texts(v@), p@),
        r <= v@.len(),
{
    let ghost all = texts(v@);
    let mut k: usize = 0;
    while k < v.len() && !same(v[k].as_str(), p)
        invariant
            k <= v@.len(),
            all == texts(v@),
            forall|j: int| 0 <= j < k ==> (#[trigger] all[j]) != p@,
        decreases v@.len() - k,
    {
        assert(all[k as int] == v@[k as int]@);
        k += 1;
    }
    proof {
        if k < v@.len() {
            assert(all[k as int] == v@[k as int]@);
        }
        text_found_at(all, p@, k as int);
    }
    k
}

proof fn text_found_at(v: Seq<Seq<char>>, p: Seq<char>, k: int)
    requires
        0 <= k <= v.len(),
        k < v.len() ==> v[k] == p,
        forall|j: int| 0 <= j < k ==> (#[trigger] v[j]) != p,
    ensures
        text_pos(v, p) == k,
    decreases v.len(),
{
    if v.len() > 0 {
        let front = v.drop_last();
        if k < v.len() {
            assert(k < front.len() ==> front[k] == p);
            assert forall|j: int| 0 <= j < k implies (#[trigger] front[j]) != p by {
                assert(v[j] != p);
            }
            text_found_at(front, p, k);
        } else {
            assert forall|j: int| 0 <= j < k - 1 implies (#[trigger] front[j]) != p by {
                assert(v[j] != p);
            }
            text_found_at(front, p, k - 1);
            assert(v[k - 1] != p);
        }
    }
}

fn drop_covered(rs: &Vec<StateResource>, selected: &Vec<usize>, prefix: &str) -> (r: Vec<usize>)
    ensures
        r@ == not_covered(addresses(rs@), selected@, prefix@),
{
    let ghost addrs = addresses(rs@);
    let mut out: Vec<usize> = Vec::new();
    let mut n: usize = 0;
    while n < selected.len()
        invariant
            n <= selected@.len(),
            addrs == addresses(rs@),
            out@ == not_covered(addrs, selected@.take(n as int), prefix@),
        decreases selected@.len() - n,
    {
        let i = selected[n];
        assert(selected@.take(n + 1).drop_last() =~= selected@.take(n as int));
        let gone = if i < rs.len() {
            assert(addrs[i as int] == rs@[i as int].address@);
            is_covered_by(rs[i].address.as_str(), prefix)
        } else {
            false
        };
        if !gone {
            out.push(i);
        }
        n += 1;
    }
    assert(selected@.take(n as int) =~= selected@);
    out
}

fn toggle_row(e: &mut StateExplorer)
    ensures
        final(e)@ == row_toggled(old(e)@),
{
    let ghost before = e@;
    match e.selected_row() {
        Some(ExplorerRow::Resource { res_idx, .. }) => {
            toggle(&mut e.multi_select, res_idx);
            assert(e@ =~= row_toggled(before));
        },
        Some(ExplorerRow::ModuleHeader { prefix, .. }) => {
            let k = find_text(&e.module_select, prefix.as_str());
            let ghost all = texts(e.module_select@);
            if k < e.module_select.len() {
                e.module_select.remove(k);
                assert(texts(e.module_select@) =~= all.remove(k as int));
            } else {
                let kept = match e.resources() {
                    Some(rs) => drop_covered(rs, &e.multi_select, prefix.as_str()),
                    None => {
                        proof {
                            nothing_covered(before.multi_select, prefix@);
                        }
                        crate::app::model::copy_indices(&e.multi_select)
                    },
                };
                e.multi_select = kept;
                let ghost pv = prefix@;
                e.module_select.push(prefix);
                assert(texts(e.module_select@) =~= all.push(pv));
            }
            assert(e@ =~= row_toggled(before));
        },
        None => {},
    }
}

proof fn nothing_covered(selected: Seq<usize>, prefix: Seq<char>)
    ensures
        not_covered(Seq::empty(), selected, prefix) == selected,
    decreases selected.len(),
{
    if selected.len() > 0 {
        nothing_covered(selected.drop_last(), prefix);
        assert(selected.drop_last().push(selected.last()) =~= selected);
    }
}

} // verus!
