//! The data of the application: screens, sessions, confirmations and explorer
//! operations.

use crate::app::selection::{OutputSelection, PendingSel};
use crate::pathmap::PathMap;
use crate::paths::components;
use crate::text::texts;
use vstd::prelude::*;

verus! {

/// The two screens: the module picker and the run board.
#[derive(Debug, Clone, Copy, PartialEq, Eq, Structural)]
pub enum Screen {
    Select,
    Run,
}

/// A module that was brought into a run session.
#[derive(Debug)]
pub struct SessionModule {
    /// Its place in the module list, found again after a refresh.
    pub module_idx: usize,
    pub path: String,
    pub name: String,
}

/// A session module as text.
pub struct SessionModuleView {
    pub module_idx: usize,
    pub path: Seq<char>,
    pub name: Seq<char>,
}

impl View for SessionModule {
    type V = SessionModuleView;

    open spec fn view(&self) -> SessionModuleView {
        SessionModuleView { module_idx: self.module_idx, path: self.path@, name: self.name@ }
    }
}

impl SessionModuleView {
    /// The directory of the module, component by component.
    pub open spec fn place(self) -> Seq<Seq<char>> {
        components(self.path)
    }
}

/// The session modules of a sequence.
pub open spec fn session_module_views(v: Seq<SessionModule>) -> Seq<SessionModuleView> {
    v.map_values(|m: SessionModule| m@)
}

/// The modules that actions are run against on the run screen, and that
/// screen's board and output state.
pub struct RunSession {
    /// In the order of the module list; modules that the explorer brought in
    /// come last.
    pub modules: Vec<SessionModule>,
    /// Cursor into `modules`.
    pub cursor: usize,
    /// Selected rows of the board.
    pub selected: Vec<usize>,
    /// Where a range selection on the board starts.
    pub select_anchor: Option<usize>,
    /// The latest task that this session started, by module path.
    pub latest_task: PathMap<usize>,
    /// The output pane fills the window.
    pub fullscreen: bool,
    /// Display rows scrolled up from the tail; 0 follows the tail.
    pub output_scroll: usize,
    /// Long output lines are wrapped.
    pub output_wrap: bool,
    pub selection: Option<OutputSelection>,
    /// A press that a drag would turn into a selection.
    pub pending_sel: Option<PendingSel>,
    /// When the session began, in milliseconds.
    pub created_at: u64,
}

/// A run session as text.
#[verifier::ext_equal]
pub struct SessionView {
    pub modules: Seq<SessionModuleView>,
    pub cursor: usize,
    pub selected: Seq<usize>,
    pub select_anchor: Option<usize>,
    /// By the components of the module path.
    pub latest_task: Map<Seq<Seq<char>>, usize>,
    pub fullscreen: bool,
    pub output_scroll: usize,
    pub output_wrap: bool,
    pub selection: Option<OutputSelection>,
    pub pending_sel: Option<PendingSel>,
    pub created_at: u64,
}

impl View for RunSession {
    type V = SessionView;

    open spec fn view(&self) -> SessionView {
        SessionView {
            modules: session_module_views(self.modules@),
            cursor: self.cursor,
            selected: self.selected@,
            select_anchor: self.select_anchor,
            latest_task: self.latest_task@,
            fullscreen: self.fullscreen,
            output_scroll: self.output_scroll,
            output_wrap: self.output_wrap,
            selection: self.selection,
            pending_sel: self.pending_sel,
            created_at: self.created_at,
        }
    }
}

/// A session that was just begun.
pub open spec fn new_session(modules: Seq<SessionModuleView>, created_at: u64) -> SessionView {
    SessionView {
        modules,
        cursor: 0,
        selected: Seq::empty(),
        select_anchor: None,
        latest_task: Map::empty(),
        fullscreen: false,
        output_scroll: 0,
        output_wrap: false,
        selection: None,
        pending_sel: None,
        created_at,
    }
}

impl RunSession {
    /// A session over `modules`: cursor on the first, nothing selected, no task
    /// started, output following the tail.
    pub fn new(modules: Vec<SessionModule>, created_at: u64) -> (r: Self)
        ensures
            r@ == new_session(session_module_views(modules@), created_at),
            r.modules == modules,
    {
        let r = RunSession {
            modules,
            cursor: 0,
            selected: Vec::new(),
            select_anchor: None,
            latest_task: PathMap::new(),
            fullscreen: false,
            output_scroll: 0,
            output_wrap: false,
            selection: None,
            pending_sel: None,
            created_at,
        };
        assert(r@ =~= new_session(session_module_views(modules@), created_at));
        r
    }
}

/// What a confirmation shows of one module.
#[derive(Debug)]
pub struct ConfirmTarget {
    pub module_idx: usize,
    pub module_name: String,
    /// How old the cached plan is; none without one.
    pub plan_age: Option<String>,
    /// What the cached plan is restricted to.
    pub plan_targets: Vec<String>,
    /// The lock to release.
    pub lock_id: Option<String>,
    /// Who holds it.
    pub lock_who: Option<String>,
}

/// What a confirmation shows of one module, as text.
#[verifier::ext_equal]
pub struct TargetView {
    pub module_idx: usize,
    pub module_name: Seq<char>,
    pub plan_age: Option<Seq<char>>,
    pub plan_targets: Seq<Seq<char>>,
    pub lock_id: Option<Seq<char>>,
    pub lock_who: Option<Seq<char>>,
}

impl View for ConfirmTarget {
    type V = TargetView;

    open spec fn view(&self) -> TargetView {
        TargetView {
            module_idx: self.module_idx,
            module_name: self.module_name@,
            plan_age: crate::state::opt_text(self.plan_age),
            plan_targets: texts(self.plan_targets@),
            lock_id: crate::state::opt_text(self.lock_id),
            lock_who: crate::state::opt_text(self.lock_who),
        }
    }
}

/// The targets of a sequence.
pub open spec fn target_views(v: Seq<ConfirmTarget>) -> Seq<TargetView> {
    v.map_values(|t: ConfirmTarget| t@)
}

/// Which operation waits for confirmation.
#[derive(Debug, Clone, Copy, PartialEq, Eq, Structural)]
pub enum ConfirmKind {
    Apply,
    Destroy,
    InitUpgrade,
    ForceUnlock,
}

impl ConfirmKind {
    /// How the operation is called.
    pub open spec fn name(self) -> Seq<char> {
        match self {
            ConfirmKind::Apply => "APPLY"@,
            ConfirmKind::Destroy => "DESTROY"@,
            ConfirmKind::InitUpgrade => "INIT -UPGRADE"@,
            ConfirmKind::ForceUnlock => "FORCE UNLOCK"@,
        }
    }

    /// How the operation is called.
    pub fn label(&self) -> (r: &'static str)
        ensures
            r@ == self.name(),
    {
        match self {
            ConfirmKind::Apply => "APPLY",
            ConfirmKind::Destroy => "DESTROY",
            ConfirmKind::InitUpgrade => "INIT -UPGRADE",
            ConfirmKind::ForceUnlock => "FORCE UNLOCK",
        }
    }
}

/// An operation that waits for confirmation.
#[derive(Debug)]
pub struct PendingConfirm {
    pub kind: ConfirmKind,
    pub targets: Vec<ConfirmTarget>,
}

/// The overlay that is open. There is at most one.
#[derive(Debug)]
pub enum Modal {
    Help,
    Confirm(PendingConfirm),
    /// Tasks to cancel; never empty.
    CancelTasks(Vec<usize>),
    ClearTasks,
    Reset,
    Quit,
}

/// An overlay as text.
#[verifier::ext_equal]
pub enum ModalView {
    Help,
    Confirm { kind: ConfirmKind, targets: Seq<TargetView> },
    CancelTasks(Seq<usize>),
    ClearTasks,
    Reset,
    Quit,
}

impl View for Modal {
    type V = ModalView;

    open spec fn view(&self) -> ModalView {
        match self {
            Modal::Help => ModalView::Help,
            Modal::Confirm(c) => ModalView::Confirm {
                kind: c.kind,
                targets: target_views(c.targets@),
            },
            Modal::CancelTasks(ids) => ModalView::CancelTasks(ids@),
            Modal::ClearTasks => ModalView::ClearTasks,
            Modal::Reset => ModalView::Reset,
            Modal::Quit => ModalView::Quit,
        }
    }
}

/// The view of the overlay, if one is open.
pub open spec fn modal_view(m: Option<Modal>) -> Option<ModalView> {
    match m {
        Some(m) => Some(m@),
        None => None,
    }
}

/// The drill-down into one resource instance.
#[derive(Debug)]
pub struct ResourceDetail {
    pub address: String,
    /// The lines of the instance's JSON body.
    pub lines: Vec<String>,
    /// Lines scrolled from the top.
    pub scroll: usize,
}

/// The drill-down as text.
#[verifier::ext_equal]
pub struct DetailView {
    pub address: Seq<char>,
    pub lines: Seq<Seq<char>>,
    pub scroll: usize,
}

impl View for ResourceDetail {
    type V = DetailView;

    open spec fn view(&self) -> DetailView {
        DetailView { address: self.address@, lines: texts(self.lines@), scroll: self.scroll }
    }
}

/// Which explorer operation is confirmed or run.
#[derive(Debug, Clone, Copy, PartialEq, Eq, Structural)]
pub enum ExplorerOpKind {
    Taint,
    StateRm,
    /// One destroy with all targets.
    TargetedDestroy,
    /// One apply with all targets.
    TargetedApply,
}

impl ExplorerOpKind {
    pub open spec fn command_text(self) -> Seq<char> {
        match self {
            ExplorerOpKind::Taint => "taint"@,
            ExplorerOpKind::StateRm => "state"@,
            ExplorerOpKind::TargetedDestroy => "destroy"@,
            ExplorerOpKind::TargetedApply => "apply"@,
        }
    }

    /// The terraform command of the operation.
    pub fn command(self) -> (r: &'static str)
        ensures
            r@ == self.command_text(),
    {
        match self {
            ExplorerOpKind::Taint => "taint",
            ExplorerOpKind::StateRm => "state",
            ExplorerOpKind::TargetedDestroy => "destroy",
            ExplorerOpKind::TargetedApply => "apply",
        }
    }

    pub open spec fn lead_args(self) -> Seq<Seq<char>> {
        if self == ExplorerOpKind::StateRm {
            seq!["rm"@]
        } else {
            Seq::empty()
        }
    }

    /// The arguments before the resource address.
    pub fn pre_args(self) -> (r: Vec<String>)
        ensures
            texts(r@) == self.lead_args(),
    {
        let mut v: Vec<String> = Vec::new();
        if self == ExplorerOpKind::StateRm {
            v.push("rm".to_owned());
        }
        assert(texts(v@) =~= self.lead_args());
        v
    }

    pub open spec fn confirm_title_text(self) -> Seq<char> {
        match self {
            ExplorerOpKind::Taint => " Confirm Taint "@,
            ExplorerOpKind::StateRm => " Confirm Remove from State "@,
            ExplorerOpKind::TargetedDestroy => " ⚠  Confirm Targeted Destroy "@,
            ExplorerOpKind::TargetedApply => " ⚠  Confirm Targeted Apply "@,
        }
    }

    pub fn confirm_title(self) -> (r: &'static str)
        ensures
            r@ == self.confirm_title_text(),
    {
        match self {
            ExplorerOpKind::Taint => " Confirm Taint ",
            ExplorerOpKind::StateRm => " Confirm Remove from State ",
            ExplorerOpKind::TargetedDestroy => " ⚠  Confirm Targeted Destroy ",
            ExplorerOpKind::TargetedApply => " ⚠  Confirm Targeted Apply ",
        }
    }

    pub open spec fn confirm_verb_text(self) -> Seq<char> {
        match self {
            ExplorerOpKind::Taint => "Taint"@,
            ExplorerOpKind::StateRm => "Remove from state"@,
            ExplorerOpKind::TargetedDestroy => "DESTROY (targeted)"@,
            ExplorerOpKind::TargetedApply => "APPLY (targeted)"@,
        }
    }

    pub fn confirm_verb(self) -> (r: &'static str)
        ensures
            r@ == self.confirm_verb_text(),
    {
        match self {
            ExplorerOpKind::Taint => "Taint",
            ExplorerOpKind::StateRm => "Remove from state",
            ExplorerOpKind::TargetedDestroy => "DESTROY (targeted)",
            ExplorerOpKind::TargetedApply => "APPLY (targeted)",
        }
    }

    pub open spec fn progress_title_text(self) -> Seq<char> {
        match self {
            ExplorerOpKind::Taint => " Taint Progress "@,
            ExplorerOpKind::StateRm => " State Remove Progress "@,
            ExplorerOpKind::TargetedDestroy => " Targeted Destroy "@,
            ExplorerOpKind::TargetedApply => " Targeted Apply "@,
        }
    }

    pub fn progress_title(self) -> (r: &'static str)
        ensures
            r@ == self.progress_title_text(),
    {
        match self {
            ExplorerOpKind::Taint => " Taint Progress ",
            ExplorerOpKind::StateRm => " State Remove Progress ",
            ExplorerOpKind::TargetedDestroy => " Targeted Destroy ",
            ExplorerOpKind::TargetedApply => " Targeted Apply ",
        }
    }

    pub open spec fn result_title_text(self, all_ok: bool) -> Seq<char> {
        match self {
            ExplorerOpKind::Taint => if all_ok {
                " Taint Complete "@
            } else {
                " Taint — Some Failed "@
            },
            ExplorerOpKind::StateRm => if all_ok {
                " State Remove Complete "@
            } else {
                " State Remove — Some Failed "@
            },
            ExplorerOpKind::TargetedDestroy => if all_ok {
                " Targeted Destroy Complete "@
            } else {
                " Targeted Destroy Failed "@
            },
            ExplorerOpKind::TargetedApply => if all_ok {
                " Targeted Apply Complete "@
            } else {
                " Targeted Apply Failed "@
            },
        }
    }

    pub fn result_title(self, all_ok: bool) -> (r: &'static str)
        ensures
            r@ == self.result_title_text(all_ok),
    {
        match (self, all_ok) {
            (ExplorerOpKind::Taint, true) => " Taint Complete ",
            (ExplorerOpKind::Taint, false) => " Taint — Some Failed ",
            (ExplorerOpKind::StateRm, true) => " State Remove Complete ",
            (ExplorerOpKind::StateRm, false) => " State Remove — Some Failed ",
            (ExplorerOpKind::TargetedDestroy, true) => " Targeted Destroy Complete ",
            (ExplorerOpKind::TargetedDestroy, false) => " Targeted Destroy Failed ",
            (ExplorerOpKind::TargetedApply, true) => " Targeted Apply Complete ",
            (ExplorerOpKind::TargetedApply, false) => " Targeted Apply Failed ",
        }
    }
}

/// An address and whether its operation succeeded.
pub open spec fn entry_views(v: Seq<(String, bool)>) -> Seq<(Seq<char>, bool)> {
    v.map_values(|e: (String, bool)| (e.0@, e.1))
}

/// An explorer operation in progress, one address at a time.
#[derive(Debug)]
pub struct PendingOp {
    pub kind: ExplorerOpKind,
    /// Addresses still to come, next first.
    pub queue: Vec<String>,
    /// The task that runs, and what it works on.
    pub running: Option<(usize, String)>,
    /// What is done: address and success.
    pub done: Vec<(String, bool)>,
}

/// An operation in progress, as text.
#[verifier::ext_equal]
pub struct PendingOpView {
    pub kind: ExplorerOpKind,
    pub queue: Seq<Seq<char>>,
    pub running: Option<(usize, Seq<char>)>,
    pub done: Seq<(Seq<char>, bool)>,
}

impl View for PendingOp {
    type V = PendingOpView;

    open spec fn view(&self) -> PendingOpView {
        PendingOpView {
            kind: self.kind,
            queue: texts(self.queue@),
            running: match self.running {
                Some((id, a)) => Some((id, a@)),
                None => None,
            },
            done: entry_views(self.done@),
        }
    }
}

/// The result of an explorer operation, shown until dismissed.
#[derive(Debug)]
pub struct OpResult {
    pub kind: ExplorerOpKind,
    pub entries: Vec<(String, bool)>,
}

/// The result of an operation, as text.
#[verifier::ext_equal]
pub struct OpResultView {
    pub kind: ExplorerOpKind,
    pub entries: Seq<(Seq<char>, bool)>,
}

impl View for OpResult {
    type V = OpResultView;

    open spec fn view(&self) -> OpResultView {
        OpResultView { kind: self.kind, entries: entry_views(self.entries@) }
    }
}

/// Where the scrollable regions were at the last draw, for page keys and mouse
/// hits.
#[derive(Debug, Clone, Copy, PartialEq, Eq, Structural)]
pub struct ViewportHeights {
    /// Height of the module list.
    pub list: u16,
    /// Height of the output pane.
    pub output: u16,
    /// Height of the state explorer's list.
    pub explorer: u16,
    /// Height of the run board.
    pub board: u16,
    /// Top row of the module list.
    pub list_top: u16,
    /// First module shown.
    pub list_offset: u16,
    /// Top row of the run board.
    pub board_top: u16,
    /// First board row shown.
    pub board_offset: u16,
    /// Top row of the output pane; `u16::MAX` when it is not shown.
    pub output_top: u16,
    /// Left column of the output pane.
    pub output_left: u16,
    /// Width of the output pane.
    pub output_width: u16,
}

impl Default for ViewportHeights {
    fn default() -> (r: Self)
        ensures
            r == no_viewport(),
    {
        ViewportHeights {
            list: 0,
            output: 0,
            explorer: 0,
            board: 0,
            list_top: 0,
            list_offset: 0,
            board_top: 0,
            board_offset: 0,
            output_top: 0,
            output_left: 0,
            output_width: 0,
        }
    }
}

/// The viewport before anything was drawn.
pub open spec fn no_viewport() -> ViewportHeights {
    ViewportHeights {
        list: 0,
        output: 0,
        explorer: 0,
        board: 0,
        list_top: 0,
        list_offset: 0,
        board_top: 0,
        board_offset: 0,
        output_top: 0,
        output_left: 0,
        output_width: 0,
    }
}

} // verus!
