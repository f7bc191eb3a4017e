//! The application's state, and what it asks of its host.

use crate::app::explorer::{ExplorerView, StateExplorer};
use crate::app::types::{
    modal_view, no_viewport, Modal, ModalView, RunSession, Screen, SessionView, ViewportHeights,
};
use crate::config::Config;
use crate::discovery::{module_views, ModuleView};
use crate::engine::{fresh_engine, EngineView, TaskEngine};
use crate::module::Module;
use crate::ui::output_layout::{LayoutKey, OutputLayout};
use vstd::prelude::*;

verus! {

/// Something that the application asks of its host.
#[derive(Debug)]
pub enum Request {
    /// Read the state of the module in this directory, and answer with this
    /// number.
    ReadState { load_id: u64, module_dir: String },
    /// Read the lock files of these modules.
    ReadLocks { targets: Vec<usize> },
    /// Look for modules again.
    Discover,
    /// Put this text on the clipboard.
    Copy { text: String },
}

/// A request as text.
pub enum RequestView {
    ReadState { load_id: u64, module_dir: Seq<char> },
    ReadLocks { targets: Seq<usize> },
    Discover,
    Copy { text: Seq<char> },
}

impl View for Request {
    type V = RequestView;

    open spec fn view(&self) -> RequestView {
        match self {
            Request::ReadState { load_id, module_dir } => RequestView::ReadState {
                load_id: *load_id,
                module_dir: module_dir@,
            },
            Request::ReadLocks { targets } => RequestView::ReadLocks { targets: targets@ },
            Request::Discover => RequestView::Discover,
            Request::Copy { text } => RequestView::Copy { text: text@ },
        }
    }
}

/// The requests of a sequence.
pub open spec fn request_views(v: Seq<Request>) -> Seq<RequestView> {
    v.map_values(|r: Request| r@)
}

/// The application: module selection, overlays, the session and the engine.
pub struct App {
    pub config: Config,
    /// The directory that modules were looked for in.
    pub root: String,
    pub screen: Screen,
    pub modules: Vec<Module>,
    /// Cursor into the visible modules.
    pub selected_module: usize,
    /// Selected modules, by index into `modules`.
    pub multi_select: Vec<usize>,
    /// Where a range selection starts, as a place in the visible list.
    pub multi_select_anchor: Option<usize>,
    /// Counts the draws, to animate spinners.
    pub spinner_tick: u8,
    pub filter: String,
    pub filter_active: bool,
    /// Modules deeper than this are not shown; none shows all.
    pub max_depth: Option<usize>,
    pub modal: Option<Modal>,
    pub viewport: ViewportHeights,
    pub engine: TaskEngine,
    pub state_explorer: Option<StateExplorer>,
    /// There is one whenever the run screen shows.
    pub session: Option<RunSession>,
    pub output_layout: OutputLayout,
    /// The number of state reads that were asked for.
    pub load_count: u64,
    /// What the host is asked to do, in order.
    pub requests: Vec<Request>,
}

/// The output layout, with its counts as a sequence.
#[verifier::ext_equal]
pub struct LayoutView {
    pub key: Option<LayoutKey>,
    pub lines_seen: usize,
    pub cum_rows: Seq<usize>,
}

impl View for OutputLayout {
    type V = LayoutView;

    open spec fn view(&self) -> LayoutView {
        LayoutView { key: self.key, lines_seen: self.lines_seen, cum_rows: self.cum_rows@ }
    }
}

impl LayoutView {
    /// The layout before anything was laid out, or one with a count for every
    /// line seen, which starts at zero and never falls.
    pub open spec fn wf(self) -> bool {
        if self.cum_rows.len() == 0 {
            self.lines_seen == 0 && self.key is None
        } else {
            &&& self.cum_rows.len() == self.lines_seen + 1
            &&& self.cum_rows[0] == 0
            &&& forall|i: int, j: int|
                0 <= i <= j < self.cum_rows.len() ==> self.cum_rows[i] <= self.cum_rows[j]
        }
    }

    /// The number of display rows laid out.
    pub open spec fn rows(self) -> usize {
        if self.cum_rows.len() == 0 {
            0
        } else {
            self.cum_rows.last()
        }
    }
}

/// The application as text.
#[verifier::ext_equal]
pub struct AppView {
    pub config: Config,
    pub root: String,
    pub screen: Screen,
    pub modules: Seq<ModuleView>,
    pub selected_module: usize,
    pub multi_select: Seq<usize>,
    pub multi_select_anchor: Option<usize>,
    pub spinner_tick: u8,
    pub filter: Seq<char>,
    pub filter_active: bool,
    pub max_depth: Option<usize>,
    pub modal: Option<ModalView>,
    pub viewport: ViewportHeights,
    pub engine: EngineView,
    pub explorer: Option<ExplorerView>,
    pub session: Option<SessionView>,
    pub layout: LayoutView,
    pub load_count: u64,
    pub requests: Seq<RequestView>,
}

/// The view of the explorer, if it is open.
pub open spec fn explorer_view(e: Option<StateExplorer>) -> Option<ExplorerView> {
    match e {
        Some(e) => Some(e@),
        None => None,
    }
}

/// The view of the session, if there is one.
pub open spec fn session_view(s: Option<RunSession>) -> Option<SessionView> {
    match s {
        Some(s) => Some(s@),
        None => None,
    }
}

impl View for App {
    type V = AppView;

    open spec fn view(&self) -> AppView {
        AppView {
            config: self.config,
            root: self.root,
            screen: self.screen,
            modules: module_views(self.modules@),
            selected_module: self.selected_module,
            multi_select: self.multi_select@,
            multi_select_anchor: self.multi_select_anchor,
            spinner_tick: self.spinner_tick,
            filter: self.filter@,
            filter_active: self.filter_active,
            max_depth: self.max_depth,
            modal: modal_view(self.modal),
            viewport: self.viewport,
            engine: self.engine@,
            explorer: explorer_view(self.state_explorer),
            session: session_view(self.session),
            layout: self.output_layout@,
            load_count: self.load_count,
            requests: request_views(self.requests@),
        }
    }
}

impl App {
    /// The application at the start: the select screen, nothing selected, no
    /// task, no session.
    pub fn new(config: Config, root: String, modules: Vec<Module>) -> (r: Self)
        ensures
            r.config == config,
            r.root == root,
            r.modules == modules,
            r@.screen == Screen::Select,
            r@.selected_module == 0,
            r@.multi_select.len() == 0,
            r@.multi_select_anchor is None,
            r@.spinner_tick == 0,
            r@.filter.len() == 0,
            !r@.filter_active,
            r@.max_depth is None,
            r@.modal is None,
            r@.viewport == no_viewport(),
            r@.engine == fresh_engine(config.binary@, config.parallelism),
            r@.explorer is None,
            r@.session is None,
            r@.layout.wf(),
            r@.layout.rows() == 0,
            r@.load_count == 0,
            r@.requests.len() == 0,
            r@.valid(),
            crate::engine_laws::sound(r@.engine),
    {
        let engine = TaskEngine::new(config.binary.clone(), config.parallelism);
        App {
            config,
            root,
            screen: Screen::Select,
            modules,
            selected_module: 0,
            multi_select: Vec::new(),
            multi_select_anchor: None,
            spinner_tick: 0,
            filter: String::new(),
            filter_active: false,
            max_depth: None,
            modal: None,
            viewport: ViewportHeights::default(),
            engine,
            state_explorer: None,
            session: None,
            output_layout: OutputLayout::default(),
            load_count: 0,
            requests: Vec::new(),
        }
    }

    /// Asks the host for something.
    pub fn request(&mut self, r: Request)
        ensures
            final(self)@ == (AppView { requests: old(self)@.requests.push(r@), ..old(self)@ }),
    {
        let ghost before = self@;
        let ghost rv = r@;
        self.requests.push(r);
        assert(self@.requests =~= before.requests.push(rv));
        assert(self@ =~= (AppView { requests: before.requests.push(rv), ..before }));
    }
}

/// A position moved by `delta` and held within `count` places.
pub open spec fn moved(pos: usize, delta: int, count: nat) -> int {
    if pos + delta < 0 {
        0
    } else if pos + delta > count - 1 {
        count - 1
    } else {
        pos + delta
    }
}

/// A position moved by `delta` and held within `count` places.
pub fn move_within(pos: usize, delta: i32, count: usize) -> (r: usize)
    requires
        count > 0,
    ensures
        r == moved(pos, delta as int, count as nat),
        r < count,
{
    let at: i128 = pos as i128 + delta as i128;
    if at < 0 {
        0
    } else if at > count as i128 - 1 {
        count - 1
    } else {
        at as usize
    }
}

/// The place of the first `x` in `v`, or its length.
pub open spec fn first_pos(v: Seq<usize>, x: usize) -> int
    decreases v.len(),
{
    if v.len() == 0 {
        0
    } else {
        let k = first_pos(v.drop_last(), x);
        if k < v.len() - 1 {
            k
        } else if v.last() == x {
            v.len() - 1
        } else {
            v.len() as int
        }
    }
}

/// What the first place is.
pub proof fn first_pos_finds(v: Seq<usize>, x: usize)
    ensures
        0 <= first_pos(v, x) <= v.len(),
        first_pos(v, x) < v.len() ==> v[first_pos(v, x)] == x,
        first_pos(v, x) < v.len() <==> v.contains(x),
        forall|j: int| 0 <= j < first_pos(v, x) ==> v[j] != x,
    decreases v.len(),
{
    if v.len() > 0 {
        let front = v.drop_last();
        first_pos_finds(front, x);
        assert forall|j: int| 0 <= j < first_pos(v, x) implies v[j] != x by {
            if j < front.len() {
                assert(front[j] == v[j]);
            }
        }
        if first_pos(v, x) < v.len() {
            assert(v[first_pos(v, x)] == x);
        } else if v.contains(x) {
            let i = choose|i: int| 0 <= i < v.len() && v[i] == x;
            assert(false);
        }
    }
}

/// `v` with `x` taken out, or added at the end where it was not in it.
pub open spec fn toggled(v: Seq<usize>, x: usize) -> Seq<usize> {
    let k = first_pos(v, x);
    if k < v.len() {
        v.remove(k)
    } else {
        v.push(x)
    }
}

/// Toggling flips whether something is selected, leaves the rest as it was, and
/// selects nothing twice.
pub proof fn toggling_flips(v: Seq<usize>, x: usize)
    requires
        v.no_duplicates(),
    ensures
        toggled(v, x).no_duplicates(),
        toggled(v, x).contains(x) != v.contains(x),
        forall|y: usize| y != x ==> (#[trigger] toggled(v, x).contains(y) <==> v.contains(y)),
{
    first_pos_finds(v, x);
    let k = first_pos(v, x);
    let t = toggled(v, x);
    if k < v.len() {
        assert forall|y: usize| #[trigger] t.contains(y) implies v.contains(y) && y != x by {
            let i = choose|i: int| 0 <= i < t.len() && t[i] == y;
            let j = if i < k {
                i
            } else {
                i + 1
            };
            assert(v[j] == y);
        }
        assert forall|y: usize| y != x && v.contains(y) implies #[trigger] t.contains(y) by {
            let i = choose|i: int| 0 <= i < v.len() && v[i] == y;
            assert(t[if i < k {
                i
            } else {
                i - 1
            }] == y);
        }
        assert forall|i: int, j: int| 0 <= i < t.len() && 0 <= j < t.len() && i != j implies t[i]
            != t[j] by {
            let i0 = if i < k {
                i
            } else {
                i + 1
            };
            let j0 = if j < k {
                j
            } else {
                j + 1
            };
            assert(v[i0] != v[j0]);
        }
    } else {
        assert(t[v.len() as int] == x);
        assert forall|y: usize| y != x implies (#[trigger] t.contains(y) <==> v.contains(y)) by {
            if t.contains(y) {
                let i = choose|i: int| 0 <= i < t.len() && t[i] == y;
                assert(v[i] == y);
            }
            if v.contains(y) {
                let i = choose|i: int| 0 <= i < v.len() && v[i] == y;
                assert(t[i] == y);
            }
        }
    }
}

/// Takes `x` out of `v`, or adds it where it is not in it.
pub fn toggle(v: &mut Vec<usize>, x: usize)
    ensures
        final(v)@ == toggled(old(v)@, x),
{
    let k = find_pos(v, x);
    proof {
        first_pos_finds(v@, x);
    }
    if k < v.len() {
        v.remove(k);
    } else {
        v.push(x);
    }
}

/// The place of the first `x` in `v`, or its length.
pub fn find_pos(v: &Vec<usize>, x: usize) -> (r: usize)
    ensures
        r == first_pos(v@, x),
        r <= v@.len(),
        r < v@.len() <==> v@.contains(x),
{
    let mut k: usize = 0;
    while k < v.len() && v[k] != x
        invariant
            k <= v@.len(),
            forall|j: int| 0 <= j < k ==> v@[j] != x,
        decreases v@.len() - k,
    {
        k += 1;
    }
    proof {
        first_pos_finds(v@, x);
        let f = first_pos(v@, x);
        assert(!(f < k));
        if k < f {
            assert(v@[k as int] != x);
        }
    }
    k
}

/// `v` with the first `n` of `items` added, each where it was not in it.
pub open spec fn with_items(v: Seq<usize>, items: Seq<usize>, n: int) -> Seq<usize>
    decreases n,
{
    if n <= 0 {
        v
    } else {
        let before = with_items(v, items, n - 1);
        if before.contains(items[n - 1]) {
            before
        } else {
            before.push(items[n - 1])
        }
    }
}

/// Adds each of `items` from `from` up to `to` to `v` where it is not in it.
pub fn add_items(v: &mut Vec<usize>, items: &Vec<usize>, from: usize, to: usize)
    requires
        from <= to <= items@.len(),
    ensures
        final(v)@ == with_items(
            old(v)@,
            items@.subrange(from as int, to as int),
            to - from,
        ),
{
    let ghost part = items@.subrange(from as int, to as int);
    let ghost start = v@;
    let mut i: usize = from;
    while i < to
        invariant
            from <= i <= to <= items@.len(),
            part == items@.subrange(from as int, to as int),
            v@ == with_items(start, part, i - from),
        decreases to - i,
    {
        let x = items[i];
        assert(part[i - from] == x);
        if find_pos(v, x) >= v.len() {
            v.push(x);
        }
        i += 1;
    }
}

/// `v` without what is in `out`.
pub open spec fn without_items(v: Seq<usize>, out: Seq<usize>) -> Seq<usize>
    decreases v.len(),
{
    if v.len() == 0 {
        v
    } else {
        let before = without_items(v.drop_last(), out);
        if out.contains(v.last()) {
            before
        } else {
            before.push(v.last())
        }
    }
}

/// `v` without what is in `out`.
pub fn drop_items(v: &Vec<usize>, out: &Vec<usize>) -> (r: Vec<usize>)
    ensures
        r@ == without_items(v@, out@),
{
    let mut r: Vec<usize> = Vec::new();
    let mut i: usize = 0;
    while i < v.len()
        invariant
            i <= v@.len(),
            r@ == without_items(v@.take(i as int), out@),
        decreases v@.len() - i,
    {
        assert(v@.take(i + 1).drop_last() =~= v@.take(i as int));
        if find_pos(out, v[i]) >= out.len() {
            r.push(v[i]);
        }
        i += 1;
    }
    assert(v@.take(i as int) =~= v@);
    r
}

/// A copy of a list of indices.
pub fn copy_indices(v: &Vec<usize>) -> (r: Vec<usize>)
    ensures
        r@ == v@,
{
    let mut r: Vec<usize> = Vec::new();
    let mut i: usize = 0;
    while i < v.len()
        invariant
            i <= v@.len(),
            r@ == v@.take(i as int),
        decreases v@.len() - i,
    {
        r.push(v[i]);
        i += 1;
    }
    assert(v@.take(i as int) =~= v@);
    r
}

} // verus!
