//! The run screen: the board of the session's modules over the output of the
//! highlighted one.

use crate::app::model::{find_pos, first_pos_finds, App, AppView, Request, RequestView};
use crate::app::pane::{less, min_of};
use crate::app::selection::SelPos;
use crate::app::session::display_of;
use crate::app::tasks::id_run;
use crate::app::types::{
    session_module_views, ConfirmKind, Modal, ModalView, Screen, SessionModule, SessionModuleView,
    SessionView, ViewportHeights,
};
use crate::app::valid::scope_is_modules;
use crate::paths::{components, same_path};
use crate::plan_cache::seconds_between;
use crate::state::opt_text;
use crate::task::{run_time, Task, TaskStatus, TaskView};
use crate::text::{chars_of, concat, copy_range, decimal, decimal_of, string_of, texts};
use crate::ui::theme;
use crate::ui::frame::{
    asked, asked_push, first_shown, fits, list_offset, list_rows, list_rows_push, number, one,
    one_is_open, part_fits, push_text, say3, say4, say5, split_rows, stacked, two, widget_views,
    widget_views_push, ListRowView, Popup, PopupView, Row, Widget, WidgetView,
};
use crate::ui::keybar::hint_views;
use crate::ui::keys::{page, page_of, set_fullscreen, toggle_wrap, KeyCode, KeyEvent, ScreenAction};
use crate::ui::layout::{
    height_tier, in_cells, width_tier, Breakpoints, HeightTier, Rect, WidthTier,
};
use crate::ui::output_layout::{visible_lines, visible_rows};
use crate::ui::select::{as_row, keybar_widgets, list_row, push_keybar, text_at};
use crate::ui::style::{
    line, line_of, line_views, raw, span_views, span_views_push, styled, Alignment, Color, Line,
    LineView, Span, SpanView, Style,
};
use crate::ui::theme::{
    frame_at, frame_text, in_bold, in_color, style_of_status, ACCENT, ERR, MARK, MUTED, OK,
};
use crate::ui::widgets::{count_spans, plan_badge, push_plan_badge, push_spans, spans_of_counts};
use crate::util::{strip_ansi, stripped};
use vstd::prelude::*;

verus! {

impl AppView {
    /// The number of rows of the board, as far as the cursor can be moved by.
    pub open spec fn board_len(self) -> int {
        match self.session {
            Some(s) => if s.modules.len() < i32::MAX {
                s.modules.len() as int
            } else {
                i32::MAX as int
            },
            None => 0,
        }
    }

    /// The highlighted module, if it is one.
    pub open spec fn highlighted(self) -> Seq<usize> {
        match self.cursor_module() {
            Some(m) => seq![m.module_idx],
            None => Seq::empty(),
        }
    }

    pub open spec fn plans_run(self, targets: Seq<usize>) -> AppView {
        self.plans_pushed(targets, targets.len() as int).tasks_recorded(
            id_run(self.engine.next_id, targets.len() as int),
        )
    }

    pub open spec fn inits_run(self, targets: Seq<usize>) -> AppView {
        self.commands_pushed("init"@, Seq::empty(), targets, targets.len() as int).tasks_recorded(
            id_run(self.engine.next_id, targets.len() as int),
        )
    }

    pub open spec fn locks_asked(self, targets: Seq<usize>) -> AppView {
        AppView { requests: self.requests.push(RequestView::ReadLocks { targets }), ..self }
    }

    pub open spec fn highlight_explored(self) -> AppView {
        match self.cursor_module() {
            Some(m) => self.explorer_opened(m.module_idx),
            None => self,
        }
    }

    /// A key on the run screen. Small letters act on the selected rows, or on
    /// all; capitals on the highlighted row.
    pub open spec fn key_in_run(self, key: KeyEvent) -> (AppView, ScreenAction) {
        let page = page_of(self.viewport.output);
        match key.code {
            KeyCode::Esc => (AppView { screen: Screen::Select, ..self }, ScreenAction::Stay),
            KeyCode::Down => (self.board_cursor_moved(1), ScreenAction::Stay),
            KeyCode::Up => (self.board_cursor_moved(-1), ScreenAction::Stay),
            KeyCode::PageDown => (self.output_scrolled(-page), ScreenAction::Stay),
            KeyCode::PageUp => (self.output_scrolled(page), ScreenAction::Stay),
            KeyCode::Enter => (self.fullscreen_set(true), ScreenAction::Stay),
            KeyCode::Char(c) => if c == 'q' {
                (self, ScreenAction::Quit)
            } else {
                (self.char_in_run(c, key.control), ScreenAction::Stay)
            },
            _ => (self, ScreenAction::Stay),
        }
    }

    /// A character on the run screen that does not quit.
    pub open spec fn char_in_run(self, c: char, control: bool) -> AppView {
        if c == '?' {
            self.with_modal(ModalView::Help)
        } else if c == 'j' {
            self.board_cursor_moved(1)
        } else if c == 'k' {
            self.board_cursor_moved(-1)
        } else if c == 'g' {
            self.board_cursor_moved(-self.board_len())
        } else if c == 'G' {
            self.board_cursor_moved(self.board_len())
        } else if c == ' ' {
            if control {
                self.board_ranged()
            } else {
                self.board_toggled()
            }
        } else if c == '*' {
            self.board_all_toggled()
        } else if c == 'c' {
            self.board_cleared()
        } else if c == 'w' {
            self.wrap_toggled()
        } else if c == 's' {
            self.highlight_explored()
        } else if c == 'i' {
            self.inits_run(self.run_scope())
        } else if c == 'I' {
            self.inits_run(self.highlighted())
        } else if c == 'p' {
            self.plans_run(self.run_scope())
        } else if c == 'P' {
            self.plans_run(self.highlighted())
        } else if c == 'a' {
            self.confirm_staged(ConfirmKind::Apply, self.run_scope(), Seq::empty())
        } else if c == 'A' {
            self.confirm_staged(ConfirmKind::Apply, self.highlighted(), Seq::empty())
        } else if c == 'd' {
            self.confirm_staged(ConfirmKind::Destroy, self.run_scope(), Seq::empty())
        } else if c == 'D' {
            self.confirm_staged(ConfirmKind::Destroy, self.highlighted(), Seq::empty())
        } else if c == 'u' {
            self.confirm_staged(ConfirmKind::InitUpgrade, self.run_scope(), Seq::empty())
        } else if c == 'U' {
            self.locks_asked(self.run_scope())
        } else if c == 'C' {
            self.cancel_requested(self.run_scope())
        } else if c == 'x' {
            self.clear_requested()
        } else {
            self
        }
    }
}

fn session_len(app: &App) -> (r: i32)
    ensures
        r == app@.board_len(),
{
    match &app.session {
        Some(s) => {
            let n: usize = s.modules.len();
            if n < i32::MAX as usize {
                n as i32
            } else {
                i32::MAX
            }
        },
        None => 0,
    }
}

fn highlight(app: &App) -> (r: Vec<usize>)
    ensures
        r@ == app@.highlighted(),
{
    let mut out: Vec<usize> = Vec::new();
    if let Some(i) = app.run_highlight_index() {
        out.push(i);
    }
    assert(out@ =~= app@.highlighted());
    out
}

fn run_init(app: &mut App, targets: &Vec<usize>)
    requires
        old(app)@.are_modules(targets@),
        old(app)@.has_room(targets@.len() as int),
    ensures
        final(app)@ == old(app)@.inits_run(targets@),
{
    let none: Vec<String> = Vec::new();
    assert(texts(none@) =~= Seq::<Seq<char>>::empty());
    let ids = app.enqueue_command("init", &none, targets);
    app.record_session_tasks(&ids);
}

fn run_plan(app: &mut App, targets: &Vec<usize>)
    requires
        old(app)@.are_modules(targets@),
        old(app)@.has_room(targets@.len() as int),
    ensures
        final(app)@ == old(app)@.plans_run(targets@),
{
    let ids = app.enqueue_plan(targets);
    app.record_session_tasks(&ids);
}

fn explore_highlight(app: &mut App)
    ensures
        final(app)@ == old(app)@.highlight_explored(),
{
    if let Some(i) = app.run_highlight_index() {
        app.open_state_explorer(i);
    }
}

fn char_key(app: &mut App, c: char, control: bool)
    requires
        old(app)@.can_run(),
    ensures
        final(app)@ == old(app)@.char_in_run(c, control),
{
    let ghost before = app@;
    let scope = app.run_scope_indices();
    let one = highlight(app);
    let rows = session_len(app);
    proof {
        scope_is_modules(before);
    }
    match c {
        '?' => {
            app.modal = Some(Modal::Help);
            assert(app@ =~= before.with_modal(ModalView::Help));
        },
        'j' => {
            app.run_move_cursor(1);
        },
        'k' => {
            app.run_move_cursor(-1);
        },
        'g' => {
            app.run_move_cursor(-rows);
        },
        'G' => {
            app.run_move_cursor(rows);
        },
        ' ' => {
            if control {
                app.run_board_range();
            } else {
                app.run_board_toggle();
            }
        },
        '*' => app.run_board_toggle_all(),
        'c' => app.run_board_clear(),
        'w' => toggle_wrap(app),
        's' => explore_highlight(app),
        'i' => run_init(app, &scope),
        'I' => run_init(app, &one),
        'p' => run_plan(app, &scope),
        'P' => run_plan(app, &one),
        'a' => app.request_apply_confirm(&scope),
        'A' => app.request_apply_confirm(&one),
        'd' => app.request_destroy_confirm(&scope),
        'D' => app.request_destroy_confirm(&one),
        'u' => app.request_init_upgrade_confirm(&scope),
        'U' => app.request(Request::ReadLocks { targets: scope }),
        'C' => app.request_cancel_run_scope(&scope),
        'x' => app.request_clear_tasks_confirm(),
        _ => {},
    }
}

/// Handles a key on the run screen. Small action letters are for the selected
/// rows, or for all where none is selected; their capitals are for the
/// highlighted row alone.
pub fn handle_key(app: &mut App, key: KeyEvent) -> (r: ScreenAction)
    requires
        old(app)@.can_run(),
    ensures
        (final(app)@, r) == old(app)@.key_in_run(key),
{
    let ghost before = app@;
    let page = page(app.viewport.output);
    match key.code {
        KeyCode::Char('q') => {
            return ScreenAction::Quit;
        },
        KeyCode::Esc => {
            app.screen = Screen::Select;
            assert(app@ =~= (AppView { screen: Screen::Select, ..before }));
        },
        KeyCode::Down => {
            app.run_move_cursor(1);
        },
        KeyCode::Up => {
            app.run_move_cursor(-1);
        },
        KeyCode::PageDown => {
            app.run_scroll_output(-page);
        },
        KeyCode::PageUp => {
            app.run_scroll_output(page);
        },
        KeyCode::Enter => set_fullscreen(app, true),
        KeyCode::Char(c) => char_key(app, c, key.control),
        _ => {},
    }
    ScreenAction::Stay
}

/// The rows that the board takes, its header included: those it needs, up to a
/// share of the window.
pub open spec fn board_rows(modules: nat, height: u16) -> int {
    let tier = height_tier(height);
    let head = if has_col_header(tier) {
        1int
    } else {
        0
    };
    let avail = less(height as int, 3);
    let budget = match tier {
        HeightTier::H1 => most(in_cells(avail * 2) / 5, 5),
        HeightTier::H2 => most(avail / 3, 4),
        HeightTier::H3 => 5,
        HeightTier::H4 => avail,
    };
    let wanted = held_rows(min_of(in_cells(modules % 65536 + head), budget), head, avail);
    if tier == HeightTier::H2 {
        held_rows(min_of(wanted, less(avail, 6)), head, avail)
    } else {
        wanted
    }
}

/// Rows held between one below the header and what is available.
pub open spec fn held_rows(rows: int, head: int, avail: int) -> int {
    min_of(most(rows, head + 1), most(avail, 1))
}

/// The larger of two numbers.
pub open spec fn most(a: int, b: int) -> int {
    if a < b {
        b
    } else {
        a
    }
}

/// Whether the board has a line that heads its columns.
pub open spec fn has_col_header(tier: HeightTier) -> bool {
    tier == HeightTier::H1 || tier == HeightTier::H2
}

/// The heights of the parts of the screen: header, board, rule, output, hints.
pub open spec fn run_heights(modules: nat, area: Rect) -> Seq<Option<u16>> {
    seq![
        Some(1u16),
        Some(board_rows(modules, area.height) as u16),
        Some(1u16),
        None,
        Some(1u16),
    ]
}

/// The heights of the parts of a low window: header, board, last line of output,
/// hints.
pub open spec fn low_heights() -> Seq<Option<u16>> {
    seq![Some(1u16), None, Some(1u16), Some(1u16)]
}

/// How many of the first `n` session modules show a task for which `f` holds.
pub open spec fn shown_count(
    a: AppView,
    modules: Seq<SessionModuleView>,
    n: int,
    f: spec_fn(TaskStatus) -> bool,
) -> nat
    decreases n,
{
    if n <= 0 {
        0
    } else {
        shown_count(a, modules, n - 1, f) + match display_of(
            a.engine,
            a.session,
            modules[n - 1].path,
        ) {
            Some((k, _)) => if f(a.engine.tasks[k].status) {
                1nat
            } else {
                0
            },
            None => 0,
        }
    }
}

/// A number in at least two digits.
pub open spec fn two_digits(n: nat) -> Seq<char> {
    if n < 10 {
        "0"@ + decimal(n)
    } else {
        decimal(n)
    }
}

/// The first line: how many modules there are, how their tasks do, and for how
/// long the session has been going on.
pub open spec fn run_header(a: AppView, s: SessionView) -> LineView {
    let n = s.modules.len() as int;
    let secs = seconds_between(s.created_at, a.engine.clock);
    let running = shown_count(a, s.modules, n, |t: TaskStatus| !t.over());
    let ok = shown_count(a, s.modules, n, |t: TaskStatus| t == TaskStatus::Success);
    let failed = shown_count(a, s.modules, n, |t: TaskStatus| t == TaskStatus::Failed);
    line_of(
        seq![
            styled("Run"@, in_bold(ACCENT)),
            styled(
                " · "@ + decimal(n as nat) + " modules · "@ + decimal(running) + " running · "@,
                in_color(MUTED),
            ),
            styled("✓"@ + decimal(ok), in_color(OK)),
            raw(" "@),
            styled("✗"@ + decimal(failed), in_color(ERR)),
            styled(" · "@ + two_digits(secs / 60) + ":"@ + two_digits(secs % 60), in_color(MUTED)),
        ],
    )
}

/// The widgets of the first line.
pub open spec fn run_header_widgets(a: AppView, area: Rect) -> Seq<WidgetView> {
    match a.session {
        Some(s) => seq![
            text_at(area, run_header(a, s)),
            WidgetView::Text {
                area,
                lines: seq![line_of(seq![styled("esc back"@, in_color(MUTED))])],
                alignment: Alignment::Right,
            },
        ],
        None => Seq::empty(),
    }
}

/// The line that heads the columns of the board.
pub open spec fn col_header_text(w: WidthTier) -> Seq<char> {
    match w {
        WidthTier::W1 => "  MODULE                COMMAND  STATUS      TIME  CHANGES"@,
        WidthTier::W2 => "  MODULE                COMMAND  STATUS      TIME"@,
        WidthTier::W3 => "  MODULE                STATUS      TIME"@,
        WidthTier::W4 => "  MODULE            STATUS"@,
    }
}

/// The icon and the word of a status on the board.
pub open spec fn status_parts_of(tick: u8, t: Option<TaskView>) -> (Seq<char>, Seq<char>, Style) {
    match t {
        None => ("·"@, "—"@, in_color(MUTED)),
        Some(t) => match t.status {
            TaskStatus::Pending => ("○"@, "queued"@, style_of_status(t.status)),
            TaskStatus::Running => (
                frame_text(frame_at(tick)),
                "running"@,
                style_of_status(t.status),
            ),
            TaskStatus::Cancelling => (
                frame_text(frame_at(tick)),
                "cancel"@,
                style_of_status(t.status),
            ),
            TaskStatus::Success => ("✓"@, "done"@, style_of_status(t.status)),
            TaskStatus::Failed => ("✗"@, "failed"@, style_of_status(t.status)),
            TaskStatus::Cancelled => ("⊘"@, "cancelled"@, style_of_status(t.status)),
        },
    }
}

/// The command of a board row, with the number of targets of a targeted task.
pub open spec fn command_spans(t: Option<TaskView>) -> Seq<SpanView> {
    match t {
        None => seq![styled("  "@ + "—"@, in_color(Color::LightBlue))],
        Some(t) => {
            let command = seq![styled("  "@ + t.command, in_color(Color::LightBlue))];
            if t.targets.len() > 0 {
                command + seq![styled("·T"@ + decimal(t.targets.len()), in_bold(MARK))]
            } else {
                command
            }
        },
    }
}

/// The run time of a board row.
pub open spec fn elapsed_spans(t: Option<TaskView>, now: u64) -> Seq<SpanView> {
    match t {
        Some(t) => match run_time(t, now) {
            Some(ms) => seq![styled("  "@ + (decimal(ms / 1000) + "s"@), in_color(MUTED))],
            None => Seq::empty(),
        },
        None => Seq::empty(),
    }
}

/// The resource counts of a board row.
pub open spec fn counts_spans(t: Option<TaskView>) -> Seq<SpanView> {
    match t {
        Some(t) => match t.resource_counts {
            Some(c) => spans_of_counts(c),
            None => Seq::empty(),
        },
        None => Seq::empty(),
    }
}

/// The spans that every board row begins with: the cursor, the mark, the name.
pub open spec fn row_head(name: Seq<char>, is_cursor: bool, is_multi: bool) -> Seq<SpanView> {
    seq![
        if is_cursor {
            styled(theme::CURSOR_BAR@, in_color(ACCENT))
        } else {
            raw(" "@)
        },
        if is_multi {
            styled("● "@, in_bold(Color::Yellow))
        } else {
            raw("  "@)
        },
        raw(name),
    ]
}

/// The spans of a board row. A narrower window shows fewer of its columns.
pub open spec fn board_spans(
    a: AppView,
    m: SessionModuleView,
    is_cursor: bool,
    is_multi: bool,
    w: WidthTier,
) -> Seq<SpanView> {
    let shown = display_of(a.engine, a.session, m.path);
    let task = match shown {
        Some((k, _)) => Some(a.engine.tasks[k]),
        None => None,
    };
    let prev = shown is Some && (shown->0).1;
    let parts = status_parts_of(a.spinner_tick, task);
    let wide = w == WidthTier::W1 || w == WidthTier::W2;
    row_head(m.name, is_cursor, is_multi) + (if wide {
        command_spans(task)
    } else {
        Seq::empty()
    }) + seq![styled("  "@ + parts.0, parts.2)] + (if w == WidthTier::W1 {
        seq![styled(" "@ + parts.1, parts.2)]
    } else {
        Seq::empty()
    }) + (if w != WidthTier::W4 {
        elapsed_spans(task, a.engine.clock)
    } else {
        Seq::empty()
    }) + (if wide {
        counts_spans(task)
    } else {
        Seq::empty()
    }) + (if w == WidthTier::W1 {
        plan_badge(a.engine, m.path) + (if prev {
            seq![styled("  ·prev"@, in_color(MUTED))]
        } else {
            Seq::empty()
        })
    } else {
        Seq::empty()
    })
}

/// The rows of the board.
pub open spec fn board_list(a: AppView, s: SessionView, w: WidthTier) -> Seq<ListRowView> {
    Seq::new(
        s.modules.len(),
        |i: int|
            list_row(
                board_spans(
                    a,
                    s.modules[i],
                    i == s.cursor,
                    s.selected.contains(i as usize),
                    w,
                ),
                i == s.cursor,
            ),
    )
}

/// The board.
pub open spec fn board_widget(a: AppView, s: SessionView, area: Rect, w: WidthTier) -> WidgetView {
    WidgetView::List {
        area,
        rows: board_list(a, s, w),
        selected: if s.modules.len() > 0 {
            Some(s.cursor)
        } else {
            None
        },
    }
}

/// The first board row that is shown.
pub open spec fn board_top(s: SessionView, area: Rect) -> u16 {
    (first_shown(area, s.modules.len(), s.cursor as int) % 65536) as u16
}

/// A task's command, with the number of its targets.
pub open spec fn command_label(t: TaskView) -> Seq<char> {
    if t.targets.len() == 0 {
        t.command
    } else {
        t.command + "·T"@ + decimal(t.targets.len())
    }
}

/// How a status is called.
pub open spec fn word_of(s: TaskStatus) -> Seq<char> {
    match s {
        TaskStatus::Pending => "queued"@,
        TaskStatus::Running => "running"@,
        TaskStatus::Cancelling => "cancelling"@,
        TaskStatus::Success => "done"@,
        TaskStatus::Failed => "failed"@,
        TaskStatus::Cancelled => "cancelled"@,
    }
}

/// The name of the first of the session modules from the `i`-th on with a path.
pub open spec fn name_from(ms: Seq<SessionModuleView>, path: Seq<char>, i: int) -> Option<Seq<char>>
    decreases ms.len() - i,
{
    if i < 0 || i >= ms.len() {
        None
    } else if ms[i].place() == components(path) {
        Some(ms[i].name)
    } else {
        name_from(ms, path, i + 1)
    }
}

impl AppView {
    /// The name of the module under the board cursor.
    pub open spec fn cursor_name(self) -> Option<Seq<char>> {
        match self.cursor_module() {
            Some(m) => name_from((self.session->0).modules, m.path, 0),
            None => None,
        }
    }

    /// The title of the rule above the output.
    pub open spec fn rule_title(self) -> Seq<char> {
        match self.cursor_module() {
            Some(m) => {
                let name = match self.cursor_name() {
                    Some(n) => n,
                    None => Seq::empty(),
                };
                match self.shown_task() {
                    Some(k) => {
                        let t = self.engine.tasks[k];
                        " "@ + name + " · "@ + command_label(t) + " · "@ + word_of(t.status) + " "@
                    },
                    None => " "@ + name + " · "@ + "—"@ + " · "@ + "idle"@ + " "@,
                }
            },
            None => Seq::empty(),
        }
    }

    /// The title of the output in the full window.
    pub open spec fn fullscreen_title(self) -> Seq<char> {
        match self.cursor_name() {
            Some(n) => " "@ + n + " · "@ + (match self.shown_task() {
                Some(k) => command_label(self.engine.tasks[k]),
                None => "—"@,
            }) + " "@,
            None => " output "@,
        }
    }

    /// Whether output lines are wrapped.
    pub open spec fn wraps(self) -> bool {
        self.session is Some && (self.session->0).output_wrap
    }

    /// The application once its output is laid out for a pane: the layout is up
    /// to date, and the output is scrolled no further than its top.
    pub open spec fn output_placed(self, pane: Rect) -> AppView {
        let a = AppView {
            viewport: ViewportHeights {
                output: pane.height,
                output_top: pane.y,
                output_left: pane.x,
                output_width: pane.width,
                ..self.viewport
            },
            ..self
        }.layout_synced(pane.width, self.wraps());
        match a.session {
            Some(s) => a.with_session(
                SessionView {
                    output_scroll: min_of(s.output_scroll as int, a.max_scroll()) as usize,
                    ..s
                },
            ),
            None => a,
        }
    }

    /// What is selected in the shown output.
    pub open spec fn shown_selection(self) -> Option<(SelPos, SelPos)> {
        match self.session {
            Some(s) => match s.selection {
                Some(sel) => Some(sel.ends()),
                None => None,
            },
            None => None,
        }
    }

    /// The lines that the output pane shows, once the output is placed in it.
    pub open spec fn pane_lines(self, pane: Rect) -> Seq<LineView> {
        visible_rows(
            self.shown_lines(),
            self.layout.cum_rows,
            self.top_row(),
            pane.height as int,
            pane.width,
            self.wraps(),
            self.shown_selection(),
        )
    }
}

/// The hints at the bottom of the screen.
pub open spec fn run_hints() -> Seq<(Seq<char>, Seq<char>)> {
    seq![
        ("p"@, "plan"@),
        ("a"@, "apply"@),
        ("i"@, "init"@),
        ("d"@, "destroy"@),
        ("P/A"@, "one"@),
        ("space"@, "subset"@),
        ("C"@, "cancel"@),
        ("enter"@, "output"@),
        ("s"@, "state"@),
        ("esc"@, "back"@),
        ("?"@, "help"@),
    ]
}

/// Where the board's rows are: below the line that heads its columns.
pub open spec fn board_area(modules: nat, area: Rect) -> Rect {
    let board = stacked(area, run_heights(modules, area))[1];
    if has_col_header(height_tier(area.height)) {
        stacked(board, seq![Some(1u16), None])[1]
    } else {
        board
    }
}

/// The run screen.
pub open spec fn run_frame(a: AppView, s: SessionView, area: Rect) -> Seq<WidgetView> {
    let n = s.modules.len();
    let w = width_tier(area.width);
    let parts = stacked(area, run_heights(n, area));
    run_header_widgets(a, parts[0]) + (if has_col_header(height_tier(area.height)) {
        seq![
            text_at(
                stacked(parts[1], seq![Some(1u16), None])[0],
                line_of(seq![styled(col_header_text(w), in_color(MUTED).with_underlined())]),
            ),
        ]
    } else {
        Seq::empty()
    }) + seq![
        board_widget(a, s, board_area(n, area), w),
        WidgetView::Rule {
            area: parts[2],
            title: styled(a.rule_title(), in_color(MUTED)),
            border: in_color(MUTED),
        },
        WidgetView::Text {
            area: parts[3],
            lines: a.output_placed(parts[3]).pane_lines(parts[3]),
            alignment: Alignment::Left,
        },
    ] + keybar_widgets(run_hints(), parts[4])
}

/// A text cut to `max` characters, the last of which tells that it was cut.
pub open spec fn truncated(s: Seq<char>, max: int) -> Seq<char> {
    if s.len() <= max {
        s
    } else if max <= 0 {
        Seq::empty()
    } else {
        s.take(max - 1).push('…')
    }
}

/// The last line of the shown output.
pub open spec fn last_output(a: AppView) -> Seq<char> {
    if a.shown_lines().len() > 0 {
        stripped(a.shown_lines().last())
    } else {
        Seq::empty()
    }
}

/// The run screen in a low window: no output but its last line.
pub open spec fn low_frame(a: AppView, s: SessionView, area: Rect) -> Seq<WidgetView> {
    let parts = stacked(area, low_heights());
    run_header_widgets(a, parts[0]) + seq![
        board_widget(a, s, parts[1], width_tier(area.width)),
        text_at(
            parts[2],
            line_of(
                seq![
                    styled(
                        truncated(last_output(a), less(area.width as int, 12)) + " "@,
                        in_color(MUTED),
                    ),
                    styled("⏎ output"@, in_color(MUTED)),
                ],
            ),
        ),
    ] + keybar_widgets(run_hints(), parts[3])
}

impl AppView {
    /// The run screen; nothing without a session.
    pub open spec fn run_frame(self, area: Rect) -> Seq<WidgetView> {
        match self.session {
            Some(s) => if height_tier(area.height) == HeightTier::H4 {
                low_frame(self, s, area)
            } else {
                run_frame(self, s, area)
            },
            None => Seq::empty(),
        }
    }

    /// The application once the run screen is drawn for a low window: it notes
    /// where the board is, and that there is no output pane.
    pub open spec fn low_drawn(self, s: SessionView, area: Rect) -> AppView {
        let board = stacked(area, low_heights())[1];
        AppView {
            viewport: ViewportHeights {
                board: board.height,
                output: 1,
                board_top: board.y,
                board_offset: board_top(s, board),
                output_top: u16::MAX,
                ..self.viewport
            },
            ..self
        }
    }

    /// The application once the run screen was drawn: where its board and its
    /// output are.
    pub open spec fn run_drawn(self, area: Rect) -> AppView {
        match self.session {
            Some(s) => if height_tier(area.height) == HeightTier::H4 {
                self.low_drawn(s, area)
            } else {
                let n = s.modules.len();
                let board = board_area(n, area);
                let a = self.output_placed(stacked(area, run_heights(n, area))[3]);
                AppView {
                    viewport: ViewportHeights {
                        board: board.height,
                        board_top: board.y,
                        board_offset: board_top(s, board),
                        ..a.viewport
                    },
                    ..a
                }
            },
            None => self,
        }
    }

    /// The inside of the bordered output in the full window.
    pub open spec fn inner(area: Rect) -> Rect {
        Rect {
            x: (area.x + min_of(area.width as int, 1)) as u16,
            y: (area.y + min_of(area.height as int, 1)) as u16,
            width: less(area.width as int, 2) as u16,
            height: less(area.height as int, 2) as u16,
        }
    }

    /// The output in the full window.
    pub open spec fn fullscreen_frame(self, area: Rect) -> Seq<WidgetView> {
        let a = self.output_placed(AppView::inner(area));
        seq![
            WidgetView::Framed(
                PopupView {
                    area,
                    title: self.fullscreen_title() + (if a.session is Some && (
                    a.session->0).output_scroll > 0 {
                        " [↑ scrolled]"@
                    } else {
                        ""@
                    }),
                    border: in_color(MUTED),
                    lines: a.pane_lines(AppView::inner(area)),
                },
            ),
        ]
    }
}

fn tally(app: &App, modules: &Vec<SessionModule>) -> (r: (usize, usize, usize))
    ensures
        ({
            let ms = session_module_views(modules@);
            let n = ms.len() as int;
            &&& r.0 == shown_count(app@, ms, n, |t: TaskStatus| !t.over())
            &&& r.1 == shown_count(app@, ms, n, |t: TaskStatus| t == TaskStatus::Success)
            &&& r.2 == shown_count(app@, ms, n, |t: TaskStatus| t == TaskStatus::Failed)
        }),
{
    let ghost ms = session_module_views(modules@);
    let ghost is_active = |t: TaskStatus| !t.over();
    let ghost is_ok = |t: TaskStatus| t == TaskStatus::Success;
    let ghost is_failed = |t: TaskStatus| t == TaskStatus::Failed;
    let mut running: usize = 0;
    let mut ok: usize = 0;
    let mut failed: usize = 0;
    let mut n: usize = 0;
    while n < modules.len()
        invariant
            n <= modules@.len(),
            ms == session_module_views(modules@),
            running <= n,
            ok <= n,
            failed <= n,
            is_active == (|t: TaskStatus| !t.over()),
            is_ok == (|t: TaskStatus| t == TaskStatus::Success),
            is_failed == (|t: TaskStatus| t == TaskStatus::Failed),
            running == shown_count(app@, ms, n as int, is_active),
            ok == shown_count(app@, ms, n as int, is_ok),
            failed == shown_count(app@, ms, n as int, is_failed),
        decreases modules@.len() - n,
    {
        assert(ms[n as int] == modules@[n as int]@);
        if let Some((t, _)) = app.display_task_for(modules[n].path.as_str()) {
            match t.status {
                TaskStatus::Running | TaskStatus::Pending | TaskStatus::Cancelling => {
                    running += 1;
                },
                TaskStatus::Success => {
                    ok += 1;
                },
                TaskStatus::Failed => {
                    failed += 1;
                },
                TaskStatus::Cancelled => {},
            }
        }
        n += 1;
    }
    (running, ok, failed)
}

fn digits(n: u64) -> (r: String)
    ensures
        r@ == two_digits(n as nat),
{
    if n < 10 {
        concat("0", decimal_of(n).as_str())
    } else {
        decimal_of(n)
    }
}

fn push_header(frame: &mut Vec<Widget>, app: &App, area: Rect)
    ensures
        widget_views(final(frame)@) == widget_views(old(frame)@) + run_header_widgets(app@, area),
{
    broadcast use span_views_push;

    let ghost had = widget_views(frame@);
    let s = match &app.session {
        Some(s) => s,
        None => {
            assert(widget_views(frame@) =~= had + run_header_widgets(app@, area));
            return ;
        },
    };
    let n: usize = s.modules.len();
    assert(session_module_views(s.modules@).len() == n);
    let (running, ok, failed) = tally(app, &s.modules);
    let secs: u64 = app.engine.clock.saturating_sub(s.created_at) / 1000;
    let count = say5(
        " · ",
        number(n).as_str(),
        " modules · ",
        number(running).as_str(),
        " running · ",
    );
    let time = say4(" · ", digits(secs / 60).as_str(), ":", digits(secs % 60).as_str());
    let mut spans: Vec<Span> = Vec::new();
    spans.push(Span::styled("Run", theme::app_title()));
    spans.push(Span::styled(count.as_str(), theme::dim()));
    spans.push(Span::styled(concat("✓", number(ok).as_str()).as_str(), theme::colored(OK)));
    spans.push(Span::raw(" "));
    spans.push(Span::styled(concat("✗", number(failed).as_str()).as_str(), theme::colored(ERR)));
    spans.push(Span::styled(time.as_str(), theme::dim()));
    assert(span_views(spans@) =~= run_header(app@, s@).spans);
    push_text(frame, area, line(spans), Alignment::Left);
    push_text(frame, area, one(Span::styled("esc back", theme::dim())), Alignment::Right);
    assert(widget_views(frame@) =~= had + run_header_widgets(app@, area));
}

fn push_col_header(frame: &mut Vec<Widget>, area: Rect, w: WidthTier)
    ensures
        widget_views(final(frame)@) == widget_views(old(frame)@).push(
            text_at(
                area,
                line_of(seq![styled(col_header_text(w), in_color(MUTED).with_underlined())]),
            ),
        ),
{
    let text = match w {
        WidthTier::W1 => "  MODULE                COMMAND  STATUS      TIME  CHANGES",
        WidthTier::W2 => "  MODULE                COMMAND  STATUS      TIME",
        WidthTier::W3 => "  MODULE                STATUS      TIME",
        WidthTier::W4 => "  MODULE            STATUS",
    };
    push_text(frame, area, one(Span::styled(text, theme::col_header())), Alignment::Left);
}

/// The icon, the word and the style of a task's status on the board.
pub fn status_parts(app: &App, task: Option<&Task>) -> (r: (&'static str, &'static str, Style))
    ensures
        (r.0@, r.1@, r.2) == status_parts_of(
            app@.spinner_tick,
            match task {
                Some(t) => Some(t@),
                None => None,
            },
        ),
{
    match task {
        None => ("·", "—", theme::dim()),
        Some(t) => {
            let style = theme::status_style(&t.status);
            match t.status {
                TaskStatus::Pending => ("○", "queued", style),
                TaskStatus::Running => (theme::spinner(app.spinner_tick), "running", style),
                TaskStatus::Cancelling => (theme::spinner(app.spinner_tick), "cancel", style),
                TaskStatus::Success => ("✓", "done", style),
                TaskStatus::Failed => ("✗", "failed", style),
                TaskStatus::Cancelled => ("⊘", "cancelled", style),
            }
        },
    }
}

/// The view of a task, if there is one.
pub open spec fn opt_task(t: Option<&Task>) -> Option<TaskView> {
    match t {
        Some(t) => Some(t@),
        None => None,
    }
}

fn push_command(spans: &mut Vec<Span>, task: Option<&Task>)
    ensures
        span_views(final(spans)@) == span_views(old(spans)@) + command_spans(opt_task(task)),
{
    broadcast use span_views_push;

    let ghost had = span_views(spans@);
    match task {
        None => {
            spans.push(Span::styled(concat("  ", "—").as_str(), theme::command_text()));
        },
        Some(t) => {
            spans.push(
                Span::styled(concat("  ", t.command.as_str()).as_str(), theme::command_text()),
            );
            let n: usize = t.targets.len();
            assert(texts(t.targets@).len() == n);
            if n > 0 {
                spans.push(
                    Span::styled(
                        concat("·T", number(n).as_str()).as_str(),
                        theme::plan_marker_targeted(),
                    ),
                );
            }
        },
    }
    assert(span_views(spans@) =~= had + command_spans(opt_task(task)));
}

fn push_elapsed(spans: &mut Vec<Span>, task: Option<&Task>, now: u64)
    ensures
        span_views(final(spans)@) == span_views(old(spans)@) + elapsed_spans(opt_task(task), now),
{
    broadcast use span_views_push;

    let ghost had = span_views(spans@);
    if let Some(t) = task {
        if let Some(_) = t.elapsed(now) {
            spans.push(
                Span::styled(concat("  ", t.elapsed_str(now).as_str()).as_str(), theme::dim()),
            );
        }
    }
    assert(span_views(spans@) =~= had + elapsed_spans(opt_task(task), now));
}

fn push_counts(spans: &mut Vec<Span>, task: Option<&Task>)
    ensures
        span_views(final(spans)@) == span_views(old(spans)@) + counts_spans(opt_task(task)),
{
    let ghost had = span_views(spans@);
    if let Some(t) = task {
        if let Some(counts) = &t.resource_counts {
            push_spans(spans, count_spans(counts));
        }
    }
    assert(span_views(spans@) =~= had + counts_spans(opt_task(task)));
}

/// A row of the board: the module, and what its shown task does. A narrower
/// window shows fewer columns.
pub fn board_row(
    app: &App,
    sm: &SessionModule,
    is_cursor: bool,
    is_multi: bool,
    w: WidthTier,
) -> (r: Line)
    ensures
        r@ == line_of(board_spans(app@, sm@, is_cursor, is_multi, w)),
{
    broadcast use span_views_push;

    let shown = app.display_task_for(sm.path.as_str());
    let (task, prev) = match shown {
        Some((t, p)) => (Some(t), p),
        None => (None, false),
    };
    let (icon, word, style) = status_parts(app, task);
    let wide = w == WidthTier::W1 || w == WidthTier::W2;
    let mut spans: Vec<Span> = Vec::new();
    if is_cursor {
        spans.push(Span::styled(theme::CURSOR_BAR, theme::colored(ACCENT)));
    } else {
        spans.push(Span::raw(" "));
    }
    if is_multi {
        spans.push(Span::styled("● ", theme::multi_select_marker()));
    } else {
        spans.push(Span::raw("  "));
    }
    spans.push(Span::raw(sm.name.as_str()));
    let ghost nothing = Seq::<SpanView>::empty();
    let ghost tv = opt_task(task);
    let ghost head = span_views(spans@);
    assert(head =~= row_head(sm.name@, is_cursor, is_multi));
    if wide {
        push_command(&mut spans, task);
    }
    let ghost named = span_views(spans@);
    assert(named =~= head + (if wide {
        command_spans(tv)
    } else {
        nothing
    }));
    spans.push(Span::styled(concat("  ", icon).as_str(), style));
    let ghost marked = span_views(spans@);
    assert(marked =~= named + seq![styled("  "@ + icon@, style)]);
    if w == WidthTier::W1 {
        spans.push(Span::styled(concat(" ", word).as_str(), style));
    }
    let ghost worded = span_views(spans@);
    assert(worded =~= marked + (if w == WidthTier::W1 {
        seq![styled(" "@ + word@, style)]
    } else {
        nothing
    }));
    if w != WidthTier::W4 {
        push_elapsed(&mut spans, task, app.engine.clock);
    }
    let ghost timed = span_views(spans@);
    assert(timed =~= worded + (if w != WidthTier::W4 {
        elapsed_spans(tv, app@.engine.clock)
    } else {
        nothing
    }));
    if wide {
        push_counts(&mut spans, task);
    }
    let ghost counted = span_views(spans@);
    assert(counted =~= timed + (if wide {
        counts_spans(tv)
    } else {
        nothing
    }));
    if w == WidthTier::W1 {
        push_plan_badge(&mut spans, &app.engine, sm.path.as_str());
        let ghost aged = span_views(spans@);
        if prev {
            spans.push(Span::styled("  ·prev", theme::dim()));
        }
        assert(span_views(spans@) =~= counted + (plan_badge(app@.engine, sm@.path) + (if prev {
            seq![styled("  ·prev"@, in_color(MUTED))]
        } else {
            nothing
        })));
    } else {
        assert(span_views(spans@) =~= counted + nothing);
    }
    assert(span_views(spans@) == board_spans(app@, sm@, is_cursor, is_multi, w));
    line(spans)
}

fn push_board(frame: &mut Vec<Widget>, app: &App, area: Rect, w: WidthTier) -> (r: u16)
    requires
        app.session is Some,
        fits(area),
    ensures
        widget_views(final(frame)@) == widget_views(old(frame)@).push(
            board_widget(app@, app@.session->0, area, w),
        ),
        r == board_top(app@.session->0, area),
{
    broadcast use {list_rows_push, widget_views_push};

    match &app.session {
        Some(s) => {
            let ghost sv = s@;
            let n: usize = s.modules.len();
            assert(sv.modules.len() == n);
            let mut rows: Vec<Row> = Vec::new();
            let mut i: usize = 0;
            while i < n
                invariant
                    i <= n,
                    n == s.modules@.len(),
                    sv == s@,
                    list_rows(rows@) =~= Seq::new(
                        i as nat,
                        |k: int|
                            list_row(
                                board_spans(
                                    app@,
                                    sv.modules[k],
                                    k == sv.cursor,
                                    sv.selected.contains(k as usize),
                                    w,
                                ),
                                k == sv.cursor,
                            ),
                    ),
                decreases n - i,
            {
                let ghost had = list_rows(rows@);
                assert(sv.modules[i as int] == s.modules@[i as int]@);
                let is_cursor = i == s.cursor;
                let is_multi = find_pos(&s.selected, i) < s.selected.len();
                proof {
                    first_pos_finds(s.selected@, i);
                }
                rows.push(
                    as_row(board_row(app, &s.modules[i], is_cursor, is_multi, w), is_cursor),
                );
                assert(list_rows(rows@) == had.push(
                    list_row(
                        board_spans(app@, sv.modules[i as int], is_cursor, is_multi, w),
                        is_cursor,
                    ),
                ));
                i += 1;
            }
            assert(list_rows(rows@) =~= board_list(app@, sv, w));
            let selected = if n > 0 {
                Some(s.cursor)
            } else {
                None
            };
            frame.push(Widget::List { area, rows, selected });
            (list_offset(area, n, s.cursor) % 65536) as u16
        },
        None => 0,
    }
}

/// A task's command with the number of its targets, such as `apply·T2`.
pub fn cmd_label(t: &Task) -> (r: String)
    ensures
        r@ == command_label(t@),
{
    let n: usize = t.targets.len();
    assert(texts(t.targets@).len() == n);
    if n == 0 {
        t.command.clone()
    } else {
        say3(t.command.as_str(), "·T", number(n).as_str())
    }
}

/// How a status is called.
pub fn status_word(status: &TaskStatus) -> (r: &'static str)
    ensures
        r@ == word_of(*status),
{
    match status {
        TaskStatus::Pending => "queued",
        TaskStatus::Running => "running",
        TaskStatus::Cancelling => "cancelling",
        TaskStatus::Success => "done",
        TaskStatus::Failed => "failed",
        TaskStatus::Cancelled => "cancelled",
    }
}

fn name_of(modules: &Vec<SessionModule>, path: &str) -> (r: Option<String>)
    ensures
        opt_text(r) == name_from(session_module_views(modules@), path@, 0),
{
    let ghost ms = session_module_views(modules@);
    let mut i: usize = 0;
    while i < modules.len()
        invariant
            i <= modules@.len(),
            ms == session_module_views(modules@),
            name_from(ms, path@, 0) == name_from(ms, path@, i as int),
        decreases modules@.len() - i,
    {
        assert(ms[i as int] == modules@[i as int]@);
        if same_path(modules[i].path.as_str(), path) {
            return Some(modules[i].name.clone());
        }
        i += 1;
    }
    None
}

fn cursor_name(app: &App, path: &str) -> (r: Option<String>)
    requires
        app@.cursor_module() is Some,
        path@ == (app@.cursor_module()->0).path,
    ensures
        opt_text(r) == app@.cursor_name(),
{
    match &app.session {
        Some(s) => name_of(&s.modules, path),
        None => None,
    }
}

fn rule_text(app: &App) -> (r: String)
    ensures
        r@ == app@.rule_title(),
{
    match app.run_cursor_path() {
        Some(p) => {
            let name = match cursor_name(app, p.as_str()) {
                Some(n) => n,
                None => String::new(),
            };
            let (cmd, status) = match app.display_task_for(p.as_str()) {
                Some((t, _)) => (cmd_label(t), status_word(&t.status)),
                None => ("—".to_owned(), "idle"),
            };
            let mut text = say5(" ", name.as_str(), " · ", cmd.as_str(), " · ");
            text.append(status);
            text.append(" ");
            text
        },
        None => String::new(),
    }
}

fn fullscreen_text(app: &App) -> (r: String)
    ensures
        r@ == app@.fullscreen_title(),
{
    match app.run_cursor_path() {
        Some(p) => match cursor_name(app, p.as_str()) {
            Some(n) => {
                let cmd = match app.display_task_for(p.as_str()) {
                    Some((t, _)) => cmd_label(t),
                    None => "—".to_owned(),
                };
                say5(" ", n.as_str(), " · ", cmd.as_str(), " ")
            },
            None => " output ".to_owned(),
        },
        None => " output ".to_owned(),
    }
}

/// Lays the output out for a pane, and holds its scrolling within it.
fn place_output(app: &mut App, pane: Rect)
    requires
        old(app)@.layout.wf(),
    ensures
        final(app)@ == old(app)@.output_placed(pane),
        final(app)@.layout.wf(),
        final(app)@.session is None ==> final(app)@.layout.rows() == 0,
{
    let ghost before = app@;
    let wrap = match &app.session {
        Some(s) => s.output_wrap,
        None => false,
    };
    app.viewport.output = pane.height;
    app.viewport.output_top = pane.y;
    app.viewport.output_left = pane.x;
    app.viewport.output_width = pane.width;
    let ghost placed = AppView {
        viewport: ViewportHeights {
            output: pane.height,
            output_top: pane.y,
            output_left: pane.x,
            output_width: pane.width,
            ..before.viewport
        },
        ..before
    };
    assert(app@ =~= placed);
    app.sync_output_layout(pane.width, wrap);
    let ghost mid = app@;
    let max: usize = app.output_layout.total_rows().saturating_sub(pane.height as usize);
    if let Some(s) = &mut app.session {
        if s.output_scroll > max {
            s.output_scroll = max;
        }
    }
    assert(app@ =~= before.output_placed(pane));
}

fn pane_text(app: &App, pane: Rect) -> (r: Vec<Line>)
    requires
        app@.layout.wf(),
        app@.viewport.output == pane.height,
        app@.session is None ==> app@.layout.rows() == 0,
    ensures
        line_views(r@) == app@.pane_lines(pane),
{
    let (wrap, scroll, selection) = match &app.session {
        Some(s) => (
            s.output_wrap,
            s.output_scroll,
            match &s.selection {
                Some(sel) => Some(sel.ordered()),
                None => None,
            },
        ),
        None => (false, 0, None),
    };
    let max: usize = app.output_layout.total_rows().saturating_sub(pane.height as usize);
    let top: usize = max - if scroll < max {
        scroll
    } else {
        max
    };
    let none: Vec<String> = Vec::new();
    assert(texts(none@) =~= Seq::<Seq<char>>::empty());
    let lines = match app.run_output_lines() {
        Some(lines) => lines,
        None => &none,
    };
    visible_lines(
        lines.as_slice(),
        &app.output_layout,
        top,
        pane.height as usize,
        pane.width,
        wrap,
        selection,
    )
}

/// A text cut to `max` characters, the last of which is an ellipsis where it was
/// cut.
pub fn truncate(s: &str, max: usize) -> (r: String)
    ensures
        r@ == truncated(s@, max as int),
{
    let cs = chars_of(s);
    if cs.len() <= max {
        s.to_owned()
    } else if max == 0 {
        String::new()
    } else {
        let head = copy_range(cs.as_slice(), 0, max - 1);
        assert(head@ == cs@.take(max - 1));
        let mut out = string_of(head.as_slice());
        out.push('…');
        out
    }
}

fn hints() -> (r: Vec<(&'static str, &'static str)>)
    ensures
        hint_views(r@) == run_hints(),
{
    let r: Vec<(&'static str, &'static str)> = vec![
        ("p", "plan"),
        ("a", "apply"),
        ("i", "init"),
        ("d", "destroy"),
        ("P/A", "one"),
        ("space", "subset"),
        ("C", "cancel"),
        ("enter", "output"),
        ("s", "state"),
        ("esc", "back"),
        ("?", "help"),
    ];
    assert(hint_views(r@) =~= run_hints());
    r
}

fn held(rows: u16, head: u16, avail: u16) -> (r: u16)
    requires
        head <= 1,
    ensures
        r == held_rows(rows as int, head as int, avail as int),
{
    let low: u16 = if rows < head + 1 {
        head + 1
    } else {
        rows
    };
    let high: u16 = if avail < 1 {
        1
    } else {
        avail
    };
    if low < high {
        low
    } else {
        high
    }
}

fn at_most_of(a: u16, b: u16) -> (r: u16)
    ensures
        r == min_of(a as int, b as int),
{
    if a < b {
        a
    } else {
        b
    }
}

fn board_height(modules: usize, height: u16, tier: HeightTier) -> (r: u16)
    requires
        tier == height_tier(height),
    ensures
        r == board_rows(modules as nat, height),
{
    let head: u16 = if tier == HeightTier::H1 || tier == HeightTier::H2 {
        1
    } else {
        0
    };
    let avail: u16 = height.saturating_sub(3);
    let budget: u16 = match tier {
        HeightTier::H1 => {
            let share: u16 = avail.saturating_add(avail) / 5;
            if share < 5 {
                5
            } else {
                share
            }
        },
        HeightTier::H2 => {
            let share: u16 = avail / 3;
            if share < 4 {
                4
            } else {
                share
            }
        },
        HeightTier::H3 => 5,
        HeightTier::H4 => avail,
    };
    let n: u16 = (modules % 65536) as u16;
    let wanted: u16 = held(at_most_of(n.saturating_add(head), budget), head, avail);
    if tier == HeightTier::H2 {
        held(at_most_of(wanted, avail.saturating_sub(6)), head, avail)
    } else {
        wanted
    }
}

/// Where the board and the output of the run screen are.
pub proof fn run_parts_fit(modules: nat, area: Rect)
    requires
        fits(area),
        area.height >= 15,
    ensures
        one_is_open(run_heights(modules, area)),
        asked(run_heights(modules, area)) <= area.height,
        forall|i: int| 0 <= i < 5 ==> fits(#[trigger] stacked(area, run_heights(modules, area))[i]),
        stacked(area, run_heights(modules, area))[1].height == board_rows(modules, area.height),
        board_rows(modules, area.height) >= 1,
        has_col_header(height_tier(area.height)) ==> board_rows(modules, area.height) >= 2,
        stacked(area, run_heights(modules, area))[3].height == area.height - 3 - board_rows(
            modules,
            area.height,
        ),
        stacked(area, run_heights(modules, area))[3].height > 0,
        stacked(area, run_heights(modules, area))[3].y + stacked(
            area,
            run_heights(modules, area),
        )[3].height <= area.y + area.height,
{
    let b = board_rows(modules, area.height);
    let hs = run_heights(modules, area);
    let none = Seq::<Option<u16>>::empty();
    assert(1 <= b <= area.height - 3);
    asked_push(none, Some(1));
    asked_push(none.push(Some(1)), Some(b as u16));
    asked_push(none.push(Some(1)).push(Some(b as u16)), Some(1));
    asked_push(none.push(Some(1)).push(Some(b as u16)).push(Some(1)), None);
    asked_push(none.push(Some(1)).push(Some(b as u16)).push(Some(1)).push(None), Some(1));
    assert(hs =~= none.push(Some(1)).push(Some(b as u16)).push(Some(1)).push(None).push(Some(1)));
    assert(hs[3] is None);
    assert forall|i: int| 0 <= i < 5 implies fits(#[trigger] stacked(area, hs)[i]) by {
        part_fits(area, hs, 3, i);
    }
    part_fits(area, hs, 3, 1);
    part_fits(area, hs, 3, 3);
}

/// Where the rows of the board and the line above them are.
pub proof fn board_parts_fit(board: Rect)
    requires
        fits(board),
        board.height >= 1,
    ensures
        one_is_open(seq![Some(1u16), None]),
        asked(seq![Some(1u16), None]) <= board.height,
        fits(stacked(board, seq![Some(1u16), None])[0]),
        fits(stacked(board, seq![Some(1u16), None])[1]),
{
    let none = Seq::<Option<u16>>::empty();
    asked_push(none, Some(1));
    asked_push(none.push(Some(1)), None);
    assert(seq![Some(1u16), None] =~= none.push(Some(1)).push(None));
    assert(seq![Some(1u16), None][1] is None);
    part_fits(board, seq![Some(1u16), None], 1, 0);
    part_fits(board, seq![Some(1u16), None], 1, 1);
}

/// Where the board is in a low window.
pub proof fn low_parts_fit(area: Rect)
    requires
        fits(area),
        area.height >= 3,
    ensures
        one_is_open(low_heights()),
        asked(low_heights()) <= area.height,
        fits(stacked(area, low_heights())[1]),
{
    let none = Seq::<Option<u16>>::empty();
    asked_push(none, Some(1));
    asked_push(none.push(Some(1)), None);
    asked_push(none.push(Some(1)).push(None), Some(1));
    asked_push(none.push(Some(1)).push(None).push(Some(1)), Some(1));
    assert(low_heights() =~= none.push(Some(1)).push(None).push(Some(1)).push(Some(1)));
    assert(low_heights()[1] is None);
    part_fits(area, low_heights(), 1, 1);
}

/// Draws the run screen in a low window: the board, and the last line of output.
pub fn render_collapsed(area: Rect, app: &mut App) -> (r: Vec<Widget>)
    requires
        fits(area),
        area.height >= 3,
        old(app)@.session is Some,
    ensures
        widget_views(r@) == low_frame(old(app)@, old(app)@.session->0, area),
        final(app)@ == old(app)@.low_drawn(old(app)@.session->0, area),
{
    let ghost before = app@;
    proof {
        low_parts_fit(area);
    }
    let heights: Vec<Option<u16>> = vec![Some(1), None, Some(1), Some(1)];
    assert(heights@ =~= low_heights());
    let parts = split_rows(area, heights.as_slice());
    let w = Breakpoints::of(area).w;
    let mut frame: Vec<Widget> = Vec::new();
    assert(widget_views(frame@) =~= Seq::<WidgetView>::empty());
    push_header(&mut frame, app, parts[0]);
    let offset = push_board(&mut frame, app, parts[1], w);
    let last = match app.run_output_lines() {
        Some(lines) => {
            let n: usize = lines.len();
            if n > 0 {
                assert(texts(lines@)[n - 1] == lines@[n - 1]@);
                strip_ansi(lines[n - 1].as_str())
            } else {
                String::new()
            }
        },
        None => String::new(),
    };
    assert(last@ =~= last_output(before));
    let cut = truncate(last.as_str(), area.width.saturating_sub(12) as usize);
    push_text(
        &mut frame,
        parts[2],
        two(
            Span::styled(concat(cut.as_str(), " ").as_str(), theme::dim()),
            Span::styled("⏎ output", theme::dim()),
        ),
        Alignment::Left,
    );
    push_keybar(&mut frame, parts[3], &hints());
    assert(widget_views(frame@) =~= low_frame(before, before.session->0, area));
    app.viewport.board = parts[1].height;
    app.viewport.output = 1;
    app.viewport.board_top = parts[1].y;
    app.viewport.board_offset = offset;
    app.viewport.output_top = u16::MAX;
    assert(app@ =~= before.low_drawn(before.session->0, area));
    frame
}

/// Draws the run screen: the board over the output of the highlighted module.
/// Notes where both are, for page keys and the mouse. Nothing is drawn without a
/// session.
pub fn render(area: Rect, app: &mut App) -> (r: Vec<Widget>)
    requires
        fits(area),
        area.height >= 3,
        old(app)@.layout.wf(),
    ensures
        widget_views(r@) == old(app)@.run_frame(area),
        final(app)@ == old(app)@.run_drawn(area),
        final(app)@.layout.wf(),
{
    broadcast use widget_views_push;

    let ghost before = app@;
    let bp = Breakpoints::of(area);
    let mut frame: Vec<Widget> = Vec::new();
    assert(widget_views(frame@) =~= Seq::<WidgetView>::empty());
    let n: usize = match &app.session {
        Some(s) => s.modules.len(),
        None => {
            return frame;
        },
    };
    if bp.h == HeightTier::H4 {
        return render_collapsed(area, app);
    }
    let ghost s0 = before.session->0;
    assert(s0.modules.len() == n);
    proof {
        run_parts_fit(n as nat, area);
    }
    let rows = board_height(n, area.height, bp.h);
    let heights: Vec<Option<u16>> = vec![Some(1), Some(rows), Some(1), None, Some(1)];
    assert(heights@ =~= run_heights(n as nat, area));
    let parts = split_rows(area, heights.as_slice());
    push_header(&mut frame, app, parts[0]);
    let mut list_area = parts[1];
    assert(fits(parts@[1]));
    if bp.h == HeightTier::H1 || bp.h == HeightTier::H2 {
        proof {
            board_parts_fit(parts@[1]);
        }
        let two_parts: Vec<Option<u16>> = vec![Some(1), None];
        assert(two_parts@ =~= seq![Some(1u16), None]);
        let split = split_rows(parts[1], two_parts.as_slice());
        push_col_header(&mut frame, split[0], bp.w);
        list_area = split[1];
    }
    let ghost headed = widget_views(frame@);
    assert(list_area == board_area(n as nat, area));
    let offset = push_board(&mut frame, app, list_area, bp.w);
    frame.push(
        Widget::Rule {
            area: parts[2],
            title: Span::styled(rule_text(app).as_str(), theme::dim()),
            border: theme::dim(),
        },
    );
    place_output(app, parts[3]);
    let lines = pane_text(app, parts[3]);
    frame.push(Widget::Text { area: parts[3], lines, alignment: Alignment::Left });
    push_keybar(&mut frame, parts[4], &hints());
    assert(widget_views(frame@) =~= run_frame(before, s0, area));
    app.viewport.board = list_area.height;
    app.viewport.board_top = list_area.y;
    app.viewport.board_offset = offset;
    assert(app@ =~= before.run_drawn(area));
    frame
}

/// Draws the output of the highlighted module in the full window.
pub fn render_fullscreen_output(area: Rect, app: &mut App) -> (r: Vec<Widget>)
    requires
        fits(area),
        old(app)@.layout.wf(),
    ensures
        widget_views(r@) == old(app)@.fullscreen_frame(area),
        final(app)@ == old(app)@.output_placed(AppView::inner(area)),
{
    broadcast use widget_views_push;

    let ghost before = app@;
    let pane = Rect {
        x: area.x + at_most_of(area.width, 1),
        y: area.y + at_most_of(area.height, 1),
        width: area.width.saturating_sub(2),
        height: area.height.saturating_sub(2),
    };
    let title = fullscreen_text(app);
    place_output(app, pane);
    let scrolled = match &app.session {
        Some(s) => s.output_scroll > 0,
        None => false,
    };
    let tag = if scrolled {
        " [↑ scrolled]"
    } else {
        ""
    };
    let lines = pane_text(app, pane);
    let mut frame: Vec<Widget> = Vec::new();
    frame.push(
        Widget::Framed(
            Popup { area, title: concat(title.as_str(), tag), border: theme::dim(), lines },
        ),
    );
    assert(widget_views(frame@) =~= before.fullscreen_frame(area));
    frame
}

} // verus!
