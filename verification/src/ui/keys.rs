//! Key events: which part of the application one goes to, and what it does
//! there.

use crate::app::explorer::ExplorerView;
use crate::app::model::{App, AppView, Request, RequestView};
use crate::app::types::{ExplorerOpKind, Modal, ModalView, Screen, SessionView};
use crate::engine_laws::active_only;
use crate::ui::layout::{MIN_H, MIN_W};
use vstd::prelude::*;

verus! {

/// What the event loop must do after a key.
#[derive(Debug, Clone, Copy, PartialEq, Eq, Structural)]
pub enum ScreenAction {
    /// Nothing further.
    Stay,
    /// The user asked to quit.
    Quit,
}

/// A key of the keyboard.
#[derive(Debug, Clone, Copy, PartialEq, Eq, Structural)]
pub enum KeyCode {
    Char(char),
    Enter,
    Esc,
    Backspace,
    Tab,
    Up,
    Down,
    PageUp,
    PageDown,
    Other,
}

/// A key that was pressed, alone or with the control key.
#[derive(Debug, Clone, Copy, PartialEq, Eq, Structural)]
pub struct KeyEvent {
    pub code: KeyCode,
    pub control: bool,
}

/// The rows that a page key moves by.
pub open spec fn page_of(height: u16) -> int {
    if height == 0 {
        1
    } else {
        height as int
    }
}

/// The rows that a page key moves by.
pub fn page(height: u16) -> (r: i32)
    ensures
        r == page_of(height),
{
    if height == 0 {
        1
    } else {
        height as i32
    }
}

/// Whether a key agrees to what is asked.
pub open spec fn agrees(code: KeyCode) -> bool {
    code == KeyCode::Char('y') || code == KeyCode::Char('Y') || code == KeyCode::Enter
}

impl AppView {
    pub open spec fn with_modal(self, m: ModalView) -> AppView {
        AppView { modal: Some(m), ..self }
    }

    pub open spec fn no_modal(self) -> AppView {
        AppView { modal: None, ..self }
    }

    /// Whether a task is pending or running.
    pub open spec fn is_busy(self) -> bool {
        active_only(self.engine.tasks).len() > 0
    }

    /// The application asked to quit: it does at once, or asks where tasks are
    /// still active.
    pub open spec fn quit_asked(self) -> (AppView, ScreenAction) {
        if self.is_busy() {
            (self.with_modal(ModalView::Quit), ScreenAction::Stay)
        } else {
            (self, ScreenAction::Quit)
        }
    }

    /// Whether the output fills the window.
    pub open spec fn is_fullscreen(self) -> bool {
        self.session is Some && (self.session->0).fullscreen
    }

    pub open spec fn copy_asked(self, text: Option<Seq<char>>) -> AppView {
        match text {
            Some(t) => AppView {
                requests: self.requests.push(RequestView::Copy { text: t }),
                ..self
            },
            None => self,
        }
    }

    pub open spec fn wrap_toggled(self) -> AppView {
        match self.session {
            Some(s) => self.with_session(SessionView { output_wrap: !s.output_wrap, ..s }),
            None => self,
        }
    }

    pub open spec fn fullscreen_set(self, on: bool) -> AppView {
        match self.session {
            Some(s) => self.with_session(SessionView { fullscreen: on, ..s }),
            None => self,
        }
    }

    /// Escape out of the output: a selection goes first, then the full window.
    pub open spec fn fullscreen_escaped(self) -> AppView {
        if self.session is Some && (self.session->0).selection is Some {
            self.selection_cleared()
        } else {
            self.fullscreen_set(false)
        }
    }

    pub open spec fn key_in_output(self, key: KeyEvent) -> AppView {
        let page = page_of(self.viewport.output);
        match key.code {
            KeyCode::Esc => self.fullscreen_escaped(),
            KeyCode::Down => self.output_scrolled(-1),
            KeyCode::Up => self.output_scrolled(1),
            KeyCode::PageDown => self.output_scrolled(-page),
            KeyCode::PageUp => self.output_scrolled(page),
            KeyCode::Char(c) => if c == 'j' {
                self.output_scrolled(-1)
            } else if c == 'k' {
                self.output_scrolled(1)
            } else if c == 'g' {
                self.scrolled_to_top()
            } else if c == 'G' {
                self.scrolled_to_bottom()
            } else if c == 'w' {
                self.wrap_toggled()
            } else if c == 'y' {
                self.copy_asked(self.selected_text())
            } else if c == 'Y' {
                self.copy_asked(self.output_text())
            } else {
                self
            },
            _ => self,
        }
    }

    /// A key while an overlay is open. It answers what the overlay asks; help
    /// is closed by any key.
    pub open spec fn key_in_modal(self, key: KeyEvent) -> (AppView, ScreenAction) {
        match self.modal {
            Some(ModalView::Quit) => if key.code == KeyCode::Char('q') {
                (self, ScreenAction::Quit)
            } else if key.code == KeyCode::Esc {
                (self.no_modal(), ScreenAction::Stay)
            } else {
                (self, ScreenAction::Stay)
            },
            Some(m) => (
                if !agrees(key.code) {
                    self.no_modal()
                } else {
                    match m {
                        ModalView::Confirm { .. } => self.confirmed(),
                        ModalView::CancelTasks(_) => self.staged_cancelled(),
                        ModalView::ClearTasks => self.completed_cleared(),
                        ModalView::Reset => self.reset(),
                        _ => self.no_modal(),
                    }
                },
                ScreenAction::Stay,
            ),
            None => (self, ScreenAction::Stay),
        }
    }

    pub open spec fn notice_dismissed(self) -> AppView {
        match self.explorer {
            Some(e) => self.with_explorer(ExplorerView { plan_queued_notice: false, ..e }),
            None => self,
        }
    }

    /// A key in the detail view of a resource.
    pub open spec fn key_in_detail(self, key: KeyEvent) -> AppView {
        let page = page_of(self.viewport.explorer);
        match key.code {
            KeyCode::Esc => self.detail_closed(),
            KeyCode::Down => self.detail_scrolled(1),
            KeyCode::Up => self.detail_scrolled(-1),
            KeyCode::PageDown => self.detail_scrolled(page),
            KeyCode::PageUp => self.detail_scrolled(-page),
            KeyCode::Char(c) => if c == 'q' {
                self.explorer_closed()
            } else if c == 'j' {
                self.detail_scrolled(1)
            } else if c == 'k' {
                self.detail_scrolled(-1)
            } else if c == 'g' {
                self.detail_at(0)
            } else if c == 'G' {
                self.detail_at(self.detail_end())
            } else {
                self
            },
            _ => self,
        }
    }

    /// A key while the explorer's filter is typed.
    pub open spec fn key_in_explorer_filter(self, key: KeyEvent) -> AppView {
        match key.code {
            KeyCode::Esc => self.filter_cleared(),
            KeyCode::Enter => self.filter_closed(),
            KeyCode::Backspace => self.filter_popped(),
            KeyCode::Char(c) => self.filter_pushed(c),
            _ => self,
        }
    }

    pub open spec fn explorer_closed(self) -> AppView {
        AppView { explorer: None, ..self }
    }

    /// A key on the rows of the explorer.
    pub open spec fn key_in_rows(self, key: KeyEvent) -> AppView {
        let page = page_of(self.viewport.explorer);
        match key.code {
            KeyCode::Esc => self.explorer_closed(),
            KeyCode::Enter => self.detail_opened(),
            KeyCode::Down => self.explorer_moved(1),
            KeyCode::Up => self.explorer_moved(-1),
            KeyCode::PageDown => self.explorer_moved(page),
            KeyCode::PageUp => self.explorer_moved(-page),
            KeyCode::Char(c) => if c == 'q' {
                self.explorer_closed()
            } else if c == 'j' {
                self.explorer_moved(1)
            } else if c == 'k' {
                self.explorer_moved(-1)
            } else if c == 'g' {
                self.explorer_first()
            } else if c == 'G' {
                self.explorer_last()
            } else if c == '/' {
                self.filter_opened()
            } else if c == ' ' {
                self.explorer_toggled()
            } else if c == 'c' {
                self.explorer_deselected()
            } else if c == 't' {
                self.op_requested(ExplorerOpKind::Taint)
            } else if c == 'D' {
                self.op_requested(ExplorerOpKind::StateRm)
            } else if c == 'p' {
                self.targeted_plan_pushed()
            } else if c == 'a' {
                self.op_requested(ExplorerOpKind::TargetedApply)
            } else if c == 'd' {
                self.op_requested(ExplorerOpKind::TargetedDestroy)
            } else if c == 'r' {
                self.load_started()
            } else {
                self
            },
            _ => self,
        }
    }

    /// A key in the explorer: it goes to what lies on top there.
    pub open spec fn key_in_explorer(self, key: KeyEvent) -> AppView {
        match self.explorer {
            Some(e) => if e.op_result is Some {
                self.result_dismissed()
            } else if e.plan_queued_notice {
                self.notice_dismissed()
            } else if e.op_confirm is Some {
                if key.code == KeyCode::Char('y') || key.code == KeyCode::Char('Y') {
                    self.op_started()
                } else {
                    self.op_dismissed()
                }
            } else if e.pending_op is Some {
                self
            } else if e.detail_view is Some {
                self.key_in_detail(key)
            } else if e.filter_active {
                self.key_in_explorer_filter(key)
            } else {
                self.key_in_rows(key)
            },
            None => self,
        }
    }

    /// The application after a key, in a terminal of `size`, and what the event
    /// loop must do.
    pub open spec fn key_pressed(self, size: Option<(u16, u16)>, key: KeyEvent) -> (
        AppView,
        ScreenAction,
    ) {
        if key.control && key.code == KeyCode::Char('c') {
            if self.modal == Some(ModalView::Quit) {
                (self, ScreenAction::Quit)
            } else {
                self.quit_asked()
            }
        } else if size is Some && ((size->0).0 < MIN_W || (size->0).1 < MIN_H) {
            if key.code == KeyCode::Char('q') {
                self.quit_asked()
            } else {
                (self, ScreenAction::Stay)
            }
        } else if self.is_fullscreen() {
            (self.key_in_output(key), ScreenAction::Stay)
        } else if self.modal is Some {
            self.key_in_modal(key)
        } else if self.explorer is Some {
            (self.key_in_explorer(key), ScreenAction::Stay)
        } else {
            let (a, action) = match self.screen {
                Screen::Select => self.key_in_select(key),
                Screen::Run => self.key_in_run(key),
            };
            match action {
                ScreenAction::Quit => a.quit_asked(),
                ScreenAction::Stay => (a, ScreenAction::Stay),
            }
        }
    }
}

/// Quits, or asks where tasks are still active.
fn ask_quit(app: &mut App) -> (r: ScreenAction)
    ensures
        (final(app)@, r) == old(app)@.quit_asked(),
{
    let ghost before = app@;
    if app.active_tasks().len() == 0 {
        return ScreenAction::Quit;
    }
    app.modal = Some(Modal::Quit);
    assert(app@ =~= before.with_modal(ModalView::Quit));
    ScreenAction::Stay
}

fn close_modal(app: &mut App)
    ensures
        final(app)@ == old(app)@.no_modal(),
{
    let ghost before = app@;
    app.modal = None;
    assert(app@ =~= before.no_modal());
}

/// Toggles the wrapping of long output lines.
pub fn toggle_wrap(app: &mut App)
    ensures
        final(app)@ == old(app)@.wrap_toggled(),
{
    let ghost before = app@;
    if let Some(s) = &mut app.session {
        s.output_wrap = !s.output_wrap;
    }
    assert(app@ =~= before.wrap_toggled());
}

/// Gives the output the full window, or takes it back.
pub fn set_fullscreen(app: &mut App, on: bool)
    ensures
        final(app)@ == old(app)@.fullscreen_set(on),
{
    let ghost before = app@;
    if let Some(s) = &mut app.session {
        s.fullscreen = on;
    }
    assert(app@ =~= before.fullscreen_set(on));
}

/// Escape out of the output in the full window: clears an active selection
/// first, and leaves only once there is none.
pub fn fullscreen_esc(app: &mut App)
    ensures
        final(app)@ == old(app)@.fullscreen_escaped(),
{
    let selected = match &app.session {
        Some(s) => s.selection.is_some(),
        None => false,
    };
    if selected {
        app.run_clear_selection();
    } else {
        set_fullscreen(app, false);
    }
}

/// Asks for a text to be copied to the clipboard, if there is one.
pub fn ask_copy(app: &mut App, text: Option<String>)
    ensures
        final(app)@ == old(app)@.copy_asked(crate::state::opt_text(text)),
{
    if let Some(text) = text {
        app.request(Request::Copy { text });
    }
}

fn output_key(app: &mut App, key: KeyEvent)
    ensures
        final(app)@ == old(app)@.key_in_output(key),
{
    let page = page(app.viewport.output);
    match key.code {
        KeyCode::Esc => fullscreen_esc(app),
        KeyCode::Char('j') | KeyCode::Down => {
            app.run_scroll_output(-1);
        },
        KeyCode::Char('k') | KeyCode::Up => {
            app.run_scroll_output(1);
        },
        KeyCode::PageDown => {
            app.run_scroll_output(-page);
        },
        KeyCode::PageUp => {
            app.run_scroll_output(page);
        },
        KeyCode::Char('g') => app.run_scroll_to_top(),
        KeyCode::Char('G') => app.run_scroll_to_bottom(),
        KeyCode::Char('w') => toggle_wrap(app),
        KeyCode::Char('y') => {
            let text = app.run_selected_text();
            ask_copy(app, text);
        },
        KeyCode::Char('Y') => {
            let text = app.run_all_output_text();
            ask_copy(app, text);
        },
        _ => {},
    }
}

fn modal_key(app: &mut App, key: KeyEvent) -> (r: ScreenAction)
    requires
        old(app)@.can_confirm(),
    ensures
        (final(app)@, r) == old(app)@.key_in_modal(key),
{
    let yes = match key.code {
        KeyCode::Char('y') | KeyCode::Char('Y') | KeyCode::Enter => true,
        _ => false,
    };
    match &app.modal {
        Some(Modal::Quit) => {
            match key.code {
                KeyCode::Char('q') => {
                    return ScreenAction::Quit;
                },
                KeyCode::Esc => close_modal(app),
                _ => {},
            }
        },
        Some(Modal::Confirm(_)) => {
            if yes {
                app.confirm_execute();
            } else {
                app.cancel_confirm();
            }
        },
        Some(Modal::CancelTasks(_)) => {
            if yes {
                app.cancel_staged_tasks();
            } else {
                close_modal(app);
            }
        },
        Some(Modal::ClearTasks) => {
            if yes {
                app.clear_completed_tasks();
            } else {
                close_modal(app);
            }
        },
        Some(Modal::Reset) => {
            if yes {
                app.reset_session();
            } else {
                close_modal(app);
            }
        },
        Some(Modal::Help) => close_modal(app),
        None => {},
    }
    ScreenAction::Stay
}

fn detail_key(app: &mut App, key: KeyEvent)
    ensures
        final(app)@ == old(app)@.key_in_detail(key),
{
    let page = page(app.viewport.explorer);
    match key.code {
        KeyCode::Esc => app.close_resource_detail(),
        KeyCode::Char('q') => app.close_state_explorer(),
        KeyCode::Char('j') | KeyCode::Down => app.resource_detail_scroll(1),
        KeyCode::Char('k') | KeyCode::Up => app.resource_detail_scroll(-1),
        KeyCode::PageDown => app.resource_detail_scroll(page),
        KeyCode::PageUp => app.resource_detail_scroll(-page),
        KeyCode::Char('g') => app.resource_detail_go_first(),
        KeyCode::Char('G') => app.resource_detail_go_last(),
        _ => {},
    }
}

fn explorer_filter_key(app: &mut App, key: KeyEvent)
    ensures
        final(app)@ == old(app)@.key_in_explorer_filter(key),
{
    match key.code {
        KeyCode::Esc => app.state_explorer_clear_filter(),
        KeyCode::Enter => app.state_explorer_deactivate_filter(),
        KeyCode::Backspace => app.state_explorer_filter_pop(),
        KeyCode::Char(c) => app.state_explorer_filter_push(c),
        _ => {},
    }
}

fn rows_key(app: &mut App, key: KeyEvent)
    requires
        old(app)@.explorer_can_push(1),
    ensures
        final(app)@ == old(app)@.key_in_rows(key),
{
    let page = page(app.viewport.explorer);
    match key.code {
        KeyCode::Esc | KeyCode::Char('q') => app.close_state_explorer(),
        KeyCode::Enter => app.open_resource_detail(),
        KeyCode::Char('j') | KeyCode::Down => app.state_explorer_move(1),
        KeyCode::Char('k') | KeyCode::Up => app.state_explorer_move(-1),
        KeyCode::PageDown => app.state_explorer_move(page),
        KeyCode::PageUp => app.state_explorer_move(-page),
        KeyCode::Char('g') => app.state_explorer_go_first(),
        KeyCode::Char('G') => app.state_explorer_go_last(),
        KeyCode::Char('/') => app.state_explorer_activate_filter(),
        KeyCode::Char(' ') => app.state_explorer_toggle_select(),
        KeyCode::Char('c') => app.state_explorer_clear_select(),
        KeyCode::Char('t') => app.request_op_confirm(ExplorerOpKind::Taint),
        KeyCode::Char('D') => app.request_op_confirm(ExplorerOpKind::StateRm),
        KeyCode::Char('p') => app.enqueue_targeted_plan(),
        KeyCode::Char('a') => app.request_op_confirm(ExplorerOpKind::TargetedApply),
        KeyCode::Char('d') => app.request_op_confirm(ExplorerOpKind::TargetedDestroy),
        KeyCode::Char('r') => app.refresh_state_explorer(),
        _ => {},
    }
}

fn dismiss_notice(app: &mut App)
    ensures
        final(app)@ == old(app)@.notice_dismissed(),
{
    let ghost before = app@;
    if let Some(e) = &mut app.state_explorer {
        e.plan_queued_notice = false;
    }
    assert(app@ =~= before.notice_dismissed());
}

fn explorer_key(app: &mut App, key: KeyEvent)
    requires
        old(app)@.explorer_can_push(1),
    ensures
        final(app)@ == old(app)@.key_in_explorer(key),
{
    let (result, notice, confirm, pending, detail, filter) = match &app.state_explorer {
        Some(e) => (
            e.op_result.is_some(),
            e.plan_queued_notice,
            e.op_confirm.is_some(),
            e.pending_op.is_some(),
            e.detail_view.is_some(),
            e.filter_active,
        ),
        None => {
            return ;
        },
    };
    if result {
        app.dismiss_op_result();
    } else if notice {
        dismiss_notice(app);
    } else if confirm {
        match key.code {
            KeyCode::Char('y') | KeyCode::Char('Y') => app.start_op(),
            _ => app.cancel_op_confirm(),
        }
    } else if pending {
        // Keys wait until the operation is done.
    } else if detail {
        detail_key(app, key);
    } else if filter {
        explorer_filter_key(app, key);
    } else {
        rows_key(app, key);
    }
}

/// Hands one key to the part of the application that it is for: the quit chord,
/// the output in the full window, an overlay, the explorer, or the screen. In a
/// terminal that is too small only quitting works.
pub fn handle_key_event(app: &mut App, size: Option<(u16, u16)>, key: KeyEvent) -> (r: ScreenAction)
    requires
        old(app)@.can_take(),
    ensures
        (final(app)@, r) == old(app)@.key_pressed(size, key),
{
    if key.control && key.code == KeyCode::Char('c') {
        if let Some(Modal::Quit) = &app.modal {
            return ScreenAction::Quit;
        }
        return ask_quit(app);
    }
    let small = match size {
        Some((w, h)) => w < MIN_W || h < MIN_H,
        None => false,
    };
    if small {
        if key.code == KeyCode::Char('q') {
            return ask_quit(app);
        }
        return ScreenAction::Stay;
    }
    let fullscreen = match &app.session {
        Some(s) => s.fullscreen,
        None => false,
    };
    if fullscreen {
        output_key(app, key);
        return ScreenAction::Stay;
    }
    if app.modal.is_some() {
        return modal_key(app, key);
    }
    if app.state_explorer.is_some() {
        explorer_key(app, key);
        return ScreenAction::Stay;
    }
    let action = match app.screen {
        Screen::Select => crate::ui::select::handle_key(app, key),
        Screen::Run => crate::ui::run::handle_key(app, key),
    };
    match action {
        ScreenAction::Quit => ask_quit(app),
        ScreenAction::Stay => ScreenAction::Stay,
    }
}

} // verus!
