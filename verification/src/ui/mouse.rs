//! Mouse events: the wheel, clicks on rows, and selecting output by dragging.

use crate::app::model::{App, AppView};
use crate::app::pane::edge;
use crate::app::types::{Modal, ModalView, Screen};
use crate::ui::keys::ask_copy;
use vstd::prelude::*;

verus! {

/// What the mouse did. Presses, drags and releases are those of the left button.
#[derive(Debug, Clone, Copy, PartialEq, Eq, Structural)]
pub enum MouseKind {
    Down,
    Drag,
    Up,
    ScrollUp,
    ScrollDown,
    Other,
}

/// What the mouse did, and where.
#[derive(Debug, Clone, Copy, PartialEq, Eq, Structural)]
pub struct MouseEvent {
    pub kind: MouseKind,
    pub column: u16,
    pub row: u16,
}

impl AppView {
    /// Whether a point lies in the output pane as it was last drawn.
    pub open spec fn in_output(self, m: MouseEvent) -> bool {
        let vp = self.viewport;
        &&& vp.output_top != u16::MAX
        &&& vp.output_width != 0
        &&& vp.output_top <= m.row < edge(vp.output_top, vp.output)
        &&& vp.output_left <= m.column < edge(vp.output_left, vp.output_width)
    }

    /// A drag beyond the upper or lower edge of the output pane scrolls it.
    pub open spec fn edge_scrolled(self, m: MouseEvent) -> AppView {
        let vp = self.viewport;
        if vp.output_top == u16::MAX {
            self
        } else if m.row < vp.output_top {
            self.output_scrolled(1)
        } else if m.row >= edge(vp.output_top, vp.output) {
            self.output_scrolled(-1)
        } else {
            self
        }
    }

    /// A press, drag or release over the output, and whether it was one.
    pub open spec fn output_moused(self, m: MouseEvent) -> (AppView, bool) {
        match m.kind {
            MouseKind::Down => match self.hit(m.column, m.row, false) {
                Some(pos) => (self.selection_armed(pos), true),
                None => if self.in_output(m) {
                    (self.selection_cleared(), true)
                } else {
                    (self, false)
                },
            },
            MouseKind::Drag => {
                let a = if self.is_dragging() {
                    self
                } else {
                    self.selection_begun()
                };
                if !self.is_dragging() && !self.press_waits() {
                    (a, false)
                } else {
                    let b = a.edge_scrolled(m);
                    match b.hit(m.column, m.row, true) {
                        Some(pos) => (b.selection_dragged(pos), true),
                        None => (b, true),
                    }
                }
            },
            MouseKind::Up => if self.is_dragging() {
                let a = self.selection_ended();
                (a.copy_asked(a.selected_text()), true)
            } else {
                (
                    self.press_discarded(),
                    self.session is Some && (self.session->0).pending_sel is Some,
                )
            },
            _ => (self, false),
        }
    }

    /// Whether an overlay keeps the mouse out. Help does not.
    pub open spec fn mouse_is_shut_out(self) -> bool {
        self.filter_active || (self.modal is Some && self.modal != Some(ModalView::Help))
    }

    /// Whether a press or a drag is under way: it goes on wherever the pointer
    /// is.
    pub open spec fn gesture_is_active(self) -> bool {
        self.session is Some && (self.session->0).pending_sel is Some || self.is_dragging()
    }

    pub open spec fn explorer_moused(self, m: MouseEvent) -> AppView {
        let detail = self.explorer is Some && (self.explorer->0).detail_view is Some;
        match m.kind {
            MouseKind::ScrollUp => if detail {
                self.detail_scrolled(-3)
            } else {
                self.explorer_moved(-1)
            },
            MouseKind::ScrollDown => if detail {
                self.detail_scrolled(3)
            } else {
                self.explorer_moved(1)
            },
            _ => self,
        }
    }

    pub open spec fn fullscreen_moused(self, m: MouseEvent) -> AppView {
        let (a, taken) = self.output_moused(m);
        if taken {
            a
        } else {
            match m.kind {
                MouseKind::ScrollUp => a.output_scrolled(1),
                MouseKind::ScrollDown => a.output_scrolled(-1),
                _ => a,
            }
        }
    }

    pub open spec fn select_moused(self, m: MouseEvent) -> AppView {
        let vp = self.viewport;
        match m.kind {
            MouseKind::ScrollUp => self.cursor_moved(-1),
            MouseKind::ScrollDown => self.cursor_moved(1),
            MouseKind::Down => if vp.list_top <= m.row < edge(vp.list_top, vp.list) {
                self.cursor_set((vp.list_offset + (m.row - vp.list_top)) as usize)
            } else {
                self
            },
            _ => self,
        }
    }

    pub open spec fn run_moused(self, m: MouseEvent) -> AppView {
        let (a, taken) = self.output_moused(m);
        let vp = self.viewport;
        let in_board = vp.board_top <= m.row < edge(vp.board_top, vp.board);
        let in_output = m.row >= vp.output_top;
        if taken {
            a
        } else {
            match m.kind {
                MouseKind::ScrollUp => if in_output {
                    a.output_scrolled(3)
                } else {
                    a.board_cursor_moved(-1)
                },
                MouseKind::ScrollDown => if in_output {
                    a.output_scrolled(-3)
                } else {
                    a.board_cursor_moved(1)
                },
                MouseKind::Down => if in_board {
                    a.board_cursor_set((vp.board_offset + (m.row - vp.board_top)) as usize)
                } else {
                    a
                },
                _ => a,
            }
        }
    }

    /// The application after a mouse event.
    pub open spec fn moused(self, m: MouseEvent) -> AppView {
        if self.mouse_is_shut_out() {
            self
        } else if self.explorer is Some {
            self.explorer_moused(m)
        } else if self.gesture_is_active() && (m.kind == MouseKind::Drag || m.kind
            == MouseKind::Up) {
            self.output_moused(m).0
        } else if self.is_fullscreen() {
            self.fullscreen_moused(m)
        } else {
            match self.screen {
                Screen::Select => self.select_moused(m),
                Screen::Run => self.run_moused(m),
            }
        }
    }

    /// Whether a mouse event can be taken in: a drag needs an output pane with
    /// cells, where there is a pane. An application in order has that.
    pub open spec fn can_take_mouse(self, m: MouseEvent) -> bool {
        self.layout.wf() && (m.kind == MouseKind::Drag ==> self.pane_has_cells())
    }
}

/// Whether a point lies in the output pane as it was last drawn, on content or
/// not.
pub fn point_in_output_region(app: &App, mouse: &MouseEvent) -> (r: bool)
    ensures
        r == app@.in_output(*mouse),
{
    let vp = &app.viewport;
    if vp.output_top == u16::MAX || vp.output_width == 0 {
        return false;
    }
    mouse.row >= vp.output_top && mouse.row < vp.output_top.saturating_add(vp.output)
        && mouse.column >= vp.output_left && mouse.column < vp.output_left.saturating_add(
        vp.output_width,
    )
}

fn dragging(app: &App) -> (r: bool)
    ensures
        r == app@.is_dragging(),
{
    match &app.session {
        Some(s) => match &s.selection {
            Some(sel) => sel.dragging,
            None => false,
        },
        None => false,
    }
}

fn drag(app: &mut App, mouse: &MouseEvent) -> (r: bool)
    requires
        old(app)@.layout.wf(),
        old(app)@.pane_has_cells(),
        mouse.kind == MouseKind::Drag,
    ensures
        (final(app)@, r) == old(app)@.output_moused(*mouse),
{
    if !dragging(app) && !app.run_selection_begin_from_pending() {
        return false;
    }
    let top = app.viewport.output_top;
    if top != u16::MAX {
        if mouse.row < top {
            app.run_scroll_output(1);
        } else if mouse.row >= top.saturating_add(app.viewport.output) {
            app.run_scroll_output(-1);
        }
    }
    if let Some(pos) = app.output_hit_test(mouse.column, mouse.row, true) {
        app.run_selection_drag(pos);
    }
    true
}

/// Presses, drags and releases over the output pane, in the full window or on
/// the run screen. Returns whether the event was one.
///
/// A press alone selects nothing: it becomes a selection once it is dragged. A
/// press beside the text drops the selection. A release ends the drag and asks
/// for the text to be copied.
pub fn handle_output_mouse(app: &mut App, mouse: &MouseEvent) -> (r: bool)
    requires
        old(app)@.can_take_mouse(*mouse),
    ensures
        (final(app)@, r) == old(app)@.output_moused(*mouse),
{
    match mouse.kind {
        MouseKind::Down => {
            if let Some(pos) = app.output_hit_test(mouse.column, mouse.row, false) {
                app.run_selection_arm(pos);
                true
            } else if point_in_output_region(app, mouse) {
                app.run_clear_selection();
                true
            } else {
                false
            }
        },
        MouseKind::Drag => drag(app, mouse),
        MouseKind::Up => {
            if dragging(app) {
                app.run_selection_end();
                let text = app.run_selected_text();
                ask_copy(app, text);
                true
            } else {
                app.run_discard_pending_sel()
            }
        },
        _ => false,
    }
}

fn explorer_mouse(app: &mut App, mouse: &MouseEvent)
    ensures
        final(app)@ == old(app)@.explorer_moused(*mouse),
{
    let detail = match &app.state_explorer {
        Some(e) => e.detail_view.is_some(),
        None => false,
    };
    match mouse.kind {
        MouseKind::ScrollUp => {
            if detail {
                app.resource_detail_scroll(-3);
            } else {
                app.state_explorer_move(-1);
            }
        },
        MouseKind::ScrollDown => {
            if detail {
                app.resource_detail_scroll(3);
            } else {
                app.state_explorer_move(1);
            }
        },
        _ => {},
    }
}

fn select_mouse(app: &mut App, mouse: &MouseEvent)
    ensures
        final(app)@ == old(app)@.select_moused(*mouse),
{
    match mouse.kind {
        MouseKind::ScrollUp => {
            app.move_module_selection(-1);
        },
        MouseKind::ScrollDown => {
            app.move_module_selection(1);
        },
        MouseKind::Down => {
            let top = app.viewport.list_top;
            let h = app.viewport.list;
            if mouse.row >= top && mouse.row < top.saturating_add(h) {
                let pos: usize = app.viewport.list_offset as usize + (mouse.row - top) as usize;
                app.set_module_cursor(pos);
            }
        },
        _ => {},
    }
}

fn run_mouse(app: &mut App, mouse: &MouseEvent)
    requires
        old(app)@.can_take_mouse(*mouse),
    ensures
        final(app)@ == old(app)@.run_moused(*mouse),
{
    let board_top = app.viewport.board_top;
    let board_h = app.viewport.board;
    let board_offset = app.viewport.board_offset;
    let in_output = mouse.row >= app.viewport.output_top;
    if handle_output_mouse(app, mouse) {
        return ;
    }
    match mouse.kind {
        MouseKind::ScrollUp => {
            if in_output {
                app.run_scroll_output(3);
            } else {
                app.run_move_cursor(-1);
            }
        },
        MouseKind::ScrollDown => {
            if in_output {
                app.run_scroll_output(-3);
            } else {
                app.run_move_cursor(1);
            }
        },
        MouseKind::Down => {
            if mouse.row >= board_top && mouse.row < board_top.saturating_add(board_h) {
                let pos: usize = board_offset as usize + (mouse.row - board_top) as usize;
                app.run_set_cursor(pos);
            }
        },
        _ => {},
    }
}

/// Handles one mouse event. Overlays other than help keep it out; the explorer
/// takes the wheel alone. A gesture that has begun over the output goes on
/// wherever the pointer is. Else the wheel moves or scrolls, and a click sets
/// the cursor on the row that it lands on.
pub fn handle_mouse(app: &mut App, mouse: MouseEvent)
    requires
        old(app)@.can_take_mouse(mouse),
    ensures
        final(app)@ == old(app)@.moused(mouse),
{
    let overlay = match &app.modal {
        Some(Modal::Help) => false,
        Some(_) => true,
        None => false,
    };
    if app.filter_active || overlay {
        return ;
    }
    if app.state_explorer.is_some() {
        explorer_mouse(app, &mouse);
        return ;
    }
    let gesture = match &app.session {
        Some(s) => s.pending_sel.is_some(),
        None => false,
    } || dragging(app);
    if gesture && (mouse.kind == MouseKind::Drag || mouse.kind == MouseKind::Up) {
        handle_output_mouse(app, &mouse);
        return ;
    }
    let fullscreen = match &app.session {
        Some(s) => s.fullscreen,
        None => false,
    };
    if fullscreen {
        if handle_output_mouse(app, &mouse) {
            return ;
        }
        match mouse.kind {
            MouseKind::ScrollUp => {
                app.run_scroll_output(1);
            },
            MouseKind::ScrollDown => {
                app.run_scroll_output(-1);
            },
            _ => {},
        }
        return ;
    }
    match app.screen {
        Screen::Select => select_mouse(app, &mouse),
        Screen::Run => run_mouse(app, &mouse),
    }
}

proof fn output_mouse_keeps_order(a: AppView, m: MouseEvent)
    ensures
        a.valid() ==> a.output_moused(m).0.valid(),
        a.output_moused(m).0.engine == a.engine,
{
}

/// Whatever the mouse does, an application in order stays in order, and its
/// tasks are left alone.
pub proof fn mouse_keeps_order(a: AppView, m: MouseEvent)
    requires
        a.valid(),
    ensures
        a.moused(m).valid(),
        a.moused(m).engine == a.engine,
{
    output_mouse_keeps_order(a, m);
}

/// A press and a release on the same place select nothing, and copy nothing.
pub proof fn a_plain_click_copies_nothing(a: AppView, down: MouseEvent, up: MouseEvent)
    requires
        down.kind == MouseKind::Down,
        up.kind == MouseKind::Up,
        a.session is Some,
        a.hit(down.column, down.row, false) is Some,
    ensures
        ({
            let b = a.output_moused(down).0.output_moused(up).0;
            &&& b.requests == a.requests
            &&& (b.session->0).selection is None
            &&& (b.session->0).pending_sel is None
        }),
{
}

} // verus!
