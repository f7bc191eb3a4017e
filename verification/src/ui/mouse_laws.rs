//! What the mouse does.

use crate::app::model::{AppView, RequestView};
use crate::app::types::{ModalView, Screen};
use crate::ui::mouse::{MouseEvent, MouseKind};
use vstd::prelude::*;

verus! {

/// Whether nothing keeps the mouse from a screen.
pub open spec fn is_open_to_the_mouse(a: AppView) -> bool {
    &&& a.modal is None
    &&& !a.filter_active
    &&& a.explorer is None
    &&& a.session is Some ==> !(a.session->0).fullscreen && (a.session->0).pending_sel is None && (
    (a.session->0).selection is Some ==> !((a.session->0).selection->0).dragging)
}

/// A click on a row of the module list puts the cursor on the module that is
/// drawn there; one beside the list or below its last module does nothing.
pub proof fn a_click_in_the_list_moves_the_cursor(a: AppView, m: MouseEvent)
    requires
        is_open_to_the_mouse(a),
        a.screen == Screen::Select,
        m.kind == MouseKind::Down,
        a.viewport.list_top + a.viewport.list <= u16::MAX,
        a.visible().len() <= usize::MAX,
        a.viewport.list_offset + u16::MAX <= usize::MAX,
    ensures
        ({
            let vp = a.viewport;
            let at = vp.list_offset + m.row - vp.list_top;
            &&& vp.list_top <= m.row < vp.list_top + vp.list && at < a.visible().len() ==> a.moused(
                m,
            ) == (AppView { selected_module: at as usize, ..a })
            &&& m.row < vp.list_top || m.row >= vp.list_top + vp.list || at >= a.visible().len()
                ==> a.moused(m) == a
        }),
{
}

/// A click on a row of the run board puts the cursor on that row.
#[verifier::rlimit(40)]
pub proof fn a_click_on_the_board_moves_the_cursor(a: AppView, m: MouseEvent)
    requires
        is_open_to_the_mouse(a),
        a.screen == Screen::Run,
        a.session is Some,
        m.kind == MouseKind::Down,
        a.hit(m.column, m.row, false) is None,
        !a.in_output(m),
        a.viewport.board_top + a.viewport.board <= u16::MAX,
        a.viewport.board_offset + u16::MAX <= usize::MAX,
        (a.session->0).modules.len() <= usize::MAX,
    ensures
        ({
            let vp = a.viewport;
            let at = vp.board_offset + m.row - vp.board_top;
            &&& vp.board_top <= m.row < vp.board_top + vp.board && at < (a.session->0).modules.len()
                ==> (a.moused(m).session->0).cursor == at
            &&& m.row < vp.board_top || m.row >= vp.board_top + vp.board ==> a.moused(m) == a
            &&& a.moused(m).engine == a.engine
        }),
{
}

/// The wheel moves the cursor of the module list by one, and that of the run
/// board where the pointer is above the output; over the output it scrolls.
pub proof fn the_wheel_moves_or_scrolls(a: AppView, m: MouseEvent)
    requires
        is_open_to_the_mouse(a),
    ensures
        a.screen == Screen::Select && m.kind == MouseKind::ScrollDown ==> a.moused(m)
            == a.cursor_moved(1),
        a.screen == Screen::Select && m.kind == MouseKind::ScrollUp ==> a.moused(m)
            == a.cursor_moved(-1),
        a.screen == Screen::Run && m.kind == MouseKind::ScrollDown && m.row < a.viewport.output_top
            ==> a.moused(m) == a.board_cursor_moved(1),
        a.screen == Screen::Run && m.kind == MouseKind::ScrollUp && m.row < a.viewport.output_top
            ==> a.moused(m) == a.board_cursor_moved(-1),
        a.screen == Screen::Run && m.kind == MouseKind::ScrollUp && m.row >= a.viewport.output_top
            ==> a.moused(m) == a.output_scrolled(3),
        a.screen == Screen::Run && m.kind == MouseKind::ScrollDown && m.row >= a.viewport.output_top
            ==> a.moused(m) == a.output_scrolled(-3),
{
}

/// While something is asked or typed, the mouse does nothing. It never starts or
/// stops a task.
#[verifier::rlimit(40)]
pub proof fn the_mouse_starts_nothing(a: AppView, m: MouseEvent)
    ensures
        a.filter_active ==> a.moused(m) == a,
        a.modal is Some && a.modal != Some(ModalView::Help) ==> a.moused(m) == a,
        a.moused(m).engine == a.engine,
        a.moused(m).multi_select == a.multi_select,
        a.moused(m).modal == a.modal,
{
}

/// The end of a drag copies what is selected, and nothing else is asked for.
#[verifier::rlimit(40)]
pub proof fn a_drag_ends_with_a_copy(a: AppView, m: MouseEvent)
    requires
        a.modal is None,
        !a.filter_active,
        a.explorer is None,
        a.session is Some,
        (a.session->0).selection is Some,
        ((a.session->0).selection->0).dragging,
        m.kind == MouseKind::Up,
    ensures
        ({
            let b = a.moused(m);
            let ended = a.selection_ended();
            &&& ended.selected_text() is Some ==> b.requests == a.requests.push(
                RequestView::Copy { text: ended.selected_text()->0 },
            )
            &&& ended.selected_text() is None ==> b.requests == a.requests
        }),
{
}

} // verus!
