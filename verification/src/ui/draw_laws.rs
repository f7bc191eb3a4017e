//! What is drawn stays within the window.

use crate::app::explorer::ExplorerView;
use crate::app::model::AppView;
use crate::app::tasks::{over_count, pending_ids};
use crate::app::types::{
    ConfirmKind, ExplorerOpKind, ModalView, OpResultView, PendingOpView, Screen, SessionView,
    TargetView,
};
use crate::ui::confirm::confirm_popup;
use crate::ui::draw::{explorer_overlay, is_small};
use crate::ui::frame::{asked_push, fits, over, part_fits, stacked, PopupView, WidgetView};
use crate::ui::help::{help_popup, small_frame};
use crate::ui::layout::{height_tier, popup_keeps_its_margin, popup_of, HeightTier, Rect};
use crate::ui::popups::{
    active_briefs, cancel_popup, clear_popup, notice_popup, op_popup, progress_popup, quit_popup,
    reset_popup, result_popup, staged_briefs, BriefView,
};
use crate::ui::run::{
    board_area, board_parts_fit, has_col_header, low_frame, low_heights, low_parts_fit, run_frame,
    run_heights, run_parts_fit,
};
use crate::ui::select::{select_frame, select_heights};
use crate::ui::state_view::explorer_box;
use crate::ui::theme::{frame_at, frame_text};
use vstd::prelude::*;

verus! {

/// Where a widget is drawn.
pub open spec fn area_of(w: WidgetView) -> Rect {
    match w {
        WidgetView::Clear { area } => area,
        WidgetView::Text { area, .. } => area,
        WidgetView::Framed(p) => p.area,
        WidgetView::Rule { area, .. } => area,
        WidgetView::List { area, .. } => area,
    }
}

/// Whether an area lies within another one.
pub open spec fn within(r: Rect, area: Rect) -> bool {
    &&& area.x <= r.x && r.x + r.width <= area.x + area.width
    &&& area.y <= r.y && r.y + r.height <= area.y + area.height
}

/// Whether all widgets lie within an area.
pub open spec fn all_within(ws: Seq<WidgetView>, area: Rect) -> bool {
    forall|i: int| 0 <= i < ws.len() ==> within(area_of(#[trigger] ws[i]), area)
}

proof fn both_within(a: Seq<WidgetView>, b: Seq<WidgetView>, area: Rect)
    requires
        all_within(a, area),
        all_within(b, area),
    ensures
        all_within(a + b, area),
{
    assert forall|i: int| 0 <= i < (a + b).len() implies within(
        area_of(#[trigger] (a + b)[i]),
        area,
    ) by {
        if i < a.len() {
            assert((a + b)[i] == a[i]);
        } else {
            assert((a + b)[i] == b[i - a.len()]);
        }
    }
}

proof fn popups_within(area: Rect)
    requires
        fits(area),
        area.width >= 3,
        area.height >= 3,
    ensures
        forall|w: u16, h: u16| within(#[trigger] popup_of(w, h, area), area),
{
    assert forall|w: u16, h: u16| within(#[trigger] popup_of(w, h, area), area) by {
        popup_keeps_its_margin(w, h, area);
    }
}

proof fn over_within(p: PopupView, area: Rect)
    requires
        within(p.area, area),
    ensures
        all_within(over(p), area),
{
}

proof fn task_popups_within(
    v: Seq<BriefView>,
    plans: nat,
    queued: nat,
    finished: nat,
    area: Rect,
)
    requires
        fits(area),
        area.width >= 3,
        area.height >= 3,
    ensures
        within(quit_popup(v, area).area, area),
        within(cancel_popup(v, area).area, area),
        within(clear_popup(finished, queued, area).area, area),
        within(reset_popup(plans, queued, finished, area).area, area),
{
    popups_within(area);
}

proof fn question_popups_within(
    screen: Screen,
    kind: ConfirmKind,
    targets: Seq<TargetView>,
    area: Rect,
)
    requires
        fits(area),
        area.width >= 3,
        area.height >= 3,
    ensures
        within(help_popup(screen, area).area, area),
        within(confirm_popup(kind, targets, area).area, area),
{
    popups_within(area);
}

proof fn operation_popups_within(
    kind: ExplorerOpKind,
    targets: Seq<Seq<char>>,
    op: PendingOpView,
    result: OpResultView,
    area: Rect,
)
    requires
        fits(area),
        area.width >= 3,
        area.height >= 3,
    ensures
        within(op_popup(kind, targets, area).area, area),
        within(progress_popup(op, area).area, area),
        within(result_popup(result, area).area, area),
        within(notice_popup(area).area, area),
{
    popups_within(area);
}

/// The parts of the select screen.
pub proof fn select_parts_fit(area: Rect)
    requires
        fits(area),
        area.height >= 5,
    ensures
        forall|i: int|
            0 <= i < 6 ==> within(#[trigger] stacked(area, select_heights(area))[i], area),
{
    let spacer: u16 = if area.height >= 20 {
        1
    } else {
        0
    };
    let none = Seq::<Option<u16>>::empty();
    let hs = select_heights(area);
    asked_push(none, Some(1));
    asked_push(none.push(Some(1)), Some(1));
    asked_push(none.push(Some(1)).push(Some(1)), Some(spacer));
    asked_push(none.push(Some(1)).push(Some(1)).push(Some(spacer)), None);
    asked_push(none.push(Some(1)).push(Some(1)).push(Some(spacer)).push(None), Some(1));
    asked_push(
        none.push(Some(1)).push(Some(1)).push(Some(spacer)).push(None).push(Some(1)),
        Some(1),
    );
    assert(hs =~= none.push(Some(1)).push(Some(1)).push(Some(spacer)).push(None).push(
        Some(1),
    ).push(Some(1)));
    assert forall|i: int| 0 <= i < 6 implies within(#[trigger] stacked(area, hs)[i], area) by {
        part_fits(area, hs, 3, i);
    }
}

proof fn select_within(a: AppView, area: Rect)
    requires
        fits(area),
        area.height >= 5,
    ensures
        all_within(select_frame(a, area), area),
{
    select_parts_fit(area);
    let parts = stacked(area, select_heights(area));
    assert(within(parts[0], area) && within(parts[1], area) && within(parts[3], area));
    assert(within(parts[4], area) && within(parts[5], area));
    let head = crate::ui::select::header_widgets(a, parts[0], parts[1]);
    assert(all_within(head, area));
    let middle = seq![
        crate::ui::select::list_widget(a, parts[3], area.width),
        crate::ui::select::text_at(parts[4], crate::ui::select::status_line(a)),
    ];
    assert(all_within(middle, area));
    let bottom = crate::ui::select::bottom_widgets(a, parts[5]);
    assert(all_within(bottom, area));
    both_within(head, middle, area);
    both_within(head + middle, bottom, area);
}

proof fn run_parts_within(s: SessionView, area: Rect)
    requires
        fits(area),
        area.height >= 15,
    ensures
        forall|i: int|
            0 <= i < 5 ==> within(
                #[trigger] stacked(area, run_heights(s.modules.len(), area))[i],
                area,
            ),
        within(board_area(s.modules.len(), area), area),
        has_col_header(height_tier(area.height)) ==> within(
            stacked(
                stacked(area, run_heights(s.modules.len(), area))[1],
                seq![Some(1u16), None],
            )[0],
            area,
        ),
{
    let n = s.modules.len();
    let hs = run_heights(n, area);
    run_parts_fit(n, area);
    assert forall|i: int| 0 <= i < 5 implies within(#[trigger] stacked(area, hs)[i], area) by {
        assert(hs[3] is None);
        part_fits(area, hs, 3, i);
    }
    let board = stacked(area, hs)[1];
    assert(within(board, area));
    let two = seq![Some(1u16), None];
    if has_col_header(height_tier(area.height)) {
        board_parts_fit(board);
        assert(two[1] is None);
        part_fits(board, two, 1, 0);
        part_fits(board, two, 1, 1);
    }
}

proof fn run_within(a: AppView, s: SessionView, area: Rect)
    requires
        fits(area),
        area.height >= 15,
        a.session == Some(s),
    ensures
        all_within(run_frame(a, s, area), area),
{
    run_parts_within(s, area);
    let n = s.modules.len();
    let parts = stacked(area, run_heights(n, area));
    assert(within(parts[0], area) && within(parts[2], area) && within(parts[3], area));
    assert(within(parts[4], area));
    let frame = run_frame(a, s, area);
    assert forall|i: int| 0 <= i < frame.len() implies within(
        area_of(#[trigger] frame[i]),
        area,
    ) by {}
}

proof fn low_within(a: AppView, s: SessionView, area: Rect)
    requires
        fits(area),
        area.height >= 3,
        a.session == Some(s),
    ensures
        all_within(low_frame(a, s, area), area),
{
    low_parts_fit(area);
    let hs = low_heights();
    assert(hs[1] is None);
    part_fits(area, hs, 1, 0);
    part_fits(area, hs, 1, 1);
    part_fits(area, hs, 1, 2);
    part_fits(area, hs, 1, 3);
    let frame = low_frame(a, s, area);
    assert forall|i: int| 0 <= i < frame.len() implies within(
        area_of(#[trigger] frame[i]),
        area,
    ) by {}
}

proof fn overlay_within(a: AppView, area: Rect)
    requires
        fits(area),
        area.width >= 3,
        area.height >= 3,
    ensures
        all_within(a.overlay(area), area),
{
    let tasks = a.engine.tasks;
    let n = tasks.len() as int;
    match a.modal {
        None => {},
        Some(ModalView::Quit) => {
            let v = active_briefs(tasks, n);
            task_popups_within(v, 0, 0, 0, area);
            over_within(quit_popup(v, area), area);
        },
        Some(ModalView::Help) => {
            question_popups_within(a.screen, ConfirmKind::Apply, Seq::empty(), area);
            over_within(help_popup(a.screen, area), area);
        },
        Some(ModalView::Confirm { kind, targets }) => {
            question_popups_within(a.screen, kind, targets, area);
            over_within(confirm_popup(kind, targets, area), area);
        },
        Some(ModalView::CancelTasks(ids)) => {
            let v = staged_briefs(tasks, ids, ids.len() as int);
            task_popups_within(v, 0, 0, 0, area);
            over_within(cancel_popup(v, area), area);
        },
        Some(ModalView::ClearTasks) => {
            let done = over_count(tasks, n);
            let rest = (n - done) as nat;
            task_popups_within(Seq::empty(), 0, rest, done, area);
            over_within(clear_popup(done, rest, area), area);
        },
        Some(ModalView::Reset) => {
            let plans = a.engine.plans.dom().len();
            let queued = pending_ids(tasks, n).len();
            let done = over_count(tasks, n);
            task_popups_within(Seq::empty(), plans, queued, done, area);
            over_within(reset_popup(plans, queued, done, area), area);
        },
    }
}

proof fn explorer_overlay_within(e: ExplorerView, area: Rect)
    requires
        fits(area),
        area.width >= 3,
        area.height >= 3,
    ensures
        all_within(explorer_overlay(e, area), area),
{
    let kind = e.op_confirm->0;
    let op = e.pending_op->0;
    let result = e.op_result->0;
    operation_popups_within(kind, e.op_targets, op, result, area);
    over_within(op_popup(kind, e.op_targets, area), area);
    over_within(progress_popup(op, area), area);
    over_within(result_popup(result, area), area);
    over_within(notice_popup(area), area);
}

proof fn fullscreen_within(a: AppView, area: Rect)
    ensures
        all_within(a.fullscreen_frame(area), area),
{
}

proof fn explorer_within(a: AppView, area: Rect)
    requires
        fits(area),
        !is_small(area),
        !a.is_fullscreen(),
        a.explorer is Some,
    ensures
        all_within(a.frame(area), area),
{
    let e = a.explorer->0;
    let p = explorer_box(e, frame_text(frame_at(a.spinner_tick)), area);
    assert(p.area == area) by {
        match e.detail_view {
            Some(d) => {},
            None => {},
        }
    }
    let base = seq![WidgetView::Framed(p)];
    assert(all_within(base, area));
    explorer_overlay_within(e, area);
    both_within(base, explorer_overlay(e, area), area);
}

/// Everything is drawn within the window: no widget lies even partly outside.
pub proof fn drawing_stays_in_the_window(a: AppView, area: Rect)
    requires
        fits(area),
        area.height > 0,
    ensures
        all_within(a.frame(area), area),
{
    if is_small(area) {
        assert(all_within(small_frame(area), area));
    } else if a.is_fullscreen() {
        fullscreen_within(a, area);
    } else if a.explorer is Some {
        explorer_within(a, area);
    } else {
        overlay_within(a, area);
        match a.screen {
            Screen::Select => {
                select_within(a, area);
                both_within(select_frame(a, area), a.overlay(area), area);
            },
            Screen::Run => {
                match a.session {
                    Some(s) => {
                        if height_tier(area.height) == HeightTier::H4 {
                            low_within(a, s, area);
                        } else {
                            run_within(a, s, area);
                        }
                    },
                    None => {},
                }
                both_within(a.run_frame(area), a.overlay(area), area);
            },
        }
    }
}

} // verus!
