//! Drawing: which screen and which overlays are shown.

use crate::app::explorer::ExplorerView;
use crate::app::model::{App, AppView};
use crate::app::pane::less;
use crate::app::session::syncing_keeps_layout;
use crate::app::tasks::{over_count, pending_ids};
use crate::app::types::{
    target_views, ConfirmKind, ConfirmTarget, Modal, ModalView, Screen, ViewportHeights,
};
use crate::ui::theme;
use crate::ui::confirm::{can_shorten, confirm_popup, ids_can_shorten, render_confirm};
use crate::ui::frame::{
    bytes_in, fits, over, push_popup, widget_views, widget_views_push, Widget, WidgetView,
};
use crate::ui::help::{help_popup, render_help, render_too_small, small_frame};
use crate::ui::layout::{height_tier, too_small, MIN_H, MIN_W, HeightTier, Rect};
use crate::ui::popups::{
    active_briefs, active_list, cancel_popup, clear_popup, notice_popup, op_popup, progress_popup,
    quit_popup, render_cancel_task_confirm, render_clear_tasks_confirm, render_op_confirm,
    render_op_progress, render_op_result, render_plan_queued_notice, render_quit_wait,
    render_reset_confirm, reset_popup, result_popup, staged_briefs, staged_list,
};
use crate::ui::run::{run_heights, run_parts_fit};
use crate::ui::state_view::{explorer_box, render_state_explorer};
use crate::ui::theme::{frame_at, frame_text};
use vstd::prelude::*;

verus! {

/// Whether an area is too small for the screens.
pub open spec fn is_small(area: Rect) -> bool {
    area.width < MIN_W || area.height < MIN_H
}

/// What lies over the explorer: the first of its overlays that is open.
pub open spec fn explorer_overlay(e: ExplorerView, area: Rect) -> Seq<WidgetView> {
    if e.op_confirm is Some {
        over(op_popup(e.op_confirm->0, e.op_targets, area))
    } else if e.pending_op is Some {
        over(progress_popup(e.pending_op->0, area))
    } else if e.op_result is Some {
        over(result_popup(e.op_result->0, area))
    } else if e.plan_queued_notice {
        over(notice_popup(area))
    } else {
        Seq::empty()
    }
}

impl AppView {
    /// What lies over the screens.
    pub open spec fn overlay(self, area: Rect) -> Seq<WidgetView> {
        let tasks = self.engine.tasks;
        let n = tasks.len() as int;
        match self.modal {
            None => Seq::empty(),
            Some(ModalView::Quit) => over(quit_popup(active_briefs(tasks, n), area)),
            Some(ModalView::Help) => over(help_popup(self.screen, area)),
            Some(ModalView::Confirm { kind, targets }) => over(confirm_popup(kind, targets, area)),
            Some(ModalView::CancelTasks(ids)) => {
                let staged = staged_briefs(tasks, ids, ids.len() as int);
                if staged.len() > 0 {
                    over(cancel_popup(staged, area))
                } else {
                    Seq::empty()
                }
            },
            Some(ModalView::ClearTasks) => {
                let completed = over_count(tasks, n);
                if completed > 0 {
                    over(clear_popup(completed, (n - completed) as nat, area))
                } else {
                    Seq::empty()
                }
            },
            Some(ModalView::Reset) => over(
                reset_popup(
                    self.engine.plans.dom().len(),
                    pending_ids(tasks, n).len(),
                    over_count(tasks, n),
                    area,
                ),
            ),
        }
    }

    /// What is drawn: a guard in a terminal that is too small, the output in the
    /// full window, the explorer, or a screen, with what lies over it.
    pub open spec fn frame(self, area: Rect) -> Seq<WidgetView> {
        if is_small(area) {
            small_frame(area)
        } else if self.is_fullscreen() {
            self.fullscreen_frame(area)
        } else if self.explorer is Some {
            let e = self.explorer->0;
            seq![
                WidgetView::Framed(explorer_box(e, frame_text(frame_at(self.spinner_tick)), area)),
            ] + explorer_overlay(e, area)
        } else {
            (match self.screen {
                Screen::Select => crate::ui::select::select_frame(self, area),
                Screen::Run => self.run_frame(area),
            }) + self.overlay(area)
        }
    }

    /// The application once it was drawn: where things are on the terminal.
    pub open spec fn drawn(self, area: Rect) -> AppView {
        if is_small(area) {
            self
        } else if self.is_fullscreen() {
            self.output_placed(AppView::inner(area))
        } else if self.explorer is Some {
            AppView {
                viewport: ViewportHeights {
                    explorer: less(area.height as int, 7) as u16,
                    ..self.viewport
                },
                ..self
            }
        } else {
            match self.screen {
                Screen::Select => self.select_drawn(area),
                Screen::Run => self.run_drawn(area),
            }
        }
    }

    /// Whether the application can be drawn: the lock ids that it would show
    /// can be shortened.
    pub open spec fn can_draw(self) -> bool {
        &&& self.layout.wf()
        &&& match self.modal {
            Some(ModalView::Confirm { kind, targets }) => ids_can_shorten(kind, targets),
            _ => true,
        }
    }
}

fn push_modal(frame: &mut Vec<Widget>, app: &App, area: Rect)
    requires
        app@.can_draw(),
    ensures
        widget_views(final(frame)@) == widget_views(old(frame)@) + app@.overlay(area),
{
    let ghost had = widget_views(frame@);
    match &app.modal {
        None => {},
        Some(Modal::Quit) => {
            push_popup(frame, render_quit_wait(area, &active_list(&app.engine.tasks)));
        },
        Some(Modal::Help) => {
            push_popup(frame, render_help(area, app.screen));
        },
        Some(Modal::Confirm(confirm)) => {
            push_popup(frame, render_confirm(area, confirm));
        },
        Some(Modal::CancelTasks(ids)) => {
            let tasks = staged_list(&app.engine, ids);
            assert(crate::ui::popups::brief_views(tasks@).len() == tasks@.len());
            if tasks.len() > 0 {
                push_popup(frame, render_cancel_task_confirm(area, &tasks));
            }
        },
        Some(Modal::ClearTasks) => {
            let completed = app.completed_task_count();
            if completed > 0 {
                let n: usize = app.engine.tasks.len();
                assert(app@.engine.tasks.len() == n);
                push_popup(frame, render_clear_tasks_confirm(area, completed, n - completed));
            }
        },
        Some(Modal::Reset) => {
            let (plans, queued, finished) = app.reset_summary();
            push_popup(frame, render_reset_confirm(area, plans, queued, finished));
        },
    }
    assert(widget_views(frame@) =~= had + app@.overlay(area));
}

fn draw_explorer(area: Rect, app: &App) -> (r: Vec<Widget>)
    requires
        app@.explorer is Some,
    ensures
        widget_views(r@) == seq![
            WidgetView::Framed(
                explorer_box(app@.explorer->0, frame_text(frame_at(app@.spinner_tick)), area),
            ),
        ] + explorer_overlay(app@.explorer->0, area),
{
    broadcast use widget_views_push;

    let mut frame: Vec<Widget> = Vec::new();
    assert(widget_views(frame@) =~= Seq::<WidgetView>::empty());
    if let Some(e) = &app.state_explorer {
        frame.push(
            Widget::Framed(render_state_explorer(area, e, theme::spinner(app.spinner_tick))),
        );
        let ghost base = widget_views(frame@);
        assert(base =~= seq![
            WidgetView::Framed(explorer_box(e@, frame_text(frame_at(app@.spinner_tick)), area)),
        ]);
        if let Some(kind) = e.op_confirm {
            push_popup(&mut frame, render_op_confirm(area, kind, &e.op_targets));
        } else if let Some(op) = &e.pending_op {
            push_popup(&mut frame, render_op_progress(area, op));
        } else if let Some(result) = &e.op_result {
            push_popup(&mut frame, render_op_result(area, result));
        } else if e.plan_queued_notice {
            push_popup(&mut frame, render_plan_queued_notice(area));
        }
        assert(widget_views(frame@) =~= base + explorer_overlay(e@, area));
    }
    frame
}

/// Draws the application in an area, and notes where things are for page keys
/// and the mouse.
pub fn draw(area: Rect, app: &mut App) -> (r: Vec<Widget>)
    requires
        fits(area),
        old(app)@.can_draw(),
    ensures
        widget_views(r@) == old(app)@.frame(area),
        final(app)@ == old(app)@.drawn(area),
{
    let ghost before = app@;
    if too_small(area) {
        return render_too_small(area);
    }
    let fullscreen = match &app.session {
        Some(s) => s.fullscreen,
        None => false,
    };
    if fullscreen {
        return crate::ui::run::render_fullscreen_output(area, app);
    }
    if app.state_explorer.is_some() {
        app.viewport.explorer = area.height.saturating_sub(7);
        assert(app@ =~= before.drawn(area));
        return draw_explorer(area, app);
    }
    proof {
        screens_keep_overlay(before, area);
    }
    let mut frame = match app.screen {
        Screen::Select => crate::ui::select::render(area, app),
        Screen::Run => crate::ui::run::render(area, app),
    };
    push_modal(&mut frame, app, area);
    frame
}

proof fn screens_keep_overlay(a: AppView, area: Rect)
    requires
        fits(area),
        !is_small(area),
        a.can_draw(),
    ensures
        a.select_drawn(area).overlay(area) == a.overlay(area),
        a.select_drawn(area).can_draw(),
        a.run_drawn(area).overlay(area) == a.overlay(area),
        a.shown_lines().len() <= usize::MAX ==> a.run_drawn(area).can_draw(),
{
    match a.session {
        Some(s) => {
            if height_tier(area.height) != HeightTier::H4 {
                let pane = crate::ui::frame::stacked(area, run_heights(s.modules.len(), area))[3];
                placing_keeps_rest(a, pane);
            }
        },
        None => {},
    }
}

proof fn placing_keeps_rest(a: AppView, pane: Rect)
    requires
        a.layout.wf(),
    ensures
        a.output_placed(pane) == (AppView {
            viewport: a.output_placed(pane).viewport,
            layout: a.output_placed(pane).layout,
            session: a.output_placed(pane).session,
            ..a
        }),
        a.shown_lines().len() <= usize::MAX ==> a.output_placed(pane).layout.wf(),
{
    let b = AppView {
        viewport: ViewportHeights {
            output: pane.height,
            output_top: pane.y,
            output_left: pane.x,
            output_width: pane.width,
            ..a.viewport
        },
        ..a
    };
    assert(b.shown_lines() == a.shown_lines());
    if a.shown_lines().len() <= usize::MAX {
        syncing_keeps_layout(b.layout, b.shown_id(), b.shown_lines(), pane.width, a.wraps());
    }
}

/// Drawing changes nothing but where things are: the output's scrolling is held
/// within the pane, and a selection of output that is no longer shown goes. The
/// application stays in order.
pub proof fn drawing_keeps_order(a: AppView, area: Rect)
    requires
        a.valid(),
        fits(area),
        a.shown_lines().len() <= usize::MAX,
    ensures
        a.drawn(area).valid(),
        a.drawn(area).engine == a.engine,
        a.drawn(area).modules == a.modules,
        a.drawn(area).multi_select == a.multi_select,
        a.drawn(area).screen == a.screen,
        a.drawn(area).modal == a.modal,
        a.drawn(area).explorer == a.explorer,
        a.drawn(area).requests == a.requests,
{
    if !is_small(area) {
        if a.is_fullscreen() {
            placing_keeps_order(a, AppView::inner(area));
        } else if a.explorer is None && a.screen == Screen::Run {
            match a.session {
                Some(s) => {
                    if height_tier(area.height) != HeightTier::H4 {
                        run_parts_fit(s.modules.len(), area);
                        placing_keeps_order(
                            a,
                            crate::ui::frame::stacked(area, run_heights(s.modules.len(), area))[3],
                        );
                    }
                },
                None => {},
            }
        }
    }
}

proof fn placing_keeps_order(a: AppView, pane: Rect)
    requires
        a.valid(),
        a.shown_lines().len() <= usize::MAX,
        pane.width > 0,
        pane.height > 0,
        fits(pane),
    ensures
        a.output_placed(pane).valid(),
        a.output_placed(pane).engine == a.engine,
        a.output_placed(pane) == (AppView {
            viewport: a.output_placed(pane).viewport,
            layout: a.output_placed(pane).layout,
            session: a.output_placed(pane).session,
            ..a
        }),
{
    placing_keeps_rest(a, pane);
}

fn ids_fit(targets: &Vec<ConfirmTarget>) -> (r: bool)
    ensures
        r == ids_can_shorten(ConfirmKind::ForceUnlock, target_views(targets@)),
{
    let ghost ts = target_views(targets@);
    let mut i: usize = 0;
    while i < targets.len()
        invariant
            i <= targets@.len(),
            ts == target_views(targets@),
            forall|k: int|
                0 <= k < i && (#[trigger] ts[k]).lock_id is Some ==> can_shorten(ts[k].lock_id->0),
        decreases targets@.len() - i,
    {
        assert(ts[i as int] == targets@[i as int]@);
        if let Some(id) = &targets[i].lock_id {
            if bytes_in(id.as_str()) > 8 && !id.as_str().is_char_boundary(8) {
                assert(ts[i as int].lock_id is Some && !can_shorten(ts[i as int].lock_id->0));
                return false;
            }
        }
        i += 1;
    }
    true
}

/// Whether the lock ids that the open question shows can be shortened.
pub fn lock_ids_can_be_shown(app: &App) -> (r: bool)
    ensures
        app@.layout.wf() ==> r == app@.can_draw(),
{
    match &app.modal {
        Some(Modal::Confirm(c)) => c.kind != ConfirmKind::ForceUnlock || ids_fit(&c.targets),
        _ => true,
    }
}

} // verus!
