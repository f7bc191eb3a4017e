//! What the keys of each screen do.

use crate::app::command_laws::{after_key, after_keys, is_bare, is_on_rows, is_usable, typed};
use crate::app::explorer::{ContentView, ExplorerView};
use crate::app::model::{toggling_flips, AppView, RequestView};
use crate::app::types::{ModalView, Screen};
use crate::ui::keys::{KeyCode, KeyEvent, ScreenAction};
use vstd::prelude::*;

verus! {

/// The application after a key that is no character.
#[verifier::opaque]
pub open spec fn after_code(a: AppView, size: Option<(u16, u16)>, code: KeyCode) -> AppView {
    a.key_pressed(size, KeyEvent { code, control: false }).0
}

/// Whether the module list takes the keys.
pub open spec fn is_on_list(a: AppView, size: Option<(u16, u16)>) -> bool {
    is_usable(size) && is_bare(a) && a.screen == Screen::Select && !a.filter_active
}

/// Whether the run board takes the keys.
pub open spec fn is_on_board(a: AppView, size: Option<(u16, u16)>) -> bool {
    is_usable(size) && is_bare(a) && a.screen == Screen::Run && a.session is Some
}

/// In the module list the cursor moves down and up by one place, and jumps to
/// the first and to the last; the ends stop it. Nothing else changes.
#[verifier::rlimit(40)]
pub proof fn the_list_cursor_follows_the_keys(a: AppView, size: Option<(u16, u16)>)
    requires
        is_on_list(a, size),
        a.selected_module < a.visible().len() <= usize::MAX,
    ensures
        ({
            let at = a.selected_module as int;
            let last = a.visible().len() - 1;
            let down = after_key(a, size, 'j');
            let up = after_key(a, size, 'k');
            &&& down.selected_module == if at < last { at + 1 } else { last }
            &&& up.selected_module == if at > 0 { at - 1 } else { 0 }
            &&& after_key(a, size, 'g').selected_module == 0
            &&& after_key(a, size, 'G').selected_module == last
            &&& down == (AppView { selected_module: down.selected_module, ..a })
            &&& up == (AppView { selected_module: up.selected_module, ..a })
            &&& after_code(a, size, KeyCode::Down) == down
            &&& after_code(a, size, KeyCode::Up) == up
        }),
{
    reveal(after_key);
    reveal(after_code);
}

/// A page of the module list is as long as the list is high, and never empty.
#[verifier::rlimit(40)]
pub proof fn pages_are_as_long_as_the_list_is_high(a: AppView, size: Option<(u16, u16)>)
    requires
        is_on_list(a, size),
        a.selected_module < a.visible().len() <= usize::MAX,
        0 < a.viewport.list,
    ensures
        ({
            let at = a.selected_module as int;
            let last = a.visible().len() - 1;
            let h = a.viewport.list as int;
            &&& after_code(a, size, KeyCode::PageDown).selected_module == if at + h <= last {
                at + h
            } else {
                last
            }
            &&& after_code(a, size, KeyCode::PageUp).selected_module == if at >= h {
                at - h
            } else {
                0
            }
        }),
{
    reveal(after_code);
}

/// In the module list, space selects, `*` selects all that is shown, `c` selects
/// nothing and lifts the depth limit, and the brackets set the limit. None of
/// them starts anything.
#[verifier::rlimit(40)]
pub proof fn the_list_keys_select(a: AppView, size: Option<(u16, u16)>)
    requires
        is_on_list(a, size),
    ensures
        after_key(a, size, ' ') == a.selection_toggled(),
        a.key_pressed(size, KeyEvent { code: KeyCode::Char(' '), control: true }).0
            == a.range_selected(),
        after_key(a, size, '*') == a.visible_toggled(),
        after_key(a, size, 'c').multi_select.len() == 0,
        after_key(a, size, 'c').max_depth is None,
        after_key(a, size, 'c').filter == a.filter,
        after_key(a, size, '[').max_depth == a.depth_decreased().max_depth,
        after_key(a, size, ']').max_depth == a.depth_increased().max_depth,
        forall|c: char|
            c == ' ' || c == '*' || c == 'c' || c == '[' || c == ']' ==> (#[trigger] after_key(
                a,
                size,
                c,
            )).engine == a.engine,
{
    reveal(after_key);
}

/// `/` starts a new filter, and Escape in the list drops the one there is.
#[verifier::rlimit(40)]
pub proof fn the_filter_is_opened(a: AppView, size: Option<(u16, u16)>)
    requires
        is_on_list(a, size),
    ensures
        after_key(a, size, '/').filter_active,
        after_key(a, size, '/').filter.len() == 0,
        after_code(a, size, KeyCode::Esc).filter.len() == 0,
        !after_code(a, size, KeyCode::Esc).filter_active,
        after_code(a, size, KeyCode::Esc).multi_select == a.multi_select,
{
    reveal(after_key);
    reveal(after_code);
}

/// While the filter is typed, each character goes behind it, backspace takes the
/// last one back, Enter keeps it and Escape drops it.
#[verifier::rlimit(40)]
pub proof fn the_filter_is_typed(a: AppView, size: Option<(u16, u16)>, c: char)
    requires
        is_usable(size),
        is_bare(a),
        a.screen == Screen::Select,
        a.filter_active,
    ensures
        after_key(a, size, c).filter == a.filter.push(c),
        after_key(a, size, c).filter_active,
        after_code(a, size, KeyCode::Backspace).filter == (if a.filter.len() > 0 {
            a.filter.drop_last()
        } else {
            a.filter
        }),
        after_code(a, size, KeyCode::Backspace).filter_active,
        after_code(a, size, KeyCode::Enter).filter == a.filter,
        !after_code(a, size, KeyCode::Enter).filter_active,
        after_code(a, size, KeyCode::Esc).filter.len() == 0,
        !after_code(a, size, KeyCode::Esc).filter_active,
{
    reveal(after_key);
    reveal(after_code);
}

/// What leads out of the module list: Enter to the run screen for the targets,
/// Tab back to the session, `s` to the state of the module under the cursor, `r`
/// to a new search for modules, `R` to the question about a reset, `?` to help.
#[verifier::rlimit(40)]
pub proof fn the_list_leads_on(a: AppView, size: Option<(u16, u16)>)
    requires
        is_on_list(a, size),
        a.selected_module < a.visible().len(),
        a.visible()[a.selected_module as int] < a.modules.len(),
    ensures
        after_code(a, size, KeyCode::Enter) == a.run_entered(),
        a.session is Some ==> after_code(a, size, KeyCode::Tab) == (AppView {
            screen: Screen::Run,
            ..a
        }),
        ({
            let i = a.visible()[a.selected_module as int];
            let b = after_key(a, size, 's');
            &&& b.explorer is Some
            &&& (b.explorer->0).module_idx == i
            &&& (b.explorer->0).module_name == a.modules[i as int].name
            &&& (b.explorer->0).content is Loading
            &&& (b.explorer->0).loading == Some(a.load_count)
            &&& b.requests == a.requests.push(
                RequestView::ReadState {
                    load_id: a.load_count,
                    module_dir: a.modules[i as int].path,
                },
            )
            &&& b.engine == a.engine
        }),
        after_key(a, size, 'r').requests == a.requests.push(RequestView::Discover),
        after_key(a, size, 'R').modal == Some(ModalView::Reset),
        after_key(a, size, '?').modal == Some(ModalView::Help),
        after_key(a, size, 'R').engine == a.engine,
{
    reveal(after_key);
    reveal(after_code);
}

/// An action key in the module list enters the run screen for the targets, and
/// then acts as it does there.
#[verifier::rlimit(40)]
pub proof fn an_action_key_enters_and_acts(a: AppView, size: Option<(u16, u16)>, c: char)
    requires
        is_on_list(a, size),
        a.targets().len() > 0,
        a.session is None,
        c == 'i' || c == 'u' || c == 'p' || c == 'a' || c == 'd' || c == 'U',
    ensures
        a.run_entered().screen == Screen::Run,
        after_key(a, size, c) == after_key(a.run_entered(), size, c),
{
    reveal(after_key);
    let b = a.run_entered();
    assert(b.screen == Screen::Run);
    assert(b.session is Some && !(b.session->0).fullscreen);
    assert(a.key_pressed(size, typed(c)).0 == b.key_in_run(typed(c)).0);
}

/// On the run board the cursor moves down and up by one row, and jumps to the
/// first and the last.
#[verifier::rlimit(40)]
pub proof fn the_board_cursor_follows_the_keys(a: AppView, size: Option<(u16, u16)>)
    requires
        is_on_board(a, size),
        (a.session->0).cursor < (a.session->0).modules.len() <= i32::MAX,
    ensures
        ({
            let s = a.session->0;
            let at = s.cursor as int;
            let last = s.modules.len() - 1;
            let down = after_key(a, size, 'j').session->0;
            let up = after_key(a, size, 'k').session->0;
            let first = after_key(a, size, 'g').session->0;
            let end = after_key(a, size, 'G').session->0;
            &&& down.cursor == if at < last { at + 1 } else { last }
            &&& up.cursor == if at > 0 { at - 1 } else { 0 }
            &&& first.cursor == 0
            &&& end.cursor == last
            &&& down.modules == s.modules && down.selected == s.selected
            &&& up.modules == s.modules && up.selected == s.selected
            &&& after_code(a, size, KeyCode::Down) == after_key(a, size, 'j')
            &&& after_code(a, size, KeyCode::Up) == after_key(a, size, 'k')
        }),
{
    reveal(after_key);
    reveal(after_code);
}

/// On the run board, space selects a row, `*` all of them and `c` none; `w`
/// wraps the output or not, Enter lets it fill the window, Escape leads back to
/// the module list, and `s` opens the state of the highlighted module.
#[verifier::rlimit(40)]
pub proof fn the_board_keys_select_and_lead_on(a: AppView, size: Option<(u16, u16)>)
    requires
        is_on_board(a, size),
        (a.session->0).cursor < (a.session->0).modules.len(),
        a.session_sound(),
    ensures
        after_key(a, size, ' ') == a.board_toggled(),
        a.key_pressed(size, KeyEvent { code: KeyCode::Char(' '), control: true }).0
            == a.board_ranged(),
        after_key(a, size, '*') == a.board_all_toggled(),
        (after_key(a, size, 'c').session->0).selected.len() == 0,
        (after_key(a, size, 'w').session->0).output_wrap == !(a.session->0).output_wrap,
        (after_code(a, size, KeyCode::Enter).session->0).fullscreen,
        after_code(a, size, KeyCode::Esc) == (AppView { screen: Screen::Select, ..a }),
        ({
            let b = after_key(a, size, 's');
            &&& b.explorer is Some
            &&& (b.explorer->0).module_idx == (a.session->0).modules[(a.session->0).cursor as int].module_idx
        }),
        after_key(a, size, 'U').requests == a.requests.push(
            RequestView::ReadLocks { targets: a.run_scope() },
        ),
        after_key(a, size, 'U').engine == a.engine,
{
    reveal(after_key);
    reveal(after_code);
}

/// Whether an overlay is open that asks for an answer.
pub open spec fn is_asked(a: AppView, size: Option<(u16, u16)>) -> bool {
    &&& is_usable(size)
    &&& a.session is Some ==> !(a.session->0).fullscreen
    &&& a.modal is Some
    &&& !(a.modal->0 is Quit)
}

/// `y`, `Y` and Enter agree to what an overlay asks; every other key closes it
/// and nothing comes of it.
#[verifier::rlimit(40)]
pub proof fn only_agreeing_has_consequences(a: AppView, size: Option<(u16, u16)>, key: KeyEvent)
    requires
        is_asked(a, size),
        !key.control,
    ensures
        key.code == KeyCode::Char('y') || key.code == KeyCode::Char('Y') || key.code == KeyCode::Enter
            ==> a.key_pressed(size, key).0 == after_key(a, size, 'y'),
        key.code != KeyCode::Char('y') && key.code != KeyCode::Char('Y') && key.code
            != KeyCode::Enter ==> a.key_pressed(size, key).0 == (AppView { modal: None, ..a }),
        a.key_pressed(size, key).1 == ScreenAction::Stay,
{
    reveal(after_key);
}

/// Escape from the question whether to quit goes on; `q` quits. A quit with
/// nothing active is not asked about.
#[verifier::rlimit(40)]
pub proof fn quitting_is_asked_about(a: AppView, size: Option<(u16, u16)>)
    requires
        is_usable(size),
        a.session is Some ==> !(a.session->0).fullscreen,
    ensures
        a.modal == Some(ModalView::Quit) ==> a.key_pressed(size, typed('q')).1 == ScreenAction::Quit,
        a.modal == Some(ModalView::Quit) ==> after_code(a, size, KeyCode::Esc) == (AppView {
            modal: None,
            ..a
        }),
        is_bare(a) && !a.filter_active ==> {
            let (b, action) = a.key_pressed(size, typed('q'));
            let active = exists|i: int|
                0 <= i < a.engine.tasks.len() && !(#[trigger] a.engine.tasks[i]).status.over();
            &&& active ==> b == (AppView { modal: Some(ModalView::Quit), ..a }) && action
                == ScreenAction::Stay
            &&& !active ==> b == a && action == ScreenAction::Quit
        },
{
    reveal(after_code);
    active_are_kept(a.engine.tasks);
}

proof fn active_are_kept(tasks: Seq<crate::task::TaskView>)
    ensures
        crate::engine_laws::active_only(tasks).len() > 0 <==> exists|i: int|
            0 <= i < tasks.len() && !(#[trigger] tasks[i]).status.over(),
    decreases tasks.len(),
{
    reveal(Seq::filter);
    if tasks.len() > 0 {
        let front = tasks.drop_last();
        active_are_kept(front);
        if exists|i: int| 0 <= i < tasks.len() && !(#[trigger] tasks[i]).status.over() {
            let i = choose|i: int| 0 <= i < tasks.len() && !(#[trigger] tasks[i]).status.over();
            if i < front.len() {
                assert(!front[i].status.over());
            }
        }
        if exists|i: int| 0 <= i < front.len() && !(#[trigger] front[i]).status.over() {
            let i = choose|i: int| 0 <= i < front.len() && !(#[trigger] front[i]).status.over();
            assert(!tasks[i].status.over());
        }
        if !tasks.last().status.over() {
            assert(!tasks[tasks.len() - 1].status.over());
        }
    }
}

/// Clearing forgets exactly the tasks that are over, and is asked about only
/// where there are any.
pub proof fn clearing_forgets_what_is_over(a: AppView, size: Option<(u16, u16)>, i: int)
    requires
        is_on_board(a, size),
        0 <= i < a.engine.tasks.len(),
    ensures
        ({
            let b = after_keys(a, size, 'x', 'y');
            &&& a.engine.tasks[i].status.over() ==> after_key(a, size, 'x').modal == Some(
                ModalView::ClearTasks,
            )
            &&& !a.engine.tasks[i].status.over() ==> b.engine.tasks.contains(a.engine.tasks[i])
                || after_key(a, size, 'x') == a
            &&& after_key(a, size, 'x').modal is Some ==> forall|k: int|
                0 <= k < b.engine.tasks.len() ==> {
                    let t = #[trigger] b.engine.tasks[k];
                    !t.status.over() && a.engine.tasks.contains(t)
                }
            &&& after_key(a, size, 'x').engine == a.engine
            &&& b.engine.plans == a.engine.plans
        }),
{
    let tasks = a.engine.tasks;
    over_are_counted(tasks, tasks.len() as int);
    kept_are(tasks);
    let x = after_key(a, size, 'x');
    clear_key(a, size);
    if x.modal is Some {
        clear_answer(x, size);
        let kept = crate::engine_laws::active_only(tasks);
        assert forall|k: int| 0 <= k < kept.len() implies {
            let t = #[trigger] kept[k];
            !t.status.over() && tasks.contains(t)
        } by {
            assert(kept.contains(kept[k]));
        }
    } else {
        assert(x == a);
        other_key(a, size);
    }
}

#[verifier::rlimit(40)]
proof fn clear_key(a: AppView, size: Option<(u16, u16)>)
    requires
        is_on_board(a, size),
    ensures
        after_key(a, size, 'x') == a.clear_requested(),
{
    reveal(after_key);
}

#[verifier::rlimit(40)]
proof fn other_key(a: AppView, size: Option<(u16, u16)>)
    requires
        is_on_board(a, size),
    ensures
        after_key(a, size, 'y') == a,
{
    reveal(after_key);
}

#[verifier::rlimit(40)]
proof fn clear_answer(a: AppView, size: Option<(u16, u16)>)
    requires
        is_usable(size),
        a.session is Some ==> !(a.session->0).fullscreen,
        a.modal == Some(ModalView::ClearTasks),
    ensures
        after_key(a, size, 'y') == a.completed_cleared(),
{
    reveal(after_key);
}

proof fn over_are_counted(tasks: Seq<crate::task::TaskView>, n: int)
    requires
        0 <= n <= tasks.len(),
    ensures
        forall|i: int|
            0 <= i < n && (#[trigger] tasks[i]).status.over() ==> crate::app::tasks::over_count(
                tasks,
                n,
            ) > 0,
    decreases n,
{
    if n > 0 {
        over_are_counted(tasks, n - 1);
    }
}

proof fn kept_are(tasks: Seq<crate::task::TaskView>)
    ensures
        forall|t: crate::task::TaskView|
            #[trigger] crate::engine_laws::active_only(tasks).contains(t) <==> tasks.contains(t)
                && !t.status.over(),
    decreases tasks.len(),
{
    reveal(Seq::filter);
    let kept = crate::engine_laws::active_only(tasks);
    if tasks.len() > 0 {
        let front = tasks.drop_last();
        kept_are(front);
        let before = crate::engine_laws::active_only(front);
        assert forall|t: crate::task::TaskView| #[trigger] kept.contains(t) <==> tasks.contains(t)
            && !t.status.over() by {
            assert(before.contains(t) <==> front.contains(t) && !t.status.over());
            if kept.contains(t) {
                let k = choose|k: int| 0 <= k < kept.len() && kept[k] == t;
                if k < before.len() {
                    assert(before[k] == t);
                    assert(before.contains(t));
                    let j = choose|j: int| 0 <= j < front.len() && front[j] == t;
                    assert(tasks[j] == t);
                } else {
                    assert(tasks[tasks.len() - 1] == t);
                }
            }
            if tasks.contains(t) && !t.status.over() {
                let j = choose|j: int| 0 <= j < tasks.len() && tasks[j] == t;
                if j < front.len() {
                    assert(front[j] == t);
                    assert(front.contains(t));
                    assert(before.contains(t));
                    let k = choose|k: int| 0 <= k < before.len() && before[k] == t;
                    assert(kept[k] == t);
                } else {
                    assert(kept[before.len() as int] == t);
                }
            }
        }
    }
}

/// On the rows of the explorer the highlight moves like a cursor, space selects
/// the highlighted row, `c` selects nothing, `r` reads the state anew, `q` and
/// Escape close.
#[verifier::rlimit(40)]
pub proof fn the_explorer_keys_move_and_select(a: AppView, size: Option<(u16, u16)>)
    requires
        is_usable(size),
        is_on_rows(a),
        (a.explorer->0).selected < (a.explorer->0).rows().len() <= usize::MAX,
    ensures
        ({
            let e = a.explorer->0;
            let at = e.selected as int;
            let last = e.rows().len() - 1;
            &&& (after_key(a, size, 'j').explorer->0).selected == if at < last { at + 1 } else { last }
            &&& (after_key(a, size, 'k').explorer->0).selected == if at > 0 { at - 1 } else { 0 }
            &&& (after_key(a, size, 'g').explorer->0).selected == 0
            &&& (after_key(a, size, 'G').explorer->0).selected == last
            &&& (after_key(a, size, 'c').explorer->0).multi_select.len() == 0
            &&& (after_key(a, size, 'c').explorer->0).module_select.len() == 0
            &&& after_key(a, size, 'q').explorer is None
            &&& after_code(a, size, KeyCode::Esc).explorer is None
            &&& after_key(a, size, ' ') == a.explorer_toggled()
            &&& after_key(a, size, '/').explorer is Some && (after_key(a, size, '/').explorer->0).filter_active
            &&& (after_key(a, size, '/').explorer->0).filter.len() == 0
        }),
{
    reveal(after_key);
    reveal(after_code);
}

/// A read of the state is asked for once at a time, for the explorer's module,
/// and what it gives is shown: nothing stays selected.
#[verifier::rlimit(40)]
pub proof fn the_state_is_read_and_shown(a: AppView, content: ContentView)
    requires
        a.explorer is Some,
        (a.explorer->0).module_idx < a.modules.len(),
        (a.explorer->0).loading is None,
    ensures
        ({
            let b = a.load_started();
            let c = b.state_installed(a.load_count, content);
            &&& (b.explorer->0).loading == Some(a.load_count)
            &&& b.requests == a.requests.push(
                RequestView::ReadState {
                    load_id: a.load_count,
                    module_dir: a.modules[(a.explorer->0).module_idx as int].path,
                },
            )
            &&& b.load_started() == b
            &&& c.explorer is Some
            &&& (c.explorer->0).content == content
            &&& (c.explorer->0).loading is None
            &&& (c.explorer->0).multi_select.len() == 0
            &&& (c.explorer->0).module_select.len() == 0
            &&& (c.explorer->0).filter == (a.explorer->0).filter
            &&& (c.explorer->0).rows().len() > 0 && (c.explorer->0).rows().len() <= usize::MAX ==> (
            c.explorer->0).selected < (c.explorer->0).rows().len()
            &&& b.load_count != a.load_count
        }),
{
}

/// Selecting the row of a resource flips that resource and nothing else.
pub proof fn a_resource_is_selected_by_its_row(a: AppView, i: usize, y: usize)
    requires
        a.explorer is Some,
        (a.explorer->0).row() is Some,
        (a.explorer->0).row()->0 is Resource,
        ((a.explorer->0).row()->0)->res_idx == i as int,
        (a.explorer->0).multi_select.no_duplicates(),
    ensures
        ({
            let e = a.explorer->0;
            let f = a.explorer_toggled().explorer->0;
            &&& f.multi_select.contains(i) != e.multi_select.contains(i)
            &&& y != i ==> f.multi_select.contains(y) == e.multi_select.contains(y)
            &&& f.module_select == e.module_select
            &&& f.selected == e.selected
        }),
{
    toggling_flips((a.explorer->0).multi_select, i);
}

/// The detail of a resource shows that resource, scrolls line by line and stops
/// at both ends.
pub proof fn the_detail_is_of_the_highlighted_resource(a: AppView, delta: int)
    requires
        a.explorer is Some,
        (a.explorer->0).detail_view is None,
        (a.explorer->0).content is Resources,
        (a.explorer->0).row() is Some,
        (a.explorer->0).row()->0 is Resource,
        0 <= ((a.explorer->0).row()->0)->res_idx < ((a.explorer->0).content->Resources_0).len(),
    ensures
        ({
            let e = a.explorer->0;
            let i = (e.row()->0)->res_idx;
            let b = a.detail_opened();
            let d = (b.explorer->0).detail_view->0;
            let last = d.lines.len() - 1;
            &&& (b.explorer->0).detail_view is Some
            &&& d.address == (e.content->Resources_0)[i].address
            &&& d.scroll == 0
            &&& last <= usize::MAX && 0 <= delta <= last ==> ((b.detail_scrolled(
                delta,
            ).explorer->0).detail_view->0).scroll == delta
            &&& last <= usize::MAX && delta > last >= 0 ==> ((b.detail_scrolled(
                delta,
            ).explorer->0).detail_view->0).scroll == last
            &&& delta < 0 ==> ((b.detail_scrolled(delta).explorer->0).detail_view->0).scroll == 0
            &&& b.detail_closed() == a
        }),
{
    assert(a.detail_opened().detail_closed().explorer->0 =~= a.explorer->0);
    assert(a.detail_opened().detail_closed() =~= a);
}

/// Whether the output fills the window.
pub open spec fn is_on_output(a: AppView, size: Option<(u16, u16)>) -> bool {
    is_usable(size) && a.session is Some && (a.session->0).fullscreen
}

/// With the output in the full window, `k` and `j` scroll it by one row, `g` and
/// `G` go to its ends, `w` wraps it, `y` copies what is selected and `Y` all of
/// it. Escape drops the selection, and then leaves the full window.
#[verifier::rlimit(40)]
pub proof fn the_output_keys_scroll_and_copy(a: AppView, size: Option<(u16, u16)>)
    requires
        is_on_output(a, size),
    ensures
        after_key(a, size, 'k') == a.output_scrolled(1),
        after_key(a, size, 'j') == a.output_scrolled(-1),
        after_code(a, size, KeyCode::Up) == a.output_scrolled(1),
        after_code(a, size, KeyCode::Down) == a.output_scrolled(-1),
        a.max_scroll() <= usize::MAX ==> (after_key(a, size, 'g').session->0).output_scroll
            == a.max_scroll(),
        (after_key(a, size, 'G').session->0).output_scroll == 0,
        (after_key(a, size, 'w').session->0).output_wrap == !(a.session->0).output_wrap,
        a.selected_text() is Some ==> after_key(a, size, 'y').requests == a.requests.push(
            RequestView::Copy { text: a.selected_text()->0 },
        ),
        a.selected_text() is None ==> after_key(a, size, 'y') == a,
        a.output_text() is Some ==> after_key(a, size, 'Y').requests == a.requests.push(
            RequestView::Copy { text: a.output_text()->0 },
        ),
        (a.session->0).selection is Some ==> (after_code(
            a,
            size,
            KeyCode::Esc,
        ).session->0).selection is None && (after_code(a, size, KeyCode::Esc).session->0).fullscreen,
        (a.session->0).selection is None ==> !(after_code(
            a,
            size,
            KeyCode::Esc,
        ).session->0).fullscreen,
        after_key(a, size, 'q') == a,
{
    reveal(after_key);
    reveal(after_code);
}

/// Whether the detail of a resource takes the keys.
pub open spec fn is_on_detail(a: AppView, size: Option<(u16, u16)>) -> bool {
    &&& is_usable(size)
    &&& a.modal is None
    &&& a.session is Some ==> !(a.session->0).fullscreen
    &&& a.explorer is Some
    &&& (a.explorer->0).op_result is None
    &&& !(a.explorer->0).plan_queued_notice
    &&& (a.explorer->0).op_confirm is None
    &&& (a.explorer->0).pending_op is None
    &&& (a.explorer->0).detail_view is Some
}

/// In the detail of a resource `j` and `k` scroll by one line, `g` and `G` go to
/// its ends, Escape goes back to the rows and `q` closes the explorer. No key
/// there starts anything.
#[verifier::rlimit(40)]
pub proof fn the_detail_keys_scroll(a: AppView, size: Option<(u16, u16)>, c: char)
    requires
        is_on_detail(a, size),
        0 < ((a.explorer->0).detail_view->0).lines.len() <= usize::MAX,
        ((a.explorer->0).detail_view->0).scroll < ((a.explorer->0).detail_view->0).lines.len(),
    ensures
        ({
            let d = (a.explorer->0).detail_view->0;
            let at = d.scroll as int;
            let last = d.lines.len() - 1;
            &&& ((after_key(a, size, 'j').explorer->0).detail_view->0).scroll == if at < last {
                at + 1
            } else {
                last
            }
            &&& ((after_key(a, size, 'k').explorer->0).detail_view->0).scroll == if at > 0 {
                at - 1
            } else {
                0
            }
            &&& ((after_key(a, size, 'g').explorer->0).detail_view->0).scroll == 0
            &&& ((after_key(a, size, 'G').explorer->0).detail_view->0).scroll == last
        }),
        after_code(a, size, KeyCode::Esc).explorer is Some,
        (after_code(a, size, KeyCode::Esc).explorer->0).detail_view is None,
        after_key(a, size, 'q').explorer is None,
        after_key(a, size, c).engine == a.engine,
{
    reveal(after_key);
    reveal(after_code);
}

/// While the explorer's filter is typed, each character goes behind it, backspace
/// takes the last one back, Enter keeps it and Escape drops it. Nothing is
/// started.
#[verifier::rlimit(40)]
pub proof fn the_explorer_filter_is_typed(a: AppView, size: Option<(u16, u16)>, c: char)
    requires
        is_usable(size),
        a.modal is None,
        a.session is Some ==> !(a.session->0).fullscreen,
        a.explorer is Some,
        (a.explorer->0).op_result is None,
        !(a.explorer->0).plan_queued_notice,
        (a.explorer->0).op_confirm is None,
        (a.explorer->0).pending_op is None,
        (a.explorer->0).detail_view is None,
        (a.explorer->0).filter_active,
    ensures
        ({
            let e = a.explorer->0;
            let more = after_key(a, size, c).explorer->0;
            let less = after_code(a, size, KeyCode::Backspace).explorer->0;
            let kept = after_code(a, size, KeyCode::Enter).explorer->0;
            let gone = after_code(a, size, KeyCode::Esc).explorer->0;
            &&& more.filter == e.filter.push(c) && more.filter_active
            &&& e.filter.len() > 0 ==> less.filter == e.filter.drop_last()
            &&& less.filter_active
            &&& kept.filter == e.filter && !kept.filter_active
            &&& gone.filter.len() == 0 && !gone.filter_active
            &&& after_key(a, size, c).engine == a.engine
        }),
{
    reveal(after_key);
    reveal(after_code);
}

/// What an operation has come to, and the notice that a plan was queued, are
/// dismissed by any key, which does nothing else. While an operation is under
/// way the explorer takes no key.
#[verifier::rlimit(40)]
pub proof fn results_are_dismissed_by_any_key(a: AppView, size: Option<(u16, u16)>, c: char)
    requires
        is_usable(size),
        a.modal is None,
        a.session is Some ==> !(a.session->0).fullscreen,
        a.explorer is Some,
    ensures
        ({
            let e = a.explorer->0;
            let b = after_key(a, size, c);
            &&& e.op_result is Some ==> b == (AppView {
                explorer: Some(ExplorerView { op_result: None, ..e }),
                ..a
            })
            &&& e.op_result is None && e.plan_queued_notice ==> b == (AppView {
                explorer: Some(ExplorerView { plan_queued_notice: false, ..e }),
                ..a
            })
            &&& e.op_result is None && !e.plan_queued_notice && e.op_confirm is None && e.pending_op
                is Some ==> b == a
        }),
{
    reveal(after_key);
}

} // verus!
