//! What the rows of the screens say.

use crate::app::choice_laws::is_active;
use crate::app::explorer::{ExplorerView, ResourceView, RowView};
use crate::app::model::AppView;
use crate::app::modules::newest_active;
use crate::app::session::{active_modules, display_of};
use crate::app::types::{SessionModuleView, SessionView};
use crate::engine::{find_task_finds, EngineView};
use crate::paths::components;
use crate::plan_cache::{age_text, seconds_between};
use crate::task::{ResourceCounts, TaskStatus, TaskView};
use crate::text::{decimal, holds, lowercase, stands_at};
use crate::text_laws::holding_is_transitive;
use crate::ui::json::highlighting_keeps_the_text;
use crate::ui::layout::WidthTier;
use crate::ui::popup_laws::line_text;
use crate::ui::run::{board_list, board_spans, command_spans, row_head, status_parts_of};
use crate::ui::select::{list_row, module_rows, module_spans};
use crate::ui::state_view::{address_spans, marker_of, row_line};
use crate::ui::style::{text_of, text_of_concat, text_of_one, Color, SpanView};
use crate::ui::theme::{
    icon_of_status, lifting_keeps_the_text, COUNT_ADD, COUNT_CHANGE, COUNT_DESTROY, COUNT_FORGET,
    COUNT_IMPORT,
};
use crate::ui::widgets::{count_span, plan_badge, spans_of_counts};
use vstd::prelude::*;

verus! {

proof fn around(a: Seq<char>, b: Seq<char>, c: Seq<char>)
    ensures
        holds(a + b + c, b),
{
    assert((a + b + c).subrange(a.len() as int, (a.len() + b.len()) as int) =~= b);
    assert(stands_at(a + b + c, b, a.len() as int));
}

/// What spans say, spans around them do not take back.
proof fn spans_around(a: Seq<SpanView>, b: Seq<SpanView>, c: Seq<SpanView>)
    ensures
        holds(text_of(a + b + c), text_of(b)),
{
    text_of_concat(a + b, c);
    text_of_concat(a, b);
    around(text_of(a), text_of(b), text_of(c));
}

/// What a span says, its line says.
pub proof fn a_span_is_read(spans: Seq<SpanView>, k: int, x: Seq<char>)
    requires
        0 <= k < spans.len(),
        holds(spans[k].content, x),
    ensures
        holds(text_of(spans), x),
{
    let one = seq![spans[k]];
    assert(spans =~= spans.take(k) + one + spans.skip(k + 1));
    spans_around(spans.take(k), one, spans.skip(k + 1));
    text_of_one(spans[k]);
    holding_is_transitive(text_of(spans), text_of(one), x);
}

proof fn count_is_said(n: u32, symbol: Seq<char>, label: Seq<char>, col: Color)
    requires
        n > 0,
    ensures
        holds(text_of(count_span(n, symbol, label, col)), symbol + decimal(n as nat) + " "@ + label),
{
    let s = count_span(n, symbol, label, col);
    let x = symbol + decimal(n as nat) + " "@ + label;
    assert(s[0].content =~= "  "@ + x + Seq::<char>::empty());
    around("  "@, x, Seq::empty());
    a_span_is_read(s, 0, x);
}

proof fn one_of_five_is_read(
    a: Seq<SpanView>,
    b: Seq<SpanView>,
    c: Seq<SpanView>,
    d: Seq<SpanView>,
    e: Seq<SpanView>,
    x: Seq<char>,
)
    requires
        holds(text_of(a), x) || holds(text_of(b), x) || holds(text_of(c), x) || holds(text_of(d), x)
            || holds(text_of(e), x),
    ensures
        holds(text_of(a + b + c + d + e), x),
{
    let v = a + b + c + d + e;
    let none = Seq::<SpanView>::empty();
    if holds(text_of(a), x) {
        assert(v =~= none + a + (b + c + d + e));
        spans_around(none, a, b + c + d + e);
        holding_is_transitive(text_of(v), text_of(a), x);
    } else if holds(text_of(b), x) {
        assert(v =~= a + b + (c + d + e));
        spans_around(a, b, c + d + e);
        holding_is_transitive(text_of(v), text_of(b), x);
    } else if holds(text_of(c), x) {
        assert(v =~= (a + b) + c + (d + e));
        spans_around(a + b, c, d + e);
        holding_is_transitive(text_of(v), text_of(c), x);
    } else if holds(text_of(d), x) {
        spans_around(a + b + c, d, e);
        holding_is_transitive(text_of(v), text_of(d), x);
    } else {
        assert(v =~= (a + b + c + d) + e + none);
        spans_around(a + b + c + d, e, none);
        holding_is_transitive(text_of(v), text_of(e), x);
    }
}

/// What a count looks like.
pub open spec fn count_text(symbol: Seq<char>, n: u32, label: Seq<char>) -> Seq<char> {
    symbol + decimal(n as nat) + " "@ + label
}

#[verifier::rlimit(40)]
proof fn counts_are_said(c: ResourceCounts, x: Seq<char>)
    requires
        c.has_summary && !c.no_changes,
        ({
            ||| c.add > 0 && x == count_text("+"@, c.add, "add"@)
            ||| c.change > 0 && x == count_text("~"@, c.change, "change"@)
            ||| c.destroy > 0 && x == count_text("-"@, c.destroy, "destroy"@)
            ||| c.import > 0 && x == count_text("i"@, c.import, "import"@)
            ||| c.forget > 0 && x == count_text("f"@, c.forget, "forget"@)
        }),
    ensures
        holds(text_of(spans_of_counts(c)), x),
{
    let add = count_span(c.add, "+"@, "add"@, COUNT_ADD);
    let change = count_span(c.change, "~"@, "change"@, COUNT_CHANGE);
    let destroy = count_span(c.destroy, "-"@, "destroy"@, COUNT_DESTROY);
    let import = count_span(c.import, "i"@, "import"@, COUNT_IMPORT);
    let forget = count_span(c.forget, "f"@, "forget"@, COUNT_FORGET);
    assert(spans_of_counts(c) == add + change + destroy + import + forget);
    if c.add > 0 && x == count_text("+"@, c.add, "add"@) {
        count_is_said(c.add, "+"@, "add"@, COUNT_ADD);
    } else if c.change > 0 && x == count_text("~"@, c.change, "change"@) {
        count_is_said(c.change, "~"@, "change"@, COUNT_CHANGE);
    } else if c.destroy > 0 && x == count_text("-"@, c.destroy, "destroy"@) {
        count_is_said(c.destroy, "-"@, "destroy"@, COUNT_DESTROY);
    } else if c.import > 0 && x == count_text("i"@, c.import, "import"@) {
        count_is_said(c.import, "i"@, "import"@, COUNT_IMPORT);
    } else {
        count_is_said(c.forget, "f"@, "forget"@, COUNT_FORGET);
    }
    one_of_five_is_read(add, change, destroy, import, forget, x);
}

/// Every count of a summary that is not zero is shown with its own sign and
/// name. A summary without changes shows as such, and without a summary nothing
/// is shown.
#[verifier::rlimit(40)]
pub proof fn every_count_is_shown(c: ResourceCounts, x: Seq<char>)
    ensures
        c.has_summary && !c.no_changes && ({
            ||| c.add > 0 && x == count_text("+"@, c.add, "add"@)
            ||| c.change > 0 && x == count_text("~"@, c.change, "change"@)
            ||| c.destroy > 0 && x == count_text("-"@, c.destroy, "destroy"@)
            ||| c.import > 0 && x == count_text("i"@, c.import, "import"@)
            ||| c.forget > 0 && x == count_text("f"@, c.forget, "forget"@)
        }) ==> holds(text_of(spans_of_counts(c)), x),
        c.no_changes ==> text_of(spans_of_counts(c)) == "  ="@,
        c.has_summary && c.add == 0 && c.change == 0 && c.destroy == 0 && c.import == 0 && c.forget
            == 0 ==> text_of(spans_of_counts(c)) == "  ="@,
        !c.has_summary && !c.no_changes ==> spans_of_counts(c).len() == 0,
{
    let v = spans_of_counts(c);
    if (c.has_summary || c.no_changes) && (c.no_changes || c.counts_nothing()) {
        text_of_one(v[0]);
        assert(v =~= seq![v[0]]);
    }
    if c.has_summary && !c.no_changes && ({
        ||| c.add > 0 && x == count_text("+"@, c.add, "add"@)
        ||| c.change > 0 && x == count_text("~"@, c.change, "change"@)
        ||| c.destroy > 0 && x == count_text("-"@, c.destroy, "destroy"@)
        ||| c.import > 0 && x == count_text("i"@, c.import, "import"@)
        ||| c.forget > 0 && x == count_text("f"@, c.forget, "forget"@)
    }) {
        counts_are_said(c, x);
    }
}

/// A module has a plan badge exactly where a plan is cached for it. The badge
/// tells the plan's age, and how many addresses it is restricted to.
#[verifier::rlimit(40)]
pub proof fn a_cached_plan_has_a_badge(e: EngineView, path: Seq<char>)
    ensures
        ({
            let v = plan_badge(e, path);
            let place = components(path);
            let p = e.plans[place];
            let age = age_text(seconds_between(p.created_at, e.clock));
            &&& e.plans.dom().contains(place) <==> v.len() > 0
            &&& v.len() > 0 ==> holds(text_of(v), "P:"@ + age)
            &&& v.len() > 0 && p.targets.len() > 0 ==> holds(
                text_of(v),
                "·T"@ + decimal(p.targets.len()),
            )
            &&& v.len() > 0 && p.targets.len() == 0 ==> text_of(v) == "  P:"@ + age
        }),
{
    let v = plan_badge(e, path);
    let place = components(path);
    if e.plans.dom().contains(place) {
        let p = e.plans[place];
        let age = age_text(seconds_between(p.created_at, e.clock));
        text_of_one(v[0]);
        assert(v =~= seq![v[0]]);
        reveal_strlit("  P:");
        reveal_strlit("P:");
        let two = seq![' ', ' '];
        let none = Seq::<char>::empty();
        let said = "P:"@ + age;
        if p.targets.len() > 0 {
            let n = "·T"@ + decimal(p.targets.len());
            assert(text_of(v) =~= two + said + n);
            around(two, said, n);
            assert(text_of(v) =~= (two + said) + n + none);
            around(two + said, n, none);
        } else {
            assert(text_of(v) =~= two + said + none);
            around(two, said, none);
        }
    }
}

/// Every module that is shown has a row in the list, with its name on it.
#[verifier::rlimit(40)]
pub proof fn every_shown_module_has_a_row(a: AppView, width: u16, i: int)
    requires
        0 <= i < a.visible().len(),
    ensures
        module_rows(a, width).len() == a.visible().len(),
        holds(
            line_text(module_rows(a, width)[i].line),
            a.modules[a.visible()[i] as int].name,
        ),
{
    let is_cursor = i == a.selected_module;
    let spans = module_spans(a, a.visible()[i], is_cursor, width);
    assert(module_rows(a, width)[i] == list_row(spans, is_cursor));
    lifting_keeps_the_text(spans);
    all_of_it(spans[2].content);
    a_span_is_read(spans, 2, spans[2].content);
}

proof fn all_of_it(x: Seq<char>)
    ensures
        holds(x, x),
{
    assert(Seq::<char>::empty() + x + Seq::<char>::empty() =~= x);
    around(Seq::empty(), x, Seq::empty());
}

/// Every module of a run has a row on the board, with its name on it. Where there
/// is room, the row tells the command of the task that is shown for the module,
/// and how that is doing.
#[verifier::rlimit(40)]
pub proof fn every_module_of_the_run_has_a_row(a: AppView, s: SessionView, w: WidthTier, i: int)
    requires
        0 <= i < s.modules.len(),
    ensures
        board_list(a, s, w).len() == s.modules.len(),
        holds(line_text(board_list(a, s, w)[i].line), s.modules[i].name),
        ({
            let shown = display_of(a.engine, a.session, s.modules[i].path);
            let t = a.engine.tasks[(shown->0).0];
            let row = line_text(board_list(a, s, w)[i].line);
            &&& shown is Some && (w == WidthTier::W1 || w == WidthTier::W2) ==> holds(row, t.command)
            &&& shown is Some && w == WidthTier::W1 && t.status == TaskStatus::Failed ==> holds(
                row,
                "failed"@,
            )
            &&& shown is Some && w == WidthTier::W1 && t.status == TaskStatus::Success ==> holds(
                row,
                "done"@,
            )
            &&& shown is Some && w == WidthTier::W1 && t.status == TaskStatus::Pending ==> holds(
                row,
                "queued"@,
            )
            &&& shown is Some && w == WidthTier::W1 && t.status == TaskStatus::Running ==> holds(
                row,
                "running"@,
            )
        }),
{
    let m = s.modules[i];
    let is_cursor = i == s.cursor;
    let is_multi = s.selected.contains(i as usize);
    let spans = board_spans(a, m, is_cursor, is_multi, w);
    assert(board_list(a, s, w)[i] == list_row(spans, is_cursor));
    lifting_keeps_the_text(spans);
    board_row_tells(a, m, is_cursor, is_multi, w);
}

#[verifier::rlimit(40)]
proof fn board_row_tells(
    a: AppView,
    m: SessionModuleView,
    is_cursor: bool,
    is_multi: bool,
    w: WidthTier,
)
    ensures
        ({
            let row = text_of(board_spans(a, m, is_cursor, is_multi, w));
            let shown = display_of(a.engine, a.session, m.path);
            let t = a.engine.tasks[(shown->0).0];
            &&& holds(row, m.name)
            &&& shown is Some && (w == WidthTier::W1 || w == WidthTier::W2) ==> holds(row, t.command)
            &&& shown is Some && w == WidthTier::W1 ==> holds(
                row,
                status_parts_of(a.spinner_tick, Some(t)).1,
            )
        }),
{
    let spans = board_spans(a, m, is_cursor, is_multi, w);
    let head = row_head(m.name, is_cursor, is_multi);
    let none = Seq::<char>::empty();
    board_spans_are(a, m, is_cursor, is_multi, w);
    all_of_it(m.name);
    a_span_is_read(spans, 2, m.name);
    let shown = display_of(a.engine, a.session, m.path);
    if shown is Some && (w == WidthTier::W1 || w == WidthTier::W2) {
        let t = a.engine.tasks[(shown->0).0];
        assert(spans[3].content =~= "  "@ + t.command + none);
        around("  "@, t.command, none);
        a_span_is_read(spans, 3, t.command);
        if w == WidthTier::W1 {
            let word = status_parts_of(a.spinner_tick, Some(t)).1;
            let at: int = 3 + command_spans(Some(t)).len() as int + 1;
            assert(spans[at].content =~= " "@ + word + none);
            around(" "@, word, none);
            a_span_is_read(spans, at, word);
        }
    }
}

#[verifier::rlimit(40)]
proof fn board_spans_are(
    a: AppView,
    m: SessionModuleView,
    is_cursor: bool,
    is_multi: bool,
    w: WidthTier,
)
    ensures
        ({
            let spans = board_spans(a, m, is_cursor, is_multi, w);
            let shown = display_of(a.engine, a.session, m.path);
            let t = a.engine.tasks[(shown->0).0];
            let at: int = 3 + command_spans(Some(t)).len() as int + 1;
            &&& spans.len() > 3
            &&& spans[2].content == m.name
            &&& shown is Some && (w == WidthTier::W1 || w == WidthTier::W2) ==> spans[3].content
                == "  "@ + t.command
            &&& shown is Some && w == WidthTier::W1 ==> at < spans.len() && spans[at].content == " "@
                + status_parts_of(a.spinner_tick, Some(t)).1
        }),
{
}

/// No two states of a task look the same.
pub proof fn states_look_different(s: TaskStatus, t: TaskStatus)
    requires
        icon_of_status(s) == icon_of_status(t),
    ensures
        s == t,
{
    reveal_strlit("○");
    reveal_strlit("⟳");
    reveal_strlit("◐");
    reveal_strlit("✓");
    reveal_strlit("✗");
    reveal_strlit("⊘");
    assert("○"@[0] == '○');
    assert("⟳"@[0] == '⟳');
    assert("◐"@[0] == '◐');
    assert("✓"@[0] == '✓');
    assert("✗"@[0] == '✗');
    assert("⊘"@[0] == '⊘');
}

/// Whether the `i`-th module of a run has a task that is not over.
pub open spec fn works(ms: Seq<SessionModuleView>, tasks: Seq<TaskView>, i: int) -> bool {
    0 <= i < ms.len() && exists|k: int|
        0 <= k < tasks.len() && is_active(#[trigger] tasks[k], ms[i].path)
}

/// The places of a run's modules that have a task that is not over.
pub open spec fn working_places(ms: Seq<SessionModuleView>, tasks: Seq<TaskView>, n: int) -> Set<int> {
    Set::new(|i: int| 0 <= i < n && works(ms, tasks, i))
}

/// The number of modules that are said to be running is the number of those that
/// have a task that is not over.
pub proof fn running_modules_are_counted(ms: Seq<SessionModuleView>, tasks: Seq<TaskView>, n: int)
    requires
        0 <= n <= ms.len(),
    ensures
        working_places(ms, tasks, n).finite(),
        active_modules(ms, tasks, n) == working_places(ms, tasks, n).len(),
    decreases n,
{
    let now = working_places(ms, tasks, n);
    if n <= 0 {
        assert(now =~= Set::<int>::empty());
    } else {
        running_modules_are_counted(ms, tasks, n - 1);
        let before = working_places(ms, tasks, n - 1);
        let path = ms[n - 1].path;
        let r = newest_active(tasks, path, tasks.len() as int);
        if works(ms, tasks, n - 1) {
            let k = choose|k: int| 0 <= k < tasks.len() && is_active(#[trigger] tasks[k], path);
            crate::app::choice_laws::the_newest_active_task_has_the_greatest_id(tasks, path, k);
            assert(now =~= before.insert(n - 1));
        } else {
            if r is Some {
                assert(tasks.len() > 0) by {
                    if tasks.len() == 0 {
                        assert(newest_active(tasks, path, 0) is None);
                    }
                }
                crate::app::choice_laws::the_newest_active_task_has_the_greatest_id(tasks, path, 0);
                assert(is_active(tasks[r->0], path));
            }
            assert(now =~= before);
        }
    }
}

/// The row of a resource shows its address, and marks it where it is tainted.
/// The row of a module shows the module and how many resources are in it.
#[verifier::rlimit(40)]
pub proof fn explorer_rows_show_addresses(e: ExplorerView, rs: Seq<ResourceView>, row: RowView)
    requires
        row is Resource ==> 0 <= row->res_idx < rs.len(),
    ensures
        row is Resource ==> holds(line_text(row_line(e, rs, row)), rs[row->res_idx].address),
        row is Resource && rs[row->res_idx].status == Some("tainted"@) ==> holds(
            line_text(row_line(e, rs, row)),
            "[tainted]"@,
        ),
        row is ModuleHeader ==> holds(
            line_text(row_line(e, rs, row)),
            row->prefix + " ("@ + decimal(row->count as nat) + ")"@,
        ),
{
    match row {
        RowView::Resource { res_idx, indent } => {
            resource_row_tells(e, rs, res_idx, indent);
        },
        RowView::ModuleHeader { prefix, count } => {
            let l = row_line(e, rs, row);
            let x = prefix + " ("@ + decimal(count as nat) + ")"@;
            assert(l.spans[1].content =~= "▸ "@ + x + Seq::<char>::empty());
            around("▸ "@, x, Seq::empty());
            a_span_is_read(l.spans, 1, x);
        },
    }
}

#[verifier::rlimit(40)]
proof fn resource_row_tells(e: ExplorerView, rs: Seq<ResourceView>, i: int, indent: bool)
    requires
        0 <= i < rs.len(),
    ensures
        ({
            let row = line_text(row_line(e, rs, RowView::Resource { res_idx: i, indent }));
            &&& holds(row, rs[i].address)
            &&& rs[i].status == Some("tainted"@) ==> holds(row, "[tainted]"@)
        }),
{
    let l = row_line(e, rs, RowView::Resource { res_idx: i, indent });
    let r = rs[i];
    let none = Seq::<char>::empty();
    let lead = if indent { "  "@ } else { ""@ };
    let text = lead + r.address;
    let mid = address_spans(e, text);
    address_is_kept(e, text);
    let first = seq![marker_of(e, i, r.address)];
    let mark = crate::ui::style::styled(" [tainted]"@, crate::ui::theme::in_color(Color::Red));
    let tail = if r.status == Some("tainted"@) { seq![mark] } else { Seq::empty() };
    assert(l.spans =~= first + mid + tail);
    spans_around(first, mid, tail);
    assert(text =~= lead + r.address + none);
    around(lead, r.address, none);
    holding_is_transitive(text_of(l.spans), text, r.address);
    if r.status == Some("tainted"@) {
        tainted_is_said();
        a_span_is_read(l.spans, l.spans.len() - 1, "[tainted]"@);
    }
}

proof fn tainted_is_said()
    ensures
        holds(" [tainted]"@, "[tainted]"@),
{
    reveal_strlit(" [tainted]");
    reveal_strlit("[tainted]");
    let none = Seq::<char>::empty();
    assert(" [tainted]"@ =~= seq![' '] + "[tainted]"@ + none);
    around(seq![' '], "[tainted]"@, none);
}

proof fn address_is_kept(e: ExplorerView, text: Seq<char>)
    ensures
        text_of(address_spans(e, text)) == text,
{
    let mid = address_spans(e, text);
    if e.filter.len() == 0 {
        text_of_one(mid[0]);
        assert(mid =~= seq![mid[0]]);
    } else {
        highlighting_keeps_the_text(text, lowercase(e.filter));
    }
}

/// The counts that a module shows are those of the task that made its cached
/// plan.
pub proof fn plan_counts_are_those_of_the_plan(a: AppView, path: Seq<char>, k: int)
    requires
        0 <= k < a.engine.tasks.len(),
        crate::engine_laws::ids_sound(a.engine),
    ensures
        ({
            let place = components(path);
            &&& a.engine.plans.dom().contains(place) && a.engine.plans[place].task_id
                == a.engine.tasks[k].id ==> a.plan_counts(path) == a.engine.tasks[k].resource_counts
            &&& !a.engine.plans.dom().contains(place) ==> a.plan_counts(path) is None
        }),
{
    crate::run_laws::a_task_is_found_by_its_id(a.engine, k);
    find_task_finds(a.engine.tasks, a.engine.tasks[k].id);
}

} // verus!
