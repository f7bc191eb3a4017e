//! What the lines around the lists say.

use crate::app::explorer::{ContentView, ExplorerView, RowView};
use crate::app::model::AppView;
use crate::app::types::DetailView;
use crate::headless::says_yes;
use crate::task::TaskView;
use crate::text::{decimal, holds, lowercase, stands_at};
use crate::text_laws::{is_blank, is_tight, trimming_keeps_the_text};
use crate::ui::layout::Rect;
use crate::ui::popup_laws::line_text;
use crate::ui::run::{elapsed_spans, truncated, two_digits};
use crate::ui::select::{session_text, status_line, summary_text};
use crate::ui::state_view::{
    content_lines, detail_lines, detail_top, list_box, resource_count, rows_with_room, title_suffix,
};
use crate::ui::style::{text_of_one, LineView};
use vstd::prelude::*;

verus! {

proof fn amid(a: Seq<char>, b: Seq<char>, c: Seq<char>)
    ensures
        holds(a + b + c, b),
{
    assert((a + b + c).subrange(a.len() as int, (a.len() + b.len()) as int) =~= b);
    assert(stands_at(a + b + c, b, a.len() as int));
}

proof fn sole(l: LineView)
    requires
        l.spans.len() == 1,
    ensures
        line_text(l) == l.spans[0].content,
{
    text_of_one(l.spans[0]);
    assert(l.spans =~= seq![l.spans[0]]);
}

/// The summary of the module list tells the binary, how many modules there are,
/// the depth limit and the filter, where there are any.
#[verifier::rlimit(40)]
pub proof fn the_summary_tells_what_limits_the_list(a: AppView)
    ensures
        holds(summary_text(a), a.config.binary@),
        holds(summary_text(a), decimal(a.modules.len()) + " modules"@),
        a.max_depth is Some ==> holds(
            summary_text(a),
            "[depth:"@ + decimal(a.max_depth->0 as nat) + "]"@,
        ),
        a.filter.len() > 0 ==> holds(summary_text(a), "[/"@ + a.filter + "]"@),
{
    reveal_strlit(" · [depth:");
    reveal_strlit("[depth:");
    reveal_strlit(" · [/");
    reveal_strlit("[/");
    let none = Seq::<char>::empty();
    let s = summary_text(a);
    let dots = seq![' ', '·', ' '];
    let bin = a.config.binary@;
    let n = decimal(a.modules.len());
    let depth = match a.max_depth {
        Some(d) => " · [depth:"@ + decimal(d as nat) + "]"@,
        None => ""@,
    };
    let filter = if a.filter.len() > 0 { " · [/"@ + a.filter + "]"@ } else { ""@ };
    let head = bin + " · "@ + n + " modules"@;
    assert(s == head + depth + filter);
    assert(s =~= none + bin + (" · "@ + n + " modules"@ + depth + filter));
    amid(none, bin, " · "@ + n + " modules"@ + depth + filter);
    assert(s =~= (bin + " · "@) + (n + " modules"@) + (depth + filter));
    amid(bin + " · "@, n + " modules"@, depth + filter);
    if a.max_depth is Some {
        let x = "[depth:"@ + decimal(a.max_depth->0 as nat) + "]"@;
        assert(" · [depth:"@ =~= dots + "[depth:"@);
        assert(depth =~= dots + x);
        assert(s =~= (head + dots) + x + filter);
        amid(head + dots, x, filter);
    }
    if a.filter.len() > 0 {
        let x = "[/"@ + a.filter + "]"@;
        assert(" · [/"@ =~= dots + "[/"@);
        assert(filter =~= dots + x);
        assert(s =~= (head + depth + dots) + x + none);
        amid(head + depth + dots, x, none);
    }
}

/// The session line tells how many modules the session has, and how many of them
/// are running.
#[verifier::rlimit(40)]
pub proof fn the_session_line_tells_how_many_run(n: nat, running: nat, width: u16)
    ensures
        width < 80 ==> holds(session_text(n, running, width), decimal(running) + "/"@ + decimal(n)),
        width >= 80 ==> holds(session_text(n, running, width), decimal(n) + " modules"@),
        width >= 80 && running > 0 ==> holds(
            session_text(n, running, width),
            decimal(running) + " running"@,
        ),
        width >= 80 && running == 0 ==> holds(session_text(n, running, width), "done"@),
{
    let s = session_text(n, running, width);
    if width < 80 {
        let mark = if running > 0 { "⟳"@ } else { "✓"@ };
        let x = decimal(running) + "/"@ + decimal(n);
        assert(s =~= (mark + " "@) + x + " ⇥"@);
        amid(mark + " "@, x, " ⇥"@);
    } else if running > 0 {
        reveal_strlit(" modules · ");
        reveal_strlit(" modules");
        reveal_strlit(" running  ⇥");
        reveal_strlit(" running");
        let dots = seq![' ', '·', ' '];
        let end = seq![' ', ' ', '⇥'];
        assert(" modules · "@ =~= " modules"@ + dots);
        assert(" running  ⇥"@ =~= " running"@ + end);
        let x = decimal(n) + " modules"@;
        let y = decimal(running) + " running"@;
        assert(s =~= "⟳ session · "@ + x + (dots + y + end));
        amid("⟳ session · "@, x, dots + y + end);
        assert(s =~= ("⟳ session · "@ + x + dots) + y + end);
        amid("⟳ session · "@ + x + dots, y, end);
    } else {
        reveal_strlit(" modules · done  ⇥");
        reveal_strlit(" modules");
        reveal_strlit("done");
        let dots = seq![' ', '·', ' '];
        let end = seq![' ', ' ', '⇥'];
        assert(" modules · done  ⇥"@ =~= " modules"@ + dots + "done"@ + end);
        let x = decimal(n) + " modules"@;
        assert(s =~= "✓ session · "@ + x + (dots + "done"@ + end));
        amid("✓ session · "@, x, dots + "done"@ + end);
        assert(s =~= ("✓ session · "@ + x + dots) + "done"@ + end);
        amid("✓ session · "@ + x + dots, "done"@, end);
    }
}

/// The line below the list tells how many modules are selected, or else shown.
pub proof fn the_status_line_counts(a: AppView)
    ensures
        a.multi_select.len() > 0 ==> line_text(status_line(a)) == "●"@ + decimal(
            a.multi_select.len(),
        ) + " selected"@,
        a.multi_select.len() == 0 ==> line_text(status_line(a)) == decimal(a.visible().len())
            + " modules"@,
{
    sole(status_line(a));
}

/// What the explorer says where it has no resources to show: that it loads, why
/// it could not, that the module is not initialized, or that it has no state.
#[verifier::rlimit(40)]
pub proof fn the_explorer_says_why_it_is_empty(
    e: ExplorerView,
    spinner: Seq<char>,
    max: int,
    width: u16,
)
    ensures
        ({
            let v = content_lines(e, spinner, max, width);
            &&& e.content is Loading ==> v.len() == 1 && holds(line_text(v[0]), "Loading state"@)
            &&& e.content is Error ==> v.len() == 2 && holds(line_text(v[1]), e.content->Error_0)
            &&& e.content is NotInitialized ==> line_text(v[0]) == "  Not initialized"@
            &&& e.content is NoState ==> line_text(v[0]) == "  No state"@
        }),
{
    let v = content_lines(e, spinner, max, width);
    let none = Seq::<char>::empty();
    match e.content {
        ContentView::Loading => {
            sole(v[0]);
            reveal_strlit(" Loading state…");
            reveal_strlit("Loading state");
            let x = "Loading state"@;
            assert(" Loading state…"@ =~= seq![' '] + x + seq!['…']);
            assert(line_text(v[0]) =~= ("  "@ + spinner + seq![' ']) + x + seq!['…']);
            amid("  "@ + spinner + seq![' '], x, seq!['…']);
        },
        ContentView::Error(msg) => {
            sole(v[1]);
            assert(line_text(v[1]) =~= "  "@ + msg + none);
            amid("  "@, msg, none);
        },
        ContentView::NotInitialized => {
            sole(v[0]);
        },
        ContentView::NoState => {
            sole(v[0]);
        },
        ContentView::Resources(rs) => {},
    }
}

/// The title of the explorer tells the module, how many resources it has, and how
/// many rows are selected.
#[verifier::rlimit(40)]
pub proof fn the_explorer_title_counts(e: ExplorerView, spinner: Seq<char>, area: Rect)
    ensures
        holds(list_box(e, spinner, area).title, e.module_name),
        e.content is Resources ==> holds(
            title_suffix(e),
            decimal((e.content->Resources_0).len()) + " resource"@,
        ),
        e.content is Resources && e.multi_select.len() + e.module_select.len() > 0 ==> holds(
            title_suffix(e),
            decimal(e.multi_select.len() + e.module_select.len()) + " selected"@,
        ),
{
    let suffix = title_suffix(e);
    let t = list_box(e, spinner, area).title;
    assert(t =~= " State: "@ + e.module_name + (suffix + " "@));
    amid(" State: "@, e.module_name, suffix + " "@);
    match e.content {
        ContentView::Resources(rs) => {
            let x = decimal(rs.len()) + " resource"@;
            let plural = if rs.len() == 1 { ""@ } else { "s"@ };
            let k = e.multi_select.len() + e.module_select.len();
            if k > 0 {
                reveal_strlit(" selected)");
                reveal_strlit(" selected");
                let y = decimal(k) + " selected"@;
                let tail = " ("@ + decimal(k) + " selected)"@;
                assert(suffix =~= " — "@ + x + (plural + tail));
                amid(" — "@, x, plural + tail);
                assert(" selected)"@ =~= " selected"@ + seq![')']);
                assert(suffix =~= (" — "@ + x + plural + " ("@) + y + seq![')']);
                amid(" — "@ + x + plural + " ("@, y, seq![')']);
            } else {
                assert(suffix =~= " — "@ + x + plural);
                amid(" — "@, x, plural);
            }
        },
        _ => {},
    }
}

/// The places of the rows that are of resources.
pub open spec fn resource_places(rows: Seq<RowView>, n: int) -> Set<int> {
    Set::new(|i: int| 0 <= i < n && rows[i] is Resource)
}

/// The number of shown resources is that of their rows.
pub proof fn shown_resources_are_counted(rows: Seq<RowView>, n: int)
    requires
        0 <= n <= rows.len(),
    ensures
        resource_places(rows, n).finite(),
        resource_count(rows, n) == resource_places(rows, n).len(),
    decreases n,
{
    let now = resource_places(rows, n);
    if n <= 0 {
        assert(now =~= Set::<int>::empty());
    } else {
        shown_resources_are_counted(rows, n - 1);
        let before = resource_places(rows, n - 1);
        if rows[n - 1] is Resource {
            assert(now =~= before.insert(n - 1));
        } else {
            assert(now =~= before);
        }
    }
}

/// The run time of a row is told in whole seconds; a task that has not started
/// has none.
pub proof fn run_times_are_told_in_seconds(t: TaskView, start: u64, secs: nat, rest: nat)
    requires
        t.started_at == Some(start),
        t.finished_at is None,
        rest < 1000,
        start + 1000 * secs + rest <= u64::MAX,
    ensures
        ({
            let v = elapsed_spans(Some(t), (start + 1000 * secs + rest) as u64);
            v.len() == 1 && v[0].content == "  "@ + (decimal(secs) + "s"@)
        }),
        elapsed_spans(Some(TaskView { started_at: None, ..t }), start).len() == 0,
{
}

/// A text that fits is not cut; one that does not ends in an ellipsis and takes
/// the room there is.
pub proof fn cut_texts_end_in_an_ellipsis(s: Seq<char>, max: int)
    ensures
        s.len() <= max ==> truncated(s, max) == s,
        0 < max < s.len() ==> truncated(s, max).len() == max && truncated(s, max).last() == '…'
            && truncated(s, max).drop_last() == s.take(max - 1),
        max <= 0 && s.len() > 0 ==> truncated(s, max).len() == 0,
{
    if 0 < max < s.len() {
        assert(s.take(max - 1).push('…').drop_last() =~= s.take(max - 1));
    }
}

/// A clock shows at least two digits.
pub proof fn clocks_have_two_digits(n: nat)
    ensures
        n < 10 ==> two_digits(n) == "0"@ + decimal(n),
        n >= 10 ==> two_digits(n) == decimal(n),
        two_digits(n).len() >= 2,
{
    reveal_strlit("0");
    if n >= 10 {
        assert(decimal(n) == decimal(n / 10).push(crate::text::digit((n % 10) as int)));
        some_digit(n / 10);
    } else {
        some_digit(n);
    }
}

proof fn some_digit(n: nat)
    ensures
        decimal(n).len() >= 1,
{
}

/// Blanks around an answer do not matter. Only `y` and `yes`, whatever the case
/// of their letters, agree.
pub proof fn answers_are_trimmed(before: Seq<char>, t: Seq<char>, after: Seq<char>)
    requires
        is_blank(before),
        is_blank(after),
        is_tight(t),
    ensures
        says_yes(before + t + after) <==> lowercase(t) == "y"@ || lowercase(t) == "yes"@,
{
    trimming_keeps_the_text(before, t, after);
}

/// Every line of a detail that fits is shown below its address, from where it is
/// scrolled to.
#[verifier::rlimit(40)]
pub proof fn the_detail_shows_its_lines(d: DetailView, area: Rect, i: int)
    requires
        d.scroll < d.lines.len(),
        0 <= i < rows_with_room(area.height, 9),
        d.scroll + i < d.lines.len(),
    ensures
        ({
            let v = detail_lines(d, area);
            let at = if d.scroll > 0 { 4 + i } else { 3 + i };
            &&& at < v.len()
            &&& v[at] == crate::ui::json::json_line(d.lines[d.scroll + i])
            &&& v[1].spans[1].content == d.address
        }),
{
    assert(detail_top(d) == d.scroll);
}

} // verus!
