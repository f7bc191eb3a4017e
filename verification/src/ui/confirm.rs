//! The overlay that asks to confirm an operation on modules.

use crate::app::types::{target_views, ConfirmKind, ConfirmTarget, PendingConfirm, TargetView};
use crate::text::{any_is, concat, decimal, texts, texts_push};
use crate::ui::theme;
use crate::ui::clipboard::{cut_before, truncate_on_char_boundary};
use crate::ui::frame::{
    blank, byte_len, bytes_in, empty_line, four, larger, longest, longest_of, max_of, number, one,
    pad, padded, popup, popup_around, push_lines, say3, say4, say5, two, Popup, PopupView,
};
use crate::ui::layout::Rect;
use crate::ui::style::{
    line_of, line_views, line_views_push, plain, raw, styled, Color, Line, LineView, Span, Style,
};
use crate::ui::theme::{in_bold, in_color, MUTED};
use vstd::prelude::*;
use vstd::utf8::{decode_utf8, encode_utf8, is_char_boundary};

verus! {

/// The text of the first `n` bytes.
pub open spec fn first_bytes(s: Seq<char>, n: int) -> Seq<char> {
    decode_utf8(encode_utf8(s).take(n))
}

/// Whether a lock id can be shortened to its first eight bytes.
pub open spec fn can_shorten(id: Seq<char>) -> bool {
    byte_len(id) > 8 ==> is_char_boundary(encode_utf8(id), 8)
}

/// A lock id, shortened to its first eight bytes.
pub open spec fn short_id(id: Seq<char>) -> Seq<char> {
    if byte_len(id) > 8 {
        first_bytes(id, 8) + "…"@
    } else {
        id
    }
}

/// A lock id, shortened to its first eight bytes.
pub fn shorten(id: &str) -> (r: String)
    requires
        can_shorten(id@),
    ensures
        r@ == short_id(id@),
{
    if bytes_in(id) > 8 {
        let cut = truncate_on_char_boundary(id, 8);
        proof {
            let b = encode_utf8(id@);
            assert(cut_before(b, 8) == 8);
            vstd::utf8::encode_utf8_decode_utf8(cut@);
        }
        concat(cut, "…")
    } else {
        id.to_owned()
    }
}

/// What is said of a target beside its name.
pub open spec fn note_of(kind: ConfirmKind, t: TargetView) -> Seq<char> {
    match kind {
        ConfirmKind::Apply => match t.plan_age {
            Some(age) => if t.plan_targets.len() > 0 {
                "  plan from "@ + age + " · TARGETED ("@ + decimal(t.plan_targets.len()) + ")"@
            } else {
                "  plan from "@ + age
            },
            None => "  no prior plan"@,
        },
        ConfirmKind::ForceUnlock => match t.lock_id {
            Some(id) => "  lock "@ + short_id(id) + "  by "@ + (match t.lock_who {
                Some(w) => w,
                None => "?"@,
            }),
            None => ""@,
        },
        _ => ""@,
    }
}

/// How that is drawn.
pub open spec fn note_style(kind: ConfirmKind, t: TargetView) -> Style {
    match kind {
        ConfirmKind::Apply => if t.plan_age is Some && t.plan_targets.len() == 0 {
            in_color(Color::Green)
        } else {
            in_color(Color::Yellow)
        },
        ConfirmKind::ForceUnlock => if t.lock_id is Some {
            in_color(Color::Yellow)
        } else {
            plain()
        },
        _ => plain(),
    }
}

/// What is said of the targets beside their names.
pub open spec fn notes_of(kind: ConfirmKind, ts: Seq<TargetView>) -> Seq<Seq<char>> {
    ts.map_values(|t: TargetView| note_of(kind, t))
}

/// The names of the targets.
pub open spec fn names_of(ts: Seq<TargetView>) -> Seq<Seq<char>> {
    ts.map_values(|t: TargetView| t.module_name)
}

/// The row of a target.
pub open spec fn target_row(kind: ConfirmKind, t: TargetView, name_width: nat) -> LineView {
    line_of(
        seq![
            raw("    • "@ + padded(t.module_name, name_width)),
            styled(note_of(kind, t), note_style(kind, t)),
        ],
    )
}

/// `acc` with the first `n` of `addrs` added, each where it is not there yet.
pub open spec fn with_new(acc: Seq<Seq<char>>, addrs: Seq<Seq<char>>, n: int) -> Seq<Seq<char>>
    decreases n,
{
    if n <= 0 {
        acc
    } else {
        let before = with_new(acc, addrs, n - 1);
        if before.contains(addrs[n - 1]) {
            before
        } else {
            before.push(addrs[n - 1])
        }
    }
}

/// What the cached plans of the first `n` targets are restricted to, each address
/// once.
pub open spec fn restricted_to(ts: Seq<TargetView>, n: int) -> Seq<Seq<char>>
    decreases n,
{
    if n <= 0 {
        Seq::empty()
    } else {
        let addrs = ts[n - 1].plan_targets;
        with_new(restricted_to(ts, n - 1), addrs, addrs.len() as int)
    }
}

/// The addresses that an apply is restricted to.
pub open spec fn warned_of(kind: ConfirmKind, ts: Seq<TargetView>) -> Seq<Seq<char>> {
    if kind == ConfirmKind::Apply {
        restricted_to(ts, ts.len() as int)
    } else {
        Seq::empty()
    }
}

/// An address as a point of the warning.
pub open spec fn bullets(addrs: Seq<Seq<char>>) -> Seq<Seq<char>> {
    addrs.map_values(|a: Seq<char>| "      • "@ + a)
}

/// The warning that an apply covers only some addresses: a line for each of
/// them.
pub open spec fn restriction_lines(addrs: Seq<Seq<char>>) -> Seq<LineView> {
    let warn = in_bold(Color::Red);
    if addrs.len() == 0 {
        Seq::empty()
    } else {
        seq![
            empty_line(),
            line_of(seq![styled("  ⚠ Cached plan is TARGETED — apply covers ONLY:"@, warn)]),
        ] + Seq::new(addrs.len(), |i: int| covered_line(addrs[i]))
    }
}

/// The line of an address that an apply covers.
pub open spec fn covered_line(addr: Seq<char>) -> LineView {
    line_of(seq![styled("      • "@ + addr, in_bold(Color::Red))])
}

/// What the confirmation asks.
pub open spec fn question(kind: ConfirmKind, n: nat) -> Seq<char> {
    "  Run "@ + kind.name() + " on "@ + decimal(n) + " "@ + (if n == 1 {
        "module"@
    } else {
        "modules"@
    }) + ":"@
}

/// The line of keys below a question.
pub open spec fn answers(yes: Seq<char>, color: Color, no: Seq<char>) -> LineView {
    line_of(
        seq![raw("  "@), styled(yes, in_bold(color)), raw("   "@), styled(no, in_color(MUTED))],
    )
}

/// The lines of a confirmation.
pub open spec fn confirm_lines(kind: ConfirmKind, ts: Seq<TargetView>) -> Seq<LineView> {
    let width = longest(names_of(ts));
    seq![
        line_of(seq![styled(question(kind, ts.len()), plain().with_bold())]),
        empty_line(),
    ] + ts.map_values(|t: TargetView| target_row(kind, t, width)) + (if kind
        == ConfirmKind::ForceUnlock {
        seq![line_of(seq![styled("  ⚠ Force-removes the state lock"@, in_color(Color::Red))])]
    } else {
        Seq::empty()
    }) + restriction_lines(warned_of(kind, ts)) + seq![
        empty_line(),
        answers("[y] Confirm"@, Color::Green, "[any] Cancel"@),
    ]
}

/// The cells that a confirmation asks for.
pub open spec fn confirm_width(kind: ConfirmKind, ts: Seq<TargetView>) -> nat {
    let addrs = warned_of(kind, ts);
    let warning = if addrs.len() == 0 {
        0
    } else {
        max_of(
            longest(bullets(addrs)),
            byte_len("  ⚠ Cached plan is TARGETED — apply covers ONLY:"@),
        )
    };
    max_of(
        max_of(
            max_of(
                6 + longest(names_of(ts)) + longest(notes_of(kind, ts)),
                byte_len(question(kind, ts.len())),
            ),
            warning,
        ),
        36,
    )
}

/// The overlay that asks to confirm.
pub open spec fn confirm_popup(kind: ConfirmKind, ts: Seq<TargetView>, area: Rect) -> PopupView {
    popup_around(
        confirm_width(kind, ts),
        area,
        " Confirm "@ + kind.name() + " "@,
        in_color(Color::Red),
        confirm_lines(kind, ts),
    )
}

/// Whether every lock id that is shown can be shortened.
pub open spec fn ids_can_shorten(kind: ConfirmKind, ts: Seq<TargetView>) -> bool {
    kind == ConfirmKind::ForceUnlock ==> forall|i: int|
        0 <= i < ts.len() && (#[trigger] ts[i]).lock_id is Some ==> can_shorten(ts[i].lock_id->0)
}

fn note(kind: ConfirmKind, t: &ConfirmTarget) -> (r: Span)
    requires
        kind == ConfirmKind::ForceUnlock && t.lock_id is Some ==> can_shorten(t.lock_id->0@),
    ensures
        r@ == styled(note_of(kind, t@), note_style(kind, t@)),
{
    match kind {
        ConfirmKind::Apply => match &t.plan_age {
            Some(age) => {
                let n: usize = t.plan_targets.len();
                assert(texts(t.plan_targets@).len() == n);
                if n > 0 {
                    Span::styled(
                        say5(
                            "  plan from ",
                            age.as_str(),
                            " · TARGETED (",
                            number(n).as_str(),
                            ")",
                        ).as_str(),
                        theme::colored(Color::Yellow),
                    )
                } else {
                    Span::styled(
                        concat("  plan from ", age.as_str()).as_str(),
                        theme::colored(Color::Green),
                    )
                }
            },
            None => Span::styled("  no prior plan", theme::colored(Color::Yellow)),
        },
        ConfirmKind::ForceUnlock => match &t.lock_id {
            Some(id) => {
                let short = shorten(id.as_str());
                let who = match &t.lock_who {
                    Some(w) => w.as_str(),
                    None => "?",
                };
                Span::styled(
                    say4("  lock ", short.as_str(), "  by ", who).as_str(),
                    theme::colored(Color::Yellow),
                )
            },
            None => Span::raw(""),
        },
        _ => Span::raw(""),
    }
}

fn target_names(ts: &Vec<ConfirmTarget>) -> (r: Vec<String>)
    ensures
        texts(r@) == names_of(target_views(ts@)),
{
    broadcast use texts_push;

    let ghost all = target_views(ts@);
    let mut out: Vec<String> = Vec::new();
    let mut i: usize = 0;
    while i < ts.len()
        invariant
            i <= ts@.len(),
            all == target_views(ts@),
            texts(out@) =~= names_of(all.take(i as int)),
        decreases ts@.len() - i,
    {
        assert(all[i as int] == ts@[i as int]@);
        let ghost had = texts(out@);
        out.push(ts[i].module_name.clone());
        assert(texts(out@) == had.push(all[i as int].module_name));
        i += 1;
    }
    assert(all.take(i as int) =~= all);
    out
}

fn target_notes(kind: ConfirmKind, ts: &Vec<ConfirmTarget>) -> (r: Vec<String>)
    requires
        ids_can_shorten(kind, target_views(ts@)),
    ensures
        texts(r@) == notes_of(kind, target_views(ts@)),
{
    broadcast use texts_push;

    let ghost all = target_views(ts@);
    let mut out: Vec<String> = Vec::new();
    let mut i: usize = 0;
    while i < ts.len()
        invariant
            i <= ts@.len(),
            all == target_views(ts@),
            ids_can_shorten(kind, all),
            texts(out@) =~= notes_of(kind, all.take(i as int)),
        decreases ts@.len() - i,
    {
        assert(all[i as int] == ts@[i as int]@);
        let ghost had = texts(out@);
        out.push(note(kind, &ts[i]).content);
        assert(texts(out@) == had.push(note_of(kind, all[i as int])));
        i += 1;
    }
    assert(all.take(i as int) =~= all);
    out
}

fn target_rows(kind: ConfirmKind, ts: &Vec<ConfirmTarget>, width: usize) -> (r: Vec<Line>)
    requires
        ids_can_shorten(kind, target_views(ts@)),
    ensures
        line_views(r@) == target_views(ts@).map_values(
            |t: TargetView| target_row(kind, t, width as nat),
        ),
{
    broadcast use line_views_push;

    let ghost all = target_views(ts@);
    let mut out: Vec<Line> = Vec::new();
    let mut i: usize = 0;
    while i < ts.len()
        invariant
            i <= ts@.len(),
            all == target_views(ts@),
            ids_can_shorten(kind, all),
            line_views(out@) =~= all.take(i as int).map_values(
                |t: TargetView| target_row(kind, t, width as nat),
            ),
        decreases ts@.len() - i,
    {
        assert(all[i as int] == ts@[i as int]@);
        let name = concat("    • ", pad(ts[i].module_name.as_str(), width).as_str());
        let l = two(Span::raw(name.as_str()), note(kind, &ts[i]));
        let ghost had = line_views(out@);
        out.push(l);
        assert(line_views(out@) == had.push(target_row(kind, all[i as int], width as nat)));
        i += 1;
    }
    assert(all.take(i as int) =~= all);
    out
}

fn add_new(acc: &mut Vec<String>, addrs: &Vec<String>)
    ensures
        texts(final(acc)@) == with_new(
            texts(old(acc)@),
            texts(addrs@),
            texts(addrs@).len() as int,
        ),
{
    broadcast use texts_push;

    let ghost start = texts(acc@);
    let ghost all = texts(addrs@);
    let mut i: usize = 0;
    while i < addrs.len()
        invariant
            i <= addrs@.len(),
            all == texts(addrs@),
            texts(acc@) == with_new(start, all, i as int),
        decreases addrs@.len() - i,
    {
        assert(all[i as int] == addrs@[i as int]@);
        if !any_is(acc, addrs[i].as_str()) {
            acc.push(addrs[i].clone());
        }
        i += 1;
    }
}

fn warned_addresses(kind: ConfirmKind, ts: &Vec<ConfirmTarget>) -> (r: Vec<String>)
    ensures
        texts(r@) == warned_of(kind, target_views(ts@)),
{
    let ghost all = target_views(ts@);
    let mut out: Vec<String> = Vec::new();
    assert(texts(out@) =~= Seq::<Seq<char>>::empty());
    if kind != ConfirmKind::Apply {
        return out;
    }
    let mut i: usize = 0;
    while i < ts.len()
        invariant
            i <= ts@.len(),
            all == target_views(ts@),
            texts(out@) == restricted_to(all, i as int),
        decreases ts@.len() - i,
    {
        assert(all[i as int] == ts@[i as int]@);
        add_new(&mut out, &ts[i].plan_targets);
        i += 1;
    }
    out
}

fn bullet_texts(addrs: &Vec<String>) -> (r: Vec<String>)
    ensures
        texts(r@) == bullets(texts(addrs@)),
{
    broadcast use texts_push;

    let ghost all = texts(addrs@);
    let mut out: Vec<String> = Vec::new();
    let mut i: usize = 0;
    while i < addrs.len()
        invariant
            i <= addrs@.len(),
            all == texts(addrs@),
            texts(out@) =~= bullets(all.take(i as int)),
        decreases addrs@.len() - i,
    {
        assert(all[i as int] == addrs@[i as int]@);
        let ghost had = texts(out@);
        out.push(concat("      • ", addrs[i].as_str()));
        assert(texts(out@) == had.push("      • "@ + all[i as int]));
        i += 1;
    }
    assert(all.take(i as int) =~= all);
    out
}

fn restriction(addrs: &Vec<String>) -> (r: Vec<Line>)
    ensures
        line_views(r@) == restriction_lines(texts(addrs@)),
{
    broadcast use line_views_push;

    let ghost all = texts(addrs@);
    let mut out: Vec<Line> = Vec::new();
    let n: usize = addrs.len();
    assert(all.len() == n);
    if n == 0 {
        assert(line_views(out@) =~= Seq::<LineView>::empty());
        return out;
    }
    let warn = theme::colored(Color::Red).bold();
    out.push(blank());
    out.push(
        one(Span::styled("  ⚠ Cached plan is TARGETED — apply covers ONLY:", warn)),
    );
    let ghost head = line_views(out@);
    assert(head =~= seq![
        empty_line(),
        line_of(seq![styled("  ⚠ Cached plan is TARGETED — apply covers ONLY:"@, warn)]),
    ]);
    let mut i: usize = 0;
    while i < n
        invariant
            i <= n,
            n == addrs@.len(),
            all == texts(addrs@),
            warn == in_bold(Color::Red),
            line_views(out@) =~= head + Seq::new(i as nat, |k: int| covered_line(all[k])),
        decreases n - i,
    {
        assert(all[i as int] == addrs@[i as int]@);
        let ghost had = line_views(out@);
        let l = one(Span::styled(concat("      • ", addrs[i].as_str()).as_str(), warn));
        out.push(l);
        assert(line_views(out@) == had.push(covered_line(all[i as int])));
        i += 1;
    }
    assert(line_views(out@) =~= restriction_lines(all));
    out
}

/// The line of keys below a question.
pub fn answer_line(yes: &str, color: Color, no: &str) -> (r: Line)
    ensures
        r@ == answers(yes@, color, no@),
{
    four(
        Span::raw("  "),
        Span::styled(yes, theme::colored(color).bold()),
        Span::raw("   "),
        Span::styled(no, theme::dim()),
    )
}

fn ask(kind: ConfirmKind, n: usize) -> (r: String)
    ensures
        r@ == question(kind, n as nat),
{
    let mut text = say5("  Run ", kind.label(), " on ", number(n).as_str(), " ");
    text.append(
        if n == 1 {
            "module"
        } else {
            "modules"
        },
    );
    text.append(":");
    text
}

/// The overlay that asks to confirm an operation on modules: each with its
/// cached plan, or the lock that would be released. An apply of partial plans
/// says what it is restricted to.
pub fn render_confirm(area: Rect, confirm: &PendingConfirm) -> (r: Popup)
    requires
        ids_can_shorten(confirm.kind, target_views(confirm.targets@)),
    ensures
        r@ == confirm_popup(confirm.kind, target_views(confirm.targets@), area),
{
    broadcast use line_views_push;

    let kind = confirm.kind;
    let ghost ts = target_views(confirm.targets@);
    let n: usize = confirm.targets.len();
    let names = target_names(&confirm.targets);
    let notes = target_notes(kind, &confirm.targets);
    let name_width = longest_of(&names);
    let extra = longest_of(&notes);
    let addrs = warned_addresses(kind, &confirm.targets);
    assert(texts(addrs@).len() == addrs@.len());
    let warning = if addrs.len() == 0 {
        0
    } else {
        larger(
            longest_of(&bullet_texts(&addrs)),
            bytes_in("  ⚠ Cached plan is TARGETED — apply covers ONLY:"),
        )
    };
    let header = ask(kind, n);
    let row: usize = name_width.saturating_add(6).saturating_add(extra);
    let content = larger(larger(larger(row, bytes_in(header.as_str())), warning), 36);
    let mut lines: Vec<Line> = Vec::new();
    lines.push(one(Span::styled(header.as_str(), theme::title())));
    lines.push(blank());
    assert(line_views(lines@) =~= seq![
        line_of(seq![styled(question(kind, ts.len()), plain().with_bold())]),
        empty_line(),
    ]);
    push_lines(&mut lines, target_rows(kind, &confirm.targets, name_width));
    let ghost with_rows = line_views(lines@);
    if kind == ConfirmKind::ForceUnlock {
        lines.push(
            one(Span::styled("  ⚠ Force-removes the state lock", theme::colored(Color::Red))),
        );
        assert(line_views(lines@) =~= with_rows + seq![
            line_of(seq![styled("  ⚠ Force-removes the state lock"@, in_color(Color::Red))]),
        ]);
    } else {
        assert(with_rows =~= with_rows + Seq::<LineView>::empty());
    }
    push_lines(&mut lines, restriction(&addrs));
    lines.push(blank());
    lines.push(answer_line("[y] Confirm", Color::Green, "[any] Cancel"));
    assert(line_views(lines@) =~= confirm_lines(kind, ts));
    let title = say3(" Confirm ", kind.label(), " ");
    popup(content, area, title.as_str(), theme::overlay_border_danger(), lines)
}

} // verus!
