//! The select screen: the module picker.

use crate::app::model::{find_pos, first_pos_finds, App, AppView, Request, RequestView};
use crate::app::modules::newest_active;
use crate::app::session::active_modules;
use crate::app::types::{Modal, ModalView, Screen, ViewportHeights};
use crate::app::valid::{entering_keeps_valid, targets_are_modules, visible_are_modules};
use crate::discovery::module_view;
use crate::text::{concat, decimal};
use crate::ui::theme;
use crate::ui::frame::{
    asked_push, first_shown, fits, four, list_offset, list_rows, list_rows_push, number, one,
    part_fits, push_text, say3, say4, say5, split_rows, stacked, three, widget_views,
    widget_views_push, ListRowView, Row, Widget, WidgetView,
};
use crate::ui::keybar::{hint_views, hints_from, render_keybar};
use crate::ui::keys::{page, page_of, KeyCode, KeyEvent, ScreenAction};
use crate::ui::layout::Rect;
use crate::ui::style::{
    line, line_of, plain, raw, span_views, span_views_push, styled, Alignment, Color, Line,
    LineView, Span, SpanView, Style,
};
use crate::ui::theme::{
    cursor_style, frame_at, frame_text, in_bold, in_color, lifted_spans, ACCENT, MARK, MUTED, OK,
};
use crate::ui::widgets::{count_spans, plan_badge, push_plan_badge, push_spans, spans_of_counts};
use vstd::prelude::*;

verus! {

/// Whether a key starts an action on the current targets.
pub open spec fn is_action(c: char) -> bool {
    c == 'i' || c == 'u' || c == 'p' || c == 'a' || c == 'd' || c == 'U'
}

impl AppView {
    /// The cursor held within the visible modules.
    pub open spec fn cursor_held(self) -> AppView {
        let count = self.visible().len();
        AppView {
            selected_module: if count == 0 {
                0
            } else if self.selected_module >= count {
                (count - 1) as usize
            } else {
                self.selected_module
            },
            ..self
        }
    }

    /// A key while the filter is typed.
    pub open spec fn key_in_filter(self, key: KeyEvent) -> AppView {
        match key.code {
            KeyCode::Esc => AppView {
                filter_active: false,
                filter: Seq::empty(),
                ..self
            }.cursor_held(),
            KeyCode::Enter => AppView { filter_active: false, ..self },
            KeyCode::Backspace => AppView {
                filter: if self.filter.len() > 0 {
                    self.filter.drop_last()
                } else {
                    self.filter
                },
                ..self
            }.cursor_held(),
            KeyCode::Char(c) => AppView { filter: self.filter.push(c), ..self }.cursor_held(),
            _ => self,
        }
    }

    pub open spec fn cursor_last(self) -> AppView {
        let count = self.visible().len();
        if count > 0 {
            AppView { selected_module: (count - 1) as usize, ..self }
        } else {
            self
        }
    }

    /// The explorer opened for the module under the cursor.
    pub open spec fn cursor_explored(self) -> AppView {
        if self.selected_module < self.visible().len() {
            self.explorer_opened(self.visible()[self.selected_module as int])
        } else {
            self
        }
    }

    /// The run screen of the session, if there is one.
    pub open spec fn run_resumed(self) -> AppView {
        if self.session is Some {
            AppView { screen: Screen::Run, ..self }
        } else {
            self
        }
    }

    /// A key on the select screen.
    pub open spec fn key_in_select(self, key: KeyEvent) -> (AppView, ScreenAction) {
        let page = page_of(self.viewport.list);
        if self.filter_active {
            (self.key_in_filter(key), ScreenAction::Stay)
        } else {
            match key.code {
                KeyCode::Down => (self.cursor_moved(1), ScreenAction::Stay),
                KeyCode::Up => (self.cursor_moved(-1), ScreenAction::Stay),
                KeyCode::PageDown => (self.cursor_moved(page), ScreenAction::Stay),
                KeyCode::PageUp => (self.cursor_moved(-page), ScreenAction::Stay),
                KeyCode::Esc => (
                    AppView { filter: Seq::empty(), ..self }.cursor_held(),
                    ScreenAction::Stay,
                ),
                KeyCode::Enter => (self.run_entered(), ScreenAction::Stay),
                KeyCode::Tab => (self.run_resumed(), ScreenAction::Stay),
                KeyCode::Char(c) => if c == 'q' {
                    (self, ScreenAction::Quit)
                } else if is_action(c) {
                    if self.run_entered().screen == Screen::Run {
                        self.run_entered().key_in_run(key)
                    } else {
                        (self.run_entered(), ScreenAction::Stay)
                    }
                } else {
                    (self.char_in_select(c, key.control), ScreenAction::Stay)
                },
                _ => (self, ScreenAction::Stay),
            }
        }
    }

    /// A character on the select screen that neither quits nor starts an action.
    pub open spec fn char_in_select(self, c: char, control: bool) -> AppView {
        if c == '?' {
            self.with_modal(ModalView::Help)
        } else if c == 'j' {
            self.cursor_moved(1)
        } else if c == 'k' {
            self.cursor_moved(-1)
        } else if c == 'g' {
            AppView { selected_module: 0, ..self }
        } else if c == 'G' {
            self.cursor_last()
        } else if c == ' ' {
            if control {
                self.range_selected()
            } else {
                self.selection_toggled()
            }
        } else if c == '*' {
            self.visible_toggled()
        } else if c == 'c' {
            AppView { multi_select: Seq::empty(), max_depth: None, ..self }
        } else if c == '/' {
            AppView { filter_active: true, filter: Seq::empty(), ..self }
        } else if c == '[' {
            self.depth_decreased()
        } else if c == ']' {
            self.depth_increased()
        } else if c == 'r' {
            AppView { requests: self.requests.push(RequestView::Discover), ..self }
        } else if c == 'R' {
            self.with_modal(ModalView::Reset)
        } else if c == 's' {
            self.cursor_explored()
        } else {
            self
        }
    }
}

/// Holds the cursor within the visible modules.
pub fn clamp_selection(app: &mut App)
    ensures
        final(app)@ == old(app)@.cursor_held(),
{
    let ghost before = app@;
    let count = app.visible_module_indices().len();
    if count == 0 {
        app.selected_module = 0;
    } else if app.selected_module >= count {
        app.selected_module = count - 1;
    }
    assert(app@ =~= before.cursor_held());
}

fn filter_key(app: &mut App, key: KeyEvent)
    ensures
        final(app)@ == old(app)@.key_in_filter(key),
{
    let ghost before = app@;
    match key.code {
        KeyCode::Esc => {
            app.filter_active = false;
            app.filter = String::new();
            assert(app@ =~= (AppView { filter_active: false, filter: Seq::empty(), ..before }));
            clamp_selection(app);
        },
        KeyCode::Enter => {
            app.filter_active = false;
            assert(app@ =~= (AppView { filter_active: false, ..before }));
        },
        KeyCode::Backspace => {
            app.filter.pop();
            assert(app@ =~= (AppView { filter: app@.filter, ..before }));
            clamp_selection(app);
        },
        KeyCode::Char(c) => {
            app.filter.push(c);
            assert(app@ =~= (AppView { filter: before.filter.push(c), ..before }));
            clamp_selection(app);
        },
        _ => {},
    }
}

fn go_last(app: &mut App)
    ensures
        final(app)@ == old(app)@.cursor_last(),
{
    let ghost before = app@;
    let count = app.visible_module_indices().len();
    if count > 0 {
        app.selected_module = count - 1;
    }
    assert(app@ =~= before.cursor_last());
}

fn explore_cursor(app: &mut App)
    ensures
        final(app)@ == old(app)@.cursor_explored(),
{
    let visible = app.visible_module_indices();
    if app.selected_module < visible.len() {
        app.open_state_explorer(visible[app.selected_module]);
    }
}

fn char_key(app: &mut App, c: char, control: bool)
    ensures
        final(app)@ == old(app)@.char_in_select(c, control),
{
    let ghost before = app@;
    match c {
        '?' => {
            app.modal = Some(Modal::Help);
            assert(app@ =~= before.with_modal(ModalView::Help));
        },
        'j' => {
            app.move_module_selection(1);
        },
        'k' => {
            app.move_module_selection(-1);
        },
        'g' => {
            app.selected_module = 0;
            assert(app@ =~= (AppView { selected_module: 0, ..before }));
        },
        'G' => go_last(app),
        ' ' => {
            if control {
                app.range_select();
            } else {
                app.toggle_multi_select();
            }
        },
        '*' => app.toggle_select_all_visible(),
        'c' => {
            app.multi_select = Vec::new();
            app.max_depth = None;
            assert(app@ =~= (AppView { multi_select: Seq::empty(), max_depth: None, ..before }));
        },
        '/' => {
            app.filter_active = true;
            app.filter = String::new();
            assert(app@ =~= (AppView { filter_active: true, filter: Seq::empty(), ..before }));
        },
        '[' => app.decrease_depth(),
        ']' => app.increase_depth(),
        'r' => app.request(Request::Discover),
        'R' => app.request_reset_confirm(),
        's' => explore_cursor(app),
        _ => {},
    }
}

/// Handles a key on the select screen, where the filter may be typed.
pub fn handle_key(app: &mut App, key: KeyEvent) -> (r: ScreenAction)
    requires
        old(app)@.can_take(),
    ensures
        (final(app)@, r) == old(app)@.key_in_select(key),
{
    let ghost before = app@;
    if app.filter_active {
        filter_key(app, key);
        return ScreenAction::Stay;
    }
    let page = page(app.viewport.list);
    proof {
        targets_are_modules(before);
        entering_keeps_valid(before);
    }
    match key.code {
        KeyCode::Char('q') => {
            return ScreenAction::Quit;
        },
        KeyCode::Down => {
            app.move_module_selection(1);
        },
        KeyCode::Up => {
            app.move_module_selection(-1);
        },
        KeyCode::PageDown => {
            app.move_module_selection(page);
        },
        KeyCode::PageUp => {
            app.move_module_selection(-page);
        },
        KeyCode::Esc => {
            app.filter = String::new();
            assert(app@ =~= (AppView { filter: Seq::empty(), ..before }));
            clamp_selection(app);
        },
        KeyCode::Enter => app.enter_run(),
        KeyCode::Tab => {
            if app.session.is_some() {
                app.screen = Screen::Run;
            }
            assert(app@ =~= before.run_resumed());
        },
        KeyCode::Char('i')
        | KeyCode::Char('u')
        | KeyCode::Char('p')
        | KeyCode::Char('a')
        | KeyCode::Char('d')
        | KeyCode::Char('U') => {
            app.enter_run();
            if app.screen == Screen::Run {
                return crate::ui::run::handle_key(app, key);
            }
        },
        KeyCode::Char(c) => char_key(app, c, key.control),
        _ => {},
    }
    ScreenAction::Stay
}

/// The heights of the parts of the screen, from top to bottom; the module list
/// has what is left. A higher window has a blank row above the list.
pub open spec fn select_heights(area: Rect) -> Seq<Option<u16>> {
    seq![
        Some(1u16),
        Some(1u16),
        Some(
            if area.height >= 20 {
                1u16
            } else {
                0u16
            },
        ),
        None,
        Some(1u16),
        Some(1u16),
    ]
}

/// What shows that a module has an active task.
pub open spec fn activity_spans(a: AppView, path: Seq<char>, with_command: bool) -> Seq<SpanView> {
    match newest_active(a.engine.tasks, path, a.engine.tasks.len() as int) {
        Some(k) => {
            let glyph = seq![
                styled("  "@ + frame_text(frame_at(a.spinner_tick)), in_color(MARK)),
            ];
            if with_command {
                glyph + seq![styled(" "@ + a.engine.tasks[k].command, in_color(MARK))]
            } else {
                glyph
            }
        },
        None => Seq::empty(),
    }
}

/// The spans of a module in the list. In a narrow window the plan's age, the
/// command and the counts are left out.
pub open spec fn module_spans(a: AppView, idx: usize, is_cursor: bool, width: u16) -> Seq<
    SpanView,
> {
    let m = a.modules[idx as int];
    let marked = a.multi_select.contains(idx);
    seq![
        if is_cursor {
            styled(theme::CURSOR_BAR@, in_color(ACCENT))
        } else {
            raw(" "@)
        },
        if width < 60 {
            raw(" "@)
        } else if marked {
            styled("● "@, in_bold(Color::Yellow))
        } else {
            raw("  "@)
        },
        styled(
            m.name,
            if marked {
                in_color(Color::Yellow)
            } else {
                plain()
            },
        ),
    ] + activity_spans(a, m.path, width >= 100) + (if width >= 80 {
        plan_badge(a.engine, m.path)
    } else {
        Seq::empty()
    }) + (if width >= 60 {
        match a.plan_counts(m.path) {
            Some(c) => spans_of_counts(c),
            None => Seq::empty(),
        }
    } else {
        Seq::empty()
    })
}

/// A row of a list: on the cursor bar its colours are lifted off the bar's own.
pub open spec fn list_row(spans: Seq<SpanView>, is_cursor: bool) -> ListRowView {
    if is_cursor {
        ListRowView { line: line_of(lifted_spans(spans)), style: cursor_style() }
    } else {
        ListRowView { line: line_of(spans), style: plain() }
    }
}

/// The rows of the module list.
pub open spec fn module_rows(a: AppView, width: u16) -> Seq<ListRowView> {
    let v = a.visible();
    Seq::new(
        v.len(),
        |i: int|
            list_row(module_spans(a, v[i], i == a.selected_module, width), i == a.selected_module),
    )
}

/// The row of the list that is selected.
pub open spec fn selected_row(a: AppView) -> int {
    let count = a.visible().len() as int;
    let last = if count == 0 {
        0
    } else {
        count - 1
    };
    if a.selected_module < last {
        a.selected_module as int
    } else {
        last
    }
}

/// The module list, or a note that nothing matches.
pub open spec fn list_widget(a: AppView, area: Rect, width: u16) -> WidgetView {
    if a.visible().len() == 0 {
        WidgetView::Text {
            area,
            lines: seq![
                line_of(
                    seq![styled("  no modules match the current filter"@, in_color(MUTED))],
                ),
            ],
            alignment: Alignment::Left,
        }
    } else {
        WidgetView::List {
            area,
            rows: module_rows(a, width),
            selected: Some(selected_row(a) as usize),
        }
    }
}

/// How the session is doing: the number of its modules and how many of them are
/// active.
pub open spec fn session_text(n: nat, running: nat, width: u16) -> Seq<char> {
    if width < 80 {
        (if running > 0 {
            "⟳"@
        } else {
            "✓"@
        }) + " "@ + decimal(running) + "/"@ + decimal(n) + " ⇥"@
    } else if running > 0 {
        "⟳ session · "@ + decimal(n) + " modules · "@ + decimal(running) + " running  ⇥"@
    } else {
        "✓ session · "@ + decimal(n) + " modules · done  ⇥"@
    }
}

/// The session, at the right of the first line.
pub open spec fn session_widgets(a: AppView, area: Rect) -> Seq<WidgetView> {
    match a.session {
        Some(s) => {
            let n = s.modules.len();
            let running = active_modules(s.modules, a.engine.tasks, n as int);
            seq![
                WidgetView::Text {
                    area,
                    lines: seq![
                        line_of(
                            seq![
                                styled(
                                    session_text(n, running, area.width),
                                    if running > 0 {
                                        in_color(MARK)
                                    } else {
                                        in_color(OK).with_dim()
                                    },
                                ),
                            ],
                        ),
                    ],
                    alignment: Alignment::Right,
                },
            ]
        },
        None => Seq::empty(),
    }
}

/// The second line: the binary, how many modules there are, and what limits
/// which of them are shown.
pub open spec fn summary_text(a: AppView) -> Seq<char> {
    a.config.binary@ + " · "@ + decimal(a.modules.len()) + " modules"@ + (match a.max_depth {
        Some(d) => " · [depth:"@ + decimal(d as nat) + "]"@,
        None => ""@,
    }) + (if a.filter.len() > 0 {
        " · [/"@ + a.filter + "]"@
    } else {
        ""@
    })
}

/// A single line at the left of its area.
pub open spec fn text_at(area: Rect, l: LineView) -> WidgetView {
    WidgetView::Text { area, lines: seq![l], alignment: Alignment::Left }
}

/// The two lines at the top of the screen.
pub open spec fn header_widgets(a: AppView, top: Rect, second: Rect) -> Seq<WidgetView> {
    seq![
        text_at(
            top,
            line_of(
                seq![styled("rug"@, in_bold(ACCENT)), raw("  "@), styled(a.root@, in_color(MUTED))],
            ),
        ),
    ] + session_widgets(a, top) + seq![
        text_at(second, line_of(seq![styled(summary_text(a), in_color(MUTED))])),
    ]
}

/// The line below the list: how many modules are selected, else how many are
/// shown.
pub open spec fn status_line(a: AppView) -> LineView {
    line_of(
        seq![
            if a.multi_select.len() > 0 {
                styled(
                    "●"@ + decimal(a.multi_select.len()) + " selected"@,
                    in_color(Color::Yellow),
                )
            } else {
                styled(decimal(a.visible().len()) + " modules"@, in_color(MUTED))
            },
        ],
    )
}

/// The hints at the bottom of the screen.
pub open spec fn select_hints() -> Seq<(Seq<char>, Seq<char>)> {
    seq![
        ("j/k"@, "move"@),
        ("space"@, "select"@),
        ("*"@, "all"@),
        ("/"@, "filter"@),
        ("enter"@, "run"@),
        ("i/p/a/d"@, "act"@),
        ("s"@, "state"@),
        ("?"@, "help"@),
        ("q"@, "quit"@),
    ]
}

/// A bar of hints.
pub open spec fn keybar_widgets(hints: Seq<(Seq<char>, Seq<char>)>, area: Rect) -> Seq<
    WidgetView,
> {
    if area.height == 0 {
        Seq::empty()
    } else {
        seq![text_at(area, line_of(hints_from(hints, 0, 0, area.width as int)))]
    }
}

/// The bottom line: the filter while it is typed, else hints.
pub open spec fn bottom_widgets(a: AppView, area: Rect) -> Seq<WidgetView> {
    if a.filter_active {
        seq![
            text_at(
                area,
                line_of(
                    seq![
                        styled("/"@, in_color(ACCENT)),
                        raw(a.filter),
                        styled("▌"@, in_color(ACCENT)),
                        styled("  enter keep · esc clear"@, in_color(MUTED)),
                    ],
                ),
            ),
        ]
    } else {
        keybar_widgets(select_hints(), area)
    }
}

/// The select screen.
pub open spec fn select_frame(a: AppView, area: Rect) -> Seq<WidgetView> {
    let parts = stacked(area, select_heights(area));
    header_widgets(a, parts[0], parts[1]) + seq![
        list_widget(a, parts[3], area.width),
        text_at(parts[4], status_line(a)),
    ] + bottom_widgets(a, parts[5])
}

impl AppView {
    /// The application once the select screen was drawn: where its list is.
    pub open spec fn select_drawn(self, area: Rect) -> AppView {
        let parts = stacked(area, select_heights(area));
        AppView {
            viewport: ViewportHeights {
                list: parts[3].height,
                list_top: parts[3].y,
                list_offset: if self.visible().len() == 0 {
                    self.viewport.list_offset
                } else {
                    (first_shown(parts[3], self.visible().len(), selected_row(self)) % 65536) as u16
                },
                ..self.viewport
            },
            ..self
        }
    }
}

/// Appends what shows that a module has an active task.
fn push_activity(spans: &mut Vec<Span>, app: &App, path: &str, with_command: bool)
    ensures
        span_views(final(spans)@) == span_views(old(spans)@) + activity_spans(
            app@,
            path@,
            with_command,
        ),
{
    broadcast use span_views_push;

    let ghost had = span_views(spans@);
    if let Some((frame, command)) = app.module_activity(path) {
        spans.push(
            Span::styled(
                concat("  ", theme::spinner_frame(frame)).as_str(),
                theme::colored(MARK),
            ),
        );
        if with_command {
            spans.push(
                Span::styled(concat(" ", command.as_str()).as_str(), theme::colored(MARK)),
            );
        }
    }
    assert(span_views(spans@) =~= had + activity_spans(app@, path@, with_command));
}

fn module_row(app: &App, idx: usize, is_cursor: bool, width: u16) -> (r: Row)
    requires
        idx < app@.modules.len(),
    ensures
        r@ == list_row(module_spans(app@, idx, is_cursor, width), is_cursor),
{
    broadcast use span_views_push;

    let m = &app.modules[idx];
    assert(app@.modules[idx as int] == module_view(*m));
    let marked = find_pos(&app.multi_select, idx) < app.multi_select.len();
    proof {
        first_pos_finds(app.multi_select@, idx);
    }
    let mut spans: Vec<Span> = Vec::new();
    if is_cursor {
        spans.push(Span::styled(theme::CURSOR_BAR, theme::colored(ACCENT)));
    } else {
        spans.push(Span::raw(" "));
    }
    if width < 60 {
        spans.push(Span::raw(" "));
    } else if marked {
        spans.push(Span::styled("● ", theme::multi_select_marker()));
    } else {
        spans.push(Span::raw("  "));
    }
    spans.push(
        Span::styled(
            m.display_name.as_str(),
            if marked {
                theme::multi_select_item()
            } else {
                Style::default()
            },
        ),
    );
    let ghost head = span_views(spans@);
    push_activity(&mut spans, app, m.path.as_str(), width >= 100);
    if width >= 80 {
        push_plan_badge(&mut spans, &app.engine, m.path.as_str());
    } else {
        assert(span_views(spans@) =~= span_views(spans@) + Seq::<SpanView>::empty());
    }
    let ghost aged = span_views(spans@);
    if width >= 60 {
        if let Some(counts) = app.ready_plan_counts(m.path.as_str()) {
            push_spans(&mut spans, count_spans(&counts));
        }
    }
    assert(span_views(spans@) =~= module_spans(app@, idx, is_cursor, width));
    as_row(line(spans), is_cursor)
}

/// A row of a list, on the cursor bar or not.
pub fn as_row(l: Line, is_cursor: bool) -> (r: Row)
    requires
        l@ == line_of(l@.spans),
    ensures
        r@ == list_row(l@.spans, is_cursor),
{
    if is_cursor {
        Row { line: theme::lift_fg(l), style: theme::row_cursor() }
    } else {
        Row { line: l, style: Style::default() }
    }
}

fn push_list(frame: &mut Vec<Widget>, app: &App, visible: &Vec<usize>, area: Rect, width: u16)
    requires
        visible@ == app@.visible(),
    ensures
        widget_views(final(frame)@) == widget_views(old(frame)@).push(
            list_widget(app@, area, width),
        ),
{
    broadcast use {list_rows_push, widget_views_push};

    let count: usize = visible.len();
    if count == 0 {
        push_text(
            frame,
            area,
            one(Span::styled("  no modules match the current filter", theme::dim())),
            Alignment::Left,
        );
        return ;
    }
    proof {
        visible_are_modules(app@.modules, app@.filter, app@.max_depth, app@.modules.len() as int);
    }
    let mut rows: Vec<Row> = Vec::new();
    let mut i: usize = 0;
    while i < count
        invariant
            i <= count,
            count == visible@.len(),
            visible@ == app@.visible(),
            forall|k: int| 0 <= k < visible@.len() ==> #[trigger] visible@[k] < app@.modules.len(),
            list_rows(rows@) =~= Seq::new(
                i as nat,
                |k: int|
                    list_row(
                        module_spans(app@, visible@[k], k == app@.selected_module, width),
                        k == app@.selected_module,
                    ),
            ),
        decreases count - i,
    {
        let ghost had = list_rows(rows@);
        assert(visible@[i as int] < app@.modules.len());
        let is_cursor = i == app.selected_module;
        rows.push(module_row(app, visible[i], is_cursor, width));
        assert(list_rows(rows@) == had.push(
            list_row(module_spans(app@, visible@[i as int], is_cursor, width), is_cursor),
        ));
        i += 1;
    }
    assert(list_rows(rows@) =~= module_rows(app@, width));
    let at: usize = if app.selected_module < count - 1 {
        app.selected_module
    } else {
        count - 1
    };
    frame.push(Widget::List { area, rows, selected: Some(at) });
}

fn push_header(frame: &mut Vec<Widget>, app: &App, top: Rect, second: Rect)
    ensures
        widget_views(final(frame)@) == widget_views(old(frame)@) + header_widgets(
            app@,
            top,
            second,
        ),
{
    let ghost had = widget_views(frame@);
    push_text(
        frame,
        top,
        three(
            Span::styled("rug", theme::app_title()),
            Span::raw("  "),
            Span::styled(app.root.as_str(), theme::dim()),
        ),
        Alignment::Left,
    );
    if let Some((n, running)) = app.session_indicator() {
        let rt = number(running);
        let nt = number(n);
        let text = if top.width < 80 {
            let icon = if running > 0 {
                "⟳"
            } else {
                "✓"
            };
            concat(say5(icon, " ", rt.as_str(), "/", nt.as_str()).as_str(), " ⇥")
        } else if running > 0 {
            say5("⟳ session · ", nt.as_str(), " modules · ", rt.as_str(), " running  ⇥")
        } else {
            say3("✓ session · ", nt.as_str(), " modules · done  ⇥")
        };
        let style = if running > 0 {
            theme::colored(MARK)
        } else {
            theme::colored(OK).dim()
        };
        push_text(frame, top, one(Span::styled(text.as_str(), style)), Alignment::Right);
    }
    let total: usize = app.modules.len();
    assert(app@.modules.len() == total);
    let mut text = say4(app.config.binary.as_str(), " · ", number(total).as_str(), " modules");
    let ghost base = text@;
    if let Some(d) = app.max_depth {
        text.append(say3(" · [depth:", number(d).as_str(), "]").as_str());
    } else {
        text.append("");
    }
    if app.filter.as_str().is_empty() {
        text.append("");
    } else {
        text.append(say3(" · [/", app.filter.as_str(), "]").as_str());
    }
    assert(text@ =~= summary_text(app@));
    push_text(frame, second, one(Span::styled(text.as_str(), theme::dim())), Alignment::Left);
    assert(widget_views(frame@) =~= had + header_widgets(app@, top, second));
}

/// Appends a bar of hints.
pub fn push_keybar(frame: &mut Vec<Widget>, area: Rect, hints: &Vec<(&str, &str)>)
    ensures
        widget_views(final(frame)@) == widget_views(old(frame)@) + keybar_widgets(
            hint_views(hints@),
            area,
        ),
{
    let ghost had = widget_views(frame@);
    if let Some(l) = render_keybar(area, hints.as_slice()) {
        push_text(frame, area, l, Alignment::Left);
    }
    assert(widget_views(frame@) =~= had + keybar_widgets(hint_views(hints@), area));
}

fn push_bottom(frame: &mut Vec<Widget>, app: &App, area: Rect)
    ensures
        widget_views(final(frame)@) == widget_views(old(frame)@) + bottom_widgets(app@, area),
{
    let ghost had = widget_views(frame@);
    if app.filter_active {
        push_text(
            frame,
            area,
            four(
                Span::styled("/", theme::colored(ACCENT)),
                Span::raw(app.filter.as_str()),
                Span::styled("▌", theme::colored(ACCENT)),
                Span::styled("  enter keep · esc clear", theme::dim()),
            ),
            Alignment::Left,
        );
    } else {
        let hints: Vec<(&'static str, &'static str)> = vec![
            ("j/k", "move"),
            ("space", "select"),
            ("*", "all"),
            ("/", "filter"),
            ("enter", "run"),
            ("i/p/a/d", "act"),
            ("s", "state"),
            ("?", "help"),
            ("q", "quit"),
        ];
        assert(hint_views(hints@) =~= select_hints());
        push_keybar(frame, area, &hints);
    }
    assert(widget_views(frame@) =~= had + bottom_widgets(app@, area));
}

/// Draws the select screen: the module picker. Notes where its list is, for
/// page keys and mouse clicks.
pub fn render(area: Rect, app: &mut App) -> (r: Vec<Widget>)
    requires
        fits(area),
        area.height >= 5,
    ensures
        widget_views(r@) == select_frame(old(app)@, area),
        final(app)@ == old(app)@.select_drawn(area),
{
    let ghost before = app@;
    let spacer: u16 = if area.height >= 20 {
        1
    } else {
        0
    };
    let heights: Vec<Option<u16>> = vec![Some(1), Some(1), Some(spacer), None, Some(1), Some(1)];
    proof {
        assert(heights@ =~= select_heights(area));
        assert(heights@[3] is None);
        let none = Seq::<Option<u16>>::empty();
        asked_push(none, Some(1));
        asked_push(none.push(Some(1)), Some(1));
        asked_push(none.push(Some(1)).push(Some(1)), Some(spacer));
        asked_push(none.push(Some(1)).push(Some(1)).push(Some(spacer)), None);
        asked_push(none.push(Some(1)).push(Some(1)).push(Some(spacer)).push(None), Some(1));
        asked_push(
            none.push(Some(1)).push(Some(1)).push(Some(spacer)).push(None).push(Some(1)),
            Some(1),
        );
        assert(heights@ =~= none.push(Some(1)).push(Some(1)).push(Some(spacer)).push(None).push(
            Some(1),
        ).push(Some(1)));
    }
    let parts = split_rows(area, heights.as_slice());
    let visible = app.visible_module_indices();
    let count: usize = visible.len();
    let mut frame: Vec<Widget> = Vec::new();
    assert(widget_views(frame@) =~= Seq::<WidgetView>::empty());
    push_header(&mut frame, app, parts[0], parts[1]);
    push_list(&mut frame, app, &visible, parts[3], area.width);
    let k: usize = app.multi_select.len();
    let status = if k > 0 {
        Span::styled(say3("●", number(k).as_str(), " selected").as_str(), theme::multi_select_item())
    } else {
        Span::styled(concat(number(count).as_str(), " modules").as_str(), theme::dim())
    };
    push_text(&mut frame, parts[4], one(status), Alignment::Left);
    push_bottom(&mut frame, app, parts[5]);
    assert(widget_views(frame@) =~= select_frame(before, area));
    if count > 0 {
        let at: usize = if app.selected_module < count - 1 {
            app.selected_module
        } else {
            count - 1
        };
        proof {
            part_fits(area, select_heights(area), 3, 3);
        }
        app.viewport.list_offset = (list_offset(parts[3], count, at) % 65536) as u16;
    }
    app.viewport.list = parts[3].height;
    app.viewport.list_top = parts[3].y;
    assert(app@ =~= before.select_drawn(area));
    frame
}

/// What is drawn on the cursor bar can be read: no colour on it is the bar's
/// own, or one that has to be lifted off it.
pub proof fn cursor_bar_is_legible(spans: Seq<SpanView>, i: int)
    requires
        0 <= i < spans.len(),
    ensures
        match list_row(spans, true).line.spans[i].style.fg {
            Some(c) => c != MUTED && theme::lifted(c) == c,
            None => true,
        },
        list_row(spans, true).line.spans[i].content == spans[i].content,
{
}

/// The selected row of a list is always among those that are shown.
pub proof fn selected_row_is_shown(area: Rect, rows: nat, selected: int)
    requires
        0 <= selected < rows,
        area.width > 0,
        area.height > 0,
    ensures
        0 <= first_shown(area, rows, selected) <= selected < first_shown(area, rows, selected)
            + area.height,
{
}

} // verus!
