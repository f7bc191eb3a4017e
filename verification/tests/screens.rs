use ratatui::backend::TestBackend;
use ratatui::buffer::Buffer;
use ratatui::style::Modifier;
use ratatui::widgets::{Block, Borders, Clear, List, ListItem, ListState, Paragraph};
use rug::app::explorer::StateExplorer;
use rug::app::model::{App, Request};
use rug::app::selection::{OutputSelection, SelPos};
use rug::app::types::{
    ExplorerOpKind, Modal, OpResult, PendingOp, RunSession, Screen, SessionModule,
};
use rug::config::Config;
use rug::lock::LockInfo;
use rug::module::{Module, ModuleKind};
use rug::plan_cache::PlanHandle;
use rug::state::{IndexKey, Instance, StateContent, StateResource};
use rug::task::{ResourceCounts, Task, TaskEvent, TaskStatus};
use rug::ui::draw::draw;
use rug::ui::frame::Widget;
use rug::ui::keys::{fullscreen_esc, handle_key_event, KeyCode, KeyEvent, ScreenAction};
use rug::ui::layout::Rect;
use rug::ui::mouse::{handle_mouse, MouseEvent, MouseKind};
use rug::ui::style;
use rug::ui::style::{Alignment, Color};
use rug::ui::theme;

/// Sizes of every width and height tier.
const SIZES: &[(u16, u16)] = &[(120, 35), (80, 24), (60, 18), (45, 12), (40, 10)];

fn to_color(c: Color) -> ratatui::style::Color {
    match c {
        Color::Reset => ratatui::style::Color::Reset,
        Color::Black => ratatui::style::Color::Black,
        Color::Red => ratatui::style::Color::Red,
        Color::Green => ratatui::style::Color::Green,
        Color::Yellow => ratatui::style::Color::Yellow,
        Color::Blue => ratatui::style::Color::Blue,
        Color::Magenta => ratatui::style::Color::Magenta,
        Color::Cyan => ratatui::style::Color::Cyan,
        Color::Gray => ratatui::style::Color::Gray,
        Color::DarkGray => ratatui::style::Color::DarkGray,
        Color::LightRed => ratatui::style::Color::LightRed,
        Color::LightGreen => ratatui::style::Color::LightGreen,
        Color::LightYellow => ratatui::style::Color::LightYellow,
        Color::LightBlue => ratatui::style::Color::LightBlue,
        Color::LightMagenta => ratatui::style::Color::LightMagenta,
        Color::LightCyan => ratatui::style::Color::LightCyan,
        Color::White => ratatui::style::Color::White,
        Color::Rgb(r, g, b) => ratatui::style::Color::Rgb(r, g, b),
        Color::Indexed(i) => ratatui::style::Color::Indexed(i),
    }
}

const NAMED: &[Color] = &[
    Color::Reset,
    Color::Black,
    Color::Red,
    Color::Green,
    Color::Yellow,
    Color::Blue,
    Color::Magenta,
    Color::Cyan,
    Color::Gray,
    Color::DarkGray,
    Color::LightRed,
    Color::LightGreen,
    Color::LightYellow,
    Color::LightBlue,
    Color::LightMagenta,
    Color::LightCyan,
    Color::White,
];

fn from_color(c: ratatui::style::Color) -> Color {
    *NAMED.iter().find(|n| to_color(**n) == c).expect("a named colour")
}

fn to_style(s: style::Style) -> ratatui::style::Style {
    let mut r = ratatui::style::Style::default();
    if let Some(c) = s.fg {
        r = r.fg(to_color(c));
    }
    if let Some(c) = s.bg {
        r = r.bg(to_color(c));
    }
    let m = s.add_modifier;
    for (on, modifier) in [
        (m.bold, Modifier::BOLD),
        (m.dim, Modifier::DIM),
        (m.italic, Modifier::ITALIC),
        (m.underlined, Modifier::UNDERLINED),
        (m.reversed, Modifier::REVERSED),
        (m.crossed_out, Modifier::CROSSED_OUT),
    ] {
        if on {
            r = r.add_modifier(modifier);
        }
    }
    r
}

fn to_line(l: &style::Line) -> ratatui::text::Line<'static> {
    let spans: Vec<ratatui::text::Span<'static>> = l
        .spans
        .iter()
        .map(|s| ratatui::text::Span::styled(s.content.clone(), to_style(s.style)))
        .collect();
    ratatui::text::Line::from(spans).style(to_style(l.style))
}

fn to_lines(lines: &[style::Line]) -> Vec<ratatui::text::Line<'static>> {
    lines.iter().map(to_line).collect()
}

fn to_rect(r: Rect) -> ratatui::layout::Rect {
    ratatui::layout::Rect::new(r.x, r.y, r.width, r.height)
}

fn paint(f: &mut ratatui::Frame, widgets: &[Widget]) {
    for w in widgets {
        match w {
            Widget::Clear { area } => f.render_widget(Clear, to_rect(*area)),
            Widget::Text { area, lines, alignment } => {
                let alignment = match alignment {
                    Alignment::Left => ratatui::layout::Alignment::Left,
                    Alignment::Center => ratatui::layout::Alignment::Center,
                    Alignment::Right => ratatui::layout::Alignment::Right,
                };
                f.render_widget(
                    Paragraph::new(to_lines(lines)).alignment(alignment),
                    to_rect(*area),
                );
            }
            Widget::Framed(p) => f.render_widget(
                Paragraph::new(to_lines(&p.lines)).block(
                    Block::default()
                        .title(p.title.clone())
                        .borders(Borders::ALL)
                        .border_style(to_style(p.border)),
                ),
                to_rect(p.area),
            ),
            Widget::Rule { area, title, border } => f.render_widget(
                Block::default()
                    .borders(Borders::TOP)
                    .border_style(to_style(*border))
                    .title(ratatui::text::Span::styled(
                        title.content.clone(),
                        to_style(title.style),
                    )),
                to_rect(*area),
            ),
            Widget::List { area, rows, selected } => {
                let items: Vec<ListItem> = rows
                    .iter()
                    .map(|r| ListItem::new(to_line(&r.line)).style(to_style(r.style)))
                    .collect();
                let mut state = ListState::default();
                state.select(*selected);
                f.render_stateful_widget(List::new(items), to_rect(*area), &mut state);
            }
        }
    }
}

fn demo_app(n: usize) -> App {
    let modules: Vec<Module> = (0..n)
        .map(|i| Module {
            path: format!("/tmp/rug-ui-test/mod{i}"),
            display_name: format!("infra/network/mod{i}"),
            kind: ModuleKind::Root,
        })
        .collect();
    let config = Config {
        binary: "terraform".to_string(),
        parallelism: 2,
        ignore_dirs: Vec::new(),
        show_library_modules: false,
        source: None,
    };
    App::new(config, "/tmp/rug-ui-test".to_string(), modules)
}

fn make_session(app: &mut App) {
    let mods: Vec<SessionModule> = app
        .modules
        .iter()
        .enumerate()
        .map(|(i, m)| SessionModule {
            module_idx: i,
            path: m.path.clone(),
            name: m.display_name.clone(),
        })
        .collect();
    app.session = Some(RunSession::new(mods, 0));
    app.screen = Screen::Run;
}

/// `n` lines of `len` characters; the last one ends with `marker`.
fn make_output_lines(n: usize, len: usize, marker: &str) -> Vec<String> {
    (0..n)
        .map(|i| {
            if i + 1 == n {
                let pad = len.saturating_sub(marker.len());
                format!("{}{}", "a".repeat(pad), marker)
            } else {
                "b".repeat(len)
            }
        })
        .collect()
}

fn task(id: usize, dir: &str, name: &str, status: TaskStatus) -> Task {
    Task {
        id,
        module_dir: dir.to_string(),
        module_name: name.to_string(),
        command: "apply".to_string(),
        status,
        output_lines: Vec::new(),
        started_at: Some(0),
        finished_at: None,
        plan_output: None,
        targets: Vec::new(),
        apply_plan: None,
        resource_counts: None,
        spawned: false,
    }
}

/// Shows a running task with these lines for the first module.
fn attach_output(app: &mut App, lines: Vec<String>) {
    let path = app.modules[0].path.clone();
    let id = app.engine.tasks.len();
    let mut t = task(id, &path, "mod0", TaskStatus::Running);
    t.output_lines = lines;
    app.engine.tasks.push(t);
    app.session.as_mut().unwrap().latest_task.insert(path, id);
}

fn area(w: u16, h: u16) -> Rect {
    Rect { x: 0, y: 0, width: w, height: h }
}

fn draw_at(app: &mut App, w: u16, h: u16) {
    draw_buffer(app, w, h);
}

fn draw_buffer(app: &mut App, w: u16, h: u16) -> Buffer {
    let widgets = draw(area(w, h), app);
    let mut term = ratatui::Terminal::new(TestBackend::new(w, h)).unwrap();
    term.draw(|f| paint(f, &widgets)).unwrap();
    term.backend().buffer().clone()
}

fn left_mouse(kind: MouseKind, column: u16, row: u16) -> MouseEvent {
    MouseEvent { kind, column, row }
}

fn render_to_string(app: &mut App, w: u16, h: u16) -> String {
    let buffer = draw_buffer(app, w, h);
    let mut out = String::new();
    for y in 0..h {
        for x in 0..w {
            out.push_str(buffer[(x, y)].symbol());
        }
        out.push('\n');
    }
    out
}

fn press(app: &mut App, code: KeyCode) -> ScreenAction {
    handle_key_event(app, Some((120, 35)), KeyEvent { code, control: false })
}

fn type_key(app: &mut App, c: char) -> ScreenAction {
    press(app, KeyCode::Char(c))
}

#[test]
fn select_mockup_fidelity() {
    let mut app = demo_app(6);
    for &(w, h) in &[(120u16, 30u16), (80, 24)] {
        let s = render_to_string(&mut app, w, h);
        assert!(s.contains("rug"), "select header missing title at {w}×{h}");
        assert!(
            s.contains("terraform · 6 modules"),
            "select header missing binary/count at {w}×{h}"
        );
        assert!(
            s.contains("infra/network/mod0"),
            "select missing module row at {w}×{h}"
        );
        assert!(
            s.contains("j/k") && s.contains("move"),
            "select keybar missing at {w}×{h}"
        );
    }
}

#[test]
fn run_mockup_fidelity() {
    let mut app = demo_app(6);
    make_session(&mut app);
    for &(w, h) in &[(120u16, 30u16), (80, 24)] {
        let s = render_to_string(&mut app, w, h);
        assert!(
            s.contains("Run") && s.contains("6 modules"),
            "run header missing at {w}×{h}"
        );
        assert!(s.contains("STATUS"), "run col header missing at {w}×{h}");
        assert!(
            s.contains(theme::CURSOR_BAR),
            "run cursor bar missing at {w}×{h}"
        );
        assert!(
            s.contains("infra/network/mod0"),
            "run board row missing at {w}×{h}"
        );
        assert!(s.contains("plan"), "run keybar missing at {w}×{h}");
    }
}

#[test]
fn board_shows_target_chip_running_and_finished() {
    for status in [TaskStatus::Running, TaskStatus::Success] {
        let mut app = demo_app(1);
        make_session(&mut app);
        let path = app.modules[0].path.clone();
        let terminal = status.is_terminal();
        let mut t = task(0, &path, "mod0", status);
        t.finished_at = terminal.then_some(0);
        t.targets = vec!["null_resource.a".to_string(), "null_resource.b".to_string()];
        app.engine.tasks.push(t);
        app.session.as_mut().unwrap().latest_task.insert(path, 0);

        let s = render_to_string(&mut app, 120, 30);
        assert!(s.contains("apply"), "command missing (terminal={terminal})");
        assert!(s.contains("·T2"), "target chip missing (terminal={terminal})");
    }
}

#[test]
fn help_is_screen_aware() {
    let mut app = demo_app(3);
    app.modal = Some(Modal::Help);
    let select_help = render_to_string(&mut app, 120, 30);
    assert!(select_help.contains("filter"), "select help should list filter");

    let mut app = demo_app(3);
    make_session(&mut app);
    app.modal = Some(Modal::Help);
    let run_help = render_to_string(&mut app, 120, 30);
    assert!(run_help.contains("back"), "run help should list esc back");
}

#[test]
fn select_renders_at_all_sizes() {
    let mut app = demo_app(6);
    for &(w, h) in SIZES {
        draw_at(&mut app, w, h);
    }
}

/// Every foreground on the cursor bar is one that can be read there.
fn assert_cursor_bar_is_lifted(buffer: &Buffer, w: u16, h: u16, ctx: &str) {
    let mut bad: Vec<String> = Vec::new();
    for y in 0..h {
        for x in 0..w {
            let cell = &buffer[(x, y)];
            if cell.bg != to_color(theme::MUTED) || cell.symbol().trim().is_empty() {
                continue;
            }
            let fg = from_color(cell.fg);
            if theme::lift_color(fg) != fg {
                bad.push(format!(
                    "({x},{y}) {:?} fg {:?} should be {:?}",
                    cell.symbol(),
                    fg,
                    theme::lift_color(fg)
                ));
            }
        }
    }
    assert!(
        bad.is_empty(),
        "{ctx} at {w}x{h}: {} cell(s) on the cursor bar carry an unlifted fg:\n  {}",
        bad.len(),
        bad.join("\n  ")
    );
}

/// A finished task with every column for the first module, and the two dimmed
/// statuses for the next two.
fn attach_board_tasks(app: &mut App) {
    let counts = ResourceCounts {
        add: 2,
        change: 1,
        destroy: 1,
        import: 1,
        forget: 1,
        no_changes: false,
        has_summary: true,
    };
    let statuses = [
        (TaskStatus::Success, Some(counts)),
        (TaskStatus::Pending, None),
        (TaskStatus::Cancelled, None),
    ];
    for (i, (status, resource_counts)) in statuses.into_iter().enumerate() {
        let path = app.modules[i].path.clone();
        let id = app.engine.tasks.len();
        let mut t = task(id, &path, &format!("mod{i}"), status);
        t.resource_counts = resource_counts;
        app.engine.tasks.push(t);
        app.session.as_mut().unwrap().latest_task.insert(path, id);
    }
}

#[test]
fn run_board_cursor_row_stays_legible() {
    let mut app = demo_app(3);
    make_session(&mut app);
    attach_board_tasks(&mut app);

    for cursor in 0..3 {
        app.session.as_mut().unwrap().cursor = cursor;
        for &(w, h) in SIZES {
            let buffer = draw_buffer(&mut app, w, h);
            assert_cursor_bar_is_lifted(&buffer, w, h, &format!("run board row {cursor}"));
        }
    }
}

#[test]
fn select_cursor_row_stays_legible() {
    let mut app = demo_app(3);
    make_session(&mut app);
    attach_board_tasks(&mut app);
    app.screen = Screen::Select;

    for selected in 0..3 {
        app.selected_module = selected;
        for &(w, h) in SIZES {
            let buffer = draw_buffer(&mut app, w, h);
            assert_cursor_bar_is_lifted(&buffer, w, h, &format!("select row {selected}"));
        }
    }
}

#[test]
fn run_board_and_output_render_at_all_sizes() {
    let mut app = demo_app(6);
    make_session(&mut app);
    for &(w, h) in SIZES {
        draw_at(&mut app, w, h);
    }
}

#[test]
fn run_fullscreen_renders_at_all_sizes() {
    let mut app = demo_app(4);
    make_session(&mut app);
    if let Some(s) = app.session.as_mut() {
        s.fullscreen = true;
    }
    for &(w, h) in SIZES {
        draw_at(&mut app, w, h);
    }
}

#[test]
fn help_modal_renders_one_and_two_column() {
    let mut app = demo_app(3);
    app.modal = Some(Modal::Help);
    for &(w, h) in SIZES {
        draw_at(&mut app, w, h);
    }
}

#[test]
fn run_help_shows_drag_copy_hint() {
    let mut app = demo_app(3);
    app.screen = Screen::Run;
    app.enter_run();
    app.modal = Some(Modal::Help);
    let s = render_to_string(&mut app, 120u16, 35u16);
    assert!(
        s.contains("drag / y") || s.contains("drag/y"),
        "Run help missing drag/y key hint"
    );
    assert!(
        s.contains("select / copy"),
        "Run help missing select/copy description"
    );
    assert!(s.contains("Y"), "Run help missing Y key hint");
    assert!(
        s.contains("copy all output"),
        "Run help missing copy all output description"
    );
}

#[test]
fn too_small_guard_never_panics() {
    let mut app = demo_app(3);
    for &(w, h) in &[(38u16, 9u16), (20, 8), (2, 2), (1, 1)] {
        draw_at(&mut app, w, h);
    }
}

fn resource(address: &str, status: Option<&str>) -> StateResource {
    StateResource {
        address: address.to_string(),
        instance: Instance {
            index_key: IndexKey::Absent,
            status: status.map(str::to_string),
            body: "{}".to_string(),
        },
    }
}

/// An open explorer with a group of two and a root resource.
fn demo_explorer_app() -> App {
    let mut app = demo_app(1);
    let resources = ["aws_vpc.main", "module.net.null_resource.a", "module.net.null_resource.b"]
        .iter()
        .map(|a| resource(a, None))
        .collect();
    app.state_explorer = Some(StateExplorer {
        module_idx: 0,
        module_name: "mod0".to_string(),
        content: StateContent::Resources(resources),
        selected: 0,
        filter: String::new(),
        filter_active: false,
        detail_view: None,
        multi_select: Vec::new(),
        module_select: Vec::new(),
        op_confirm: None,
        op_targets: Vec::new(),
        pending_op: None,
        op_result: None,
        plan_queued_notice: false,
        loading: None,
    });
    app
}

#[test]
fn explorer_renders_module_header_and_indented_member() {
    let mut app = demo_explorer_app();
    for &(w, h) in &[(120u16, 35u16), (80, 24)] {
        let s = render_to_string(&mut app, w, h);
        assert!(
            s.contains("▸ module.net (2)"),
            "explorer header missing at {w}×{h}"
        );
        assert!(
            s.contains("  module.net.null_resource.a"),
            "indented member missing at {w}×{h}"
        );
    }
}

#[test]
fn explorer_selected_row_stays_legible() {
    let mut app = demo_explorer_app();
    {
        let ex = app.state_explorer.as_mut().unwrap();
        ex.multi_select = vec![0];
        ex.module_select = vec!["module.net".to_string()];
    }
    for selected in 0..4 {
        app.state_explorer.as_mut().unwrap().selected = selected;
        for &(w, h) in SIZES {
            let buffer = draw_buffer(&mut app, w, h);
            assert_cursor_bar_is_lifted(&buffer, w, h, &format!("explorer row {selected}"));
        }
    }
}

#[test]
fn explorer_selected_row_keeps_column_colours() {
    let mut app = demo_explorer_app();
    {
        let ex = app.state_explorer.as_mut().unwrap();
        ex.content = StateContent::Resources(vec![resource("aws_vpc.main", Some("tainted"))]);
        ex.multi_select = vec![0];
        ex.selected = 0;
    }
    let buffer = draw_buffer(&mut app, 120, 35);
    let on_bar = |want: ratatui::style::Color| {
        (0..35).any(|y| {
            (0..120u16).any(|x| {
                let c = &buffer[(x, y)];
                c.bg == to_color(theme::MUTED) && c.fg == want
            })
        })
    };
    assert!(
        on_bar(ratatui::style::Color::LightRed),
        "the [tainted] tag should stay red on the selected row"
    );
    assert!(
        on_bar(ratatui::style::Color::LightYellow),
        "the multi-select marker should stay yellow on the selected row"
    );
}

#[test]
fn explorer_renders_at_all_sizes() {
    let mut app = demo_explorer_app();
    for &(w, h) in SIZES {
        draw_at(&mut app, w, h);
    }
}

#[test]
fn explorer_targeted_apply_confirm_renders() {
    let mut app = demo_explorer_app();
    {
        let ex = app.state_explorer.as_mut().unwrap();
        ex.op_confirm = Some(ExplorerOpKind::TargetedApply);
        ex.op_targets = vec!["module.net".to_string(), "null_resource.standalone".to_string()];
    }
    for &(w, h) in &[(120u16, 35u16), (80, 24)] {
        let s = render_to_string(&mut app, w, h);
        assert!(
            s.contains("Targeted Apply"),
            "confirm title missing at {w}×{h}"
        );
        assert!(
            s.contains("This will APPLY changes to real infrastructure."),
            "apply danger warning missing at {w}×{h}"
        );
        assert!(
            s.contains("module.net"),
            "module.net target missing at {w}×{h}"
        );
        assert!(
            s.contains("null_resource.standalone"),
            "null_resource.standalone target missing at {w}×{h}"
        );
    }
    for &(w, h) in SIZES {
        draw_at(&mut app, w, h);
    }
}

fn register_targeted(app: &mut App, targets: &[&str]) {
    let module_dir = app.modules[0].path.clone();
    app.engine.plan_cache.register(
        module_dir,
        PlanHandle { fd: 9 },
        1,
        targets.iter().map(|t| t.to_string()).collect(),
        0,
    );
}

#[test]
fn run_board_shows_targeted_plan_badge() {
    let mut app = demo_app(3);
    make_session(&mut app);
    register_targeted(&mut app, &["module.net"]);

    let s = render_to_string(&mut app, 120, 35);
    assert!(s.contains("\u{b7}T1"), "run board missing targeted plan badge");
}

#[test]
fn select_list_shows_targeted_plan_badge() {
    let mut app = demo_app(3);
    register_targeted(&mut app, &["module.net"]);

    let s = render_to_string(&mut app, 120, 35);
    assert!(s.contains("\u{b7}T1"), "select list missing targeted plan badge");
}

#[test]
fn apply_confirm_shows_targeted_warning() {
    let mut app = demo_app(3);
    register_targeted(&mut app, &["module.net", "null_resource.a"]);

    app.request_apply_confirm(&vec![0]);
    let s = render_to_string(&mut app, 120, 35);
    assert!(s.contains("TARGETED"), "apply confirm missing TARGETED warning");
}

#[test]
fn apply_confirm_lists_every_covered_address() {
    let mut app = demo_app(3);
    let addrs = ["r.a", "r.b", "r.c", "r.d", "r.e", "r.f"];
    register_targeted(&mut app, &addrs);
    app.request_apply_confirm(&vec![0]);
    let s = render_to_string(&mut app, 120, 35);
    for addr in addrs {
        assert!(s.contains(&format!("• {addr}")), "{addr} is not listed");
    }
    assert!(!s.contains("more"), "the list is cut short");
}

#[test]
fn wrap_tail_visible_after_draw() {
    let mut app = demo_app(1);
    make_session(&mut app);
    let marker = "TAILMARK9182";
    attach_output(&mut app, make_output_lines(30, 100, marker));
    {
        let s = app.session.as_mut().unwrap();
        s.output_wrap = true;
        s.output_scroll = 0;
    }

    let s = render_to_string(&mut app, 40, 24);
    assert!(
        s.contains(marker),
        "tail marker not visible at scroll=0 with wrap on"
    );
}

#[test]
fn resize_grow_reclamps_scroll() {
    let mut app = demo_app(1);
    make_session(&mut app);
    let marker = "TAILRESIZE42";
    attach_output(&mut app, make_output_lines(50, 20, marker));

    draw_at(&mut app, 40, 16);
    app.run_scroll_output(i32::MAX);
    let scrolled_small = app.session.as_ref().unwrap().output_scroll;
    assert!(scrolled_small > 0, "scroll should have moved off the tail");

    draw_at(&mut app, 40, 30);
    let total = app.output_layout.total_rows();
    let new_viewport = app.viewport.output as usize;
    let max_scroll = total.saturating_sub(new_viewport);
    let after = app.session.as_ref().unwrap().output_scroll;
    assert!(
        after <= max_scroll,
        "resize should reclamp output_scroll ({after}) to the new max ({max_scroll}), not leave \
         it at {scrolled_small}"
    );

    app.session.as_mut().unwrap().output_scroll = 0;
    let s = render_to_string(&mut app, 40, 30);
    assert!(
        s.contains(marker),
        "tail marker not visible after resize+follow"
    );
}

#[test]
fn scroll_clamp_bound() {
    let mut app = demo_app(1);
    make_session(&mut app);
    attach_output(&mut app, make_output_lines(50, 20, "END"));

    draw_at(&mut app, 40, 30);
    let total = app.output_layout.total_rows();
    let viewport = app.viewport.output as usize;
    assert!(viewport > 0, "expected a real output pane at 40x30");

    app.run_scroll_output(i32::MAX);
    let scroll = app.session.as_ref().unwrap().output_scroll;
    assert_eq!(scroll, total.saturating_sub(viewport));
    assert_ne!(
        scroll, 50,
        "clamp must use display rows minus viewport height, not the raw line count"
    );
}

#[test]
fn fullscreen_wrap_tail_visible() {
    let mut app = demo_app(1);
    make_session(&mut app);
    let marker = "FSTAILMARK77";
    attach_output(&mut app, make_output_lines(30, 100, marker));
    {
        let s = app.session.as_mut().unwrap();
        s.fullscreen = true;
        s.output_wrap = true;
        s.output_scroll = 0;
    }

    let s = render_to_string(&mut app, 40, 24);
    assert!(
        s.contains(marker),
        "tail marker not visible in fullscreen wrap mode"
    );
}

#[test]
fn mouse_drag_selects_and_renders_reversed() {
    let mut app = demo_app(1);
    make_session(&mut app);
    attach_output(
        &mut app,
        vec![
            "hello world".to_string(),
            "second row here".to_string(),
            "third row texts".to_string(),
        ],
    );
    draw_at(&mut app, 80, 30);

    let top = app.viewport.output_top;
    let left = app.viewport.output_left;
    assert_ne!(top, u16::MAX, "expected a real output pane at 80x30");

    // Press on the 'w' of "world", drag down two rows.
    handle_mouse(&mut app, left_mouse(MouseKind::Down, left + 6, top));
    handle_mouse(&mut app, left_mouse(MouseKind::Drag, left + 5, top + 2));

    let sel = app
        .session
        .as_ref()
        .unwrap()
        .selection
        .expect("selection should exist after a drag");
    assert_eq!(sel.anchor, SelPos { line: 0, ch: 6 });
    assert_eq!(sel.head, SelPos { line: 2, ch: 5 });

    let buffer = draw_buffer(&mut app, 80, 30);
    assert!(
        buffer[(left + 6, top)].modifier.contains(Modifier::REVERSED),
        "expected the selected cell ('w' of world) to be reversed"
    );
    assert!(
        !buffer[(left, top)].modifier.contains(Modifier::REVERSED),
        "expected a cell outside the selection ('h' of hello) to not be reversed"
    );
}

#[test]
fn selected_text_multiline() {
    let mut app = demo_app(1);
    make_session(&mut app);
    attach_output(
        &mut app,
        vec![
            "abc日def".to_string(),
            "whole middle line".to_string(),
            "xyz last END".to_string(),
        ],
    );

    let task = app.run_display_task_id();
    app.session.as_mut().unwrap().selection = Some(OutputSelection {
        task,
        anchor: SelPos { line: 0, ch: 3 },
        head: SelPos { line: 2, ch: 3 },
        dragging: false,
    });

    let text = app.run_selected_text().expect("expected selected text");
    assert_eq!(text, "日def\nwhole middle line\nxyz");
}

#[test]
fn run_all_output_text_strips_ansi_and_joins() {
    let mut app = demo_app(1);
    make_session(&mut app);
    attach_output(
        &mut app,
        vec![
            "\x1b[32mgreen text\x1b[0m".to_string(),
            "plain line".to_string(),
            "\x1b[1mbold日unicode\x1b[0m".to_string(),
        ],
    );

    let text = app.run_all_output_text().expect("expected all output text");
    assert_eq!(text, "green text\nplain line\nbold日unicode");
}

#[test]
fn run_all_output_text_empty() {
    let mut app = demo_app(1);
    make_session(&mut app);
    attach_output(&mut app, vec![]);

    let text = app.run_all_output_text();
    assert_eq!(text, None);
}

#[test]
fn drag_maps_through_wrapped_rows() {
    let mut app = demo_app(1);
    make_session(&mut app);
    if let Some(s) = app.session.as_mut() {
        s.output_wrap = true;
    }
    // Draw once to learn the width of the pane.
    draw_at(&mut app, 60, 30);
    let width = app.viewport.output_width as usize;
    assert!(width > 0, "expected a real output pane at 60x30");

    let long_line = "x".repeat(width * 3 + 1);
    attach_output(&mut app, vec![long_line]);
    draw_at(&mut app, 60, 30);

    let top = app.viewport.output_top;
    let left = app.viewport.output_left;

    handle_mouse(&mut app, left_mouse(MouseKind::Down, left + 4, top + 2));
    handle_mouse(&mut app, left_mouse(MouseKind::Drag, left + 4, top + 2));

    let sel = app
        .session
        .as_ref()
        .unwrap()
        .selection
        .expect("selection should exist");
    assert_eq!(
        sel.anchor,
        SelPos { line: 0, ch: width * 2 + 4 },
        "expected the wrapped row-2 offset, not the row-0 offset"
    );
}

#[test]
fn h4_collapsed_no_selection() {
    let mut app = demo_app(3);
    make_session(&mut app);
    draw_at(&mut app, 40, 10);
    assert_eq!(
        app.viewport.output_top,
        u16::MAX,
        "expected the collapsed H4 layout to have no output pane"
    );

    handle_mouse(&mut app, left_mouse(MouseKind::Down, 5, 5));

    assert!(app.session.as_ref().unwrap().selection.is_none());
}

#[test]
fn fullscreen_selection_border_offset() {
    let mut app = demo_app(1);
    make_session(&mut app);
    attach_output(
        &mut app,
        vec!["ABCDEFGH".to_string(), "second line".to_string()],
    );
    if let Some(s) = app.session.as_mut() {
        s.fullscreen = true;
    }
    draw_at(&mut app, 40, 20);

    let top = app.viewport.output_top;
    let left = app.viewport.output_left;
    assert_eq!(top, 1, "fullscreen pane should be inset by the top border");
    assert_eq!(left, 1, "fullscreen pane should be inset by the left border");

    handle_mouse(&mut app, left_mouse(MouseKind::Down, left, top));
    handle_mouse(&mut app, left_mouse(MouseKind::Drag, left, top));

    let sel = app
        .session
        .as_ref()
        .unwrap()
        .selection
        .expect("selection should exist");
    assert_eq!(sel.anchor, SelPos { line: 0, ch: 0 });
}

#[test]
fn cursor_move_clears_selection() {
    let mut app = demo_app(2);
    make_session(&mut app);
    attach_output(
        &mut app,
        vec!["one line".to_string(), "two line".to_string()],
    );
    draw_at(&mut app, 80, 30);

    let top = app.viewport.output_top;
    let left = app.viewport.output_left;
    handle_mouse(&mut app, left_mouse(MouseKind::Down, left + 1, top));
    handle_mouse(&mut app, left_mouse(MouseKind::Drag, left + 1, top));
    assert!(
        app.session.as_ref().unwrap().selection.is_some(),
        "expected a selection after the drag"
    );

    app.run_move_cursor(1);
    assert!(
        app.session.as_ref().unwrap().selection.is_none(),
        "moving the board cursor should clear the selection"
    );
}

#[test]
fn selection_survives_append() {
    let mut app = demo_app(1);
    make_session(&mut app);
    attach_output(
        &mut app,
        vec!["hello world".to_string(), "second line".to_string()],
    );
    draw_at(&mut app, 80, 30);

    let top = app.viewport.output_top;
    let left = app.viewport.output_left;

    handle_mouse(&mut app, left_mouse(MouseKind::Down, left + 6, top));
    handle_mouse(&mut app, left_mouse(MouseKind::Drag, left + 11, top));
    handle_mouse(&mut app, left_mouse(MouseKind::Up, left + 11, top));

    let before = app.run_selected_text();
    assert_eq!(before.as_deref(), Some("world"));

    // More lines arrive for the same task.
    let path = app.modules[0].path.clone();
    if let Some(task) = app.engine.tasks.iter_mut().find(|t| t.module_dir == path) {
        task.output_lines.push("third line".to_string());
        task.output_lines.push("fourth line".to_string());
    }
    draw_at(&mut app, 80, 30);

    assert_eq!(
        app.session.as_ref().unwrap().selection.map(|s| (s.anchor, s.head)),
        Some((SelPos { line: 0, ch: 6 }, SelPos { line: 0, ch: 11 })),
        "selection coordinates should survive an append"
    );
    assert_eq!(app.run_selected_text().as_deref(), before.as_deref());
}

#[test]
fn drag_above_pane_autoscrolls() {
    let mut app = demo_app(1);
    make_session(&mut app);
    attach_output(&mut app, make_output_lines(50, 20, "TAILEND"));
    draw_at(&mut app, 40, 20);

    let top = app.viewport.output_top;
    let left = app.viewport.output_left;
    assert_eq!(app.session.as_ref().unwrap().output_scroll, 0);

    handle_mouse(&mut app, left_mouse(MouseKind::Down, left, top));
    assert!(app.session.as_ref().unwrap().selection.is_none());
    assert!(app.session.as_ref().unwrap().pending_sel.is_some());

    // The first drag has already left the pane: it still selects.
    handle_mouse(&mut app, left_mouse(MouseKind::Drag, left, top.saturating_sub(1)));

    let scroll_after = app.session.as_ref().unwrap().output_scroll;
    assert!(scroll_after > 0, "dragging above the pane should scroll up");

    let total = app.output_layout.total_rows();
    let viewport_h = app.viewport.output as usize;
    let max_scroll = total.saturating_sub(viewport_h);
    let expected_first_row = max_scroll.saturating_sub(scroll_after);

    let head = app.session.as_ref().unwrap().selection.unwrap().head;
    assert_eq!(
        head.line, expected_first_row,
        "head should clamp to the new top visible row"
    );
    assert_eq!(
        head.ch, 0,
        "clamped column should map to the row's first char"
    );
}

#[test]
fn esc_clears_selection_before_exiting_fullscreen() {
    let mut app = demo_app(1);
    make_session(&mut app);
    attach_output(&mut app, vec!["hello world".to_string()]);
    if let Some(s) = app.session.as_mut() {
        s.fullscreen = true;
    }
    draw_at(&mut app, 40, 20);

    let top = app.viewport.output_top;
    let left = app.viewport.output_left;
    handle_mouse(&mut app, left_mouse(MouseKind::Down, left, top));
    handle_mouse(&mut app, left_mouse(MouseKind::Drag, left, top));
    assert!(app.session.as_ref().unwrap().selection.is_some());
    assert!(app.session.as_ref().unwrap().fullscreen);

    fullscreen_esc(&mut app);
    assert!(
        app.session.as_ref().unwrap().selection.is_none(),
        "first Esc should clear the selection"
    );
    assert!(
        app.session.as_ref().unwrap().fullscreen,
        "first Esc should not exit fullscreen yet"
    );

    fullscreen_esc(&mut app);
    assert!(
        !app.session.as_ref().unwrap().fullscreen,
        "second Esc should exit fullscreen"
    );
}

#[test]
fn the_module_list_scrolls_to_its_cursor() {
    let mut app = demo_app(60);
    app.selected_module = 59;
    let s = render_to_string(&mut app, 80, 24);
    assert!(s.contains("infra/network/mod59"));
    assert!(!s.contains("infra/network/mod0 "));
    let shown = app.viewport.list;
    assert_eq!(app.viewport.list_offset, 60 - shown);

    // A click on the top row of the list lands on the first module shown.
    let top = app.viewport.list_top;
    handle_mouse(&mut app, left_mouse(MouseKind::Down, 3, top));
    assert_eq!(app.selected_module, 60 - shown as usize);
}

#[test]
fn the_parts_of_the_screens_fill_the_window() {
    let mut app = demo_app(6);
    draw_at(&mut app, 80, 24);
    assert_eq!((app.viewport.list_top, app.viewport.list), (3, 19));
    draw_at(&mut app, 80, 19);
    assert_eq!((app.viewport.list_top, app.viewport.list), (2, 15));

    make_session(&mut app);
    draw_at(&mut app, 120, 35);
    assert_eq!((app.viewport.board_top, app.viewport.board), (2, 6));
    assert_eq!((app.viewport.output_top, app.viewport.output), (9, 25));
    assert_eq!((app.viewport.output_left, app.viewport.output_width), (0, 120));
    draw_at(&mut app, 40, 10);
    assert_eq!((app.viewport.board_top, app.viewport.board), (1, 7));
}

#[test]
fn a_small_terminal_takes_no_key_but_quit() {
    let mut app = demo_app(2);
    let key = |c: char| KeyEvent { code: KeyCode::Char(c), control: false };
    assert_eq!(handle_key_event(&mut app, Some((30, 9)), key('j')), ScreenAction::Stay);
    assert_eq!(app.selected_module, 0);
    assert_eq!(handle_key_event(&mut app, Some((30, 9)), key('q')), ScreenAction::Quit);
    let s = render_to_string(&mut app, 38, 9);
    assert!(s.contains("terminal too small"));
    assert!(s.contains("need ≥ 40×10 (now 38×9)"));
}

#[test]
fn quitting_asks_while_tasks_are_active() {
    let mut app = demo_app(2);
    assert_eq!(type_key(&mut app, 'q'), ScreenAction::Quit);
    assert_eq!(type_key(&mut app, 'p'), ScreenAction::Stay);
    assert_eq!(app.screen, Screen::Run);
    assert_eq!(app.engine.tasks.len(), 1);
    assert_eq!(type_key(&mut app, 'q'), ScreenAction::Stay);
    let s = render_to_string(&mut app, 80, 24);
    assert!(s.contains("Tasks still running — quit?"));
    assert!(s.contains("Quitting — 1 task(s) remaining"));
    assert_eq!(press(&mut app, KeyCode::Esc), ScreenAction::Stay);
    assert!(app.modal.is_none());
    let ctrl_c = KeyEvent { code: KeyCode::Char('c'), control: true };
    assert_eq!(handle_key_event(&mut app, None, ctrl_c), ScreenAction::Stay);
    assert_eq!(handle_key_event(&mut app, None, ctrl_c), ScreenAction::Quit);
}

#[test]
fn typing_goes_into_the_filter() {
    let mut app = demo_app(12);
    type_key(&mut app, '/');
    for c in "mod1q".chars() {
        assert_eq!(type_key(&mut app, c), ScreenAction::Stay);
    }
    assert_eq!(app.filter, "mod1q");
    let s = render_to_string(&mut app, 80, 24);
    assert!(s.contains("no modules match the current filter"));
    press(&mut app, KeyCode::Backspace);
    press(&mut app, KeyCode::Enter);
    assert_eq!(app.visible_module_indices(), vec![1, 10, 11]);
    let s = render_to_string(&mut app, 80, 24);
    assert!(s.contains("terraform · 12 modules · [/mod1]"));
    assert!(s.contains("3 modules"));
    press(&mut app, KeyCode::Esc);
    assert_eq!(app.visible_module_indices().len(), 12);
}

#[test]
fn risky_actions_ask_first() {
    let mut app = demo_app(2);
    type_key(&mut app, '*');
    type_key(&mut app, 'd');
    assert!(app.engine.tasks.is_empty());
    let s = render_to_string(&mut app, 80, 24);
    assert!(s.contains("Confirm DESTROY"));
    assert!(s.contains("Run DESTROY on 2 modules:"));
    type_key(&mut app, 'n');
    assert!(app.modal.is_none() && app.engine.tasks.is_empty());
    type_key(&mut app, 'd');
    type_key(&mut app, 'y');
    assert_eq!(app.engine.tasks.len(), 2);
    assert!(app.engine.tasks.iter().all(|t| t.command == "destroy"));
}

#[test]
fn escape_and_tab_lead_out_and_back() {
    let mut app = demo_app(2);
    press(&mut app, KeyCode::Tab);
    assert_eq!(app.screen, Screen::Select);
    press(&mut app, KeyCode::Enter);
    assert_eq!(app.screen, Screen::Run);
    type_key(&mut app, 'p');
    press(&mut app, KeyCode::Esc);
    assert_eq!(app.screen, Screen::Select);
    assert_eq!(app.engine.tasks.len(), 1);
    let s = render_to_string(&mut app, 120, 30);
    assert!(s.contains("⟳ session · 1 modules · 1 running  ⇥"));
    press(&mut app, KeyCode::Tab);
    assert_eq!(app.screen, Screen::Run);
}

#[test]
fn capitals_act_on_the_highlighted_row() {
    let mut app = demo_app(3);
    type_key(&mut app, '*');
    press(&mut app, KeyCode::Enter);
    type_key(&mut app, 'j');
    type_key(&mut app, 'P');
    assert_eq!(app.engine.tasks.len(), 1);
    assert_eq!(app.engine.tasks[0].module_dir, app.modules[1].path);
    type_key(&mut app, 'i');
    assert_eq!(app.engine.tasks.len(), 4);
    type_key(&mut app, 'C');
    assert!(matches!(&app.modal, Some(Modal::CancelTasks(ids)) if ids.len() == 3));
    let s = render_to_string(&mut app, 120, 30);
    assert!(s.contains("Cancel 3 tasks:"));
    press(&mut app, KeyCode::Enter);
    assert!(app.modal.is_none());
}

#[test]
fn finished_tasks_are_cleared_on_request() {
    let mut app = demo_app(1);
    type_key(&mut app, 'p');
    type_key(&mut app, 'x');
    assert!(app.modal.is_none());
    app.drain_events(vec![
        TaskEvent::Started { task_id: 0 },
        TaskEvent::Finished { task_id: 0, success: true },
    ]);
    type_key(&mut app, 'x');
    let s = render_to_string(&mut app, 80, 24);
    assert!(s.contains("Clear 1 completed task?"));
    assert!(s.contains("Task list will be empty afterward."));
    type_key(&mut app, 'y');
    assert!(app.engine.tasks.is_empty());
}

#[test]
fn a_reset_says_what_it_drops() {
    let mut app = demo_app(2);
    register_targeted(&mut app, &[]);
    type_key(&mut app, 'R');
    let s = render_to_string(&mut app, 80, 24);
    assert!(s.contains("Drop 1 cached plan"));
    assert!(s.contains("Cancel 0 queued tasks"));
    assert!(s.contains("Drop 0 finished tasks"));
    type_key(&mut app, 'y');
    assert_eq!(app.engine.plan_cache.entry_count(), 0);
}

#[test]
fn refresh_and_unlock_are_asked_of_the_host() {
    let mut app = demo_app(2);
    type_key(&mut app, 'r');
    assert!(matches!(app.requests[0], Request::Discover));
    type_key(&mut app, 'U');
    assert!(matches!(&app.requests[1], Request::ReadLocks { targets } if targets == &vec![0]));
    let lock = LockInfo {
        id: "0123456789abcdef".to_string(),
        who: "user@host".to_string(),
        operation: "apply".to_string(),
    };
    app.request_force_unlock_confirm(&vec![0], &vec![Some(lock)]);
    let s = render_to_string(&mut app, 120, 30);
    assert!(s.contains("lock 01234567…  by user@host"));
    assert!(s.contains("Force-removes the state lock"));
}

#[test]
fn output_is_copied_on_release() {
    let mut app = demo_app(1);
    make_session(&mut app);
    attach_output(&mut app, vec!["hello world".to_string()]);
    draw_at(&mut app, 80, 30);
    let top = app.viewport.output_top;
    handle_mouse(&mut app, left_mouse(MouseKind::Down, 0, top));
    handle_mouse(&mut app, left_mouse(MouseKind::Up, 0, top));
    assert!(app.requests.is_empty());
    handle_mouse(&mut app, left_mouse(MouseKind::Down, 0, top));
    handle_mouse(&mut app, left_mouse(MouseKind::Drag, 5, top));
    handle_mouse(&mut app, left_mouse(MouseKind::Up, 5, top));
    assert!(matches!(&app.requests[0], Request::Copy { text } if text == "hello"));
}

#[test]
fn the_explorer_runs_through_its_overlays() {
    let mut app = demo_explorer_app();
    type_key(&mut app, 't');
    assert_eq!(
        app.state_explorer.as_ref().unwrap().op_confirm,
        Some(ExplorerOpKind::Taint)
    );
    let s = render_to_string(&mut app, 80, 24);
    assert!(s.contains("Confirm Taint") && s.contains("Taint 1 resource:"));
    type_key(&mut app, 'n');
    assert!(app.state_explorer.as_ref().unwrap().op_confirm.is_none());

    type_key(&mut app, 'p');
    let s = render_to_string(&mut app, 80, 24);
    assert!(s.contains("Targeted plan queued."));
    type_key(&mut app, 'x');
    assert!(!app.state_explorer.as_ref().unwrap().plan_queued_notice);

    app.state_explorer.as_mut().unwrap().pending_op = Some(PendingOp {
        kind: ExplorerOpKind::Taint,
        queue: vec!["a.z".to_string()],
        running: Some((5, "a.y".to_string())),
        done: vec![("a.x".to_string(), true)],
    });
    let s = render_to_string(&mut app, 80, 24);
    assert!(s.contains("✓ a.x") && s.contains("⋯ a.y") && s.contains("· a.z"));
    type_key(&mut app, 'q');
    assert!(app.state_explorer.is_some());

    let ex = app.state_explorer.as_mut().unwrap();
    ex.pending_op = None;
    ex.op_result = Some(OpResult {
        kind: ExplorerOpKind::Taint,
        entries: vec![("a.x".to_string(), true), ("a.y".to_string(), false)],
    });
    let s = render_to_string(&mut app, 80, 24);
    assert!(s.contains("Some Failed") && s.contains("✗ a.y"));
    type_key(&mut app, 'q');
    assert!(app.state_explorer.as_ref().unwrap().op_result.is_none());
    type_key(&mut app, 'q');
    assert!(app.state_explorer.is_none());
}

#[test]
fn the_explorer_filter_highlights_its_match() {
    let mut app = demo_explorer_app();
    type_key(&mut app, '/');
    for c in "NULL".chars() {
        type_key(&mut app, c);
    }
    let s = render_to_string(&mut app, 80, 24);
    assert!(s.contains("/NULL█"));
    assert!(s.contains("2 / 3 resources"));
    let buffer = draw_buffer(&mut app, 80, 24);
    let bold_yellow = (0..24u16).any(|y| {
        (0..80u16).any(|x| {
            let c = &buffer[(x, y)];
            c.symbol() == "n"
                && c.fg == ratatui::style::Color::Yellow
                && c.modifier.contains(Modifier::BOLD)
        })
    });
    assert!(bold_yellow, "the match should be bold and yellow");
    press(&mut app, KeyCode::Enter);
    assert!(!app.state_explorer.as_ref().unwrap().filter_active);
    let s = render_to_string(&mut app, 80, 24);
    assert!(s.contains("(Esc to clear)"));
}

#[test]
fn the_detail_colours_json() {
    let mut app = demo_explorer_app();
    if let StateContent::Resources(rs) = &mut app.state_explorer.as_mut().unwrap().content {
        rs[0].instance.body = "{\"a\":\"x\",\"n\":null,\"t\":true}".to_string();
    }
    press(&mut app, KeyCode::Enter);
    let buffer = draw_buffer(&mut app, 80, 24);
    let row_with = |needle: &str| -> u16 {
        (0..24u16)
            .find(|y| {
                let row: String = (0..80u16).map(|x| buffer[(x, *y)].symbol()).collect();
                row.contains(needle)
            })
            .unwrap()
    };
    let y = row_with("\"a\": \"x\"");
    let x = (0..80u16).find(|x| buffer[(*x, y)].symbol() == "\"").unwrap();
    assert_eq!(buffer[(x, y)].fg, ratatui::style::Color::Yellow);
    assert_eq!(buffer[(x + 5, y)].fg, ratatui::style::Color::Green);
    let y = row_with("\"n\": null");
    assert_eq!(buffer[(x + 5, y)].fg, ratatui::style::Color::DarkGray);
    let y = row_with("\"t\": true");
    assert_eq!(buffer[(x + 5, y)].fg, ratatui::style::Color::Magenta);
    press(&mut app, KeyCode::Esc);
    assert!(app.state_explorer.as_ref().unwrap().detail_view.is_none());
}

#[test]
fn every_explorer_content_is_shown() {
    let mut app = demo_explorer_app();
    let mut shown = |content: StateContent| {
        app.state_explorer.as_mut().unwrap().content = content;
        render_to_string(&mut app, 80, 24)
    };
    assert!(shown(StateContent::Loading).contains("Loading state…"));
    assert!(shown(StateContent::NoState).contains("No state"));
    assert!(shown(StateContent::NotInitialized).contains("Run `i` to initialize this module."));
    let error = shown(StateContent::Error("no access".to_string()));
    assert!(error.contains("Failed to load state") && error.contains("no access"));
}

#[test]
fn a_click_hits_the_character_that_is_shown() {
    let mut app = demo_app(1);
    make_session(&mut app);
    let lines: Vec<String> = (0..40)
        .map(|i| format!("\u{1b}[32m{i:02}\u{1b}[0m{}", "abcdefghij".repeat(1 + i % 9)))
        .collect();
    let plain: Vec<Vec<char>> = (0..40)
        .map(|i| format!("{i:02}{}", "abcdefghij".repeat(1 + i % 9)).chars().collect())
        .collect();
    attach_output(&mut app, lines);
    if let Some(s) = app.session.as_mut() {
        s.output_wrap = true;
        s.output_scroll = 3;
    }
    let buffer = draw_buffer(&mut app, 60, 30);
    let vp = app.viewport;
    let mut hits = 0;
    for row in vp.output_top..vp.output_top + vp.output {
        for col in vp.output_left..vp.output_left + vp.output_width {
            let pos = app.output_hit_test(col, row, false).expect("the pane is full of text");
            let shown = buffer[(col, row)].symbol();
            match plain[pos.line].get(pos.ch) {
                Some(c) if shown != " " => {
                    assert_eq!(c.to_string(), shown, "at {col},{row}");
                    hits += 1;
                }
                _ => assert_eq!(shown, " ", "at {col},{row}"),
            }
        }
    }
    assert!(hits > 100, "the pane showed {hits} characters");
    assert_eq!(app.output_hit_test(vp.output_left, vp.output_top + vp.output, false), None);
}

#[test]
fn everything_is_drawn_within_the_window() {
    for (w, h) in SIZES {
        for modal in [None, Some(Modal::Help), Some(Modal::Reset), Some(Modal::Quit)] {
            let mut app = demo_explorer_app();
            app.modal = modal;
            let window = Rect { x: 3, y: 2, width: *w, height: *h };
            let widgets = draw(window, &mut app);
            assert!(!widgets.is_empty());
            for widget in &widgets {
                let a = match widget {
                    Widget::Clear { area } => *area,
                    Widget::Text { area, .. } => *area,
                    Widget::Framed(p) => p.area,
                    Widget::Rule { area, .. } => *area,
                    Widget::List { area, .. } => *area,
                };
                assert!(a.x >= 3 && a.y >= 2, "{a:?} at {w}x{h}");
                assert!(a.x + a.width <= 3 + w && a.y + a.height <= 2 + h, "{a:?} at {w}x{h}");
            }
        }
    }
}
