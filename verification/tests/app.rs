use rug::app::explorer::{ExplorerRow, StateExplorer};
use rug::app::model::{App, Request};
use rug::app::selection::SelPos;
use rug::app::types::{
    ConfirmKind, ExplorerOpKind, Modal, RunSession, Screen, SessionModule,
};
use rug::config::Config;
use rug::engine::Action;
use rug::lock::LockInfo;
use rug::module::{Module, ModuleKind};
use rug::plan_cache::{PlanHandle, PlanUse};
use rug::state::{IndexKey, Instance, StateContent, StateResource};
use rug::task::{Task, TaskEvent, TaskStatus};

fn config() -> Config {
    Config {
        binary: "terraform".to_string(),
        parallelism: 1,
        ignore_dirs: Vec::new(),
        show_library_modules: false,
        source: None,
    }
}

fn test_app() -> App {
    let modules = vec![Module {
        path: "/tmp/rug-test/app".to_string(),
        display_name: "app".to_string(),
        kind: ModuleKind::Root,
    }];
    App::new(config(), "/tmp/rug-test".to_string(), modules)
}

fn multi_module_app(n: usize) -> App {
    let modules: Vec<Module> = (0..n)
        .map(|i| Module {
            path: format!("/tmp/rug-test-multi/m{i}"),
            display_name: format!("m{i}"),
            kind: ModuleKind::Root,
        })
        .collect();
    App::new(config(), "/tmp/rug-test-multi".to_string(), modules)
}

fn task(id: usize, dir: &str, name: &str, command: &str, status: TaskStatus) -> Task {
    Task {
        id,
        module_dir: dir.to_string(),
        module_name: name.to_string(),
        command: command.to_string(),
        status,
        output_lines: Vec::new(),
        started_at: Some(0),
        finished_at: None,
        plan_output: None,
        targets: Vec::new(),
        apply_plan: None,
        resource_counts: None,
        spawned: false,
    }
}

fn push_plan_task(app: &mut App, id: usize, plan: PlanHandle) {
    let path = app.modules[0].path.clone();
    let name = app.modules[0].display_name.clone();
    let mut t = task(id, &path, &name, "plan", TaskStatus::Success);
    t.finished_at = Some(0);
    t.plan_output = Some(plan);
    app.engine.tasks.push(t);
}

#[test]
fn enter_run_resumes_same_set_and_forks_on_change() {
    let mut app = multi_module_app(3);

    app.multi_select = vec![0, 1];
    app.enter_run();
    assert_eq!(app.screen, Screen::Run);
    assert_eq!(app.session.as_ref().unwrap().modules.len(), 2);

    // Board state is kept where the same modules are entered again.
    app.session.as_mut().unwrap().cursor = 1;
    app.session.as_mut().unwrap().selected = vec![0];
    app.screen = Screen::Select;
    app.enter_run();
    assert_eq!(app.screen, Screen::Run);
    assert_eq!(app.session.as_ref().unwrap().cursor, 1);
    assert_eq!(app.session.as_ref().unwrap().selected, vec![0]);
    assert_eq!(app.session.as_ref().unwrap().modules.len(), 2);

    // Other modules begin a new session.
    app.screen = Screen::Select;
    app.multi_select = vec![0, 1, 2];
    app.enter_run();
    assert_eq!(app.session.as_ref().unwrap().cursor, 0);
    assert!(app.session.as_ref().unwrap().selected.is_empty());
    assert_eq!(app.session.as_ref().unwrap().modules.len(), 3);
}

#[test]
fn ready_plan_for_task_requires_current_cache_owner() {
    let mut app = test_app();
    let module_dir = app.modules[0].path.clone();
    let plan = PlanHandle { fd: 9 };

    push_plan_task(&mut app, 1, plan);
    push_plan_task(&mut app, 2, plan);
    let owner = app.engine.tasks[1].id;
    app.engine.plan_cache.register(module_dir, plan, owner, Vec::new(), 0);

    assert!(app.ready_plan_for_task(&app.engine.tasks[0]).is_none());
    assert!(app.ready_plan_for_task(&app.engine.tasks[1]).is_some());
}

fn resource(address: &str) -> StateResource {
    StateResource {
        address: address.to_string(),
        instance: Instance {
            index_key: IndexKey::Absent,
            status: None,
            body: "{}".to_string(),
        },
    }
}

fn explorer_with(addrs: &[&str]) -> StateExplorer {
    StateExplorer {
        module_idx: 0,
        module_name: "app".to_string(),
        content: StateContent::Resources(addrs.iter().map(|a| resource(a)).collect()),
        selected: 0,
        filter: String::new(),
        filter_active: false,
        detail_view: None,
        multi_select: Vec::new(),
        module_select: Vec::new(),
        op_confirm: None,
        op_targets: Vec::new(),
        pending_op: None,
        op_result: None,
        plan_queued_notice: false,
        loading: None,
    }
}

#[test]
fn build_explorer_rows_groups_root_first_and_sorts() {
    let ex = explorer_with(&[
        "aws_vpc.main",
        "module.net.null_resource.a",
        "module.app.null_resource.b",
        "module.net.null_resource.c",
    ]);
    assert_eq!(
        ex.rows(),
        vec![
            ExplorerRow::Resource { res_idx: 0, indent: false },
            ExplorerRow::ModuleHeader { prefix: "module.app".into(), count: 1 },
            ExplorerRow::Resource { res_idx: 2, indent: true },
            ExplorerRow::ModuleHeader { prefix: "module.net".into(), count: 2 },
            ExplorerRow::Resource { res_idx: 1, indent: true },
            ExplorerRow::Resource { res_idx: 3, indent: true },
        ]
    );
}

#[test]
fn build_explorer_rows_filter_prunes_empty_groups_and_adjusts_count() {
    let mut ex = explorer_with(&[
        "module.net.null_resource.alpha",
        "module.net.null_resource.beta",
        "module.app.null_resource.c",
    ]);
    ex.filter = "alpha".to_string();
    assert_eq!(
        ex.rows(),
        vec![
            ExplorerRow::ModuleHeader { prefix: "module.net".into(), count: 1 },
            ExplorerRow::Resource { res_idx: 0, indent: true },
        ]
    );
}

#[test]
fn header_toggle_drops_covered_member() {
    let mut app = test_app();
    app.state_explorer =
        Some(explorer_with(&["module.net.null_resource.a", "module.net.null_resource.b"]));
    // Rows: the header, then its two members. Select a member first.
    app.state_explorer.as_mut().unwrap().selected = 1;
    app.state_explorer_toggle_select();
    assert_eq!(app.state_explorer.as_ref().unwrap().multi_select, vec![0]);
    // The header replaces the member below it.
    app.state_explorer.as_mut().unwrap().selected = 0;
    app.state_explorer_toggle_select();
    let ex = app.state_explorer.as_ref().unwrap();
    assert!(ex.multi_select.is_empty());
    assert_eq!(ex.module_select, vec!["module.net".to_string()]);
}

#[test]
fn target_addresses_dedups_covered_prefixes_and_members() {
    let mut ex = explorer_with(&[
        "aws_vpc.main",
        "module.a.null_resource.m",
        "module.a.module.b.null_resource.n",
    ]);
    ex.module_select = vec!["module.a".into(), "module.a.module.b".into()];
    ex.multi_select = vec![0, 1];
    assert_eq!(
        ex.target_addresses(),
        vec!["module.a".to_string(), "aws_vpc.main".to_string()]
    );
}

#[test]
fn op_targets_taint_expands_module_skipping_data() {
    let mut ex = explorer_with(&[
        "module.net.null_resource.a",
        "module.net.data.aws_ami.u",
        "module.net.null_resource.b",
    ]);
    ex.module_select = vec!["module.net".into()];
    assert_eq!(
        ex.op_targets_for(ExplorerOpKind::Taint),
        vec![
            "module.net.null_resource.a".to_string(),
            "module.net.null_resource.b".to_string(),
        ]
    );
    // Other operations take the module address itself.
    assert_eq!(
        ex.op_targets_for(ExplorerOpKind::StateRm),
        vec!["module.net".to_string()]
    );
}

#[test]
fn open_detail_noop_on_header() {
    let mut app = test_app();
    app.state_explorer = Some(explorer_with(&["module.net.null_resource.a"]));
    app.state_explorer.as_mut().unwrap().selected = 0;
    app.open_resource_detail();
    assert!(app.state_explorer.as_ref().unwrap().detail_view.is_none());
    app.state_explorer.as_mut().unwrap().selected = 1;
    app.open_resource_detail();
    assert!(app.state_explorer.as_ref().unwrap().detail_view.is_some());
}

fn newest(app: &App) -> usize {
    app.engine.tasks.iter().max_by_key(|t| t.id).unwrap().id
}

/// The arguments that the newest task is run with.
fn spawned_args(app: &App) -> Vec<String> {
    match app.engine.outbox.last() {
        Some(Action::Spawn { args, .. }) => args.clone(),
        _ => panic!("nothing was spawned"),
    }
}

#[test]
fn targeted_plan_threads_target_args_and_plan_targets() {
    let mut app = test_app();
    app.state_explorer = Some(explorer_with(&["module.net.null_resource.a"]));
    app.state_explorer.as_mut().unwrap().selected = 0;

    app.enqueue_targeted_plan();

    let id = newest(&app);
    assert_eq!(app.engine.task(id).unwrap().targets, vec!["module.net".to_string()]);
    let task = app.engine.task(id).unwrap();
    assert_eq!(task.command, "plan");
    assert!(spawned_args(&app).iter().any(|a| a == "-target=module.net"));
}

#[test]
fn targeted_apply_runs_batched_and_keeps_cached_plan() {
    let mut app = test_app();
    let module_dir = app.modules[0].path.clone();
    app.engine.plan_cache.register(
        module_dir,
        PlanHandle { fd: 9 },
        99,
        vec!["null_resource.a".into()],
        0,
    );
    let before = app.engine.plan_cache.entry_count();

    let mut explorer = explorer_with(&["module.net.null_resource.a"]);
    explorer.op_confirm = Some(ExplorerOpKind::TargetedApply);
    explorer.op_targets = vec!["module.net".to_string()];
    explorer.module_select = vec!["module.net".to_string()];
    app.state_explorer = Some(explorer);

    app.start_op();

    let id = newest(&app);
    assert_eq!(app.engine.task(id).unwrap().command, "apply");
    let ex = app.state_explorer.as_ref().unwrap();
    assert!(ex.pending_op.is_some());
    assert!(ex.module_select.is_empty());
    assert_eq!(app.engine.plan_cache.entry_count(), before);
    assert_eq!(spawned_args(&app).join(" "), "-auto-approve -target=module.net");
}

#[test]
fn apply_confirm_carries_plan_targets() {
    let mut app = test_app();
    let module_dir = app.modules[0].path.clone();
    app.engine.plan_cache.register(
        module_dir,
        PlanHandle { fd: 9 },
        7,
        vec!["module.net".into(), "null_resource.a".into()],
        0,
    );

    app.request_apply_confirm(&vec![0]);

    let Some(Modal::Confirm(confirm)) = &app.modal else {
        panic!("apply confirm not staged");
    };
    assert_eq!(confirm.kind, ConfirmKind::Apply);
    assert_eq!(
        confirm.targets[0].plan_targets,
        vec!["module.net".to_string(), "null_resource.a".to_string()]
    );
}

#[test]
fn explorer_plan_creates_session_without_switching_screen() {
    let mut app = test_app();
    assert!(app.session.is_none());
    assert_eq!(app.screen, Screen::Select);

    app.state_explorer = Some(explorer_with(&["module.net.null_resource.a"]));
    app.state_explorer.as_mut().unwrap().selected = 0;
    app.enqueue_targeted_plan();

    assert_eq!(app.screen, Screen::Select);
    let path = app.modules[0].path.clone();
    let id = newest(&app);
    let session = app.session.as_ref().expect("session created");
    assert_eq!(session.modules.len(), 1);
    assert_eq!(session.modules[0].path, path);
    assert_eq!(session.latest_task.get(&path), Some(&id));
}

fn stage_apply(app: &mut App) {
    let mut explorer = explorer_with(&["null_resource.a"]);
    explorer.module_idx = 1;
    explorer.op_confirm = Some(ExplorerOpKind::TargetedApply);
    explorer.op_targets = vec!["null_resource.a".to_string()];
    app.state_explorer = Some(explorer);
    app.start_op();
}

#[test]
fn explorer_apply_appends_module_and_records_latest() {
    let mut app = multi_module_app(2);

    let mut session = RunSession::new(
        vec![SessionModule {
            module_idx: 0,
            path: app.modules[0].path.clone(),
            name: app.modules[0].display_name.clone(),
        }],
        0,
    );
    session.cursor = 0;
    session.selected = vec![0];
    app.session = Some(session);

    stage_apply(&mut app);

    let m1 = app.modules[1].path.clone();
    let id = newest(&app);
    {
        let session = app.session.as_ref().unwrap();
        assert_eq!(session.modules.len(), 2, "module 1 appended");
        assert_eq!(session.modules[1].path, m1);
        assert_eq!(session.cursor, 0);
        assert_eq!(session.selected, vec![0]);
        assert_eq!(session.latest_task.get(&m1), Some(&id));
    }

    // An operation on a module that is there already adds no row.
    stage_apply(&mut app);
    let id2 = newest(&app);
    let session = app.session.as_ref().unwrap();
    assert_eq!(session.modules.len(), 2, "module 1 not duplicated");
    assert_eq!(session.latest_task.get(&m1), Some(&id2));
}

#[test]
fn targeted_ops_carry_targets_full_plan_empty() {
    let mut app = test_app();

    let ids = app.enqueue_plan(&vec![0]);
    assert!(app.engine.task(ids[0]).unwrap().targets.is_empty());

    let mut explorer = explorer_with(&["module.net.null_resource.a"]);
    explorer.op_confirm = Some(ExplorerOpKind::TargetedDestroy);
    explorer.op_targets = vec!["module.net".to_string()];
    app.state_explorer = Some(explorer);
    app.start_op();
    let id = newest(&app);
    assert_eq!(app.engine.task(id).unwrap().command, "destroy");
    assert_eq!(app.engine.task(id).unwrap().targets, vec!["module.net".to_string()]);
}

/// A session over `n` modules, with a running task shown for the first.
fn selection_test_app(n: usize) -> App {
    let mut app = multi_module_app(n);
    app.multi_select = (0..n).collect();
    app.enter_run();
    let path = app.session.as_ref().unwrap().modules[0].path.clone();
    let id = app.engine.tasks.len();
    let mut t = task(id, &path, "m0", "apply", TaskStatus::Running);
    t.output_lines = vec!["hello world".to_string(), "second line".to_string()];
    app.engine.tasks.push(t);
    app.session.as_mut().unwrap().latest_task.insert(path, id);
    app
}

#[test]
fn click_arms_but_does_not_select() {
    let mut app = selection_test_app(1);
    let pos = SelPos { line: 0, ch: 0 };

    app.run_selection_arm(pos);
    let session = app.session.as_ref().unwrap();
    assert!(session.selection.is_none(), "a plain press must not select");
    assert!(session.pending_sel.is_some(), "press should arm a pending anchor");

    assert!(app.run_discard_pending_sel(), "pending anchor existed");
    assert!(app.session.as_ref().unwrap().pending_sel.is_none());
}

#[test]
fn drag_materializes_selection() {
    let mut app = selection_test_app(1);
    let pos = SelPos { line: 0, ch: 0 };
    let pos2 = SelPos { line: 0, ch: 3 };

    app.run_selection_arm(pos);
    assert!(app.run_selection_begin_from_pending());
    {
        let sel = app.session.as_ref().unwrap().selection.expect("selection created");
        assert!(sel.dragging);
        assert_eq!(sel.anchor, pos);
        assert_eq!(sel.head, pos);
    }
    assert!(app.session.as_ref().unwrap().pending_sel.is_none());

    app.run_selection_drag(pos2);
    app.run_selection_end();

    let sel = app
        .session
        .as_ref()
        .unwrap()
        .selection
        .expect("non-empty drag retains its selection");
    assert!(!sel.dragging);
    assert_eq!(sel.head, pos2);
}

#[test]
fn click_deselects_existing() {
    let mut app = selection_test_app(1);
    let pos = SelPos { line: 0, ch: 0 };
    let pos2 = SelPos { line: 0, ch: 3 };

    app.run_selection_arm(pos);
    app.run_selection_begin_from_pending();
    app.run_selection_drag(pos2);
    app.run_selection_end();
    assert!(app.session.as_ref().unwrap().selection.is_some());

    // A press elsewhere clears the old selection.
    app.run_selection_arm(SelPos { line: 1, ch: 0 });
    assert!(app.session.as_ref().unwrap().selection.is_none());
    assert!(app.session.as_ref().unwrap().pending_sel.is_some());
}

#[test]
fn empty_drag_drops_selection() {
    let mut app = selection_test_app(1);
    let pos = SelPos { line: 0, ch: 0 };

    app.run_selection_arm(pos);
    assert!(app.run_selection_begin_from_pending());
    app.run_selection_end();

    assert!(
        app.session.as_ref().unwrap().selection.is_none(),
        "a zero-length drag must not leave a lingering selection"
    );
}

#[test]
fn cursor_move_clears_pending() {
    let mut app = selection_test_app(2);
    app.run_selection_arm(SelPos { line: 0, ch: 0 });
    assert!(app.session.as_ref().unwrap().pending_sel.is_some());

    assert!(app.run_move_cursor(1));
    assert!(app.session.as_ref().unwrap().pending_sel.is_none());
}

#[test]
fn stale_task_pending() {
    let mut app = selection_test_app(1);
    app.run_selection_arm(SelPos { line: 0, ch: 0 });

    // The shown task changes while the press is pending.
    app.session.as_mut().unwrap().pending_sel.as_mut().unwrap().task = Some(999_999);

    assert!(!app.run_selection_begin_from_pending());
    assert!(app.session.as_ref().unwrap().selection.is_none());
}

#[test]
fn an_apply_consumes_the_cached_plan() {
    let mut app = test_app();
    let dir = app.modules[0].path.clone();
    app.engine.plan_cache.register(dir.clone(), PlanHandle { fd: 9 }, 1, Vec::new(), 0);
    app.request_apply_confirm(&vec![0]);
    assert!(app.engine.tasks.is_empty());
    app.confirm_execute();
    assert!(app.modal.is_none());
    assert_eq!(spawned_args(&app), vec!["/dev/fd/9"]);
    assert!(app.engine.plan_cache.get(&dir).is_none());

    // The next apply has no plan to consume.
    app.engine.apply_event(TaskEvent::Started { task_id: 0 });
    app.engine.apply_event(TaskEvent::Finished { task_id: 0, success: true });
    app.request_apply_confirm(&vec![0]);
    app.confirm_execute();
    assert_eq!(spawned_args(&app), vec!["-auto-approve"]);
}

#[test]
fn every_plan_is_written_to_a_file_of_its_own() {
    let mut app = multi_module_app(2);
    let ids = app.enqueue_plan(&vec![0, 1]);
    let spawned: Vec<(Vec<String>, PlanUse)> = app
        .engine
        .outbox
        .iter()
        .map(|a| match a {
            Action::Spawn { args, plan, .. } => (args.clone(), *plan),
            _ => panic!("nothing was spawned"),
        })
        .collect();
    for (i, fd) in [(0, 256), (1, 257)] {
        assert_eq!(spawned[i].0, vec!["-out".to_string(), format!("/dev/fd/{fd}")]);
        assert_eq!(spawned[i].1, PlanUse::Write(PlanHandle { fd }));
        assert_eq!(app.engine.task(ids[i]).unwrap().plan_output.unwrap().fd, fd);
    }

    // A plan that succeeded is kept, and applied from its file.
    app.engine.apply_event(TaskEvent::Started { task_id: ids[1] });
    app.engine.apply_event(TaskEvent::Finished { task_id: ids[1], success: true });
    let dir = app.modules[1].path.clone();
    assert_eq!(app.engine.plan_cache.get(&dir).unwrap().handle.raw_fd(), 257);
    app.request_apply_confirm(&vec![1]);
    app.confirm_execute();
    assert_eq!(spawned_args(&app), vec!["/dev/fd/257"]);
    match app.engine.outbox.last() {
        Some(Action::Spawn { plan, .. }) => assert_eq!(*plan, PlanUse::Read(PlanHandle { fd: 257 })),
        _ => panic!("nothing was spawned"),
    }
}

#[test]
fn a_range_without_visible_modules_selects_nothing() {
    let mut app = App::new(Config::default(), "/r".to_string(), Vec::new());
    app.multi_select_anchor = Some(0);
    app.range_select();
    assert!(app.multi_select.is_empty());

    // Nor does one that lies behind the visible list.
    let mut app = multi_module_app(3);
    app.multi_select_anchor = Some(7);
    app.selected_module = 5;
    app.range_select();
    assert!(app.multi_select.is_empty());
    assert_eq!(app.multi_select_anchor, Some(5));

    // What is visible of a range is selected.
    app.selected_module = 1;
    app.range_select();
    assert_eq!(app.multi_select, vec![1, 2]);
}

#[test]
fn a_refresh_lists_library_modules_where_they_are_shown() {
    for (shown, count) in [(false, 1), (true, 2)] {
        let config = Config { show_library_modules: shown, ..Config::default() };
        let mut app = App::new(config, "/r".to_string(), Vec::new());
        let found = [("net", ModuleKind::Library), ("vpc", ModuleKind::Root)]
            .into_iter()
            .map(|(name, kind)| Module {
                path: format!("/r/{name}"),
                display_name: name.to_string(),
                kind,
            })
            .collect();
        app.refresh_modules(found);
        assert_eq!(app.modules.len(), count);
        assert_eq!(app.modules[count - 1].display_name, "vpc");
    }
}

#[test]
fn taints_run_one_after_the_other() {
    let mut app = test_app();
    let mut explorer = explorer_with(&["a.x", "a.y"]);
    explorer.op_confirm = Some(ExplorerOpKind::Taint);
    explorer.op_targets = vec!["a.x".to_string(), "a.y".to_string()];
    app.state_explorer = Some(explorer);
    app.start_op();
    assert_eq!(app.engine.tasks.len(), 1);
    assert_eq!(spawned_args(&app), vec!["a.x"]);

    app.drain_events(vec![
        TaskEvent::Started { task_id: 0 },
        TaskEvent::Finished { task_id: 0, success: true },
    ]);
    assert_eq!(app.engine.tasks.len(), 2);
    assert_eq!(spawned_args(&app), vec!["a.y"]);

    app.drain_events(vec![
        TaskEvent::Started { task_id: 1 },
        TaskEvent::Finished { task_id: 1, success: false },
    ]);
    let ex = app.state_explorer.as_ref().unwrap();
    assert!(ex.pending_op.is_none());
    let result = ex.op_result.as_ref().unwrap();
    assert_eq!(
        result.entries,
        vec![("a.x".to_string(), true), ("a.y".to_string(), false)]
    );
    // The state is read again, once.
    assert_eq!(app.requests.len(), 1);
    assert!(matches!(app.requests[0], Request::ReadState { load_id: 0, .. }));
}

#[test]
fn stale_state_is_not_installed() {
    let mut app = test_app();
    app.open_state_explorer(0);
    assert!(matches!(app.requests[0], Request::ReadState { load_id: 0, .. }));
    app.install_state(7, Some(StateContent::NoState));
    assert!(matches!(app.state_explorer.as_ref().unwrap().content, StateContent::Loading));
    app.install_state(0, Some(StateContent::Resources(vec![resource("a.b")])));
    assert_eq!(app.state_explorer.as_ref().unwrap().rows().len(), 1);
    app.install_state(0, None);
    assert_eq!(app.state_explorer.as_ref().unwrap().rows().len(), 1);

    app.refresh_state_explorer();
    app.refresh_state_explorer();
    assert_eq!(app.requests.len(), 2);
    app.install_state(1, None);
    match &app.state_explorer.as_ref().unwrap().content {
        StateContent::Error(m) => assert_eq!(m, "state load task failed"),
        other => panic!("expected Error, got {other:?}"),
    }
}

#[test]
fn the_detail_of_a_resource_is_laid_out_over_lines() {
    let mut app = test_app();
    let mut ex = explorer_with(&["a.b"]);
    if let StateContent::Resources(rs) = &mut ex.content {
        rs[0].instance.body = "{\"b\":[1,true],\"a\":null}".to_string();
    }
    app.state_explorer = Some(ex);
    app.open_resource_detail();
    let detail = app.state_explorer.as_ref().unwrap().detail_view.as_ref().unwrap();
    assert_eq!(detail.address, "a.b");
    assert_eq!(
        detail.lines,
        vec!["{", "  \"a\": null,", "  \"b\": [", "    1,", "    true", "  ]", "}"]
    );
    app.resource_detail_scroll(100);
    assert_eq!(app.state_explorer.as_ref().unwrap().detail_view.as_ref().unwrap().scroll, 6);
    app.resource_detail_scroll(-100);
    assert_eq!(app.state_explorer.as_ref().unwrap().detail_view.as_ref().unwrap().scroll, 0);
}

#[test]
fn what_is_no_json_shows_as_an_empty_object() {
    let mut app = test_app();
    let mut ex = explorer_with(&["a.b"]);
    if let StateContent::Resources(rs) = &mut ex.content {
        rs[0].instance.body = "not json".to_string();
    }
    app.state_explorer = Some(ex);
    app.open_resource_detail();
    let detail = app.state_explorer.as_ref().unwrap().detail_view.as_ref().unwrap();
    assert_eq!(detail.lines, vec!["{}"]);
}

#[test]
fn an_unlock_needs_a_lock() {
    let mut app = multi_module_app(2);
    let lock = LockInfo {
        id: "abc".to_string(),
        who: "user@host".to_string(),
        operation: "OperationTypePlan".to_string(),
    };
    app.request_force_unlock_confirm(&vec![0, 1], &vec![None, None]);
    assert!(app.modal.is_none());
    app.request_force_unlock_confirm(&vec![0, 1], &vec![None, Some(lock)]);
    let Some(Modal::Confirm(confirm)) = &app.modal else {
        panic!("unlock confirm not staged");
    };
    assert_eq!(confirm.targets.len(), 1);
    assert_eq!(confirm.targets[0].module_idx, 1);
    app.confirm_execute();
    assert_eq!(spawned_args(&app), vec!["-force", "abc"]);
}

#[test]
fn a_lock_is_found_in_the_output_of_an_earlier_task() {
    let mut app = test_app();
    let dir = app.modules[0].path.clone();
    let mut t = task(0, &dir, "app", "plan", TaskStatus::Failed);
    t.finished_at = Some(1);
    t.output_lines = vec![
        "│ Lock Info:".to_string(),
        "│   ID:        abc-123".to_string(),
        "│   Who:       user@host".to_string(),
    ];
    app.engine.tasks.push(t);
    assert_eq!(app.detect_lock_from_tasks(&dir).unwrap().id, "abc-123");
    assert!(app.detect_lock_from_tasks("/elsewhere").is_none());
}

#[test]
fn a_reset_keeps_only_what_runs() {
    let mut app = multi_module_app(3);
    app.multi_select = vec![0, 1, 2];
    app.enter_run();
    app.filter = "m".to_string();
    app.max_depth = Some(1);
    let ids = app.enqueue_plan(&vec![0, 1]);
    app.engine.apply_event(TaskEvent::Started { task_id: ids[0] });
    app.engine.plan_cache.register("/x".to_string(), PlanHandle { fd: 3 }, 9, Vec::new(), 0);
    app.engine.tasks.push(task(50, "/d", "d", "plan", TaskStatus::Success));
    assert_eq!(app.reset_summary(), (1, 1, 1));

    app.reset_session();
    assert!(app.engine.tasks.iter().all(|t| matches!(
        t.status,
        TaskStatus::Running | TaskStatus::Cancelling
    )));
    assert_eq!(app.engine.task(ids[0]).unwrap().status, TaskStatus::Running);
    assert_eq!(app.engine.plan_cache.entry_count(), 0);
    assert!(app.session.is_none() && app.multi_select.is_empty() && app.filter.is_empty());
    assert_eq!(app.max_depth, None);
    assert_eq!(app.screen, Screen::Select);
}

#[test]
fn selecting_everything_twice_gives_the_selection_back() {
    let mut app = multi_module_app(4);
    app.toggle_select_all_visible();
    assert_eq!(app.multi_select, vec![0, 1, 2, 3]);
    app.toggle_select_all_visible();
    assert!(app.multi_select.is_empty());
}

#[test]
fn the_filter_does_not_mind_the_case() {
    let mut app = multi_module_app(3);
    app.filter = "M1".to_string();
    assert_eq!(app.visible_module_indices(), vec![1]);
}

#[test]
fn the_depth_limit_steps_back() {
    let mut app = multi_module_app(2);
    app.modules[1].display_name = "a/b/c".to_string();
    app.decrease_depth();
    assert_eq!(app.max_depth, Some(2));
    assert_eq!(app.visible_module_indices(), vec![0]);
    app.increase_depth();
    assert_eq!(app.max_depth, None);
    for _ in 0..5 {
        app.decrease_depth();
    }
    assert_eq!(app.max_depth, Some(1));
}

#[test]
fn a_refresh_keeps_what_still_exists() {
    let mut app = multi_module_app(3);
    app.multi_select = vec![0, 1, 2];
    app.enter_run();
    app.session.as_mut().unwrap().cursor = 2;
    let mut found: Vec<Module> = Vec::new();
    for i in [2, 0] {
        found.push(Module {
            path: format!("/tmp/rug-test-multi/m{i}"),
            display_name: format!("m{i}"),
            kind: ModuleKind::Root,
        });
    }
    app.refresh_modules(found);
    let session = app.session.as_ref().unwrap();
    assert_eq!(session.modules.len(), 2);
    assert_eq!(session.modules[session.cursor].name, "m2");
    assert_eq!(session.modules[session.cursor].module_idx, 0);
    assert!(app.multi_select.is_empty());
}
