use rug::engine::{Action, EngineUpdate, TaskEngine, TaskSpec};
use rug::plan_cache::PlanHandle;
use rug::task::{TaskEvent, TaskStatus};

fn spec(command: &str) -> TaskSpec {
    TaskSpec {
        module_dir: "/tmp/m".to_string(),
        module_name: "m".to_string(),
        command: command.to_string(),
        args: Vec::new(),
        plan_output: None,
        targets: Vec::new(),
        apply_plan: None,
    }
}

/// Runs every task that the engine asks for, successfully, until none is left.
fn settle(engine: &mut TaskEngine) {
    while engine.has_active_tasks() {
        assert!(!engine.outbox.is_empty(), "active tasks but nothing to do");
        let actions = std::mem::take(&mut engine.outbox);
        for action in actions {
            if let Action::Spawn { task_id, command, .. } = action {
                engine.apply_event(TaskEvent::Started { task_id });
                engine.apply_event(TaskEvent::Line { task_id, line: command });
                engine.apply_event(TaskEvent::Finished { task_id, success: true });
            }
        }
    }
}

#[test]
fn same_module_queue_replaces_displaced_task() {
    let mut engine = TaskEngine::new("echo".to_string(), 1);

    let a = engine.push_task(spec("a"));
    let b = engine.push_task(spec("b"));
    let c = engine.push_task(spec("c"));

    // b was displaced by c before it ever started running.
    assert_eq!(engine.task(b).unwrap().status, TaskStatus::Cancelled);
    assert_eq!(engine.task(c).unwrap().status, TaskStatus::Pending);

    settle(&mut engine);

    assert_eq!(engine.task(a).unwrap().status, TaskStatus::Success);
    assert_eq!(engine.task(c).unwrap().status, TaskStatus::Success);
    assert_eq!(engine.task(b).unwrap().status, TaskStatus::Cancelled);
}

#[test]
fn a_successful_plan_is_cached() {
    let mut engine = TaskEngine::new("echo".to_string(), 1);
    engine.clock = 5_000;
    let mut plan = spec("plan");
    plan.plan_output = Some(PlanHandle { fd: 9 });
    plan.targets = vec!["module.net".to_string()];
    let id = engine.push_task(plan);
    settle(&mut engine);

    let entry = engine.plan_cache.get("/tmp/m").unwrap();
    assert_eq!(entry.task_id, id);
    assert_eq!(entry.handle.raw_fd(), 9);
    assert_eq!(entry.targets, vec!["module.net"]);
    assert_eq!(entry.created_at, 5_000);
    assert!(engine.plan_in_use(PlanHandle { fd: 9 }));
    assert!(!engine.plan_in_use(PlanHandle { fd: 10 }));
}

#[test]
fn a_failed_plan_is_not_cached() {
    let mut engine = TaskEngine::new("echo".to_string(), 1);
    let mut plan = spec("plan");
    plan.plan_output = Some(PlanHandle { fd: 9 });
    let id = engine.push_task(plan);
    engine.apply_event(TaskEvent::Started { task_id: id });
    engine.apply_event(TaskEvent::Finished { task_id: id, success: false });
    assert_eq!(engine.task(id).unwrap().status, TaskStatus::Failed);
    assert!(engine.plan_cache.get("/tmp/m").is_none());
}

#[test]
fn cancelling_escalates() {
    let mut engine = TaskEngine::new("echo".to_string(), 1);
    let id = engine.push_task(spec("a"));
    engine.apply_event(TaskEvent::Started { task_id: id });
    engine.outbox.clear();

    engine.cancel_task(id);
    assert_eq!(engine.task(id).unwrap().status, TaskStatus::Cancelling);
    assert!(matches!(engine.outbox[0], Action::Interrupt { task_id } if task_id == id));

    engine.cancel_task(id);
    assert!(matches!(engine.outbox[1], Action::ForceKill { task_id } if task_id == id));

    engine.apply_event(TaskEvent::Finished { task_id: id, success: true });
    assert_eq!(engine.task(id).unwrap().status, TaskStatus::Cancelled);
    engine.cancel_task(id);
    assert_eq!(engine.outbox.len(), 2);
}

#[test]
fn a_waiting_task_is_dropped_when_it_is_cancelled() {
    let mut engine = TaskEngine::new("echo".to_string(), 1);
    let a = engine.push_task(spec("a"));
    let b = engine.push_task(spec("b"));
    engine.cancel_task(b);
    assert_eq!(engine.task(b).unwrap().status, TaskStatus::Cancelled);
    settle(&mut engine);
    assert_eq!(engine.task(a).unwrap().status, TaskStatus::Success);
    assert_eq!(engine.task(b).unwrap().status, TaskStatus::Cancelled);
}

#[test]
fn a_summary_line_gives_counts() {
    let mut engine = TaskEngine::new("echo".to_string(), 1);
    let id = engine.push_task(spec("plan"));
    let updates = engine.drain_events(vec![
        TaskEvent::Started { task_id: id },
        TaskEvent::Line {
            task_id: id,
            line: "Plan: 2 to add, 1 to change, 3 to destroy.".to_string(),
        },
    ]);
    assert!(matches!(updates[0], EngineUpdate::Started { .. }));
    assert!(matches!(updates[1], EngineUpdate::Line { .. }));
    let counts = engine.task(id).unwrap().resource_counts.unwrap();
    assert_eq!((counts.add, counts.change, counts.destroy), (2, 1, 3));
}

#[test]
fn a_module_is_one_however_its_path_is_written() {
    let mut engine = TaskEngine::new("echo".to_string(), 4);
    let a = engine.push_task(spec("a"));
    let mut again = spec("b");
    again.module_dir = "/tmp/m/".to_string();
    let b = engine.push_task(again);
    assert!(engine.task(a).unwrap().spawned);
    assert!(!engine.task(b).unwrap().spawned, "the module is busy");

    engine.apply_event(TaskEvent::Started { task_id: a });
    engine.apply_event(TaskEvent::Finished { task_id: a, success: true });
    assert!(engine.task(b).unwrap().spawned);
    match engine.outbox.last() {
        // The waiting task starts in the directory of the one that ended.
        Some(Action::Spawn { task_id, module_dir, .. }) => {
            assert_eq!((*task_id, module_dir.as_str()), (b, "/tmp/m"));
        }
        other => panic!("nothing was spawned: {other:?}"),
    }
}

#[test]
fn taken_handle_survives_clear() {
    let mut engine = TaskEngine::new("echo".to_string(), 1);
    let plan = PlanHandle { fd: 300 };
    engine.plan_cache.register("/tmp/m".to_string(), plan, 0, Vec::new(), 0);
    let taken = engine.plan_cache.take("/tmp/m/").expect("the plan of the module");
    assert_eq!(taken, plan);
    let mut apply = spec("apply");
    apply.apply_plan = Some(taken);
    let id = engine.push_task(apply);

    engine.plan_cache.clear();
    assert_eq!(engine.plan_cache.entry_count(), 0);
    assert!(engine.plan_in_use(plan), "the apply still reads the plan");

    engine.apply_event(TaskEvent::Started { task_id: id });
    engine.apply_event(TaskEvent::Finished { task_id: id, success: true });
    assert!(!engine.plan_in_use(plan));
}
