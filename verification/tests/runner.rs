use rug::runner::{RunAction, RunEvent, RunState, TaskRun};
use rug::task::TaskEvent;

fn told(actions: Vec<RunAction>) -> Vec<String> {
    actions
        .into_iter()
        .map(|a| match a {
            RunAction::Report(TaskEvent::Started { task_id }) => format!("started {task_id}"),
            RunAction::Report(TaskEvent::Line { task_id, line }) => format!("{task_id}: {line}"),
            RunAction::Report(TaskEvent::Finished { task_id, success }) => {
                format!("finished {task_id} {success}")
            }
            RunAction::Spawn => "spawn".to_string(),
            RunAction::Interrupt => "interrupt".to_string(),
            RunAction::Kill => "kill".to_string(),
        })
        .collect()
}

fn running() -> TaskRun {
    let mut run = TaskRun::new(7);
    assert_eq!(told(run.step(RunEvent::Turn)), vec!["started 7", "spawn"]);
    run
}

#[test]
fn a_process_that_ends_well_is_a_success() {
    let mut run = running();
    let line = RunEvent::Line { line: "hello".to_string() };
    assert_eq!(told(run.step(line)), vec!["7: hello"]);
    assert_eq!(told(run.step(RunEvent::Exited { success: true })), vec!["finished 7 true"]);
    assert_eq!(run.state, RunState::Over);
    assert!(run.step(RunEvent::Exited { success: true }).is_empty());
}

#[test]
fn a_process_that_ends_badly_or_does_not_start_fails() {
    let mut run = running();
    assert_eq!(told(run.step(RunEvent::Exited { success: false })), vec!["finished 7 false"]);

    let mut run = running();
    assert_eq!(
        told(run.step(RunEvent::SpawnFailed { error: "no such file".to_string() })),
        vec!["7: error: failed to spawn: no such file", "finished 7 false"]
    );
}

#[test]
fn an_interrupted_process_may_still_be_killed() {
    let mut run = running();
    assert_eq!(told(run.step(RunEvent::Interrupt)), vec!["interrupt"]);
    assert!(run.step(RunEvent::Interrupt).is_empty());
    assert_eq!(told(run.step(RunEvent::Kill)), vec!["kill"]);
    // Even one that then ends well was stopped.
    assert_eq!(told(run.step(RunEvent::Exited { success: true })), vec!["finished 7 false"]);
}

#[test]
fn a_task_that_waits_never_starts_once_it_is_stopped() {
    for event in [RunEvent::Interrupt, RunEvent::Kill] {
        let mut run = TaskRun::new(3);
        assert_eq!(told(run.step(event)), vec!["finished 3 false"]);
        assert!(run.step(RunEvent::Turn).is_empty());
    }
    let mut run = TaskRun::new(3);
    assert!(run.step(RunEvent::NoTurn).is_empty());
    assert_eq!(run.state, RunState::Over);
}

#[test]
fn a_process_is_started_once_and_on_its_turn() {
    let mut run = TaskRun::new(7);
    assert!(run.step(RunEvent::Line { line: "early".to_string() }).is_empty());
    assert!(run.step(RunEvent::Exited { success: true }).is_empty());
    assert_eq!(told(run.step(RunEvent::Turn)), vec!["started 7", "spawn"]);
    assert!(run.step(RunEvent::Turn).is_empty());
    assert!(run.step(RunEvent::NoTurn).is_empty());
    assert_eq!(run.state, RunState::Running);
}
