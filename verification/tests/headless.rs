use rug::config::Config;
use rug::engine::Action;
use rug::headless::{
    confirm_headless, confirm_prompt, list_modules, matching_modules, screen_modules, HeadlessRun,
};
use rug::module::{Module, ModuleKind};
use rug::task::TaskEvent;

fn modules() -> Vec<Module> {
    [("infra/vpc", ModuleKind::Root), ("infra/dns", ModuleKind::Root), ("lib/net", ModuleKind::Library)]
        .into_iter()
        .map(|(name, kind)| Module {
            path: format!("/r/{name}"),
            display_name: name.to_string(),
            kind,
        })
        .collect()
}

#[test]
fn the_filter_narrows_root_modules() {
    let ms = modules();
    assert_eq!(matching_modules(&ms, "").unwrap(), vec![0, 1]);
    assert_eq!(matching_modules(&ms, "vpc").unwrap(), vec![0]);
    assert_eq!(matching_modules(&ms, "net").unwrap_err(), "no matching root modules found");
}

#[test]
fn the_screens_list_library_modules_where_they_are_shown() {
    let ms = modules();
    let mut config = Config::default();
    assert_eq!(screen_modules(&config, "/r", &ms).unwrap(), vec![0, 1]);
    assert_eq!(
        screen_modules(&config, "/r", &ms[2..].to_vec()).unwrap_err(),
        "No terraform root modules found under /r"
    );
    config.show_library_modules = true;
    assert_eq!(screen_modules(&config, "/r", &ms).unwrap(), vec![0, 1, 2]);
    assert_eq!(screen_modules(&config, "/r", &ms[2..].to_vec()).unwrap(), vec![0]);
    assert_eq!(
        screen_modules(&config, "/r", &Vec::new()).unwrap_err(),
        "No terraform root modules found under /r"
    );
}

#[test]
fn the_prompt_names_the_command_and_the_modules() {
    let ms = modules();
    assert_eq!(
        confirm_prompt("apply", &ms, &vec![0, 1]),
        "\nAbout to run APPLY on 2 modules:\n  • infra/vpc\n  • infra/dns\n\nContinue? [y/N] "
    );
    assert_eq!(
        confirm_prompt("destroy", &ms, &vec![1]),
        "\nAbout to run DESTROY on 1 module:\n  • infra/dns\n\nContinue? [y/N] "
    );
}

#[test]
fn only_yes_agrees() {
    for line in ["y\n", "Y\n", "yes\n", "  YES  \n"] {
        assert!(confirm_headless(line).is_ok(), "{line:?}");
    }
    for line in ["", "\n", "n\n", "yep\n", "no\n"] {
        assert_eq!(confirm_headless(line).unwrap_err(), "aborted by user");
    }
}

#[test]
fn libraries_are_tagged_in_the_list() {
    let mut config = Config::default();
    assert_eq!(
        list_modules(&config, "/r", &modules()),
        vec!["config: (defaults)", "infra/vpc", "infra/dns", "lib/net (library)"]
    );
    config.source = Some("/r/rug.toml".to_string());
    assert_eq!(
        list_modules(&config, "/r", &Vec::new()),
        vec!["config: /r/rug.toml", "No modules found under /r"]
    );
}

fn start() -> HeadlessRun {
    let config = Config { binary: "tofu".to_string(), ..Config::default() };
    HeadlessRun::start(&config, &modules(), &vec![0, 1], "plan", &vec!["-no-color".to_string()])
}

#[test]
fn every_module_starts_at_once() {
    let run = start();
    assert_eq!(run.task_ids, vec![0, 1]);
    assert_eq!(run.engine.binary, "tofu");
    assert_eq!(run.engine.outbox.len(), 2);
    for (i, action) in run.engine.outbox.iter().enumerate() {
        match action {
            Action::Spawn { task_id, module_dir, command, args, .. } => {
                assert_eq!(*task_id, i);
                assert_eq!(module_dir, &modules()[i].path);
                assert_eq!(command, "plan");
                assert_eq!(args, &vec!["-no-color".to_string()]);
            }
            _ => panic!("expected a spawn"),
        }
    }
}

#[test]
fn lines_are_printed_with_the_module_and_failures_counted() {
    let mut run = start();
    assert_eq!(run.step(TaskEvent::Started { task_id: 0 }), None);
    assert_eq!(
        run.step(TaskEvent::Line { task_id: 0, line: "hello".to_string() }),
        Some("[infra/vpc] hello".to_string())
    );
    assert_eq!(run.step(TaskEvent::Finished { task_id: 0, success: true }), None);
    assert!(run.engine.has_active_tasks());
    run.step(TaskEvent::Started { task_id: 1 });
    run.step(TaskEvent::Finished { task_id: 1, success: false });
    assert!(!run.engine.has_active_tasks());
    assert_eq!(run.outcome().unwrap_err(), "1 task(s) failed");
}

#[test]
fn a_run_without_failures_is_fine() {
    let mut run = start();
    for id in 0..2 {
        run.step(TaskEvent::Started { task_id: id });
        run.step(TaskEvent::Finished { task_id: id, success: true });
    }
    assert!(run.outcome().is_ok());
}
