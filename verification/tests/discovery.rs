use rug::config::Config;
use rug::discovery::{
    classify_dir, discover, file_has_backend, is_ignored, is_tf_file, FoundDir,
};
use rug::module::{Module, ModuleKind};
use rug::paths::{join_path, normalize_path};

fn dir(path: &str, files: &[&str]) -> FoundDir {
    FoundDir {
        path: path.to_string(),
        tf_files: files.iter().map(|f| Some(f.to_string())).collect(),
        has_lock_file: false,
        has_state_file: false,
        has_state_dir: false,
    }
}

#[test]
fn a_backend_makes_a_root_module() {
    assert!(file_has_backend("terraform {\n  backend \"s3\" {}\n}\n"));
    assert!(!file_has_backend("# no backend here\n"));
    assert_eq!(classify_dir(&dir("/r/a", &[])), None);
    assert_eq!(classify_dir(&dir("/r/a", &["resource {}"])), Some(ModuleKind::Library));
    assert_eq!(classify_dir(&dir("/r/a", &["  backend \"s3\" {"])), Some(ModuleKind::Root));
    let mut locked = dir("/r/a", &["resource {}"]);
    locked.has_lock_file = true;
    assert_eq!(classify_dir(&locked), Some(ModuleKind::Root));
    let mut unreadable = dir("/r/a", &[]);
    unreadable.tf_files.push(None);
    assert_eq!(classify_dir(&unreadable), Some(ModuleKind::Library));
}

#[test]
fn modules_are_listed_by_name() {
    let config = Config { show_library_modules: true, ..Config::default() };
    let found = vec![
        dir("/r/b", &["backend \"s3\" {"]),
        dir("/r", &["backend \"s3\" {"]),
        dir("/r/a/x", &["resource {}"]),
        dir("/r/empty", &[]),
    ];
    let names: Vec<String> =
        discover("/r", &config, &found).into_iter().map(|m| m.display_name).collect();
    assert_eq!(names.len(), 3);
    let mut sorted = names.clone();
    sorted.sort();
    assert_eq!(names, sorted);
    assert!(names.contains(&"a/x".to_string()));
    assert!(names.contains(&"b".to_string()));
}

#[test]
fn libraries_are_listed_only_on_request() {
    let found = vec![dir("/r/a", &["resource {}"]), dir("/r/b", &["backend \"s3\" {"])];
    let shown = discover("/r", &Config::default(), &found);
    assert_eq!(shown.len(), 1);
    assert!(shown[0].is_root());
}

#[test]
fn ignored_directories_are_told_by_name() {
    let config = Config::default();
    assert!(is_ignored(".terraform", &config));
    assert!(!is_ignored("terraform", &config));
}

#[test]
fn nothing_below_an_ignored_directory_is_a_module() {
    let config = Config::default();
    let backend = ["backend \"s3\" {"];
    let found = vec![
        dir("/r/a", &backend),
        dir("/r/a/.terraform/modules/b", &backend),
        dir("/r/node_modules", &backend),
        dir("/r/a", &backend),
    ];
    let names: Vec<String> =
        discover("/r", &config, &found).into_iter().map(|m| m.display_name).collect();
    assert_eq!(names, vec!["a"]);
    // The root counts, what lies above it does not.
    assert!(discover("/r/node_modules", &config, &vec![dir("/r/node_modules/x", &backend)])
        .is_empty());
    assert_eq!(discover("/.git/r", &config, &vec![dir("/.git/r/x", &backend)]).len(), 1);
}

#[test]
fn a_module_is_named_after_its_place_below_the_root() {
    let m = Module::new("/r/infra/net".to_string(), "/r", ModuleKind::Root);
    assert_eq!(m.display_name, "infra/net");
    let outside = Module::new("/elsewhere/net".to_string(), "/r", ModuleKind::Root);
    assert_eq!(outside.display_name, "/elsewhere/net");
}

#[test]
fn paths_are_joined_and_normalized() {
    assert_eq!(join_path("/m/app", "x"), "/m/app/x");
    assert_eq!(join_path("/m/app", "/abs"), "/abs");
    assert_eq!(normalize_path("/m/app/../x/./y"), "/m/x/y");
}

#[test]
fn tf_files_are_told_by_their_extension() {
    for name in ["main.tf", "a.b.tf", "..tf", "x.tf"] {
        assert!(is_tf_file(name), "{name}");
    }
    for name in [".tf", "tf", "main.tf.json", "main.TF", "main.tfvars", "main tf", ""] {
        assert!(!is_tf_file(name), "{name}");
    }
}

#[test]
fn one_directory_is_found_once_however_it_is_written() {
    let backend = ["backend \"s3\" {"];
    let found = vec![dir("/r/a", &backend), dir("/r/a/", &backend), dir("/r//a/.", &backend)];
    assert_eq!(discover("/r", &Config::default(), &found).len(), 1);
}
