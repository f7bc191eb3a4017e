use rug::config::{detect_binary_impl, find_config_file_in, Config, DirFacts};

#[test]
fn env_override_wins() {
    let result = detect_binary_impl(Some("custom-tf"), |_: &str| true);
    assert_eq!(result.unwrap(), "custom-tf");
}

#[test]
fn empty_env_override_ignored() {
    let result = detect_binary_impl(Some(""), |bin: &str| bin == "terraform");
    assert_eq!(result.unwrap(), "terraform");
}

#[test]
fn tofu_preferred_over_terraform() {
    let result = detect_binary_impl(None, |_: &str| true);
    assert_eq!(result.unwrap(), "tofu");
}

#[test]
fn nothing_found_errors() {
    let result = detect_binary_impl(None, |_: &str| false);
    assert!(result.is_err());
}

/// The directories from the one the search starts in up to the root, with what
/// each of them holds.
fn dirs(facts: &[(&str, &str)], home: &str, start: &str) -> Vec<DirFacts> {
    let mut out = Vec::new();
    let mut at = start.to_string();
    loop {
        let holds = |what: &str| facts.iter().any(|(dir, entry)| *dir == at && *entry == what);
        out.push(DirFacts {
            has_config: holds("rug.toml"),
            has_git: holds(".git"),
            is_home: at == home,
        });
        match at.rfind('/') {
            Some(0) if at.len() > 1 => at = "/".to_string(),
            Some(i) if i > 0 => at.truncate(i),
            _ => return out,
        }
    }
}

#[test]
fn finds_config_in_start_dir() {
    let d = dirs(&[("/t", "rug.toml")], "/t", "/t");
    assert_eq!(find_config_file_in(&d), Some(0));
}

#[test]
fn walks_up_to_nearest_ancestor() {
    let d = dirs(&[("/t", "rug.toml")], "/t", "/t/a/b/c");
    assert_eq!(find_config_file_in(&d), Some(3));
}

#[test]
fn nearest_ancestor_wins() {
    let d = dirs(&[("/t", "rug.toml"), ("/t/a", "rug.toml")], "/t", "/t/a/b");
    assert_eq!(find_config_file_in(&d), Some(1));
}

#[test]
fn stops_at_repo_root() {
    let d = dirs(&[("/t", "rug.toml"), ("/t/repo", ".git")], "/t", "/t/repo/envs");
    assert_eq!(find_config_file_in(&d), None);
}

#[test]
fn repo_root_own_config_is_found() {
    let d = dirs(&[("/t/repo", ".git"), ("/t/repo", "rug.toml")], "/t", "/t/repo/envs");
    assert_eq!(find_config_file_in(&d), Some(1));
}

#[test]
fn git_file_is_a_boundary() {
    // Worktrees and submodules have a `.git` file in place of a directory.
    let d = dirs(&[("/t", "rug.toml"), ("/t/repo", ".git")], "/t", "/t/repo/envs");
    assert_eq!(find_config_file_in(&d), None);
}

#[test]
fn stops_at_home() {
    let d = dirs(&[("/t", "rug.toml")], "/t/h", "/t/h/x");
    assert_eq!(find_config_file_in(&d), None);
}

#[test]
fn home_own_config_is_found() {
    let d = dirs(&[("/t/h", "rug.toml")], "/t/h", "/t/h/x");
    assert_eq!(find_config_file_in(&d), Some(1));
}

#[test]
fn no_config_anywhere() {
    let d = dirs(&[], "/t", "/t/a/b");
    assert_eq!(find_config_file_in(&d), None);
}

#[test]
fn defaults_ignore_the_usual_directories() {
    let c = Config::default();
    assert_eq!(c.parallelism, 4);
    assert_eq!(
        c.ignore_dirs,
        vec![".terraform", ".git", "node_modules", ".terragrunt-cache"]
    );
    assert!(!c.show_library_modules);
    assert!(c.source.is_none());
}

fn file_with(binary: &str) -> Option<(String, Config)> {
    let file = Config { binary: binary.to_string(), ..Config::default() };
    Some(("/t/rug.toml".to_string(), file))
}

#[test]
fn the_environment_overrides_the_file_and_the_file_what_is_detected() {
    let tofu = || Ok("tofu".to_string());

    let c = Config::resolve(file_with("from-dir"), Some("custom-tf"), tofu()).unwrap();
    assert_eq!(c.binary, "custom-tf");

    let c = Config::resolve(file_with("from-dir"), None, tofu()).unwrap();
    assert_eq!(c.binary, "from-dir");
    assert_eq!(c.source, Some("/t/rug.toml".to_string()));

    let c = Config::resolve(file_with("from-dir"), Some(""), tofu()).unwrap();
    assert_eq!(c.binary, "from-dir");

    let c = Config::resolve(file_with(""), None, tofu()).unwrap();
    assert_eq!(c.binary, "tofu");

    let c = Config::resolve(None, None, tofu()).unwrap();
    assert_eq!(c.binary, "tofu");
    assert!(c.source.is_none());
}

#[test]
fn a_missing_binary_matters_only_where_it_is_needed() {
    let nothing = || Err("nothing on PATH".to_string());
    assert_eq!(Config::resolve(None, None, nothing()).unwrap_err(), "nothing on PATH");
    assert!(Config::resolve(file_with("from-dir"), None, nothing()).is_ok());
    assert!(Config::resolve(None, Some("custom-tf"), nothing()).is_ok());
}
