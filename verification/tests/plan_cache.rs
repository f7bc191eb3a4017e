use rug::plan_cache::{PlanCache, PlanHandle};

#[test]
fn register_stores_targets_and_reports_targeted() {
    let mut cache = PlanCache::new();
    let module = "/tmp/mod";

    // Full plan: no targets.
    cache.register(module.to_string(), PlanHandle { fd: 10 }, 1, Vec::new(), 0);
    let entry = cache.get(module).unwrap();
    assert!(entry.targets.is_empty());
    assert!(!entry.is_targeted());

    // Targeted plan: the targets are kept as they are.
    cache.register(
        module.to_string(),
        PlanHandle { fd: 11 },
        2,
        vec!["module.net".to_string(), "null_resource.a".to_string()],
        0,
    );
    let entry = cache.get(module).unwrap();
    assert!(entry.is_targeted());
    assert_eq!(entry.targets.len(), 2);
    assert_eq!(entry.targets[0], "module.net");
}

#[test]
fn a_plan_is_taken_once() {
    let mut cache = PlanCache::new();
    cache.register("/tmp/mod".to_string(), PlanHandle { fd: 7 }, 1, Vec::new(), 0);
    cache.register("/tmp/other".to_string(), PlanHandle { fd: 8 }, 2, Vec::new(), 0);

    let taken = cache.take("/tmp/mod").unwrap();
    assert_eq!(taken.raw_fd(), 7);
    assert!(cache.take("/tmp/mod").is_none());
    assert_eq!(cache.entry_count(), 1);

    cache.clear();
    assert_eq!(cache.entry_count(), 0);
    // A plan that was taken is not affected by clearing the cache.
    assert_eq!(taken.dev_fd_path(), "/dev/fd/7");
}

#[test]
fn ages_are_told_in_the_largest_unit() {
    let mut cache = PlanCache::new();
    cache.register("/m".to_string(), PlanHandle { fd: 3 }, 1, Vec::new(), 1_000);
    let entry = cache.get("/m").unwrap();
    assert_eq!(entry.age_str(1_000), "0s ago");
    assert_eq!(entry.age_str(60_999), "59s ago");
    assert_eq!(entry.age_str(61_000), "1m ago");
    assert_eq!(entry.age_str(3_601_000), "1h ago");
    assert_eq!(entry.age_str(0), "0s ago");
}
