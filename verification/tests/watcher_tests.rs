use staged::refresh::{calculate_throttle_interval, should_notify_slow, should_throttle};

#[test]
fn watcher_test_should_trigger_refresh() {
    let should_trigger_refresh = staged::diff::watcher::should_trigger_refresh;
    let repo = "/repo";

    // Should trigger
    assert!(should_trigger_refresh("/repo/src/main.rs", repo));
    assert!(should_trigger_refresh("/repo/.git/index", repo));
    assert!(should_trigger_refresh("/repo/.git/HEAD", repo));
    assert!(should_trigger_refresh("/repo/.git/refs/heads/main", repo));

    // Should NOT trigger
    assert!(!should_trigger_refresh("/repo/.git/objects/ab/cdef", repo));
    assert!(!should_trigger_refresh("/repo/node_modules/foo.js", repo));
    assert!(!should_trigger_refresh("/repo/target/debug/foo", repo));
    assert!(!should_trigger_refresh("/repo/foo.pyc", repo));
    assert!(!should_trigger_refresh("/repo/.git/index.lock", repo));
}

#[test]
fn mod_test_should_trigger_refresh() {
    let should_trigger_refresh = staged::watcher::should_trigger_refresh;
    let repo = "/repo";

    // Should trigger
    assert!(should_trigger_refresh("/repo/src/main.rs", repo));
    assert!(should_trigger_refresh("/repo/.git/index", repo));
    assert!(should_trigger_refresh("/repo/.git/HEAD", repo));
    assert!(should_trigger_refresh("/repo/.git/refs/heads/main", repo));
    assert!(should_trigger_refresh("/repo/README.md", repo));

    // Should NOT trigger
    assert!(!should_trigger_refresh("/repo/.git/objects/ab/cdef123", repo));
    assert!(!should_trigger_refresh("/repo/.git/logs/HEAD", repo));
    assert!(!should_trigger_refresh("/repo/node_modules/foo/bar.js", repo));
    assert!(!should_trigger_refresh("/repo/target/debug/build", repo));
    assert!(!should_trigger_refresh("/repo/.git/index.lock", repo));
    assert!(!should_trigger_refresh("/repo/foo.pyc", repo));
}

#[test]
fn paths_outside_the_root_never_trigger() {
    assert!(!staged::watcher::should_trigger_refresh("/other/file.rs", "/repo"));
    assert!(!staged::diff::watcher::should_trigger_refresh("/other/file.rs", "/repo"));
    // the root itself is not filtered out
    assert!(staged::watcher::should_trigger_refresh("/repo", "/repo"));
}

#[test]
fn refresh_policy_values() {
    // at least one second, at least one and a half times the last duration
    assert_eq!(calculate_throttle_interval(0), 1000);
    assert_eq!(calculate_throttle_interval(400), 1000);
    assert_eq!(calculate_throttle_interval(2000), 3000);
    assert_eq!(calculate_throttle_interval(u64::MAX), u64::MAX);

    assert!(should_throttle(999, 0));
    assert!(!should_throttle(1000, 0));
    assert!(should_throttle(2999, 2000));
    assert!(!should_throttle(3000, 2000));

    assert!(should_notify_slow(1001, false));
    assert!(!should_notify_slow(1001, true));
    assert!(!should_notify_slow(1000, false));
}
