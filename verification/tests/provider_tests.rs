use staged::git::provider::{parse_porcelain_status, porcelain_char_to_status, AdaptiveProvider};
use staged::git::status::{
    classify_status_entry, status_to_string, STATUS_INDEX_MODIFIED, STATUS_INDEX_NEW,
    STATUS_WT_DELETED, STATUS_WT_MODIFIED, STATUS_WT_NEW,
};

#[test]
fn test_parse_porcelain_status() {
    let output = r#"M  src/modified_staged.rs
 M src/modified_unstaged.rs
MM src/both.rs
A  src/added.rs
 D src/deleted.rs
?? src/untracked.rs
"#;

    let (staged, unstaged, untracked) = parse_porcelain_status(output);

    assert_eq!(staged.len(), 3); // M, MM (index), A
    assert_eq!(unstaged.len(), 3); // M (worktree), MM (worktree), D
    assert_eq!(untracked.len(), 1);

    assert!(staged.iter().any(|f| f.path == "src/modified_staged.rs"));
    assert!(staged.iter().any(|f| f.path == "src/added.rs"));
    assert!(unstaged.iter().any(|f| f.path == "src/modified_unstaged.rs"));
    assert!(untracked.iter().any(|f| f.path == "src/untracked.rs"));
}

#[test]
fn test_porcelain_char_to_status() {
    assert_eq!(porcelain_char_to_status('M'), "modified");
    assert_eq!(porcelain_char_to_status('A'), "added");
    assert_eq!(porcelain_char_to_status('D'), "deleted");
    assert_eq!(porcelain_char_to_status('?'), "unknown");
}

#[test]
fn porcelain_rename_arrow_keeps_new_path() {
    let output = "R  old_name.rs -> new_name.rs\n";
    let (staged, unstaged, untracked) = parse_porcelain_status(output);
    assert_eq!(staged.len(), 1);
    assert_eq!(staged[0].path, "new_name.rs");
    assert_eq!(staged[0].status, "renamed");
    assert!(unstaged.is_empty());
    assert!(untracked.is_empty());
}

#[test]
fn porcelain_short_lines_are_skipped() {
    let (staged, unstaged, untracked) = parse_porcelain_status("M\n\nxy\n");
    assert!(staged.is_empty());
    assert!(unstaged.is_empty());
    assert!(untracked.is_empty());
}

#[test]
fn adaptive_provider_switches_after_slow_fetch() {
    let mut p = AdaptiveProvider::new(500);
    assert!(!p.use_cli);
    p.record_fetch_duration(400);
    assert!(!p.use_cli);
    p.record_fetch_duration(501);
    assert!(p.use_cli);
    // once switched, it stays switched
    p.record_fetch_duration(1);
    assert!(p.use_cli);
    p.reset();
    assert!(!p.use_cli);
    assert_eq!(p.cli_threshold_ms, 500);
}

#[test]
fn adaptive_provider_default_threshold() {
    let p = AdaptiveProvider::default();
    assert_eq!(p.cli_threshold_ms, 500);
    assert!(!p.use_cli);
}

#[test]
fn status_flags_classify_and_label() {
    assert_eq!(status_to_string(STATUS_INDEX_NEW, true), "added");
    assert_eq!(status_to_string(STATUS_INDEX_MODIFIED, true), "modified");
    assert_eq!(status_to_string(STATUS_WT_MODIFIED, false), "modified");
    assert_eq!(status_to_string(STATUS_WT_NEW, false), "untracked");
    assert_eq!(status_to_string(0, true), "unknown");
    assert_eq!(status_to_string(0, false), "unknown");

    // one entry can be staged and unstaged at once
    let (s, u, t) = classify_status_entry(STATUS_INDEX_MODIFIED | STATUS_WT_MODIFIED);
    assert!(s && u && !t);
    let (s, u, t) = classify_status_entry(STATUS_WT_NEW);
    assert!(!s && !u && t);
    let (s, u, t) = classify_status_entry(STATUS_WT_DELETED);
    assert!(!s && u && !t);
}
