use staged::diff::git::Hunk;
use staged::git::diff::{build_ranges, is_binary_content, presence_status, side_lines, Span};

fn lines(v: Vec<&str>) -> Vec<String> {
    v.into_iter().map(String::from).collect()
}

#[test]
fn ranges_carry_one_indexed_source_lines() {
    let hunks = vec![Hunk {
        old_start: 2,
        old_lines: 2,
        new_start: 2,
        new_lines: 3,
    }];
    let ranges = build_ranges(&hunks, 6, 7);

    assert_eq!(ranges.len(), 3);
    assert!(!ranges[0].changed);
    assert_eq!(ranges[0].before, Span { start: 0, end: 2 });
    assert!(ranges[0].source_lines.is_none());

    assert!(ranges[1].changed);
    assert_eq!(ranges[1].before, Span { start: 2, end: 4 });
    assert_eq!(ranges[1].after, Span { start: 2, end: 5 });
    let sl = ranges[1].source_lines.unwrap();
    assert_eq!(sl.old_start, Some(3));
    assert_eq!(sl.old_end, Some(4));
    assert_eq!(sl.new_start, Some(3));
    assert_eq!(sl.new_end, Some(5));

    assert!(!ranges[2].changed);
    assert_eq!(ranges[2].before, Span { start: 4, end: 6 });
    assert_eq!(ranges[2].after, Span { start: 5, end: 7 });
}

#[test]
fn untracked_file_is_one_added_range() {
    // an untracked file: no before side, every line added
    let ranges = build_ranges(&vec![], 0, 3);
    assert_eq!(ranges.len(), 1);
    assert!(ranges[0].changed);
    assert_eq!(ranges[0].before, Span { start: 0, end: 0 });
    assert_eq!(ranges[0].after, Span { start: 0, end: 3 });
    let sl = ranges[0].source_lines.unwrap();
    assert_eq!(sl.old_start, None);
    assert_eq!(sl.old_end, None);
    assert_eq!(sl.new_start, Some(1));
    assert_eq!(sl.new_end, Some(3));
}

#[test]
fn side_lines_label_changed_regions() {
    let hunks = vec![Hunk {
        old_start: 1,
        old_lines: 1,
        new_start: 1,
        new_lines: 2,
    }];
    let before = lines(vec!["a", "B", "c"]);
    let after = lines(vec!["a", "x", "y", "c"]);
    let ranges = build_ranges(&hunks, 3, 4);

    let bl = side_lines(&before, &ranges, true);
    assert_eq!(bl.len(), 3);
    assert_eq!(bl[0].line_type, "context");
    assert_eq!(bl[0].lineno, 1);
    assert_eq!(bl[0].content, "a");
    assert_eq!(bl[1].line_type, "removed");
    assert_eq!(bl[2].line_type, "context");

    let al = side_lines(&after, &ranges, false);
    assert_eq!(al.len(), 4);
    assert_eq!(al[0].line_type, "context");
    assert_eq!(al[1].line_type, "added");
    assert_eq!(al[2].line_type, "added");
    assert_eq!(al[3].line_type, "context");
    assert_eq!(al[3].lineno, 4);
}

#[test]
fn binary_gate_looks_at_first_8k_only() {
    assert!(is_binary_content(&[1, 2, 0, 3]));
    assert!(!is_binary_content(b"plain text"));
    assert!(!is_binary_content(&[]));
    // a NUL past the 8 KiB mark does not count
    let mut bytes = vec![1u8; 8192];
    bytes.push(0);
    assert!(!is_binary_content(&bytes));
    let mut bytes = vec![1u8; 8191];
    bytes.push(0);
    assert!(is_binary_content(&bytes));
}

#[test]
fn presence_status_names_the_change() {
    assert_eq!(presence_status(false, true), "added");
    assert_eq!(presence_status(true, false), "deleted");
    assert_eq!(presence_status(true, true), "modified");
}
