use staged::diff::git::{compute_alignments_from_hunks, compute_file_alignments, normalize_hunk, short_sha, Hunk};
use staged::diff::actions::revert_region_lines;
use staged::diff::types::{Alignment, File, FileContent, Span};

/// Helper to create a File with text content
fn text_file(path: &str, lines: Vec<&str>) -> Option<File> {
    Some(File {
        path: path.into(),
        content: FileContent::Text {
            lines: lines.into_iter().map(String::from).collect(),
        },
    })
}

#[test]
fn test_alignments_from_single_hunk() {
    // Simulates: lines 0-1 unchanged, line 2 changed (1 line -> 1 line), lines 3-4 unchanged
    // Git hunk: @@ -2,1 +2,1 @@ (1-indexed: line 3 in both)
    let hunks = vec![Hunk {
        old_start: 2, // 0-indexed
        old_lines: 1,
        new_start: 2,
        new_lines: 1,
    }];

    let before = text_file("test.txt", vec!["a", "b", "X", "c", "d"]);
    let after = text_file("test.txt", vec!["a", "b", "Y", "c", "d"]);

    let alignments = compute_alignments_from_hunks(&hunks, &before, &after);

    assert_eq!(alignments.len(), 3);

    // Lines 0-1 unchanged
    assert!(!alignments[0].changed);
    assert_eq!(alignments[0].before, Span::new(0, 2));
    assert_eq!(alignments[0].after, Span::new(0, 2));

    // Line 2 changed
    assert!(alignments[1].changed);
    assert_eq!(alignments[1].before, Span::new(2, 3));
    assert_eq!(alignments[1].after, Span::new(2, 3));

    // Lines 3-4 unchanged
    assert!(!alignments[2].changed);
    assert_eq!(alignments[2].before, Span::new(3, 5));
    assert_eq!(alignments[2].after, Span::new(3, 5));
}

#[test]
fn test_alignments_from_hunk_with_different_sizes() {
    // Simulates: 2 lines deleted, 3 lines added
    // Git hunk: @@ -1,2 +1,3 @@ (delete 2 lines at position 1, add 3 lines)
    let hunks = vec![Hunk {
        old_start: 0,
        old_lines: 2,
        new_start: 0,
        new_lines: 3,
    }];

    let before = text_file("test.txt", vec!["old1", "old2", "same"]);
    let after = text_file("test.txt", vec!["new1", "new2", "new3", "same"]);

    let alignments = compute_alignments_from_hunks(&hunks, &before, &after);

    assert_eq!(alignments.len(), 2);

    // Changed region: 2 lines -> 3 lines
    assert!(alignments[0].changed);
    assert_eq!(alignments[0].before, Span::new(0, 2));
    assert_eq!(alignments[0].after, Span::new(0, 3));

    // Unchanged: "same"
    assert!(!alignments[1].changed);
    assert_eq!(alignments[1].before, Span::new(2, 3));
    assert_eq!(alignments[1].after, Span::new(3, 4));
}

#[test]
fn test_alignments_from_multiple_hunks() {
    // Two separate changes with unchanged content between them
    let hunks = vec![
        Hunk {
            old_start: 1,
            old_lines: 1,
            new_start: 1,
            new_lines: 1,
        },
        Hunk {
            old_start: 4,
            old_lines: 1,
            new_start: 4,
            new_lines: 1,
        },
    ];

    let before = text_file("test.txt", vec!["a", "X", "b", "c", "Y", "d"]);
    let after = text_file("test.txt", vec!["a", "X'", "b", "c", "Y'", "d"]);

    let alignments = compute_alignments_from_hunks(&hunks, &before, &after);

    assert_eq!(alignments.len(), 5);

    // Line 0 unchanged
    assert!(!alignments[0].changed);
    assert_eq!(alignments[0].before, Span::new(0, 1));

    // Line 1 changed
    assert!(alignments[1].changed);
    assert_eq!(alignments[1].before, Span::new(1, 2));

    // Lines 2-3 unchanged
    assert!(!alignments[2].changed);
    assert_eq!(alignments[2].before, Span::new(2, 4));

    // Line 4 changed
    assert!(alignments[3].changed);
    assert_eq!(alignments[3].before, Span::new(4, 5));

    // Line 5 unchanged
    assert!(!alignments[4].changed);
    assert_eq!(alignments[4].before, Span::new(5, 6));
}

#[test]
fn test_alignments_added_file() {
    // New file with no hunks (git reports the whole file as added)
    let hunks = vec![];
    let before = None;
    let after = text_file("new.txt", vec!["line1", "line2"]);

    let alignments = compute_alignments_from_hunks(&hunks, &before, &after);

    assert_eq!(alignments.len(), 1);
    assert!(alignments[0].changed);
    assert_eq!(alignments[0].before, Span::new(0, 0));
    assert_eq!(alignments[0].after, Span::new(0, 2));
}

#[test]
fn test_alignments_deleted_file() {
    // Deleted file with no hunks
    let hunks = vec![];
    let before = text_file("old.txt", vec!["line1", "line2"]);
    let after = None;

    let alignments = compute_alignments_from_hunks(&hunks, &before, &after);

    assert_eq!(alignments.len(), 1);
    assert!(alignments[0].changed);
    assert_eq!(alignments[0].before, Span::new(0, 2));
    assert_eq!(alignments[0].after, Span::new(0, 0));
}

#[test]
fn test_alignments_exhaustive_coverage() {
    // Verify alignments cover the entire file with no gaps or overlaps
    let hunks = vec![
        Hunk {
            old_start: 2,
            old_lines: 2,
            new_start: 2,
            new_lines: 3,
        },
        Hunk {
            old_start: 6,
            old_lines: 1,
            new_start: 7,
            new_lines: 2,
        },
    ];

    let before = text_file("test.txt", vec!["0", "1", "2", "3", "4", "5", "6", "7", "8"]);
    let after = text_file(
        "test.txt",
        vec!["0", "1", "a", "b", "c", "4", "5", "x", "y", "7", "8"],
    );

    let alignments = compute_alignments_from_hunks(&hunks, &before, &after);

    // Verify no gaps in before
    let mut expected_before = 0u32;
    for a in &alignments {
        assert_eq!(
            a.before.start, expected_before,
            "Gap in before at {}",
            expected_before
        );
        expected_before = a.before.end;
    }
    assert_eq!(expected_before, 9, "Before not fully covered");

    // Verify no gaps in after
    let mut expected_after = 0u32;
    for a in &alignments {
        assert_eq!(
            a.after.start, expected_after,
            "Gap in after at {}",
            expected_after
        );
        expected_after = a.after.end;
    }
    assert_eq!(expected_after, 11, "After not fully covered");
}

#[test]
fn test_alignments_hunk_at_start() {
    // Change at the very beginning of the file
    let hunks = vec![Hunk {
        old_start: 0,
        old_lines: 1,
        new_start: 0,
        new_lines: 1,
    }];

    let before = text_file("test.txt", vec!["X", "a", "b"]);
    let after = text_file("test.txt", vec!["Y", "a", "b"]);

    let alignments = compute_alignments_from_hunks(&hunks, &before, &after);

    assert_eq!(alignments.len(), 2);

    // First line changed
    assert!(alignments[0].changed);
    assert_eq!(alignments[0].before, Span::new(0, 1));
    assert_eq!(alignments[0].after, Span::new(0, 1));

    // Rest unchanged
    assert!(!alignments[1].changed);
    assert_eq!(alignments[1].before, Span::new(1, 3));
    assert_eq!(alignments[1].after, Span::new(1, 3));
}

#[test]
fn test_alignments_hunk_at_end() {
    // Change at the very end of the file
    let hunks = vec![Hunk {
        old_start: 2,
        old_lines: 1,
        new_start: 2,
        new_lines: 1,
    }];

    let before = text_file("test.txt", vec!["a", "b", "X"]);
    let after = text_file("test.txt", vec!["a", "b", "Y"]);

    let alignments = compute_alignments_from_hunks(&hunks, &before, &after);

    assert_eq!(alignments.len(), 2);

    // First two lines unchanged
    assert!(!alignments[0].changed);
    assert_eq!(alignments[0].before, Span::new(0, 2));

    // Last line changed
    assert!(alignments[1].changed);
    assert_eq!(alignments[1].before, Span::new(2, 3));
}

#[test]
fn both_files_empty_give_no_alignments() {
    let hunks = vec![];
    let alignments = compute_alignments_from_hunks(&hunks, &None, &None);
    assert!(alignments.is_empty());
}

#[test]
fn no_hunks_and_both_sides_present_span_both_files_unchanged() {
    // the defensive fallback for a changed file without hunks
    let hunks = vec![];
    let before = text_file("t", vec!["a", "b"]);
    let after = text_file("t", vec!["a", "b", "c"]);
    let alignments = compute_alignments_from_hunks(&hunks, &before, &after);
    assert_eq!(alignments.len(), 1);
    assert!(!alignments[0].changed);
    assert_eq!(alignments[0].before, Span::new(0, 2));
    assert_eq!(alignments[0].after, Span::new(0, 3));
}

#[test]
fn out_of_order_hunk_is_skipped_and_coverage_kept() {
    // the second hunk starts before the first one ends: a caller contract
    // violation; the assembler must still cover both files exactly
    let hunks = vec![
        Hunk {
            old_start: 2,
            old_lines: 2,
            new_start: 2,
            new_lines: 2,
        },
        Hunk {
            old_start: 1,
            old_lines: 1,
            new_start: 1,
            new_lines: 1,
        },
    ];
    let before = text_file("t", vec!["0", "1", "2", "3", "4"]);
    let after = text_file("t", vec!["0", "1", "x", "y", "4"]);
    let alignments = compute_alignments_from_hunks(&hunks, &before, &after);

    let mut pos = 0u32;
    for a in &alignments {
        assert_eq!(a.before.start, pos);
        pos = a.before.end;
    }
    assert_eq!(pos, 5);
    let mut pos = 0u32;
    for a in &alignments {
        assert_eq!(a.after.start, pos);
        pos = a.after.end;
    }
    assert_eq!(pos, 5);
}

#[test]
fn normalize_hunk_maps_one_indexed_starts_down() {
    let h = normalize_hunk(3, 2, 5, 1);
    assert_eq!(h.old_start, 2);
    assert_eq!(h.old_lines, 2);
    assert_eq!(h.new_start, 4);
    assert_eq!(h.new_lines, 1);
}

#[test]
fn normalize_hunk_keeps_zero_anchor_at_zero() {
    // a 1-indexed start of 0 anchors an empty file and maps to line 0
    let h = normalize_hunk(0, 0, 1, 3);
    assert_eq!(h.old_start, 0);
    assert_eq!(h.old_lines, 0);
    assert_eq!(h.new_start, 0);
    assert_eq!(h.new_lines, 3);
}

#[test]
fn short_sha_takes_first_eight_characters() {
    assert_eq!(short_sha("0123456789abcdef"), "01234567");
    assert_eq!(short_sha("abc"), "abc");
    assert_eq!(short_sha(""), "");
}

#[test]
fn file_alignments_pick_the_right_path() {
    let before: Vec<String> = ["a", "b", "X", "c"].iter().map(|s| s.to_string()).collect();
    let after: Vec<String> = ["a", "b", "Y", "c"].iter().map(|s| s.to_string()).collect();

    // hunk-driven
    let hunks = Some(vec![Hunk {
        old_start: 2,
        old_lines: 1,
        new_start: 2,
        new_lines: 1,
    }]);
    let via_hunks = compute_file_alignments(&before, &after, &hunks);
    assert_eq!(via_hunks.len(), 3);
    assert!(!via_hunks[0].changed);
    assert_eq!(via_hunks[0].before, Span::new(0, 2));
    assert!(via_hunks[1].changed);
    assert_eq!(via_hunks[1].before, Span::new(2, 3));

    // matcher-driven fallback: same shape for this input
    let via_matching = compute_file_alignments(&before, &after, &None);
    assert_eq!(via_matching.len(), 3);
    assert!(!via_matching[0].changed);
    assert_eq!(via_matching[0].before, Span::new(0, 2));
    assert!(via_matching[1].changed);
    assert_eq!(via_matching[1].before, Span::new(2, 3));
    assert!(!via_matching[2].changed);
    assert_eq!(via_matching[2].before, Span::new(3, 4));
}

#[test]
fn revert_region_takes_base_content_for_the_span() {
    let current: Vec<String> = ["a", "x", "y", "d"].iter().map(|s| s.to_string()).collect();
    let base: Vec<String> = ["a", "b", "c", "d"].iter().map(|s| s.to_string()).collect();
    // the changed region: before [1,3) became after [1,3)
    let a = Alignment {
        before: Span::new(1, 3),
        after: Span::new(1, 3),
        changed: true,
    };
    let out = revert_region_lines(&current, &base, &a);
    assert_eq!(out, vec!["a", "b", "c", "d"]);

    // a before span past the base contributes nothing
    let bad = Alignment {
        before: Span::new(2, 9),
        after: Span::new(1, 3),
        changed: true,
    };
    let out = revert_region_lines(&current, &base, &bad);
    assert_eq!(out, vec!["a", "d"]);

    // an after span past the current file is clamped
    let stale = Alignment {
        before: Span::new(0, 1),
        after: Span::new(3, 9),
        changed: true,
    };
    let out = revert_region_lines(&current, &base, &stale);
    assert_eq!(out, vec!["a", "x", "y", "a"]);
}

#[test]
fn hunk_alignments_unchanged_spans_pair_identical_context() {
    // hunks from a real diff cover every differing line; then every
    // alignment tagged unchanged pairs equal-length, verbatim-equal slices
    let before_lines = ["a", "b", "X", "X2", "c", "d"];
    let after_lines = ["a", "b", "Y", "c", "d", "e", "f"];
    let hunks = vec![
        Hunk {
            old_start: 2,
            old_lines: 2,
            new_start: 2,
            new_lines: 1,
        },
        Hunk {
            old_start: 6,
            old_lines: 0,
            new_start: 5,
            new_lines: 2,
        },
    ];
    let before = text_file("t", before_lines.to_vec());
    let after = text_file("t", after_lines.to_vec());
    let alignments = compute_alignments_from_hunks(&hunks, &before, &after);
    for a in &alignments {
        if !a.changed {
            assert_eq!(a.before.end - a.before.start, a.after.end - a.after.start);
            for k in 0..(a.before.end - a.before.start) {
                assert_eq!(
                    before_lines[(a.before.start + k) as usize],
                    after_lines[(a.after.start + k) as usize]
                );
            }
        }
    }
}
