use staged::diff::types::{ChangeKind, DiffId, File, FileContent, FileDiff, Span};
use staged::text;

#[test]
fn test_diff_id_working_tree() {
    let working = DiffId::new("HEAD".to_string(), "@".to_string());
    assert!(working.is_working_tree());

    let historical = DiffId::new("main".to_string(), "feature".to_string());
    assert!(!historical.is_working_tree());
}

#[test]
fn test_change_kind() {
    let added = FileDiff {
        before: None,
        after: Some(File {
            path: "new.txt".into(),
            content: FileContent::Text { lines: vec![] },
        }),
        alignments: vec![],
    };
    assert_eq!(added.change_kind(), ChangeKind::Added);

    let deleted = FileDiff {
        before: Some(File {
            path: "old.txt".into(),
            content: FileContent::Text { lines: vec![] },
        }),
        after: None,
        alignments: vec![],
    };
    assert_eq!(deleted.change_kind(), ChangeKind::Deleted);

    let modified = FileDiff {
        before: Some(File {
            path: "changed.txt".into(),
            content: FileContent::Text { lines: vec![] },
        }),
        after: Some(File {
            path: "changed.txt".into(),
            content: FileContent::Text { lines: vec![] },
        }),
        alignments: vec![],
    };
    assert_eq!(modified.change_kind(), ChangeKind::Modified);
}

#[test]
fn test_binary_detection() {
    assert!(FileContent::is_binary_data(&[0x00, 0x01, 0x02]));
    assert!(!FileContent::is_binary_data(b"hello world"));
}

#[test]
fn test_is_rename() {
    let rename = FileDiff {
        before: Some(File {
            path: "old_name.txt".into(),
            content: FileContent::Text { lines: vec![] },
        }),
        after: Some(File {
            path: "new_name.txt".into(),
            content: FileContent::Text { lines: vec![] },
        }),
        alignments: vec![],
    };
    assert!(rename.is_rename());

    let not_rename = FileDiff {
        before: Some(File {
            path: "same.txt".into(),
            content: FileContent::Text { lines: vec![] },
        }),
        after: Some(File {
            path: "same.txt".into(),
            content: FileContent::Text { lines: vec![] },
        }),
        alignments: vec![],
    };
    assert!(!not_rename.is_rename());
}

#[test]
fn from_text_splits_lines_like_std() {
    let c = FileContent::from_text("a\nb\r\nc\n");
    assert_eq!(c.lines(), vec!["a".to_string(), "b".to_string(), "c".to_string()]);

    let empty = FileContent::from_text("");
    assert!(empty.lines().is_empty());

    // a bare carriage return stays part of its line
    let bare_cr = FileContent::from_text("a\rb");
    assert_eq!(bare_cr.lines(), vec!["a\rb".to_string()]);

    // text ending without a newline keeps its last line
    let no_trailing = FileContent::from_text("a\nb");
    assert_eq!(no_trailing.lines(), vec!["a".to_string(), "b".to_string()]);

    // a lone newline is one empty line
    let lone = FileContent::from_text("\n");
    assert_eq!(lone.lines(), vec!["".to_string()]);
}

#[test]
fn binary_content_has_no_lines() {
    let b = FileContent::Binary;
    assert!(b.lines().is_empty());
}

#[test]
fn primary_path_prefers_after() {
    let d = FileDiff {
        before: Some(File {
            path: "old.txt".into(),
            content: FileContent::Binary,
        }),
        after: Some(File {
            path: "new.txt".into(),
            content: FileContent::Binary,
        }),
        alignments: vec![],
    };
    assert_eq!(d.path(), "new.txt");

    let deleted = FileDiff {
        before: Some(File {
            path: "old.txt".into(),
            content: FileContent::Binary,
        }),
        after: None,
        alignments: vec![],
    };
    assert_eq!(deleted.path(), "old.txt");

    let neither = FileDiff {
        before: None,
        after: None,
        alignments: vec![],
    };
    assert_eq!(neither.path(), "");
}

#[test]
fn binary_flag_set_when_either_side_is_binary() {
    let d = FileDiff {
        before: Some(File {
            path: "a".into(),
            content: FileContent::Binary,
        }),
        after: Some(File {
            path: "a".into(),
            content: FileContent::Text { lines: vec![] },
        }),
        alignments: vec![],
    };
    assert!(d.is_binary());

    let t = FileDiff {
        before: None,
        after: Some(File {
            path: "a".into(),
            content: FileContent::Text { lines: vec![] },
        }),
        alignments: vec![],
    };
    assert!(!t.is_binary());
}

#[test]
fn span_len_saturates() {
    assert_eq!(Span::new(2, 5).len(), 3);
    assert_eq!(Span::new(5, 2).len(), 0);
    assert!(Span::new(4, 4).is_empty());
    assert!(!Span::new(4, 6).is_empty());
}

#[test]
fn binary_sniff_stops_after_first_8k() {
    // a NUL past the 8 KiB mark does not count
    let mut bytes = vec![1u8; 8192];
    bytes.push(0);
    assert!(!FileContent::is_binary_data(&bytes));
    let mut bytes = vec![1u8; 8191];
    bytes.push(0);
    assert!(FileContent::is_binary_data(&bytes));
}

#[test]
fn decimal_rendering_is_exact() {
    assert_eq!(text::u64_to_string(0), "0");
    assert_eq!(text::u64_to_string(7), "7");
    assert_eq!(text::u64_to_string(1234567890), "1234567890");
    assert_eq!(text::u64_to_string(u64::MAX), "18446744073709551615");
}

#[test]
fn string_helpers_behave_like_std() {
    assert!(text::str_eq("abc", "abc"));
    assert!(!text::str_eq("abc", "abd"));
    assert!(text::starts_with("abcdef", "abc"));
    assert!(!text::starts_with("ab", "abc"));
    assert!(text::ends_with("abcdef", "def"));
    assert!(!text::ends_with("abcdef", "deg"));
    assert!(text::contains_sub("abcdef", "cde"));
    assert!(!text::contains_sub("abcdef", "ce"));
    assert!(text::str_lt("abc", "abd"));
    assert!(text::str_lt("ab", "abc"));
    assert!(!text::str_lt("abc", "abc"));
    assert_eq!(text::trim("  a b \t"), "a b");
    assert_eq!(text::trim("   "), "");
    assert_eq!(text::join_nl(&vec!["a".to_string(), "b".to_string()]), "a\nb");
}
