use staged::diff::review::{
    export_markdown, selection_from_parts, selection_to_parts, Comment, Edit, Review, ReviewError,
    Selection,
};
use staged::diff::types::{DiffId, Span};

#[test]
fn test_export_markdown() {
    let id = DiffId::new("main".to_string(), "feature".to_string());
    let mut review = Review::new(id);

    review.comments.push(Comment {
        id: "c1".into(),
        path: "src/lib.rs".into(),
        selection: Selection::Line { line: 10 },
        content: "Fix this".into(),
    });

    review.edits.push(Edit {
        id: "e1".into(),
        path: "src/lib.rs".into(),
        diff: "-old\n+new".into(),
    });

    let md = export_markdown(&review);
    assert!(md.contains("## src/lib.rs"));
    assert!(md.contains("Line 11")); // 0-indexed to 1-indexed
    assert!(md.contains("Fix this"));
    assert!(md.contains("-old"));
}

#[test]
fn export_markdown_exact_output() {
    let id = DiffId::new("main".to_string(), "@".to_string());
    let mut review = Review::new(id);
    review.comments.push(Comment {
        id: "c1".into(),
        path: "b.rs".into(),
        selection: Selection::Global,
        content: "note".into(),
    });
    review.comments.push(Comment {
        id: "c2".into(),
        path: "a.rs".into(),
        selection: Selection::Range {
            span: Span::new(2, 5),
        },
        content: "tighten".into(),
    });
    review.edits.push(Edit {
        id: "e1".into(),
        path: "a.rs".into(),
        diff: "-x\n+y\n".into(),
    });

    // files sorted; ranges shown 1-indexed inclusive; the diff keeps its
    // own trailing newline
    let md = export_markdown(&review);
    assert_eq!(
        md,
        "## a.rs\n\n- **Lines 3-5**: tighten\n\n**Edit applied:**\n```diff\n-x\n+y\n```\n\n\
         ## b.rs\n\n- **File**: note\n\n"
    );
}

#[test]
fn export_markdown_empty_review() {
    let review = Review::new(DiffId::new("a".to_string(), "b".to_string()));
    assert_eq!(export_markdown(&review), "No comments or edits.\n");
}

#[test]
fn export_markdown_supplies_missing_diff_newline() {
    let mut review = Review::new(DiffId::new("a".to_string(), "b".to_string()));
    review.edits.push(Edit {
        id: "e".into(),
        path: "f".into(),
        diff: "-x".into(),
    });
    let md = export_markdown(&review);
    assert!(md.contains("```diff\n-x\n```\n\n"));
}

#[test]
fn comment_and_edit_get_36_character_ids() {
    let c = Comment::new("p".to_string(), Selection::Global, "text".to_string());
    assert_eq!(c.id.chars().count(), 36);
    assert_eq!(c.path, "p");
    assert_eq!(c.content, "text");

    let e = Edit::new("p".to_string(), "-a\n+b".to_string());
    assert_eq!(e.id.chars().count(), 36);
    assert_eq!(e.diff, "-a\n+b");
}

#[test]
fn selection_codec_round_trips() {
    for sel in [
        Selection::Global,
        Selection::Line { line: 42 },
        Selection::Range {
            span: Span::new(1, 9),
        },
    ] {
        let (tag, line, start, end) = selection_to_parts(&sel);
        let back = selection_from_parts(tag, line, start, end);
        assert_eq!(back, sel);
    }
    // an unknown tag falls back to a global selection
    let odd = selection_from_parts("sideways", Some(3), None, None);
    assert_eq!(odd, Selection::Global);
    // missing columns fall back to zero
    let partial = selection_from_parts("range", None, Some(4), None);
    assert_eq!(
        partial,
        Selection::Range {
            span: Span::new(4, 0)
        }
    );
}

#[test]
fn review_error_keeps_message() {
    let e = ReviewError::new("went wrong".to_string());
    assert_eq!(e.0, "went wrong");
}

#[test]
fn new_review_is_empty() {
    let r = Review::new(DiffId::new("x".to_string(), "y".to_string()));
    assert!(r.reviewed.is_empty());
    assert!(r.comments.is_empty());
    assert!(r.edits.is_empty());
}
