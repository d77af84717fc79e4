use staged::diff::ai_describe::{build_hunk_prompt, extract_field, parse_hunk_description};

#[test]
fn test_extract_field() {
    let response = "BEFORE: old behavior\nAFTER: new behavior";
    assert_eq!(
        extract_field(response, "BEFORE:"),
        Some("old behavior".to_string())
    );
    assert_eq!(
        extract_field(response, "AFTER:"),
        Some("new behavior".to_string())
    );
}

#[test]
fn extract_field_trims_and_searches_lines() {
    let response = "noise\n   BEFORE:   spaced value  \nmore";
    assert_eq!(extract_field(response, "BEFORE:"), Some("spaced value".to_string()));
    assert_eq!(extract_field(response, "AFTER:"), None);
}

#[test]
fn parse_hunk_description_reads_both_fields() {
    let d = parse_hunk_description("  BEFORE: read a file\nAFTER: read two files\n");
    assert_eq!(d.before, "read a file");
    assert_eq!(d.after, "read two files");

    let partial = parse_hunk_description("AFTER: only this");
    assert_eq!(partial.before, "Could not parse before description");
    assert_eq!(partial.after, "only this");
}

#[test]
fn hunk_prompt_carries_path_and_both_sides() {
    let before = vec!["let x = 1;".to_string()];
    let after: Vec<String> = vec![];
    let prompt = build_hunk_prompt("src/lib.rs", &before, &after);
    assert!(prompt.starts_with("Describe this code change concisely."));
    assert!(prompt.contains("File: src/lib.rs"));
    assert!(prompt.contains("Old code:\n```\nlet x = 1;\n```"));
    assert!(prompt.contains("(empty - deleted content)"));

    let prompt2 = build_hunk_prompt("a.rs", &after, &before);
    assert!(prompt2.contains("(empty - new content)"));
    assert!(prompt2.contains("New code:\n```\nlet x = 1;\n```"));
}
