use staged::diff::matching::{compute_alignments_from_matches, find_matches, LineMatch};
use staged::diff::types::Span;

fn lines(v: Vec<&str>) -> Vec<String> {
    v.into_iter().map(String::from).collect()
}

#[test]
fn match_finder_leftmost_available_tie_break() {
    let before = lines(vec!["a", "b", "c", "d"]);
    let after = lines(vec!["a", "x", "c", "d"]);
    let matches = find_matches(&before, &after);
    assert_eq!(
        matches,
        vec![
            LineMatch { before_start: 0, after_start: 0, length: 1 },
            LineMatch { before_start: 2, after_start: 2, length: 2 },
        ]
    );
}

#[test]
fn match_finder_claims_first_free_occurrence() {
    // "a" occurs twice on the after side; the first scan claims the first
    // occurrence, the second scan the next free one
    let before = lines(vec!["a", "x", "a"]);
    let after = lines(vec!["a", "a"]);
    let matches = find_matches(&before, &after);
    assert_eq!(
        matches,
        vec![
            LineMatch { before_start: 0, after_start: 0, length: 1 },
            LineMatch { before_start: 2, after_start: 1, length: 1 },
        ]
    );
}

#[test]
fn match_finder_no_shared_lines() {
    let before = lines(vec!["a", "b"]);
    let after = lines(vec!["x", "y"]);
    assert!(find_matches(&before, &after).is_empty());
}

#[test]
fn match_driven_alignments_cover_both_files() {
    let before = lines(vec!["a", "b", "c", "d"]);
    let after = lines(vec!["a", "x", "c", "d"]);
    let matches = find_matches(&before, &after);
    let alignments = compute_alignments_from_matches(&matches, 4, 4);

    // unchanged a / changed b-x / unchanged c,d
    assert_eq!(alignments.len(), 3);
    assert!(!alignments[0].changed);
    assert_eq!(alignments[0].before, Span::new(0, 1));
    assert_eq!(alignments[0].after, Span::new(0, 1));
    assert!(alignments[1].changed);
    assert_eq!(alignments[1].before, Span::new(1, 2));
    assert_eq!(alignments[1].after, Span::new(1, 2));
    assert!(!alignments[2].changed);
    assert_eq!(alignments[2].before, Span::new(2, 4));
    assert_eq!(alignments[2].after, Span::new(2, 4));
}

#[test]
fn match_driven_alignments_empty_files_empty_list() {
    let matches = find_matches(&lines(vec![]), &lines(vec![]));
    assert!(matches.is_empty());
    let alignments = compute_alignments_from_matches(&matches, 0, 0);
    assert!(alignments.is_empty());
}

#[test]
fn match_driven_pure_addition() {
    let matches = find_matches(&lines(vec![]), &lines(vec!["a", "b"]));
    assert!(matches.is_empty());
    let alignments = compute_alignments_from_matches(&matches, 0, 2);
    assert_eq!(alignments.len(), 1);
    assert!(alignments[0].changed);
    assert_eq!(alignments[0].before, Span::new(0, 0));
    assert_eq!(alignments[0].after, Span::new(0, 2));
}

#[test]
fn match_driven_pure_deletion() {
    let matches = find_matches(&lines(vec!["a", "b"]), &lines(vec![]));
    assert!(matches.is_empty());
    let alignments = compute_alignments_from_matches(&matches, 2, 0);
    assert_eq!(alignments.len(), 1);
    assert!(alignments[0].changed);
    assert_eq!(alignments[0].before, Span::new(0, 2));
    assert_eq!(alignments[0].after, Span::new(0, 0));
}

#[test]
fn rerunning_assembler_on_unchanged_spans_reproduces_them() {
    // compute alignments once, feed the unchanged spans back as a match
    // list, and compare the unchanged spans of both runs
    let before = lines(vec!["a", "b", "c", "d", "e"]);
    let after = lines(vec!["a", "x", "y", "c", "d", "z"]);
    let matches = find_matches(&before, &after);
    let first = compute_alignments_from_matches(&matches, 5, 6);

    let unchanged: Vec<LineMatch> = first
        .iter()
        .filter(|a| !a.changed)
        .map(|a| LineMatch {
            before_start: a.before.start,
            after_start: a.after.start,
            length: a.before.end - a.before.start,
        })
        .collect();
    let second = compute_alignments_from_matches(&unchanged, 5, 6);

    let u1: Vec<(Span, Span)> = first
        .iter()
        .filter(|a| !a.changed)
        .map(|a| (a.before, a.after))
        .collect();
    let u2: Vec<(Span, Span)> = second
        .iter()
        .filter(|a| !a.changed)
        .map(|a| (a.before, a.after))
        .collect();
    assert_eq!(u1, u2);
}

#[test]
fn unchanged_alignments_pair_identical_slices() {
    // the unchanged-length invariant, checked on concrete values: every
    // alignment tagged unchanged covers the same number of lines on both
    // sides, and those lines are verbatim equal
    let before = lines(vec!["a", "b", "c", "c", "d"]);
    let after = lines(vec!["x", "a", "c", "c", "y", "d"]);
    let matches = find_matches(&before, &after);
    let alignments = compute_alignments_from_matches(&matches, 5, 6);
    for a in &alignments {
        if !a.changed {
            assert_eq!(a.before.end - a.before.start, a.after.end - a.after.start);
            for k in 0..(a.before.end - a.before.start) {
                assert_eq!(
                    before[(a.before.start + k) as usize],
                    after[(a.after.start + k) as usize]
                );
            }
        }
    }
}
