//! Diff data shaped for a two-pane, side-by-side viewer: full content for
//! both sides, range mappings for scroll synchronization, and line-level
//! change classification.
//!
//! The ranges come from the same alignment assembler that drives the rest of
//! the engine; the changed ranges additionally carry 1-indexed source line
//! numbers, for display and for jumping to the source.

use vstd::prelude::*;

use crate::diff::git::{alignments_from_hunks_spec, Hunk};
use crate::diff::types::{Alignment, FileContent};

verus! {

use vstd::string::{StrSliceExecFns, StringExecFns};

/// A single line in a diff pane.
#[derive(Debug, Clone)]
pub struct DiffLine {
    /// "context", "added", or "removed".
    pub line_type: String,
    /// 1-indexed line number in the source file.
    pub lineno: u32,
    /// Line content (without trailing newline).
    pub content: String,
}

/// Half-open interval [start, end) of row indices.
#[derive(Debug, Clone, Copy, PartialEq, Eq, Structural)]
pub struct Span {
    pub start: usize,
    pub end: usize,
}

/// Source file line numbers for a changed region: 1-indexed, inclusive.
/// `None` on the old side for a pure addition, on the new side for a pure
/// deletion.
#[derive(Debug, Clone, Copy, PartialEq, Eq, Structural)]
pub struct SourceLines {
    pub old_start: Option<u32>,
    pub old_end: Option<u32>,
    pub new_start: Option<u32>,
    pub new_end: Option<u32>,
}

/// Maps corresponding regions between the before and after panes.
#[derive(Debug, Clone, Copy, PartialEq, Eq, Structural)]
pub struct Range {
    pub before: Span,
    pub after: Span,
    /// True when the region contains changes; false for identical lines.
    pub changed: bool,
    /// Source line numbers, present only for changed ranges.
    pub source_lines: Option<SourceLines>,
}

/// Content for one side of the diff.
#[derive(Debug, Clone)]
pub struct DiffSide {
    pub path: Option<String>,
    pub lines: Vec<DiffLine>,
}

/// Complete diff for a file, ready for side-by-side display.
#[derive(Debug, Clone)]
pub struct FileDiff {
    pub status: String,
    pub is_binary: bool,
    pub before: DiffSide,
    pub after: DiffSide,
    /// Range mappings for scroll sync and visual connectors.
    pub ranges: Vec<Range>,
}

/// Check if bytes appear to be binary content: a NUL byte within the first
/// 8 KiB — the same gate [`FileContent::is_binary_data`] applies.
pub fn is_binary_content(bytes: &[u8]) -> (r: bool)
    ensures
        r == crate::diff::types::spec_is_binary(bytes@),
{
    FileContent::is_binary_data(bytes)
}

/// The status of a file pair, by which sides are present. Absent on both
/// sides is the caller's error and must not reach this point.
pub fn presence_status(before_present: bool, after_present: bool) -> (r: &'static str)
    requires
        before_present || after_present,
    ensures
        !before_present ==> r@ == "added"@,
        !after_present ==> r@ == "deleted"@,
        before_present && after_present ==> r@ == "modified"@,
{
    if !before_present {
        "added"
    } else if !after_present {
        "deleted"
    } else {
        "modified"
    }
}

/// The 1-indexed inclusive source lines of a changed alignment; an empty
/// side carries none.
pub open spec fn source_lines_of(a: Alignment) -> SourceLines {
    SourceLines {
        old_start: if a.before.start < a.before.end {
            Option::Some((a.before.start + 1) as u32)
        } else {
            Option::None
        },
        old_end: if a.before.start < a.before.end {
            Option::Some(a.before.end)
        } else {
            Option::None
        },
        new_start: if a.after.start < a.after.end {
            Option::Some((a.after.start + 1) as u32)
        } else {
            Option::None
        },
        new_end: if a.after.start < a.after.end {
            Option::Some(a.after.end)
        } else {
            Option::None
        },
    }
}

/// An alignment rendered as a pane range: same spans, with source line
/// numbers attached to changed ranges.
pub open spec fn range_of_alignment(a: Alignment) -> Range {
    Range {
        before: Span { start: a.before.start as usize, end: a.before.end as usize },
        after: Span { start: a.after.start as usize, end: a.after.end as usize },
        changed: a.changed,
        source_lines: if a.changed {
            Option::Some(source_lines_of(a))
        } else {
            Option::None
        },
    }
}

/// Build the pane ranges of one file pair from its hunks: the alignment list
/// of the hunk path, each alignment as a range, changed ranges carrying
/// their 1-indexed source lines.
pub fn build_ranges(hunks: &Vec<Hunk>, before_len: u32, after_len: u32) -> (out: Vec<Range>)
    ensures
        out@.len() == alignments_from_hunks_spec(
            hunks@,
            before_len as int,
            after_len as int,
        ).len(),
        forall|k: int|
            0 <= k < out@.len() ==> out@[k] == range_of_alignment(
                #[trigger] alignments_from_hunks_spec(hunks@, before_len as int, after_len as int)[k],
            ),
{
    let ghost aligns = alignments_from_hunks_spec(hunks@, before_len as int, after_len as int);
    let alignments = crate::diff::git::alignments_for_lens(hunks, before_len, after_len);

    let mut out: Vec<Range> = Vec::new();
    let mut j: usize = 0;
    while j < alignments.len()
        invariant
            alignments@ == aligns,
            0 <= j <= aligns.len(),
            out@.len() == j,
            forall|k: int| 0 <= k < j ==> out@[k] == range_of_alignment(#[trigger] aligns[k]),
        decreases aligns.len() - j,
    {
        let a = alignments[j];
        let source_lines: Option<SourceLines> = if a.changed {
            Some(
                SourceLines {
                    old_start: if a.before.start < a.before.end {
                        Some(a.before.start + 1)
                    } else {
                        None
                    },
                    old_end: if a.before.start < a.before.end {
                        Some(a.before.end)
                    } else {
                        None
                    },
                    new_start: if a.after.start < a.after.end {
                        Some(a.after.start + 1)
                    } else {
                        None
                    },
                    new_end: if a.after.start < a.after.end {
                        Some(a.after.end)
                    } else {
                        None
                    },
                },
            )
        } else {
            None
        };
        out.push(
            Range {
                before: Span { start: a.before.start as usize, end: a.before.end as usize },
                after: Span { start: a.after.start as usize, end: a.after.end as usize },
                changed: a.changed,
                source_lines,
            },
        );
        j = j + 1;
    }
    out
}

/// Whether line `i` of one side falls inside a changed range (the before
/// side when `before_side`, else the after side).
pub open spec fn in_changed_range(ranges: Seq<Range>, i: int, before_side: bool) -> bool {
    exists|k: int|
        0 <= k < ranges.len() && (#[trigger] ranges[k]).changed && (if before_side {
            ranges[k].before.start <= i < ranges[k].before.end
        } else {
            ranges[k].after.start <= i < ranges[k].after.end
        })
}

/// The label of line `i` on one side: "removed" or "added" inside a changed
/// range, "context" elsewhere.
pub open spec fn line_type_of(ranges: Seq<Range>, i: int, before_side: bool) -> Seq<char> {
    if in_changed_range(ranges, i, before_side) {
        if before_side {
            "removed"@
        } else {
            "added"@
        }
    } else {
        "context"@
    }
}

/// Render one side's lines for the pane: 1-indexed line numbers, each line
/// labeled by the ranges it falls in.
pub fn side_lines(lines: &Vec<String>, ranges: &Vec<Range>, before_side: bool) -> (out: Vec<
    DiffLine,
>)
    requires
        lines@.len() < u32::MAX,
    ensures
        out@.len() == lines@.len(),
        forall|k: int|
            0 <= k < out@.len() ==> {
                &&& (#[trigger] out@[k]).lineno == k + 1
                &&& out@[k].content@ == lines@[k]@
                &&& out@[k].line_type@ == line_type_of(ranges@, k, before_side)
            },
{
    let mut out: Vec<DiffLine> = Vec::new();
    let mut i: usize = 0;
    while i < lines.len()
        invariant
            lines@.len() < u32::MAX,
            0 <= i <= lines@.len(),
            out@.len() == i,
            forall|k: int|
                0 <= k < i ==> {
                    &&& (#[trigger] out@[k]).lineno == k + 1
                    &&& out@[k].content@ == lines@[k]@
                    &&& out@[k].line_type@ == line_type_of(ranges@, k, before_side)
                },
        decreases lines@.len() - i,
    {
        // does line i fall inside a changed range on this side?
        let mut hit = false;
        let mut r: usize = 0;
        while r < ranges.len()
            invariant
                0 <= r <= ranges@.len(),
                hit == exists|k: int|
                    0 <= k < r && (#[trigger] ranges@[k]).changed && (if before_side {
                        ranges@[k].before.start <= (i as int) && (i as int)
                            < ranges@[k].before.end
                    } else {
                        ranges@[k].after.start <= (i as int) && (i as int) < ranges@[k].after.end
                    }),
            decreases ranges@.len() - r,
        {
            let rg = &ranges[r];
            let inside = if before_side {
                rg.changed && rg.before.start <= i && i < rg.before.end
            } else {
                rg.changed && rg.after.start <= i && i < rg.after.end
            };
            if inside {
                hit = true;
            }
            r = r + 1;
        }
        let label: &str = if hit {
            if before_side {
                "removed"
            } else {
                "added"
            }
        } else {
            "context"
        };
        proof {
            assert(hit == in_changed_range(ranges@, i as int, before_side));
        }
        out.push(
            DiffLine {
                line_type: String::from_str(label),
                lineno: (i + 1) as u32,
                content: lines[i].clone(),
            },
        );
        i = i + 1;
    }
    out
}

} // verus!
