//! The hunk-driven alignment path, and the plain data handed back by the
//! repository layer.
//!
//! The repository layer (outside this crate) reports each changed file as a
//! list of hunks with 1-indexed start lines. [`normalize_hunk`] converts one
//! such record to canonical 0-indexed form, and
//! [`compute_alignments_from_hunks`] turns a file's hunk list into the
//! exhaustive alignment list that drives the two diff panes.

use vstd::prelude::*;

use crate::diff::align;
use crate::diff::align::{assemble, assemble_spec, chained, Region};
use crate::diff::matching;
use crate::diff::types::{opt_file_line_count, Alignment, File, FileContent, Span};

verus! {

use vstd::string::StrSliceExecFns;

/// Error type for git operations: the message reported by the repository
/// layer.
#[derive(Debug, Clone)]
pub struct GitError(pub String);

/// The type of a git reference.
#[derive(Debug, Clone, Copy, PartialEq, Eq, Structural)]
pub enum RefType {
    Branch,
    Tag,
    Special,
}

/// A git reference with its type, for the autocomplete UI.
#[derive(Debug, Clone)]
pub struct GitRef {
    pub name: String,
    pub ref_type: RefType,
}

/// Basic repository info needed by the frontend.
#[derive(Debug, Clone)]
pub struct RepoInfo {
    /// Absolute path to the repository root.
    pub repo_path: String,
    /// Current branch name, if on a branch.
    pub branch: Option<String>,
}

/// The short form of a resolved object id: its first eight characters (or
/// all of it, when shorter).
pub fn short_sha(sha: &str) -> (r: String)
    ensures
        r@ == sha@.take(if sha@.len() < 8 {
            sha@.len() as int
        } else {
            8
        }),
{
    let n = sha.unicode_len();
    let cut = if n < 8 {
        n
    } else {
        8
    };
    let r = sha.substring_char(0, cut);
    r.to_owned()
}

/// A hunk reported by the diff engine, in canonical 0-indexed form. `start +
/// lines` gives the exclusive end; the context between hunks is implicitly
/// unchanged.
#[derive(Debug, Clone, Copy)]
pub struct Hunk {
    /// Start line in the old file (0-indexed).
    pub old_start: u32,
    /// Number of lines in the old file.
    pub old_lines: u32,
    /// Start line in the new file (0-indexed).
    pub new_start: u32,
    /// Number of lines in the new file.
    pub new_lines: u32,
}

/// One raw hunk record, as the diff engine reports it: 1-indexed start
/// positions, where a start of 0 anchors an empty region of an empty file.
/// Converts to 0-indexed, mapping the 0 anchor to line 0.
pub fn normalize_hunk(old_start: u32, old_lines: u32, new_start: u32, new_lines: u32) -> (h: Hunk)
    ensures
        h.old_start == (if old_start == 0 {
            0u32
        } else {
            (old_start - 1) as u32
        }),
        h.new_start == (if new_start == 0 {
            0u32
        } else {
            (new_start - 1) as u32
        }),
        h.old_lines == old_lines,
        h.new_lines == new_lines,
{
    Hunk {
        old_start: if old_start == 0 {
            0
        } else {
            old_start - 1
        },
        old_lines,
        new_start: if new_start == 0 {
            0
        } else {
            new_start - 1
        },
        new_lines,
    }
}

/// The region a hunk denotes: a changed area of both files.
pub open spec fn hunk_region(h: Hunk) -> Region {
    Region {
        before_start: h.old_start,
        before_len: h.old_lines,
        after_start: h.new_start,
        after_len: h.new_lines,
    }
}

/// What [`compute_alignments_from_hunks`] returns. Empty files yield an
/// empty list. A file pair without hunks is all added, all deleted, or — a
/// defensive fallback that a working diff engine never produces — covered by
/// one unchanged alignment. Otherwise the assembler walks the hunks, filling
/// the gaps between them with unchanged context.
pub open spec fn alignments_from_hunks_spec(hunks: Seq<Hunk>, blen: int, alen: int) -> Seq<
    Alignment,
> {
    if blen == 0 && alen == 0 {
        Seq::empty()
    } else if hunks.len() == 0 {
        if blen == 0 {
            seq![
                (Alignment {
                    before: Span { start: 0, end: 0 },
                    after: Span { start: 0, end: alen as u32 },
                    changed: true,
                }),
            ]
        } else if alen == 0 {
            seq![
                (Alignment {
                    before: Span { start: 0, end: blen as u32 },
                    after: Span { start: 0, end: 0 },
                    changed: true,
                }),
            ]
        } else {
            seq![
                (Alignment {
                    before: Span { start: 0, end: blen as u32 },
                    after: Span { start: 0, end: alen as u32 },
                    changed: false,
                }),
            ]
        }
    } else {
        assemble_spec(hunks.map_values(|h: Hunk| hunk_region(h)), 0, 0, blen, alen, true)
    }
}

/// Compute the alignments of one file pair from its hunks.
///
/// Hunks define the changed regions; the unchanged regions between them are
/// filled in, so that the result partitions both files exhaustively.
pub fn compute_alignments_from_hunks(
    hunks: &Vec<Hunk>,
    before: &Option<File>,
    after: &Option<File>,
) -> (out: Vec<Alignment>)
    requires
        opt_file_line_count(*before) <= u32::MAX,
        opt_file_line_count(*after) <= u32::MAX,
    ensures
        out@ == alignments_from_hunks_spec(
            hunks@,
            opt_file_line_count(*before) as int,
            opt_file_line_count(*after) as int,
        ),
        chained(
            out@,
            0,
            0,
            opt_file_line_count(*before) as int,
            opt_file_line_count(*after) as int,
        ),
{
    proof {
        lemma_hunk_alignments_chained(
            hunks@,
            opt_file_line_count(*before) as int,
            opt_file_line_count(*after) as int,
        );
    }
    let before_len: u32 = match before {
        Some(f) => match &f.content {
            FileContent::Text { lines } => lines.len() as u32,
            FileContent::Binary => 0,
        },
        None => 0,
    };
    let after_len: u32 = match after {
        Some(f) => match &f.content {
            FileContent::Text { lines } => lines.len() as u32,
            FileContent::Binary => 0,
        },
        None => 0,
    };
    alignments_for_lens(hunks, before_len, after_len)
}

/// Compute the alignments of one file pair from its hunks, given the two
/// line counts.
pub fn alignments_for_lens(hunks: &Vec<Hunk>, before_len: u32, after_len: u32) -> (out: Vec<
    Alignment,
>)
    ensures
        out@ == alignments_from_hunks_spec(hunks@, before_len as int, after_len as int),
{
    if before_len == 0 && after_len == 0 {
        let out: Vec<Alignment> = Vec::new();
        return out;
    }
    if hunks.len() == 0 {
        let mut out: Vec<Alignment> = Vec::new();
        if before_len == 0 {
            // all added
            out.push(
                Alignment {
                    before: Span { start: 0, end: 0 },
                    after: Span { start: 0, end: after_len },
                    changed: true,
                },
            );
        } else if after_len == 0 {
            // all deleted
            out.push(
                Alignment {
                    before: Span { start: 0, end: before_len },
                    after: Span { start: 0, end: 0 },
                    changed: true,
                },
            );
        } else {
            // a changed file without hunks should not arise; cover it whole
            out.push(
                Alignment {
                    before: Span { start: 0, end: before_len },
                    after: Span { start: 0, end: after_len },
                    changed: false,
                },
            );
        }
        proof {
            assert(out@ =~= alignments_from_hunks_spec(
                hunks@,
                before_len as int,
                after_len as int,
            ));
        }
        return out;
    }

    let mut regions: Vec<Region> = Vec::new();
    let mut i: usize = 0;
    while i < hunks.len()
        invariant
            0 <= i <= hunks@.len(),
            regions@.len() == i,
            forall|k: int| 0 <= k < i ==> regions@[k] == hunk_region(#[trigger] hunks@[k]),
        decreases hunks@.len() - i,
    {
        let h = hunks[i];
        regions.push(
            Region {
                before_start: h.old_start,
                before_len: h.old_lines,
                after_start: h.new_start,
                after_len: h.new_lines,
            },
        );
        i = i + 1;
    }
    proof {
        assert(regions@ =~= hunks@.map_values(|h: Hunk| hunk_region(h)));
    }
    assemble(&regions, before_len, after_len, true)
}


/// One file-diff computation, as the callers see it: a pure function from
/// the two line buffers and, when the diff engine reported any, their hunks,
/// to the exhaustive alignment list.
///
/// With hunks, the hunk path runs; without, the content matcher finds the
/// unchanged runs first. Either way the output chains over both files whole;
/// on the matcher path every unchanged alignment moreover pairs
/// verbatim-equal line ranges.
pub fn compute_file_alignments(
    before_lines: &Vec<String>,
    after_lines: &Vec<String>,
    hunks: &Option<Vec<Hunk>>,
) -> (out: Vec<Alignment>)
    requires
        before_lines@.len() <= u32::MAX,
        after_lines@.len() <= u32::MAX,
    ensures
        chained(out@, 0, 0, before_lines@.len() as int, after_lines@.len() as int),
        hunks matches Some(h) ==> out@ == alignments_from_hunks_spec(
            h@,
            before_lines@.len() as int,
            after_lines@.len() as int,
        ),
        hunks is None ==> out@ == matching::alignments_from_matches_spec(
            matching::find_matches_from(
                before_lines.deep_view(),
                after_lines.deep_view(),
                matching::no_used(after_lines@.len()),
                0,
            ),
            before_lines@.len() as int,
            after_lines@.len() as int,
        ),
        hunks is None ==> align::unchanged_spans_equal_len(out@)
            && align::unchanged_spans_lines_match(
            out@,
            before_lines.deep_view(),
            after_lines.deep_view(),
        ),
{
    let before_len = before_lines.len() as u32;
    let after_len = after_lines.len() as u32;
    match hunks {
        Some(h) => {
            proof {
                lemma_hunk_alignments_chained(h@, before_len as int, after_len as int);
            }
            alignments_for_lens(h, before_len, after_len)
        },
        None => {
            let found = matching::find_matches(before_lines, after_lines);
            proof {
                matching::lemma_match_alignments_chained(
                    found@,
                    before_len as int,
                    after_len as int,
                );
                matching::lemma_match_alignments_unchanged(
                    found@,
                    before_lines.deep_view(),
                    after_lines.deep_view(),
                );
            }
            matching::compute_alignments_from_matches(&found, before_len, after_len)
        },
    }
}

/// Exhaustive coverage for the hunk path: whatever the hunks are, the
/// alignment list forms a chain from line 0 to the end of both files — the
/// before spans reconstruct exactly `[0, before_len)` in order, without gap
/// or overlap, and likewise the after spans.
pub proof fn lemma_hunk_alignments_chained(hunks: Seq<Hunk>, blen: int, alen: int)
    requires
        0 <= blen <= u32::MAX,
        0 <= alen <= u32::MAX,
    ensures
        chained(alignments_from_hunks_spec(hunks, blen, alen), 0, 0, blen, alen),
{
    let out = alignments_from_hunks_spec(hunks, blen, alen);
    if blen == 0 && alen == 0 {
    } else if hunks.len() == 0 {
        assert(out.drop_first() =~= Seq::<Alignment>::empty());
        assert(chained(out.drop_first(), blen, alen, blen, alen));
    } else {
        align::lemma_assemble_chained(
            hunks.map_values(|h: Hunk| hunk_region(h)),
            0,
            0,
            blen,
            alen,
            true,
        );
    }
}

/// Both files empty if and only if the alignment list is empty.
pub proof fn lemma_hunk_alignments_empty(hunks: Seq<Hunk>, blen: int, alen: int)
    requires
        0 <= blen <= u32::MAX,
        0 <= alen <= u32::MAX,
    ensures
        alignments_from_hunks_spec(hunks, blen, alen).len() == 0 <==> (blen == 0 && alen == 0),
{
    lemma_hunk_alignments_chained(hunks, blen, alen);
}

/// Hunks are balanced when, walking them in order, each stays in bounds and
/// starts at or after the previous one's end, and the context gap before it
/// — and the trailing gap after the last — has the same size on both sides.
/// A real diff engine's hunks are balanced, because the context between
/// changes is the same text in both files.
pub open spec fn hunks_balanced(hunks: Seq<Hunk>, blen: int, alen: int) -> bool {
    align::regions_balanced(hunks.map_values(|h: Hunk| hunk_region(h)), 0, 0, blen, alen)
}

/// The unchanged-length invariant for the hunk path: when the hunks are
/// balanced (and, with no hunks at all, when the two files have equal line
/// counts, since the fallback then spans both whole files unchanged), every
/// alignment with `changed == false` covers the same number of lines on both
/// sides.
pub proof fn lemma_hunk_alignments_unchanged_lens(hunks: Seq<Hunk>, blen: int, alen: int)
    requires
        0 <= blen <= u32::MAX,
        0 <= alen <= u32::MAX,
        hunks.len() > 0 ==> hunks_balanced(hunks, blen, alen),
        (hunks.len() == 0 && blen > 0 && alen > 0) ==> blen == alen,
    ensures
        align::unchanged_spans_equal_len(alignments_from_hunks_spec(hunks, blen, alen)),
{
    let out = alignments_from_hunks_spec(hunks, blen, alen);
    if blen == 0 && alen == 0 {
    } else if hunks.len() == 0 {
    } else {
        align::lemma_assemble_balanced_unchanged_lens(
            hunks.map_values(|h: Hunk| hunk_region(h)),
            0,
            0,
            blen,
            alen,
        );
    }
}


/// Hunks cover every differing line when the context between them — and the
/// leading and trailing context — is verbatim-identical in the two files.
pub open spec fn hunks_context_matches(
    hunks: Seq<Hunk>,
    blen: int,
    alen: int,
    before_lines: Seq<Seq<char>>,
    after_lines: Seq<Seq<char>>,
) -> bool {
    align::context_lines_match(
        hunks.map_values(|h: Hunk| hunk_region(h)),
        0,
        0,
        blen,
        alen,
        before_lines,
        after_lines,
    )
}

/// The verbatim-correspondence half of the unchanged-spans invariant for the
/// hunk path: when the hunks are balanced and cover every differing line,
/// every alignment with `changed == false` pairs element-wise equal lines.
/// (With no hunks at all the defensive fallback spans both files whole and
/// unchanged, so there the two files themselves must be equal.)
pub proof fn lemma_hunk_alignments_unchanged_content(
    hunks: Seq<Hunk>,
    before_lines: Seq<Seq<char>>,
    after_lines: Seq<Seq<char>>,
)
    requires
        before_lines.len() <= u32::MAX,
        after_lines.len() <= u32::MAX,
        hunks.len() > 0 ==> hunks_balanced(
            hunks,
            before_lines.len() as int,
            after_lines.len() as int,
        ) && hunks_context_matches(
            hunks,
            before_lines.len() as int,
            after_lines.len() as int,
            before_lines,
            after_lines,
        ),
        (hunks.len() == 0 && before_lines.len() > 0 && after_lines.len() > 0) ==> before_lines
            == after_lines,
    ensures
        align::unchanged_spans_lines_match(
            alignments_from_hunks_spec(
                hunks,
                before_lines.len() as int,
                after_lines.len() as int,
            ),
            before_lines,
            after_lines,
        ),
{
    let blen = before_lines.len() as int;
    let alen = after_lines.len() as int;
    let out = alignments_from_hunks_spec(hunks, blen, alen);
    if blen == 0 && alen == 0 {
    } else if hunks.len() == 0 {
        if blen > 0 && alen > 0 {
            let full = out[0];
            assert forall|k: int| 0 <= k < full.before.spec_len() implies
                #[trigger] before_lines[full.before.start + k] == after_lines[full.after.start
                + k] by {
                assert(before_lines[k] == after_lines[k]);
            }
            assert(align::alignment_lines_match(full, before_lines, after_lines));
        }
    } else {
        align::lemma_assemble_balanced_unchanged_content(
            hunks.map_values(|h: Hunk| hunk_region(h)),
            0,
            0,
            blen,
            alen,
            before_lines,
            after_lines,
        );
    }
}

} // verus!
