//! The fallback content matcher: longest-run matching of identical lines
//! between two texts, used when no authoritative hunk data exists.
//!
//! The algorithm scans the before-side left to right. At each line it takes
//! the first not-yet-claimed occurrence of that line on the after-side
//! (greedy, leftmost-available tie-break — a deliberate simplification that
//! favors stable, deterministic output over minimal edit scripts), extends
//! the match forward while both sides agree and the after positions are
//! still free, claims those positions, and moves on past the matched run.
//!
//! Cost is O(n·k) with an index, O(n²) as written here; inputs are per-file
//! and interactive-scale, so the simple form is the clearer one.

use vstd::prelude::*;

use crate::diff::align;
use crate::diff::align::{assemble, assemble_spec, Region};
use crate::diff::types::Alignment;
use crate::text;

verus! {

/// A maximal run of identical lines: `length` lines of the before text
/// starting at `before_start` equal the lines of the after text starting at
/// `after_start`. Runs found by the matcher never overlap in either
/// coordinate space.
#[derive(Debug, Clone, Copy, PartialEq, Eq, Structural)]
pub struct LineMatch {
    pub before_start: u32,
    pub after_start: u32,
    pub length: u32,
}

/// The region a match denotes: an unchanged area of both files.
pub open spec fn match_region(m: LineMatch) -> Region {
    Region {
        before_start: m.before_start,
        before_len: m.length,
        after_start: m.after_start,
        after_len: m.length,
    }
}

/// The first position at or past `j` on the after-side whose line equals
/// `line` and is not yet claimed; `after.len()` if there is none.
pub open spec fn first_free_occurrence(
    after: Seq<Seq<char>>,
    used: Seq<bool>,
    line: Seq<char>,
    j: int,
) -> int
    decreases after.len() - j,
        when 0 <= j <= after.len() && used.len() == after.len()
{
    if j >= after.len() {
        after.len() as int
    } else if !used[j] && after[j] == line {
        j
    } else {
        first_free_occurrence(after, used, line, j + 1)
    }
}

pub proof fn lemma_first_free_bounds(
    after: Seq<Seq<char>>,
    used: Seq<bool>,
    line: Seq<char>,
    j: int,
)
    requires
        0 <= j <= after.len(),
        used.len() == after.len(),
    ensures
        j <= first_free_occurrence(after, used, line, j) <= after.len(),
        first_free_occurrence(after, used, line, j) < after.len() ==> {
            let f = first_free_occurrence(after, used, line, j);
            !used[f] && after[f] == line
        },
        forall|x: int|
            j <= x < first_free_occurrence(after, used, line, j) ==> used[x] || after[x] != line,
    decreases after.len() - j,
{
    if j >= after.len() {
    } else if !used[j] && after[j] == line {
    } else {
        lemma_first_free_bounds(after, used, line, j + 1);
    }
}

/// Conversely: a position that is free and equal, with none such before it,
/// is the first free occurrence.
pub proof fn lemma_first_free_is(
    after: Seq<Seq<char>>,
    used: Seq<bool>,
    line: Seq<char>,
    j: int,
    f: int,
)
    requires
        0 <= j <= f <= after.len(),
        used.len() == after.len(),
        forall|x: int| j <= x < f ==> used[x] || after[x] != line,
        f < after.len() ==> !used[f] && after[f] == line,
    ensures
        first_free_occurrence(after, used, line, j) == f,
    decreases after.len() - j,
{
    if j >= after.len() {
    } else if !used[j] && after[j] == line {
    } else {
        lemma_first_free_is(after, used, line, j + 1, f);
    }
}

/// How far a match starting at `(i, j)` extends: the number of consecutive
/// positions where both texts agree and the after position is still free.
pub open spec fn run_len(
    before: Seq<Seq<char>>,
    after: Seq<Seq<char>>,
    used: Seq<bool>,
    i: int,
    j: int,
) -> nat
    decreases before.len() - i,
        when 0 <= i
{
    if i < before.len() && 0 <= j < after.len() && j < used.len() && !used[j] && before[i]
        == after[j] {
        1 + run_len(before, after, used, i + 1, j + 1)
    } else {
        0
    }
}

pub proof fn lemma_run_len_props(
    before: Seq<Seq<char>>,
    after: Seq<Seq<char>>,
    used: Seq<bool>,
    i: int,
    j: int,
)
    requires
        0 <= i,
        0 <= j,
        used.len() == after.len(),
    ensures
        i + run_len(before, after, used, i, j) <= before.len() || run_len(
            before,
            after,
            used,
            i,
            j,
        ) == 0,
        run_len(before, after, used, i, j) > 0 ==> i + run_len(before, after, used, i, j)
            <= before.len() && j + run_len(before, after, used, i, j) <= after.len(),
        forall|d: int|
            #![trigger before[i + d]]
            #![trigger used[j + d]]
            0 <= d < run_len(before, after, used, i, j) ==> (before[i + d] == after[j + d] && !used[
                j + d]),
    decreases before.len() - i,
{
    let k = run_len(before, after, used, i, j);
    if i < before.len() && 0 <= j < after.len() && j < used.len() && !used[j] && before[i]
        == after[j] {
        lemma_run_len_props(before, after, used, i + 1, j + 1);
        assert forall|d: int| #![trigger before[i + d]] #![trigger used[j + d]] 0 <= d < k implies
            (before[i + d] == after[j + d] && !used[j + d]) by {
            if d > 0 {
                assert(0 <= d - 1 < run_len(before, after, used, i + 1, j + 1));
                assert(before[i + 1 + (d - 1)] == after[j + 1 + (d - 1)]);
                assert(!used[j + 1 + (d - 1)]);
            }
        }
    }
}

/// The claimed positions after a match is recorded: `[j, j + k)` becomes
/// used.
pub open spec fn mark_used(used: Seq<bool>, j: int, k: int) -> Seq<bool> {
    Seq::new(used.len(), |x: int| if j <= x < j + k {
        true
    } else {
        used[x]
    })
}

/// The whole scan, from before-position `i` with the given claimed set.
pub open spec fn find_matches_from(
    before: Seq<Seq<char>>,
    after: Seq<Seq<char>>,
    used: Seq<bool>,
    i: int,
) -> Seq<LineMatch>
    decreases before.len() - i,
        when 0 <= i && used.len() == after.len()
{
    if i >= before.len() {
        Seq::empty()
    } else {
        let j = first_free_occurrence(after, used, before[i], 0);
        proof {
            lemma_first_free_bounds(after, used, before[i], 0);
        }
        if j >= after.len() {
            find_matches_from(before, after, used, i + 1)
        } else {
            let k = run_len(before, after, used, i, j);
            proof {
                assert(run_len(before, after, used, i, j) == 1 + run_len(
                    before,
                    after,
                    used,
                    i + 1,
                    j + 1,
                ));
                lemma_run_len_props(before, after, used, i, j);
            }
            seq![
                (LineMatch { before_start: i as u32, after_start: j as u32, length: k as u32 }),
            ] + find_matches_from(before, after, mark_used(used, j, k as int), i + k as int)
        }
    }
}

/// A match lies within both texts, covers at least one line, and pairs
/// verbatim-equal lines.
pub open spec fn match_within(m: LineMatch, before: Seq<Seq<char>>, after: Seq<Seq<char>>) -> bool {
    &&& m.length >= 1
    &&& m.before_start + m.length <= before.len()
    &&& m.after_start + m.length <= after.len()
    &&& forall|d: int|
        #![trigger before[m.before_start + d]]
        0 <= d < m.length ==> before[m.before_start + d] == after[m.after_start + d]
}

/// A match claims only after-positions that are free in `used`.
pub open spec fn match_avoids(m: LineMatch, used: Seq<bool>) -> bool {
    forall|d: int| 0 <= d < m.length ==> !(#[trigger] used[m.after_start + d])
}

/// Matches are ordered and disjoint on the before-side, starting at or past
/// `i`.
pub open spec fn matches_ordered(ms: Seq<LineMatch>, i: int) -> bool {
    &&& (ms.len() > 0 ==> i <= ms[0].before_start)
    &&& forall|k: int|
        0 <= k < ms.len() - 1 ==> (#[trigger] ms[k]).before_start + ms[k].length <= ms[k
            + 1].before_start
}

/// Matches are pairwise disjoint on the after-side.
pub open spec fn matches_after_disjoint(ms: Seq<LineMatch>) -> bool {
    forall|k: int, l: int|
        0 <= k < l < ms.len() ==> (#[trigger] ms[k]).after_start + ms[k].length <= (
        #[trigger] ms[l]).after_start || ms[l].after_start + ms[l].length <= ms[k].after_start
}

/// The matcher's output is sound: every match pairs verbatim-equal in-bounds
/// runs that avoid `used`, the matches are ordered and disjoint on the
/// before-side, and pairwise disjoint on the after-side.
#[verifier::rlimit(100)]
pub proof fn lemma_find_matches_props(
    before: Seq<Seq<char>>,
    after: Seq<Seq<char>>,
    used: Seq<bool>,
    i: int,
)
    requires
        0 <= i,
        used.len() == after.len(),
        before.len() <= u32::MAX,
        after.len() <= u32::MAX,
    ensures
        ({
            let ms = find_matches_from(before, after, used, i);
            &&& forall|k: int|
                0 <= k < ms.len() ==> match_within(#[trigger] ms[k], before, after) && match_avoids(
                    ms[k],
                    used,
                )
            &&& matches_ordered(ms, i)
            &&& matches_after_disjoint(ms)
        }),
    decreases before.len() - i,
{
    let ms = find_matches_from(before, after, used, i);
    if i >= before.len() {
    } else {
        let j = first_free_occurrence(after, used, before[i], 0);
        lemma_first_free_bounds(after, used, before[i], 0);
        if j >= after.len() {
            lemma_find_matches_props(before, after, used, i + 1);
        } else {
            let k = run_len(before, after, used, i, j) as int;
            assert(run_len(before, after, used, i, j) == 1 + run_len(
                before,
                after,
                used,
                i + 1,
                j + 1,
            ));
            lemma_run_len_props(before, after, used, i, j);
            let used2 = mark_used(used, j, k);
            let m0 = LineMatch { before_start: i as u32, after_start: j as u32, length: k as u32 };
            let tail = find_matches_from(before, after, used2, i + k);
            lemma_find_matches_props(before, after, used2, i + k);
            assert forall|d: int| #![trigger before[m0.before_start + d]] 0 <= d < m0.length
                implies before[m0.before_start + d] == after[m0.after_start + d] by {
                assert(before[i + d] == after[j + d]);
            }
            assert(match_within(m0, before, after));
            assert forall|d: int| 0 <= d < m0.length implies !(#[trigger] used[m0.after_start
                + d]) by {
                assert(!used[j + d]);
            }
            assert(match_avoids(m0, used));
            assert(ms =~= seq![m0] + tail);
            assert forall|x: int| 0 <= x < ms.len() implies match_within(
                #[trigger] ms[x],
                before,
                after,
            ) && match_avoids(ms[x], used) by {
                if x > 0 {
                    assert(ms[x] == tail[x - 1]);
                    assert(match_avoids(tail[x - 1], used2));
                    assert forall|d: int| 0 <= d < ms[x].length implies !(#[trigger] used[ms[x].after_start
                        + d]) by {
                        assert(!used2[ms[x].after_start + d]);
                    }
                }
            }
            assert forall|x: int| 0 <= x < ms.len() - 1 implies (#[trigger] ms[x]).before_start
                + ms[x].length <= ms[x + 1].before_start by {
                if x == 0 {
                    assert(ms[1] == tail[0]);
                } else {
                    assert(ms[x] == tail[x - 1]);
                    assert(ms[x + 1] == tail[x]);
                }
            }
            assert forall|x: int, y: int| 0 <= x < y < ms.len() implies (
            #[trigger] ms[x]).after_start + ms[x].length <= (#[trigger] ms[y]).after_start
                || ms[y].after_start + ms[y].length <= ms[x].after_start by {
                if x == 0 {
                    // the tail's matches avoid the marked range [j, j + k)
                    assert(ms[y] == tail[y - 1]);
                    assert(match_avoids(tail[y - 1], used2));
                    assert(match_within(tail[y - 1], before, after));
                    if !(ms[y].after_start >= j + k || ms[y].after_start + ms[y].length <= j) {
                        // some claimed position of ms[y] falls inside [j, j + k)
                        let p = if ms[y].after_start >= j {
                            0int
                        } else {
                            j - ms[y].after_start
                        };
                        assert(0 <= p < ms[y].length);
                        assert(j <= ms[y].after_start + p < j + k);
                        assert(used2[ms[y].after_start + p]);
                        assert(!used2[ms[y].after_start + p]);
                    }
                } else {
                    assert(ms[x] == tail[x - 1]);
                    assert(ms[y] == tail[y - 1]);
                }
            }
        }
    }
}

/// The claimed set at the start of a scan: nothing claimed yet.
pub open spec fn no_used(n: nat) -> Seq<bool> {
    Seq::new(n, |x: int| false)
}

/// Compute the matching runs between two line sequences, scanning the
/// before-side left to right and claiming, for each line, the first free
/// occurrence on the after-side.
pub fn find_matches(before: &Vec<String>, after: &Vec<String>) -> (out: Vec<LineMatch>)
    requires
        before@.len() <= u32::MAX,
        after@.len() <= u32::MAX,
    ensures
        out@ == find_matches_from(before.deep_view(), after.deep_view(), no_used(after@.len()), 0),
        forall|k: int|
            0 <= k < out@.len() ==> match_within(
                #[trigger] out@[k],
                before.deep_view(),
                after.deep_view(),
            ),
        matches_ordered(out@, 0),
        matches_after_disjoint(out@),
{
    let ghost bv = before.deep_view();
    let ghost av = after.deep_view();
    let blen = before.len();
    let alen = after.len();
    let mut used: Vec<bool> = vec![false; alen];
    let mut out: Vec<LineMatch> = Vec::new();
    let mut i: usize = 0;
    proof {
        assert(used@ =~= no_used(av.len()));
        assert(out@ + find_matches_from(bv, av, used@, 0) =~= find_matches_from(bv, av, used@, 0));
    }
    while i < blen
        invariant
            bv == before.deep_view(),
            av == after.deep_view(),
            blen == bv.len(),
            alen == av.len(),
            used@.len() == av.len(),
            blen <= u32::MAX,
            alen <= u32::MAX,
            0 <= i <= blen,
            find_matches_from(bv, av, no_used(av.len()), 0) == out@ + find_matches_from(
                bv,
                av,
                used@,
                i as int,
            ),
        decreases blen - i,
    {
        let ghost pre_out = out@;
        let ghost used0 = used@;
        // find the first free occurrence of the current line on the after-side
        let mut j: usize = 0;
        while j < alen
            invariant
                bv == before.deep_view(),
                av == after.deep_view(),
                blen == bv.len(),
                alen == av.len(),
                used@ == used0,
                used@.len() == av.len(),
                i < blen,
                0 <= j <= alen,
                forall|x: int| 0 <= x < j ==> used0[x] || av[x] != bv[i as int],
            ensures
                0 <= j <= alen,
                j < alen ==> !used0[j as int] && av[j as int] == bv[i as int],
                forall|x: int| 0 <= x < j ==> used0[x] || av[x] != bv[i as int],
            decreases alen - j,
        {
            if !used[j] && text::str_eq(before[i].as_str(), after[j].as_str()) {
                break ;
            }
            j = j + 1;
        }
        proof {
            lemma_first_free_is(av, used0, bv[i as int], 0, j as int);
        }
        if j < alen {
            // extend the match while both sides agree and the after
            // position is still free, claiming each position as it is used
            let mut len: usize = 0;
            while i + len < blen && j + len < alen && !used[j + len] && text::str_eq(
                before[i + len].as_str(),
                after[j + len].as_str(),
            )
                invariant
                    bv == before.deep_view(),
                    av == after.deep_view(),
                    blen == bv.len(),
                    alen == av.len(),
                    used@.len() == av.len(),
                    used0.len() == av.len(),
                    0 <= i < blen,
                    0 <= j < alen,
                    i + len <= blen,
                    j + len <= alen,
                    used@ == mark_used(used0, j as int, len as int),
                    run_len(bv, av, used0, i as int, j as int) == len + run_len(
                        bv,
                        av,
                        used0,
                        i + len,
                        j + len,
                    ),
                decreases blen - (i + len),
            {
                proof {
                    assert(used@[j + len] == used0[j + len]);
                    assert(run_len(bv, av, used0, i + len, j + len) == 1 + run_len(
                        bv,
                        av,
                        used0,
                        i + len + 1,
                        j + len + 1,
                    ));
                }
                used[j + len] = true;
                proof {
                    assert(used@ =~= mark_used(used0, j as int, len as int + 1));
                }
                len = len + 1;
            }
            proof {
                assert(used@[j + len] == used0[j + len] || i + len >= blen || j + len >= alen);
                assert(run_len(bv, av, used0, i + len, j + len) == 0);
                assert(run_len(bv, av, used0, i as int, j as int) == len);
            }
            let m = LineMatch { before_start: i as u32, after_start: j as u32, length: len as u32 };
            out.push(m);
            proof {
                let rest = find_matches_from(bv, av, used@, i + len);
                assert(find_matches_from(bv, av, used0, i as int) =~= seq![m] + rest);
                assert(out@ =~= pre_out + seq![m]);
                assert(pre_out + (seq![m] + rest) =~= (pre_out + seq![m]) + rest);
            }
            i = i + len;
        } else {
            proof {
                assert(find_matches_from(bv, av, used0, i as int) == find_matches_from(
                    bv,
                    av,
                    used0,
                    i + 1,
                ));
            }
            i = i + 1;
        }
    }
    proof {
        assert(find_matches_from(bv, av, used@, blen as int) =~= Seq::<LineMatch>::empty());
        assert(out@ =~= find_matches_from(bv, av, no_used(av.len()), 0));
        lemma_find_matches_props(bv, av, no_used(av.len()), 0);
    }
    out
}

/// The match-driven alignment list for one file pair: matched runs become
/// unchanged alignments, and the uncovered area between them is, by
/// elimination, changed.
pub open spec fn alignments_from_matches_spec(
    matches: Seq<LineMatch>,
    blen: int,
    alen: int,
) -> Seq<Alignment> {
    assemble_spec(matches.map_values(|m: LineMatch| match_region(m)), 0, 0, blen, alen, false)
}

/// Compute the alignments of one file pair from its matched runs.
///
/// No degenerate cases arise on this path: with no matches at all the
/// assembler emits one changed alignment spanning whatever is non-empty,
/// which is a pure addition, a pure deletion, or a full rewrite.
pub fn compute_alignments_from_matches(
    matches: &Vec<LineMatch>,
    before_len: u32,
    after_len: u32,
) -> (out: Vec<Alignment>)
    ensures
        out@ == alignments_from_matches_spec(matches@, before_len as int, after_len as int),
        align::chained(out@, 0, 0, before_len as int, after_len as int),
        align::unchanged_spans_equal_len(out@),
{
    proof {
        lemma_match_alignments_chained(matches@, before_len as int, after_len as int);
        let regions = match_regions(matches@);
        assert(forall|j: int|
            0 <= j < regions.len() ==> (#[trigger] regions[j]).before_len == regions[j].after_len);
        align::lemma_assemble_unchanged_lens(regions, 0, 0, before_len as int, after_len as int);
    }
    let mut regions: Vec<Region> = Vec::new();
    let mut i: usize = 0;
    while i < matches.len()
        invariant
            0 <= i <= matches@.len(),
            regions@.len() == i,
            forall|k: int| 0 <= k < i ==> regions@[k] == match_region(#[trigger] matches@[k]),
        decreases matches@.len() - i,
    {
        let m = matches[i];
        regions.push(
            Region {
                before_start: m.before_start,
                before_len: m.length,
                after_start: m.after_start,
                after_len: m.length,
            },
        );
        i = i + 1;
    }
    proof {
        assert(regions@ =~= matches@.map_values(|m: LineMatch| match_region(m)));
    }
    assemble(&regions, before_len, after_len, false)
}

/// The regions a match list denotes.
pub open spec fn match_regions(matches: Seq<LineMatch>) -> Seq<Region> {
    matches.map_values(|m: LineMatch| match_region(m))
}

/// Exhaustive coverage for the match path: whatever the matches are, the
/// alignment list forms a chain from line 0 to the end of both files.
pub proof fn lemma_match_alignments_chained(matches: Seq<LineMatch>, blen: int, alen: int)
    requires
        0 <= blen <= u32::MAX,
        0 <= alen <= u32::MAX,
    ensures
        align::chained(alignments_from_matches_spec(matches, blen, alen), 0, 0, blen, alen),
{
    align::lemma_assemble_chained(match_regions(matches), 0, 0, blen, alen, false);
}

/// The unchanged-length and verbatim-correspondence invariant for the match
/// path: when every match pairs verbatim-equal in-bounds runs — as
/// [`find_matches`] guarantees of its own output — every alignment tagged
/// unchanged covers the same number of lines on both sides, and those lines
/// are element-wise equal.
pub proof fn lemma_match_alignments_unchanged(
    matches: Seq<LineMatch>,
    before_lines: Seq<Seq<char>>,
    after_lines: Seq<Seq<char>>,
)
    requires
        before_lines.len() <= u32::MAX,
        after_lines.len() <= u32::MAX,
        forall|k: int|
            0 <= k < matches.len() ==> match_within(#[trigger] matches[k], before_lines, after_lines),
    ensures
        align::unchanged_spans_equal_len(
            alignments_from_matches_spec(
                matches,
                before_lines.len() as int,
                after_lines.len() as int,
            ),
        ),
        align::unchanged_spans_lines_match(
            alignments_from_matches_spec(
                matches,
                before_lines.len() as int,
                after_lines.len() as int,
            ),
            before_lines,
            after_lines,
        ),
{
    let blen = before_lines.len() as int;
    let alen = after_lines.len() as int;
    let regions = match_regions(matches);
    assert forall|j: int| 0 <= j < regions.len() implies align::region_lines_match(
        #[trigger] regions[j],
        before_lines,
        after_lines,
    ) by {
        assert(match_within(matches[j], before_lines, after_lines));
        assert(regions[j] == match_region(matches[j]));
    }
    assert(forall|j: int|
        0 <= j < regions.len() ==> (#[trigger] regions[j]).before_len == regions[j].after_len);
    align::lemma_assemble_unchanged_lens(regions, 0, 0, blen, alen);
    align::lemma_assemble_unchanged_content(regions, 0, 0, blen, alen, before_lines, after_lines);
}

/// Emptiness for the match path: with matches that cover at least one line
/// each — as the matcher's always do — the alignment list is empty exactly
/// when both files are.
pub proof fn lemma_match_alignments_empty(matches: Seq<LineMatch>, blen: int, alen: int)
    requires
        0 <= blen <= u32::MAX,
        0 <= alen <= u32::MAX,
        forall|k: int| 0 <= k < matches.len() ==> (#[trigger] matches[k]).length >= 1,
    ensures
        alignments_from_matches_spec(matches, blen, alen).len() == 0 <==> (blen == 0 && alen == 0),
{
    lemma_match_alignments_chained(matches, blen, alen);
    if blen == 0 && alen == 0 {
        lemma_match_alignments_empty_rec(matches, blen, alen);
    }
}

proof fn lemma_match_alignments_empty_rec(matches: Seq<LineMatch>, blen: int, alen: int)
    requires
        blen == 0,
        alen == 0,
        forall|k: int| 0 <= k < matches.len() ==> (#[trigger] matches[k]).length >= 1,
    ensures
        assemble_spec(match_regions(matches), 0, 0, blen, alen, false).len() == 0,
    decreases matches.len(),
{
    let regions = match_regions(matches);
    if matches.len() > 0 {
        let r = regions.first();
        assert(r == match_region(matches[0]));
        assert(!align::region_fits(r, 0, 0, blen, alen));
        assert(regions.drop_first() =~= match_regions(matches.drop_first()));
        lemma_match_alignments_empty_rec(matches.drop_first(), blen, alen);
    }
}

} // verus!
