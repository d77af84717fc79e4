//! The alignment assembler: the single source of truth for turning an
//! ordered list of paired regions into an exhaustive `Alignment` list.
//!
//! Two kinds of input drive it. A hunk reported by the diff engine denotes a
//! *changed* region, and the gaps between hunks are unchanged context; a
//! match found by the fallback content matcher denotes an *unchanged* region,
//! and the gaps between matches are, by elimination, changed. The two are
//! structurally dual, so one assembler serves both, parameterized by
//! `regions_changed`.
//!
//! A region that does not fit where the cursors stand (out of order, or
//! reaching past the end of a buffer) is a caller contract violation; the
//! assembler skips it rather than emit an alignment that would break the
//! exhaustive-coverage invariant.

use vstd::prelude::*;

use crate::diff::types::{Alignment, Span};

verus! {

/// One input region for the assembler: a pairing of a range of before-lines
/// with a range of after-lines, in the coordinates of the two buffers.
#[derive(Debug, Clone, Copy)]
pub struct Region {
    pub before_start: u32,
    pub before_len: u32,
    pub after_start: u32,
    pub after_len: u32,
}

/// A region fits if it starts at or after both cursors and ends within both
/// buffers.
pub open spec fn region_fits(r: Region, bpos: int, apos: int, blen: int, alen: int) -> bool {
    &&& bpos <= r.before_start as int
    &&& r.before_start + r.before_len <= blen
    &&& apos <= r.after_start as int
    &&& r.after_start + r.after_len <= alen
}

/// What the assembler produces, walking the regions in order from cursor
/// position `(bpos, apos)` toward `(blen, alen)`: a filler alignment for any
/// gap before a region, the region itself, and one trailing filler for
/// whatever is left after the last region. Regions that do not fit are
/// skipped.
pub open spec fn assemble_spec(
    regions: Seq<Region>,
    bpos: int,
    apos: int,
    blen: int,
    alen: int,
    regions_changed: bool,
) -> Seq<Alignment>
    decreases regions.len(),
{
    if regions.len() == 0 {
        if bpos < blen || apos < alen {
            seq![
                (Alignment {
                    before: Span { start: bpos as u32, end: blen as u32 },
                    after: Span { start: apos as u32, end: alen as u32 },
                    changed: !regions_changed,
                }),
            ]
        } else {
            Seq::empty()
        }
    } else {
        let r = regions.first();
        let rest = regions.drop_first();
        if !region_fits(r, bpos, apos, blen, alen) {
            assemble_spec(rest, bpos, apos, blen, alen, regions_changed)
        } else {
            let gap: Seq<Alignment> = if bpos < r.before_start as int || apos
                < r.after_start as int {
                seq![
                    (Alignment {
                        before: Span { start: bpos as u32, end: r.before_start },
                        after: Span { start: apos as u32, end: r.after_start },
                        changed: !regions_changed,
                    }),
                ]
            } else {
                Seq::empty()
            };
            let body = Alignment {
                before: Span {
                    start: r.before_start,
                    end: (r.before_start + r.before_len) as u32,
                },
                after: Span { start: r.after_start, end: (r.after_start + r.after_len) as u32 },
                changed: regions_changed,
            };
            gap + seq![body] + assemble_spec(
                rest,
                r.before_start + r.before_len,
                r.after_start + r.after_len,
                blen,
                alen,
                regions_changed,
            )
        }
    }
}

/// The exhaustive-coverage invariant, stated as a chain: the first alignment
/// starts at the cursors, each alignment starts where the previous one ended
/// on both sides, and the last one ends at the buffer lengths. An empty chain
/// is allowed only when the cursors already stand at the ends.
pub open spec fn chained(
    aligns: Seq<Alignment>,
    bpos: int,
    apos: int,
    blen: int,
    alen: int,
) -> bool
    decreases aligns.len(),
{
    if aligns.len() == 0 {
        bpos == blen && apos == alen
    } else {
        let a = aligns.first();
        &&& a.before.start == bpos
        &&& a.after.start == apos
        &&& bpos <= a.before.end as int <= blen
        &&& apos <= a.after.end as int <= alen
        &&& chained(aligns.drop_first(), a.before.end as int, a.after.end as int, blen, alen)
    }
}

/// The assembler's output always forms a chain from the cursors to the
/// buffer ends, whatever the regions are.
pub proof fn lemma_assemble_chained(
    regions: Seq<Region>,
    bpos: int,
    apos: int,
    blen: int,
    alen: int,
    regions_changed: bool,
)
    requires
        0 <= bpos <= blen <= u32::MAX,
        0 <= apos <= alen <= u32::MAX,
    ensures
        chained(assemble_spec(regions, bpos, apos, blen, alen, regions_changed), bpos, apos, blen, alen),
    decreases regions.len(),
{
    let out = assemble_spec(regions, bpos, apos, blen, alen, regions_changed);
    if regions.len() == 0 {
        if bpos < blen || apos < alen {
            assert(out.drop_first() =~= Seq::<Alignment>::empty());
            assert(chained(out.drop_first(), blen, alen, blen, alen));
        }
    } else {
        let r = regions.first();
        let rest = regions.drop_first();
        if !region_fits(r, bpos, apos, blen, alen) {
            lemma_assemble_chained(rest, bpos, apos, blen, alen, regions_changed);
        } else {
            let bend = r.before_start + r.before_len;
            let aend = r.after_start + r.after_len;
            lemma_assemble_chained(rest, bend, aend, blen, alen, regions_changed);
            let tail = assemble_spec(rest, bend, aend, blen, alen, regions_changed);
            let body = Alignment {
                before: Span { start: r.before_start, end: bend as u32 },
                after: Span { start: r.after_start, end: aend as u32 },
                changed: regions_changed,
            };
            let sb = seq![body] + tail;
            assert(sb.first() == body);
            assert(sb.drop_first() =~= tail);
            assert(chained(sb, r.before_start as int, r.after_start as int, blen, alen));
            if bpos < r.before_start as int || apos < r.after_start as int {
                let gap = Alignment {
                    before: Span { start: bpos as u32, end: r.before_start },
                    after: Span { start: apos as u32, end: r.after_start },
                    changed: !regions_changed,
                };
                assert(out =~= seq![gap, body] + tail);
                assert(out.first() == gap);
                assert(out.drop_first() =~= sb);
                assert(chained(out.drop_first(), r.before_start as int, r.after_start as int, blen, alen));
            } else {
                assert(out =~= sb);
            }
        }
    }
}

/// Exhaustive coverage, spelled out flat: in a chain from `(bpos, apos)` to
/// `(blen, alen)`, every span is well formed, the first alignment starts at
/// the start cursors, consecutive alignments meet exactly (no gap, no
/// overlap, on either side), and the last alignment ends at the buffer
/// lengths — so concatenating the before spans in order reconstructs
/// exactly `[bpos, blen)`, and likewise for the after spans.
pub proof fn lemma_chained_coverage(
    aligns: Seq<Alignment>,
    bpos: int,
    apos: int,
    blen: int,
    alen: int,
)
    requires
        chained(aligns, bpos, apos, blen, alen),
    ensures
        aligns.len() == 0 ==> bpos == blen && apos == alen,
        aligns.len() > 0 ==> aligns[0].before.start == bpos && aligns[0].after.start == apos,
        aligns.len() > 0 ==> aligns[aligns.len() - 1].before.end == blen && aligns[aligns.len()
            - 1].after.end == alen,
        forall|i: int|
            0 <= i < aligns.len() ==> (#[trigger] aligns[i]).before.wf() && aligns[i].after.wf(),
        forall|i: int|
            0 <= i < aligns.len() - 1 ==> (#[trigger] aligns[i]).before.end == aligns[i
                + 1].before.start && aligns[i].after.end == aligns[i + 1].after.start,
    decreases aligns.len(),
{
    if aligns.len() > 0 {
        let a = aligns.first();
        let rest = aligns.drop_first();
        lemma_chained_coverage(rest, a.before.end as int, a.after.end as int, blen, alen);
        assert forall|i: int| 0 <= i < aligns.len() implies (#[trigger] aligns[i]).before.wf()
            && aligns[i].after.wf() by {
            if i > 0 {
                assert(aligns[i] == rest[i - 1]);
            }
        }
        assert forall|i: int| 0 <= i < aligns.len() - 1 implies (#[trigger] aligns[i]).before.end
            == aligns[i + 1].before.start && aligns[i].after.end == aligns[i + 1].after.start by {
            if i == 0 {
                if rest.len() > 0 {
                    assert(aligns[1] == rest[0]);
                }
            } else {
                assert(aligns[i] == rest[i - 1]);
                assert(aligns[i + 1] == rest[i]);
            }
        }
        if rest.len() > 0 {
            assert(aligns[aligns.len() - 1] == rest[rest.len() - 1]);
        }
    }
}

/// Every alignment tagged unchanged has before and after spans of equal
/// length.
pub open spec fn unchanged_spans_equal_len(aligns: Seq<Alignment>) -> bool {
    forall|i: int|
        0 <= i < aligns.len() && !(#[trigger] aligns[i]).changed ==> aligns[i].before.spec_len()
            == aligns[i].after.spec_len()
}

/// When the assembler is driven by matched (unchanged) regions whose two
/// sides have equal length, every alignment it emits with `changed == false`
/// has a before span and an after span of the same length.
pub proof fn lemma_assemble_unchanged_lens(
    regions: Seq<Region>,
    bpos: int,
    apos: int,
    blen: int,
    alen: int,
)
    requires
        0 <= bpos <= blen <= u32::MAX,
        0 <= apos <= alen <= u32::MAX,
        forall|j: int|
            0 <= j < regions.len() ==> (#[trigger] regions[j]).before_len == regions[j].after_len,
    ensures
        unchanged_spans_equal_len(assemble_spec(regions, bpos, apos, blen, alen, false)),
    decreases regions.len(),
{
    let out = assemble_spec(regions, bpos, apos, blen, alen, false);
    if regions.len() == 0 {
    } else {
        let r = regions.first();
        let rest = regions.drop_first();
        assert(forall|j: int|
            0 <= j < rest.len() ==> (#[trigger] rest[j]).before_len == rest[j].after_len);
        if !region_fits(r, bpos, apos, blen, alen) {
            lemma_assemble_unchanged_lens(rest, bpos, apos, blen, alen);
        } else {
            let bend = r.before_start + r.before_len;
            let aend = r.after_start + r.after_len;
            lemma_assemble_unchanged_lens(rest, bend, aend, blen, alen);
            let tail = assemble_spec(rest, bend, aend, blen, alen, false);
            let body = Alignment {
                before: Span { start: r.before_start, end: bend as u32 },
                after: Span { start: r.after_start, end: aend as u32 },
                changed: false,
            };
            assert forall|i: int| 0 <= i < out.len() && !(#[trigger] out[i]).changed implies
                out[i].before.spec_len() == out[i].after.spec_len() by {
                let gap_n: int = if bpos < r.before_start as int || apos
                    < r.after_start as int {
                    1
                } else {
                    0
                };
                if i == gap_n {
                    assert(out[i] == body);
                } else if i >= gap_n + 1 {
                    assert(out[i] == tail[i - gap_n - 1]);
                }
            }
        }
    }
}

/// When the assembler is driven by matched regions whose lines are verbatim
/// equal in the two buffers, every alignment it emits with `changed ==
/// false` pairs line ranges with element-wise equal content.
pub open spec fn region_lines_match(
    r: Region,
    before_lines: Seq<Seq<char>>,
    after_lines: Seq<Seq<char>>,
) -> bool {
    &&& r.before_len == r.after_len
    &&& r.before_start + r.before_len <= before_lines.len()
    &&& r.after_start + r.after_len <= after_lines.len()
    &&& forall|k: int|
        0 <= k < r.before_len ==> #[trigger] before_lines[r.before_start + k]
            == after_lines[r.after_start + k]
}

/// An alignment pairs verbatim-equal line ranges of the two buffers.
pub open spec fn alignment_lines_match(
    a: Alignment,
    before_lines: Seq<Seq<char>>,
    after_lines: Seq<Seq<char>>,
) -> bool {
    &&& a.before.spec_len() == a.after.spec_len()
    &&& a.before.end <= before_lines.len()
    &&& a.after.end <= after_lines.len()
    &&& forall|k: int|
        0 <= k < a.before.spec_len() ==> #[trigger] before_lines[a.before.start + k]
            == after_lines[a.after.start + k]
}

/// Every alignment tagged unchanged pairs verbatim-equal line ranges.
pub open spec fn unchanged_spans_lines_match(
    aligns: Seq<Alignment>,
    before_lines: Seq<Seq<char>>,
    after_lines: Seq<Seq<char>>,
) -> bool {
    forall|i: int|
        0 <= i < aligns.len() && !(#[trigger] aligns[i]).changed ==> alignment_lines_match(
            aligns[i],
            before_lines,
            after_lines,
        )
}

pub proof fn lemma_assemble_unchanged_content(
    regions: Seq<Region>,
    bpos: int,
    apos: int,
    blen: int,
    alen: int,
    before_lines: Seq<Seq<char>>,
    after_lines: Seq<Seq<char>>,
)
    requires
        0 <= bpos <= blen <= u32::MAX,
        0 <= apos <= alen <= u32::MAX,
        blen <= before_lines.len(),
        alen <= after_lines.len(),
        forall|j: int|
            0 <= j < regions.len() ==> region_lines_match(
                #[trigger] regions[j],
                before_lines,
                after_lines,
            ),
    ensures
        unchanged_spans_lines_match(
            assemble_spec(regions, bpos, apos, blen, alen, false),
            before_lines,
            after_lines,
        ),
    decreases regions.len(),
{
    let out = assemble_spec(regions, bpos, apos, blen, alen, false);
    if regions.len() == 0 {
    } else {
        let r = regions.first();
        let rest = regions.drop_first();
        assert(forall|j: int|
            0 <= j < rest.len() ==> region_lines_match(
                #[trigger] rest[j],
                before_lines,
                after_lines,
            ));
        if !region_fits(r, bpos, apos, blen, alen) {
            lemma_assemble_unchanged_content(
                rest,
                bpos,
                apos,
                blen,
                alen,
                before_lines,
                after_lines,
            );
        } else {
            let bend = r.before_start + r.before_len;
            let aend = r.after_start + r.after_len;
            lemma_assemble_unchanged_content(
                rest,
                bend,
                aend,
                blen,
                alen,
                before_lines,
                after_lines,
            );
            let tail = assemble_spec(rest, bend, aend, blen, alen, false);
            let body = Alignment {
                before: Span { start: r.before_start, end: bend as u32 },
                after: Span { start: r.after_start, end: aend as u32 },
                changed: false,
            };
            assert(region_lines_match(r, before_lines, after_lines));
            assert(alignment_lines_match(body, before_lines, after_lines));
            assert forall|i: int| 0 <= i < out.len() && !(#[trigger] out[i]).changed implies
                alignment_lines_match(out[i], before_lines, after_lines) by {
                let gap_n: int = if bpos < r.before_start as int || apos
                    < r.after_start as int {
                    1
                } else {
                    0
                };
                if i == gap_n {
                    assert(out[i] == body);
                } else if i >= gap_n + 1 {
                    assert(out[i] == tail[i - gap_n - 1]);
                }
            }
        }
    }
}

/// Regions are balanced when, walking them from the cursors, each region
/// fits, the gap before it has the same size on both sides, and so does the
/// trailing gap after the last region. Hunks reported by a real diff engine
/// are balanced: the context between changes is the same text on both sides.
pub open spec fn regions_balanced(
    regions: Seq<Region>,
    bpos: int,
    apos: int,
    blen: int,
    alen: int,
) -> bool
    decreases regions.len(),
{
    if regions.len() == 0 {
        blen - bpos == alen - apos
    } else {
        let r = regions.first();
        &&& region_fits(r, bpos, apos, blen, alen)
        &&& r.before_start - bpos == r.after_start - apos
        &&& regions_balanced(
            regions.drop_first(),
            r.before_start + r.before_len,
            r.after_start + r.after_len,
            blen,
            alen,
        )
    }
}

/// When the assembler is driven by balanced changed regions (hunks), every
/// filler it emits — and a filler is the only alignment with `changed ==
/// false` on this path — has a before span and an after span of the same
/// length.
pub proof fn lemma_assemble_balanced_unchanged_lens(
    regions: Seq<Region>,
    bpos: int,
    apos: int,
    blen: int,
    alen: int,
)
    requires
        0 <= bpos <= blen <= u32::MAX,
        0 <= apos <= alen <= u32::MAX,
        regions_balanced(regions, bpos, apos, blen, alen),
    ensures
        unchanged_spans_equal_len(assemble_spec(regions, bpos, apos, blen, alen, true)),
    decreases regions.len(),
{
    let out = assemble_spec(regions, bpos, apos, blen, alen, true);
    if regions.len() == 0 {
    } else {
        let r = regions.first();
        let rest = regions.drop_first();
        let bend = r.before_start + r.before_len;
        let aend = r.after_start + r.after_len;
        lemma_assemble_balanced_unchanged_lens(rest, bend, aend, blen, alen);
        let tail = assemble_spec(rest, bend, aend, blen, alen, true);
        assert forall|i: int| 0 <= i < out.len() && !(#[trigger] out[i]).changed implies
            out[i].before.spec_len() == out[i].after.spec_len() by {
            let gap_n: int = if bpos < r.before_start as int || apos < r.after_start as int {
                1
            } else {
                0
            };
            if i >= gap_n + 1 {
                assert(out[i] == tail[i - gap_n - 1]);
            }
        }
    }
}

/// Build the alignment list for one file pair.
///
/// `regions` are processed in ascending position order; `before_len` and
/// `after_len` are the total line counts of the two buffers. When
/// `regions_changed` is true the regions are changed areas (hunks) and the
/// fillers are unchanged context; when it is false the regions are matched
/// runs and the fillers are changed areas.
pub fn assemble(regions: &Vec<Region>, before_len: u32, after_len: u32, regions_changed: bool) -> (
    out: Vec<Alignment>)
    ensures
        out@ == assemble_spec(regions@, 0, 0, before_len as int, after_len as int, regions_changed),
{
    let ghost blen = before_len as int;
    let ghost alen = after_len as int;
    let mut out: Vec<Alignment> = Vec::new();
    let mut bpos: u32 = 0;
    let mut apos: u32 = 0;
    let mut i: usize = 0;
    proof {
        assert(regions@.skip(0) =~= regions@);
        assert(out@ + assemble_spec(regions@, 0, 0, blen, alen, regions_changed) =~= assemble_spec(
            regions@,
            0,
            0,
            blen,
            alen,
            regions_changed,
        ));
    }
    while i < regions.len()
        invariant
            0 <= i <= regions@.len(),
            blen == before_len as int,
            alen == after_len as int,
            bpos <= before_len,
            apos <= after_len,
            assemble_spec(regions@, 0, 0, blen, alen, regions_changed) == out@ + assemble_spec(
                regions@.skip(i as int),
                bpos as int,
                apos as int,
                blen,
                alen,
                regions_changed,
            ),
        decreases regions@.len() - i,
    {
        let r = regions[i];
        let ghost rem = regions@.skip(i as int);
        let ghost pre_out = out@;
        let ghost pre_b = bpos as int;
        let ghost pre_a = apos as int;
        proof {
            assert(rem.len() > 0);
            assert(rem.first() == regions@[i as int]);
            assert(rem.drop_first() =~= regions@.skip(i as int + 1));
        }
        let fits = r.before_start >= bpos && (r.before_start as u64 + r.before_len as u64)
            <= before_len as u64 && r.after_start >= apos && (r.after_start as u64
            + r.after_len as u64) <= after_len as u64;
        proof {
            assert(fits == region_fits(r, pre_b, pre_a, blen, alen));
        }
        if fits {
            if bpos < r.before_start || apos < r.after_start {
                out.push(
                    Alignment {
                        before: Span { start: bpos, end: r.before_start },
                        after: Span { start: apos, end: r.after_start },
                        changed: !regions_changed,
                    },
                );
            }
            let bend = r.before_start + r.before_len;
            let aend = r.after_start + r.after_len;
            out.push(
                Alignment {
                    before: Span { start: r.before_start, end: bend },
                    after: Span { start: r.after_start, end: aend },
                    changed: regions_changed,
                },
            );
            bpos = bend;
            apos = aend;
            proof {
                let tail = assemble_spec(
                    regions@.skip(i as int + 1),
                    bend as int,
                    aend as int,
                    blen,
                    alen,
                    regions_changed,
                );
                let body = Alignment {
                    before: Span { start: r.before_start, end: bend },
                    after: Span { start: r.after_start, end: aend },
                    changed: regions_changed,
                };
                if pre_b < r.before_start as int || pre_a < r.after_start as int {
                    let gap = Alignment {
                        before: Span { start: pre_b as u32, end: r.before_start },
                        after: Span { start: pre_a as u32, end: r.after_start },
                        changed: !regions_changed,
                    };
                    assert(assemble_spec(rem, pre_b, pre_a, blen, alen, regions_changed) =~= seq![
                        gap,
                        body,
                    ] + tail);
                    assert(out@ =~= pre_out + seq![gap, body]);
                    assert(pre_out + (seq![gap, body] + tail) =~= (pre_out + seq![gap, body])
                        + tail);
                } else {
                    assert(assemble_spec(rem, pre_b, pre_a, blen, alen, regions_changed) =~= seq![
                        body,
                    ] + tail);
                    assert(out@ =~= pre_out + seq![body]);
                    assert(pre_out + (seq![body] + tail) =~= (pre_out + seq![body]) + tail);
                }
            }
        }
        i = i + 1;
    }
    proof {
        assert(regions@.skip(regions@.len() as int) =~= Seq::<Region>::empty());
    }
    if bpos < before_len || apos < after_len {
        out.push(
            Alignment {
                before: Span { start: bpos, end: before_len },
                after: Span { start: apos, end: after_len },
                changed: !regions_changed,
            },
        );
    }
    out
}

/// The context around balanced changed regions is verbatim-identical in the
/// two buffers: the gap before each region, and the trailing gap after the
/// last, pair element-wise equal lines. (With balanced regions the two sides
/// of each gap have the same size, so the before-side size measures both.)
pub open spec fn context_lines_match(
    regions: Seq<Region>,
    bpos: int,
    apos: int,
    blen: int,
    alen: int,
    before_lines: Seq<Seq<char>>,
    after_lines: Seq<Seq<char>>,
) -> bool
    decreases regions.len(),
{
    if regions.len() == 0 {
        forall|k: int|
            0 <= k < blen - bpos ==> #[trigger] before_lines[bpos + k] == after_lines[apos + k]
    } else {
        let r = regions.first();
        &&& (forall|k: int|
            0 <= k < r.before_start - bpos ==> #[trigger] before_lines[bpos + k]
                == after_lines[apos + k])
        &&& context_lines_match(
            regions.drop_first(),
            r.before_start + r.before_len,
            r.after_start + r.after_len,
            blen,
            alen,
            before_lines,
            after_lines,
        )
    }
}

/// When the assembler is driven by balanced changed regions (hunks) that
/// cover every differing line — the context around them is verbatim
/// identical — every filler it emits with `changed == false` pairs line
/// ranges with element-wise equal content.
pub proof fn lemma_assemble_balanced_unchanged_content(
    regions: Seq<Region>,
    bpos: int,
    apos: int,
    blen: int,
    alen: int,
    before_lines: Seq<Seq<char>>,
    after_lines: Seq<Seq<char>>,
)
    requires
        0 <= bpos <= blen <= u32::MAX,
        0 <= apos <= alen <= u32::MAX,
        blen <= before_lines.len(),
        alen <= after_lines.len(),
        regions_balanced(regions, bpos, apos, blen, alen),
        context_lines_match(regions, bpos, apos, blen, alen, before_lines, after_lines),
    ensures
        unchanged_spans_lines_match(
            assemble_spec(regions, bpos, apos, blen, alen, true),
            before_lines,
            after_lines,
        ),
    decreases regions.len(),
{
    let out = assemble_spec(regions, bpos, apos, blen, alen, true);
    if regions.len() == 0 {
        if bpos < blen || apos < alen {
            let filler = Alignment {
                before: Span { start: bpos as u32, end: blen as u32 },
                after: Span { start: apos as u32, end: alen as u32 },
                changed: false,
            };
            assert forall|k: int| 0 <= k < filler.before.spec_len() implies
                #[trigger] before_lines[filler.before.start + k] == after_lines[filler.after.start
                + k] by {
                assert(before_lines[bpos + k] == after_lines[apos + k]);
            }
            assert(alignment_lines_match(filler, before_lines, after_lines));
            assert forall|i: int| 0 <= i < out.len() && !(#[trigger] out[i]).changed implies
                alignment_lines_match(out[i], before_lines, after_lines) by {
                assert(out[i] == filler);
            }
        }
    } else {
        let r = regions.first();
        let rest = regions.drop_first();
        let bend = r.before_start + r.before_len;
        let aend = r.after_start + r.after_len;
        lemma_assemble_balanced_unchanged_content(
            rest,
            bend,
            aend,
            blen,
            alen,
            before_lines,
            after_lines,
        );
        let tail = assemble_spec(rest, bend, aend, blen, alen, true);
        assert forall|i: int| 0 <= i < out.len() && !(#[trigger] out[i]).changed implies
            alignment_lines_match(out[i], before_lines, after_lines) by {
            let gap_n: int = if bpos < r.before_start as int || apos < r.after_start as int {
                1
            } else {
                0
            };
            if i == 0 && gap_n == 1 {
                let gap = Alignment {
                    before: Span { start: bpos as u32, end: r.before_start },
                    after: Span { start: apos as u32, end: r.after_start },
                    changed: false,
                };
                assert(out[i] == gap);
                assert forall|k: int| 0 <= k < gap.before.spec_len() implies
                    #[trigger] before_lines[gap.before.start + k] == after_lines[gap.after.start
                    + k] by {
                    assert(before_lines[bpos + k] == after_lines[apos + k]);
                }
                assert(alignment_lines_match(gap, before_lines, after_lines));
            } else if i >= gap_n + 1 {
                assert(out[i] == tail[i - gap_n - 1]);
            }
        }
    }
}

/// The subsequence of alignments tagged unchanged, in order.
pub open spec fn unchanged_of(aligns: Seq<Alignment>) -> Seq<Alignment>
    decreases aligns.len(),
{
    if aligns.len() == 0 {
        Seq::empty()
    } else if !aligns.first().changed {
        seq![aligns.first()] + unchanged_of(aligns.drop_first())
    } else {
        unchanged_of(aligns.drop_first())
    }
}

/// An alignment read back as an input region for the assembler.
pub open spec fn alignment_region(a: Alignment) -> Region {
    Region {
        before_start: a.before.start,
        before_len: a.before.spec_len(),
        after_start: a.after.start,
        after_len: a.after.spec_len(),
    }
}

/// A list of alignments read back as assembler input regions.
pub open spec fn alignment_regions(aligns: Seq<Alignment>) -> Seq<Region> {
    aligns.map_values(|a: Alignment| alignment_region(a))
}

/// A list of unchanged alignments that stands at or past the cursors, stays
/// within the buffers, and never goes backward.
pub open spec fn unchanged_sorted_from(
    aligns: Seq<Alignment>,
    bpos: int,
    apos: int,
    blen: int,
    alen: int,
) -> bool
    decreases aligns.len(),
{
    if aligns.len() == 0 {
        true
    } else {
        let a = aligns.first();
        &&& !a.changed
        &&& bpos <= a.before.start
        &&& a.before.start <= a.before.end <= blen
        &&& apos <= a.after.start
        &&& a.after.start <= a.after.end <= alen
        &&& unchanged_sorted_from(
            aligns.drop_first(),
            a.before.end as int,
            a.after.end as int,
            blen,
            alen,
        )
    }
}

pub proof fn lemma_unchanged_sorted_monotone(
    aligns: Seq<Alignment>,
    b1: int,
    a1: int,
    b2: int,
    a2: int,
    blen: int,
    alen: int,
)
    requires
        b1 <= b2,
        a1 <= a2,
        unchanged_sorted_from(aligns, b2, a2, blen, alen),
    ensures
        unchanged_sorted_from(aligns, b1, a1, blen, alen),
    decreases aligns.len(),
{
    if aligns.len() > 0 {
    }
}

/// The unchanged alignments of a chain are sorted from the chain's start.
pub proof fn lemma_unchanged_of_sorted(
    aligns: Seq<Alignment>,
    bpos: int,
    apos: int,
    blen: int,
    alen: int,
)
    requires
        chained(aligns, bpos, apos, blen, alen),
    ensures
        unchanged_sorted_from(unchanged_of(aligns), bpos, apos, blen, alen),
    decreases aligns.len(),
{
    if aligns.len() > 0 {
        let a = aligns.first();
        let rest = aligns.drop_first();
        lemma_unchanged_of_sorted(rest, a.before.end as int, a.after.end as int, blen, alen);
        if !a.changed {
            let u = unchanged_of(aligns);
            assert(u.first() == a);
            assert(u.drop_first() =~= unchanged_of(rest));
        } else {
            lemma_unchanged_sorted_monotone(
                unchanged_of(rest),
                bpos,
                apos,
                a.before.end as int,
                a.after.end as int,
                blen,
                alen,
            );
        }
    }
}

/// Re-assembling a sorted list of unchanged alignments (taken as matched
/// regions) reproduces exactly those alignments as the unchanged part of the
/// output; everything else the assembler adds is filler tagged changed.
pub proof fn lemma_assemble_unchanged_of(
    aligns: Seq<Alignment>,
    bpos: int,
    apos: int,
    blen: int,
    alen: int,
)
    requires
        0 <= bpos <= blen <= u32::MAX,
        0 <= apos <= alen <= u32::MAX,
        unchanged_sorted_from(aligns, bpos, apos, blen, alen),
    ensures
        unchanged_of(assemble_spec(alignment_regions(aligns), bpos, apos, blen, alen, false))
            == aligns,
    decreases aligns.len(),
{
    let regions = alignment_regions(aligns);
    let out = assemble_spec(regions, bpos, apos, blen, alen, false);
    if aligns.len() == 0 {
        assert(regions =~= Seq::<Region>::empty());
        if bpos < blen || apos < alen {
            assert(out.first().changed);
            assert(out.drop_first() =~= Seq::<Alignment>::empty());
            assert(unchanged_of(out.drop_first()) =~= Seq::<Alignment>::empty());
            assert(unchanged_of(out) =~= aligns);
        } else {
            assert(unchanged_of(out) =~= aligns);
        }
    } else {
        let a = aligns.first();
        let rest = aligns.drop_first();
        let r = alignment_region(a);
        assert(regions.first() == r);
        assert(regions.drop_first() =~= alignment_regions(rest));
        assert(region_fits(r, bpos, apos, blen, alen));
        let bend = r.before_start + r.before_len;
        let aend = r.after_start + r.after_len;
        assert(bend == a.before.end as int);
        assert(aend == a.after.end as int);
        lemma_assemble_unchanged_of(rest, bend, aend, blen, alen);
        let tail = assemble_spec(alignment_regions(rest), bend, aend, blen, alen, false);
        let body = Alignment {
            before: Span { start: r.before_start, end: bend as u32 },
            after: Span { start: r.after_start, end: aend as u32 },
            changed: false,
        };
        assert(body == a);
        if bpos < r.before_start as int || apos < r.after_start as int {
            let gap = Alignment {
                before: Span { start: bpos as u32, end: r.before_start },
                after: Span { start: apos as u32, end: r.after_start },
                changed: true,
            };
            assert(out =~= seq![gap, body] + tail);
            assert(out.first() == gap);
            let sb = seq![body] + tail;
            assert(out.drop_first() =~= sb);
            assert(sb.first() == body);
            assert(sb.drop_first() =~= tail);
            assert(unchanged_of(out) =~= unchanged_of(sb));
            assert(unchanged_of(sb) =~= seq![a] + unchanged_of(tail));
            assert(seq![a] + unchanged_of(tail) =~= aligns);
        } else {
            assert(out =~= seq![body] + tail);
            assert(out.first() == body);
            assert(out.drop_first() =~= tail);
            assert(unchanged_of(out) =~= seq![a] + unchanged_of(tail));
            assert(seq![a] + unchanged_of(tail) =~= aligns);
        }
    }
}

/// Idempotence: take any exhaustive alignment list, keep its unchanged
/// spans, and feed them back to the assembler as a hunk-free match list. The
/// result carries exactly the same unchanged spans.
pub proof fn lemma_assemble_idempotent(
    aligns: Seq<Alignment>,
    bpos: int,
    apos: int,
    blen: int,
    alen: int,
)
    requires
        0 <= bpos <= blen <= u32::MAX,
        0 <= apos <= alen <= u32::MAX,
        chained(aligns, bpos, apos, blen, alen),
    ensures
        unchanged_of(
            assemble_spec(alignment_regions(unchanged_of(aligns)), bpos, apos, blen, alen, false),
        ) == unchanged_of(aligns),
{
    lemma_unchanged_of_sorted(aligns, bpos, apos, blen, alen);
    lemma_assemble_unchanged_of(unchanged_of(aligns), bpos, apos, blen, alen);
}

} // verus!
