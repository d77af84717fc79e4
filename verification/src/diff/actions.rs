//! The computing part of discard-by-region: given the current lines of a
//! file, the lines of its base state, and one alignment, rebuild the file
//! with that region reverted. Reading and writing the file, and resolving
//! the base state, happen outside this crate.

use vstd::prelude::*;

use crate::diff::types::Alignment;

verus! {

/// Where the after span begins and ends inside the current file, clamped so
/// that a stale alignment (the file changed on disk since it was computed)
/// still yields a well-formed splice.
pub open spec fn splice_bounds(a: Alignment, current_len: int) -> (int, int) {
    let astart = if a.after.start as int <= current_len {
        a.after.start as int
    } else {
        current_len
    };
    let aend = if a.after.end as int <= astart {
        astart
    } else if a.after.end as int <= current_len {
        a.after.end as int
    } else {
        current_len
    };
    (astart, aend)
}

/// The file with one region reverted: the lines before the region's after
/// span are kept, the region itself is replaced by the base content of its
/// before span, and the lines after it are kept. A before span that reaches
/// past the base content contributes nothing.
pub open spec fn revert_region_spec(
    current: Seq<String>,
    base: Seq<String>,
    a: Alignment,
) -> Seq<String> {
    let (astart, aend) = splice_bounds(a, current.len() as int);
    let middle = if a.before.start <= a.before.end && a.before.end as int <= base.len() {
        base.subrange(a.before.start as int, a.before.end as int)
    } else {
        Seq::empty()
    };
    current.take(astart) + middle + current.skip(aend)
}

/// Rebuild a file's lines with one aligned region reverted to its base
/// content.
pub fn revert_region_lines(
    current: &Vec<String>,
    base: &Vec<String>,
    alignment: &Alignment,
) -> (out: Vec<String>)
    ensures
        out@ == revert_region_spec(current@, base@, *alignment),
{
    let n = current.len();
    let astart: usize = if (alignment.after.start as usize) <= n {
        alignment.after.start as usize
    } else {
        n
    };
    let aend: usize = if (alignment.after.end as usize) <= astart {
        astart
    } else if (alignment.after.end as usize) <= n {
        alignment.after.end as usize
    } else {
        n
    };

    let mut out: Vec<String> = Vec::new();
    let mut i: usize = 0;
    while i < astart
        invariant
            astart <= current@.len(),
            0 <= i <= astart,
            out@ =~= current@.take(i as int),
        decreases astart - i,
    {
        out.push(current[i].clone());
        proof {
            assert(out@ =~= current@.take(i + 1));
        }
        i = i + 1;
    }
    let ghost head = current@.take(astart as int);

    if alignment.before.start <= alignment.before.end && (alignment.before.end as usize)
        <= base.len() {
        let bstart = alignment.before.start as usize;
        let bend = alignment.before.end as usize;
        let mut j: usize = bstart;
        while j < bend
            invariant
                bstart <= j <= bend,
                bend <= base@.len(),
                out@ =~= head + base@.subrange(bstart as int, j as int),
            decreases bend - j,
        {
            out.push(base[j].clone());
            proof {
                assert(out@ =~= head + base@.subrange(bstart as int, j + 1));
            }
            j = j + 1;
        }
    }
    let ghost mid_done = out@;

    let mut k: usize = aend;
    while k < n
        invariant
            n == current@.len(),
            aend <= k <= n,
            out@ =~= mid_done + current@.subrange(aend as int, k as int),
        decreases n - k,
    {
        out.push(current[k].clone());
        proof {
            assert(out@ =~= mid_done + current@.subrange(aend as int, k + 1));
        }
        k = k + 1;
    }
    proof {
        assert(current@.subrange(aend as int, n as int) =~= current@.skip(aend as int));
        assert(out@ =~= revert_region_spec(current@, base@, *alignment));
    }
    out
}

} // verus!
