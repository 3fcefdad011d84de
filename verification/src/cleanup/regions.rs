//! Stretches of samples, as pairs of the first sample and the one behind the last,
//! and masks with one flag per sample.
use vstd::prelude::*;

verus! {

pub type Region = (usize, usize);

/// Whether the sample at `p` belongs to one of the regions.
pub open spec fn covers(regions: Seq<Region>, p: int) -> bool {
    exists|i: int| 0 <= i < regions.len() && (#[trigger] regions[i]).0 <= p < regions[i].1
}

/// Whether no region ends before it starts.
pub open spec fn upright(regions: Seq<Region>) -> bool {
    forall|i: int| 0 <= i < regions.len() ==> (#[trigger] regions[i]).0 <= regions[i].1
}

/// Whether the regions are ordered by where they start.
pub open spec fn in_order(regions: Seq<Region>) -> bool {
    forall|i: int, j: int|
        0 <= i < j < regions.len() ==> (#[trigger] regions[i]).0 <= (#[trigger] regions[j]).0
}

/// Whether more than `gap` samples lie between any region and a later one.
pub open spec fn apart(regions: Seq<Region>, gap: int) -> bool {
    forall|i: int, j: int|
        0 <= i < j < regions.len() ==> (#[trigger] regions[i]).1 + gap < (#[trigger] regions[j]).0
}

/// The number of samples in a region.
pub open spec fn span(region: Region) -> int {
    if region.0 < region.1 {
        region.1 - region.0
    } else {
        0
    }
}

/// The number of samples in all regions together.
pub open spec fn total_span(regions: Seq<Region>) -> int
    decreases regions.len(),
{
    if regions.len() == 0 {
        0
    } else {
        total_span(regions.drop_last()) + span(regions.last())
    }
}

/// The number of samples in a region.
pub fn region_len(region: Region) -> (len: usize)
    ensures
        len == span(region),
{
    if region.0 < region.1 {
        region.1 - region.0
    } else {
        0
    }
}

/// The number of samples in all regions together.
pub fn total_region_len(regions: &[Region]) -> (total: usize)
    requires
        total_span(regions@) <= usize::MAX,
    ensures
        total == total_span(regions@),
{
    let mut total: usize = 0;
    let mut i: usize = 0;
    while i < regions.len()
        invariant
            i <= regions@.len(),
            total_span(regions@) <= usize::MAX,
            total == total_span(regions@.take(i as int)),
        decreases regions@.len() - i,
    {
        proof {
            assert(regions@.take(i + 1).drop_last() =~= regions@.take(i as int));
            lemma_total_span_grows(regions@, i + 1);
        }
        total += region_len(regions[i]);
        i += 1;
    }
    assert(regions@.take(i as int) =~= regions@);
    total
}

proof fn lemma_total_span_grows(regions: Seq<Region>, i: int)
    requires
        0 <= i <= regions.len(),
    ensures
        0 <= total_span(regions.take(i)) <= total_span(regions),
    decreases regions.len(),
{
    if i < regions.len() {
        lemma_total_span_grows(regions.drop_last(), i);
        assert(regions.drop_last().take(i) =~= regions.take(i));
    } else {
        assert(regions.take(i) =~= regions);
        if i > 0 {
            lemma_total_span_grows(regions.drop_last(), i - 1);
            assert(regions.drop_last().take(i - 1) =~= regions.drop_last());
        }
    }
}

/// Regions that are apart and end by `len` hold at most `len` samples.
pub proof fn law_total_span_bound(regions: Seq<Region>, len: int)
    requires
        0 <= len,
        upright(regions),
        apart(regions, 0),
        forall|i: int| 0 <= i < regions.len() ==> (#[trigger] regions[i]).1 <= len,
    ensures
        0 <= total_span(regions) <= len,
    decreases regions.len(),
{
    if regions.len() > 0 {
        let rest = regions.drop_last();
        let last = regions.last();
        assert forall|i: int| 0 <= i < rest.len() implies (#[trigger] rest[i]).1 <= last.0 by {
            assert(rest[i] == regions[i]);
            assert(regions[regions.len() - 1] == last);
        }
        law_total_span_bound(rest, last.0 as int);
        assert(regions[regions.len() - 1].1 <= len);
    }
}

/// Whether each of two regions starts before the other ends.
pub open spec fn overlap(lhs: Region, rhs: Region) -> bool {
    lhs.0 < rhs.1 && rhs.0 < lhs.1
}

/// Whether two regions overlap.
pub fn regions_overlap(lhs: Region, rhs: Region) -> (overlapping: bool)
    ensures
        overlapping == overlap(lhs, rhs),
{
    lhs.0 < rhs.1 && rhs.0 < lhs.1
}

/// Two regions that hold samples overlap exactly if they share one.
pub proof fn law_overlap_is_a_shared_sample(lhs: Region, rhs: Region)
    requires
        lhs.0 < lhs.1,
        rhs.0 < rhs.1,
    ensures
        overlap(lhs, rhs) <==> exists|p: int| lhs.0 <= p < lhs.1 && #[trigger] covers(seq![rhs], p),
        overlap(lhs, rhs) == overlap(rhs, lhs),
{
    if overlap(lhs, rhs) {
        let p = if lhs.0 < rhs.0 {
            rhs.0 as int
        } else {
            lhs.0 as int
        };
        assert(seq![rhs][0].0 <= p < seq![rhs][0].1);
        assert(covers(seq![rhs], p));
    }
}

// ---------------------------------------------------------------- merging
/// `merged` with one more region: joined to the last one if at most `gap` samples
/// lie between them.
pub open spec fn merged_with(merged: Seq<Region>, next: Region, gap: int) -> Seq<Region> {
    if merged.len() > 0 && next.0 <= merged.last().1 + gap {
        let last = merged.last();
        merged.drop_last().push(
            (
                last.0,
                if last.1 < next.1 {
                    next.1
                } else {
                    last.1
                },
            ),
        )
    } else {
        merged.push(next)
    }
}

/// The regions with those joined that are at most `gap` samples apart.
pub open spec fn merged(regions: Seq<Region>, gap: int) -> Seq<Region>
    decreases regions.len(),
{
    if regions.len() == 0 {
        seq![]
    } else {
        merged_with(merged(regions.drop_last(), gap), regions.last(), gap)
    }
}

/// Joins the regions that are at most `gap` samples apart, going through them in
/// the order in which they are given.
pub fn merge_close_regions(regions: &[Region], gap: usize) -> (joined: Vec<Region>)
    ensures
        joined@ == merged(regions@, gap as int),
{
    let mut joined: Vec<Region> = Vec::new();
    let mut i: usize = 0;
    while i < regions.len()
        invariant
            i <= regions@.len(),
            joined@ == merged(regions@.take(i as int), gap as int),
        decreases regions@.len() - i,
    {
        let next = regions[i];
        let ghost before = joined@;
        assert(regions@.take(i + 1).drop_last() =~= regions@.take(i as int));
        let count: usize = joined.len();
        if count > 0 && (next.0 <= joined[count - 1].1 || next.0 - joined[count - 1].1 <= gap) {
            let last = joined[count - 1];
            if last.1 < next.1 {
                joined[count - 1] = (last.0, next.1);
            }
            assert(joined@ =~= merged_with(before, next, gap as int));
        } else {
            joined.push(next);
        }
        i += 1;
    }
    assert(regions@.take(i as int) =~= regions@);
    joined
}

/// What merging makes of upright regions that are in order: upright regions, more
/// than `gap` samples apart, that start where one of the given regions starts and
/// end where one ends.
pub proof fn law_merge_separates(regions: Seq<Region>, gap: int)
    requires
        0 <= gap,
        upright(regions),
        in_order(regions),
    ensures
        upright(merged(regions, gap)),
        apart(merged(regions, gap), gap),
        merged(regions, gap).len() <= regions.len(),
        forall|j: int|
            0 <= j < merged(regions, gap).len() ==> exists|i: int|
                0 <= i < regions.len() && regions[i].0 == (#[trigger] merged(regions, gap)[j]).0,
        forall|j: int|
            0 <= j < merged(regions, gap).len() ==> exists|i: int|
                0 <= i < regions.len() && regions[i].1 == (#[trigger] merged(regions, gap)[j]).1,
    decreases regions.len(),
{
    let m = merged(regions, gap);
    if regions.len() > 0 {
        let rest = regions.drop_last();
        let before = merged(rest, gap);
        let next = regions.last();
        assert(regions[regions.len() - 1] == next);
        assert forall|i: int| 0 <= i < rest.len() implies rest[i] == regions[i] by {}
        law_merge_separates(rest, gap);
        assert forall|j: int| 0 <= j < before.len() implies (#[trigger] before[j]).0
            <= next.0 by {
            let i = choose|i: int| 0 <= i < rest.len() && rest[i].0 == before[j].0;
            assert(regions[i].0 <= regions[regions.len() - 1].0);
        }
        assert forall|i: int, j: int| 0 <= i < j < m.len() implies (#[trigger] m[i]).1 + gap < (
        #[trigger] m[j]).0 by {
            assert(m[i] == before[i]);
            if j < before.len() {
                assert(before[i].1 + gap < before[j].0);
            } else {
                assert(m[j] == next);
                if i < before.len() - 1 {
                    assert(before[i].1 + gap < before[before.len() - 1].0);
                }
            }
        }
        assert forall|j: int| 0 <= j < m.len() implies exists|i: int|
            0 <= i < regions.len() && regions[i].0 == (#[trigger] m[j]).0 by {
            if j < before.len() {
                assert(m[j].0 == before[j].0);
                let i = choose|i: int| 0 <= i < rest.len() && rest[i].0 == before[j].0;
                assert(regions[i].0 == m[j].0);
            } else {
                assert(regions[regions.len() - 1].0 == m[j].0);
            }
        }
        assert forall|j: int| 0 <= j < m.len() implies exists|i: int|
            0 <= i < regions.len() && regions[i].1 == (#[trigger] m[j]).1 by {
            if j < before.len() && m[j].1 == before[j].1 {
                let i = choose|i: int| 0 <= i < rest.len() && rest[i].1 == before[j].1;
                assert(regions[i].1 == m[j].1);
            } else {
                assert(regions[regions.len() - 1].1 == m[j].1);
            }
        }
    }
}

/// Merging loses no sample, and what it adds are holes of at most `gap` samples
/// between two given regions.
pub proof fn law_merge_fills_small_holes(regions: Seq<Region>, gap: int, p: int)
    requires
        0 <= gap,
        upright(regions),
        in_order(regions),
    ensures
        covers(regions, p) ==> covers(merged(regions, gap), p),
        covers(merged(regions, gap), p) ==> covers(regions, p) || exists|i: int, j: int|
            0 <= i < regions.len() && 0 <= j < regions.len() && (#[trigger] regions[i]).1 <= p < (
            #[trigger] regions[j]).0 <= regions[i].1 + gap,
    decreases regions.len(),
{
    let m = merged(regions, gap);
    if regions.len() > 0 {
        let rest = regions.drop_last();
        let before = merged(rest, gap);
        let next = regions.last();
        assert(regions[regions.len() - 1] == next);
        assert forall|i: int| 0 <= i < rest.len() implies rest[i] == regions[i] by {}
        law_merge_fills_small_holes(rest, gap, p);
        law_merge_separates(rest, gap);
        if before.len() > 0 && next.0 <= before.last().1 + gap {
            assert(before[before.len() - 1] == before.last());
            let s = choose|i: int| 0 <= i < rest.len() && rest[i].0 == before.last().0;
            assert(regions[s].0 <= regions[regions.len() - 1].0);
        }
        if covers(regions, p) {
            let i = choose|i: int|
                0 <= i < regions.len() && (#[trigger] regions[i]).0 <= p < regions[i].1;
            if i < rest.len() {
                assert(rest[i].0 <= p < rest[i].1);
                let j = choose|j: int|
                    0 <= j < before.len() && (#[trigger] before[j]).0 <= p < before[j].1;
                assert(m[j].0 <= p < m[j].1);
            } else {
                assert(m[m.len() - 1].0 <= p < m[m.len() - 1].1);
            }
        }
        if covers(m, p) {
            let j = choose|j: int| 0 <= j < m.len() && (#[trigger] m[j]).0 <= p < m[j].1;
            if j < before.len() && before[j].0 <= p < before[j].1 {
                assert(covers(before, p));
                if covers(rest, p) {
                    let i = choose|i: int|
                        0 <= i < rest.len() && (#[trigger] rest[i]).0 <= p < rest[i].1;
                    assert(regions[i].0 <= p < regions[i].1);
                } else {
                    let (a, b) = choose|a: int, b: int|
                        0 <= a < rest.len() && 0 <= b < rest.len() && (#[trigger] rest[a]).1 <= p
                            < (#[trigger] rest[b]).0 <= rest[a].1 + gap;
                    assert(regions[a].1 <= p < regions[b].0 <= regions[a].1 + gap);
                }
            } else if next.0 <= p < next.1 {
                assert(regions[regions.len() - 1].0 <= p < regions[regions.len() - 1].1);
            } else {
                assert(j == before.len() - 1);
                let i = choose|i: int| 0 <= i < rest.len() && rest[i].1 == before[j].1;
                assert(regions[i].1 <= p < regions[regions.len() - 1].0 <= regions[i].1 + gap);
            }
        }
    }
}

/// Regions that are already apart are left as they are, so a second merging changes
/// nothing.
pub proof fn law_merge_is_idempotent(regions: Seq<Region>, gap: int)
    requires
        0 <= gap,
        upright(regions),
        in_order(regions),
    ensures
        apart(regions, gap) ==> merged(regions, gap) == regions,
        merged(merged(regions, gap), gap) == merged(regions, gap),
{
    if apart(regions, gap) {
        lemma_merge_apart(regions, gap);
    }
    law_merge_separates(regions, gap);
    lemma_merge_apart(merged(regions, gap), gap);
}

proof fn lemma_merge_apart(regions: Seq<Region>, gap: int)
    requires
        apart(regions, gap),
    ensures
        merged(regions, gap) == regions,
    decreases regions.len(),
{
    if regions.len() > 0 {
        let rest = regions.drop_last();
        lemma_merge_apart(rest, gap);
        if rest.len() > 0 {
            assert(regions[rest.len() - 1].1 + gap < regions[regions.len() - 1].0);
        }
        assert(rest.push(regions.last()) =~= regions);
    }
}

/// Among upright regions that start at the same sample the order does not matter to
/// merging.
pub proof fn law_merge_ignores_ties(
    before: Seq<Region>,
    first: Region,
    second: Region,
    after: Seq<Region>,
    gap: int,
)
    requires
        0 <= gap,
        first.0 == second.0,
        first.0 <= first.1,
        second.0 <= second.1,
    ensures
        merged(before + seq![first, second] + after, gap) == merged(
            before + seq![second, first] + after,
            gap,
        ),
    decreases after.len(),
{
    let lhs = before + seq![first, second] + after;
    let rhs = before + seq![second, first] + after;
    if after.len() == 0 {
        let m = merged(before, gap);
        assert(lhs.drop_last().drop_last() =~= before);
        assert(rhs.drop_last().drop_last() =~= before);
        assert(lhs.drop_last().last() == first && rhs.drop_last().last() == second);
        assert(merged(lhs.drop_last(), gap) == merged_with(m, first, gap));
        assert(merged(rhs.drop_last(), gap) == merged_with(m, second, gap));
        assert(merged_with(merged_with(m, first, gap), second, gap) =~= merged_with(
            merged_with(m, second, gap),
            first,
            gap,
        ));
    } else {
        law_merge_ignores_ties(before, first, second, after.drop_last(), gap);
        assert(lhs.drop_last() =~= before + seq![first, second] + after.drop_last());
        assert(rhs.drop_last() =~= before + seq![second, first] + after.drop_last());
    }
}

// ---------------------------------------------------------------- masks
/// The runs of set flags, each as long as it can be, in order.
pub open spec fn true_runs(mask: Seq<bool>) -> Seq<Region>
    decreases mask.len(),
{
    if mask.len() == 0 {
        seq![]
    } else {
        let runs = true_runs(mask.drop_last());
        let n = (mask.len() - 1) as usize;
        let end = mask.len() as usize;
        if !mask.last() {
            runs
        } else if runs.len() > 0 && runs.last().1 == n {
            runs.drop_last().push((runs.last().0, end))
        } else {
            runs.push((n, end))
        }
    }
}

/// Lists the runs of set flags, in order.
pub fn mask_to_regions(mask: &[bool]) -> (runs: Vec<Region>)
    ensures
        runs@ == true_runs(mask@),
{
    let mut runs: Vec<Region> = Vec::new();
    let len: usize = mask.len();
    let mut i: usize = 0;
    while i < len
        invariant
            i <= len == mask@.len(),
            runs@ == true_runs(mask@.take(i as int)),
        decreases len - i,
    {
        let ghost before = runs@;
        assert(mask@.take(i + 1).drop_last() =~= mask@.take(i as int));
        if mask[i] {
            let count: usize = runs.len();
            if count > 0 && runs[count - 1].1 == i {
                runs[count - 1] = (runs[count - 1].0, i + 1);
                assert(runs@ =~= before.drop_last().push((before.last().0, (i + 1) as usize)));
            } else {
                runs.push((i, i + 1));
            }
        }
        i += 1;
    }
    assert(mask@.take(i as int) =~= mask@);
    runs
}

/// The runs hold exactly the set flags; none is empty, they are in order and no two
/// touch.
pub proof fn law_runs_are_the_mask(mask: Seq<bool>)
    requires
        mask.len() <= usize::MAX,
    ensures
        forall|i: int|
            0 <= i < true_runs(mask).len() ==> (#[trigger] true_runs(mask)[i]).0 < true_runs(
                mask,
            )[i].1 <= mask.len(),
        apart(true_runs(mask), 0),
        forall|p: int|
            0 <= p < mask.len() ==> (#[trigger] mask[p] <==> covers(true_runs(mask), p)),
    decreases mask.len(),
{
    if mask.len() > 0 {
        let rest = mask.drop_last();
        let before = true_runs(rest);
        let runs = true_runs(mask);
        let n = mask.len() - 1;
        law_runs_are_the_mask(rest);
        assert forall|i: int, j: int| 0 <= i < j < runs.len() implies (#[trigger] runs[i]).1 < (
        #[trigger] runs[j]).0 by {
            assert(runs[i] == before[i]);
            if j < before.len() {
                assert(before[i].1 + 0 < before[j].0);
            } else if i < before.len() - 1 {
                assert(before[i].1 + 0 < before[before.len() - 1].0);
            }
        }
        assert forall|p: int| 0 <= p < mask.len() implies (#[trigger] mask[p] <==> covers(
            runs,
            p,
        )) by {
            if p < n {
                assert(rest[p] == mask[p]);
            }
            if mask[p] {
                if p < n {
                    let i = choose|i: int|
                        0 <= i < before.len() && (#[trigger] before[i]).0 <= p < before[i].1;
                    assert(runs[i].0 <= p < runs[i].1);
                } else {
                    assert(runs[runs.len() - 1].0 <= p < runs[runs.len() - 1].1);
                }
            }
            if covers(runs, p) {
                let i = choose|i: int|
                    0 <= i < runs.len() && (#[trigger] runs[i]).0 <= p < runs[i].1;
                if p < n {
                    assert(i < before.len());
                    assert(before[i].0 <= p < before[i].1);
                } else if !mask.last() {
                    assert(before[i].1 <= n);
                }
            }
        }
    }
}

/// A mask with the flags of all regions set in addition.
pub open spec fn marked(mask: Seq<bool>, regions: Seq<Region>) -> Seq<bool> {
    Seq::new(mask.len(), |p: int| mask[p] || covers(regions, p))
}

/// Sets the flags of all regions; what lies behind the mask is left out.
pub fn mark_regions(mask: &mut Vec<bool>, regions: &[Region])
    ensures
        final(mask)@ == marked(old(mask)@, regions@),
{
    let len: usize = mask.len();
    let mut i: usize = 0;
    assert(mask@ =~= marked(old(mask)@, regions@.take(0)));
    while i < regions.len()
        invariant
            i <= regions@.len(),
            len == mask@.len() == old(mask)@.len(),
            mask@ == marked(old(mask)@, regions@.take(i as int)),
        decreases regions@.len() - i,
    {
        let region = regions[i];
        let ghost before = mask@;
        let end: usize = if region.1 < len {
            region.1
        } else {
            len
        };
        let mut p: usize = region.0;
        while p < end
            invariant
                region.0 <= p,
                end <= len == mask@.len() == before.len(),
                forall|q: int|
                    0 <= q < len ==> mask@[q] == (before[q] || region.0 <= q < p && q < end),
            decreases end - p,
        {
            mask[p] = true;
            p += 1;
        }
        proof {
            let done = regions@.take(i as int);
            let more = regions@.take(i + 1);
            assert(more[i as int] == region);
            assert(forall|k: int| 0 <= k < i ==> done[k] == more[k]);
            assert forall|q: int| 0 <= q < len implies #[trigger] mask@[q] == (old(mask)@[q] || covers(
                more,
                q,
            )) by {
                assert(before[q] == (old(mask)@[q] || covers(done, q)));
                if covers(done, q) {
                    let k = choose|k: int|
                        0 <= k < done.len() && (#[trigger] done[k]).0 <= q < done[k].1;
                    assert(more[k].0 <= q < more[k].1);
                }
                if covers(more, q) {
                    let k = choose|k: int|
                        0 <= k < more.len() && (#[trigger] more[k]).0 <= q < more[k].1;
                    if k < i {
                        assert(done[k].0 <= q < done[k].1);
                    }
                }
            }
            assert(mask@ =~= marked(old(mask)@, more));
        }
        i += 1;
    }
    assert(regions@.take(i as int) =~= regions@);
}

/// Marking the runs of a mask in an empty mask gives the mask back.
pub proof fn law_mark_undoes_runs(mask: Seq<bool>)
    requires
        mask.len() <= usize::MAX,
    ensures
        marked(Seq::new(mask.len(), |p: int| false), true_runs(mask)) == mask,
{
    law_runs_are_the_mask(mask);
    assert(marked(Seq::new(mask.len(), |p: int| false), true_runs(mask)) =~= mask);
}

/// Whether a flag is set at most `pad` places away from `p`.
pub open spec fn near_set(mask: Seq<bool>, pad: int, p: int) -> bool {
    exists|q: int| 0 <= q < mask.len() && p - pad <= q <= p + pad && #[trigger] mask[q]
}

/// A mask with every set flag spread `pad` places to either side.
pub open spec fn dilated(mask: Seq<bool>, pad: int) -> Seq<bool> {
    Seq::new(mask.len(), |p: int| near_set(mask, pad, p))
}

/// Spreads every set flag `pad` places to either side.
pub fn dilate_mask(mask: &mut Vec<bool>, pad: usize)
    ensures
        final(mask)@ == dilated(old(mask)@, pad as int),
{
    let len: usize = mask.len();
    let mut spread: Vec<bool> = Vec::with_capacity(len);
    let mut p: usize = 0;
    while p < len
        invariant
            p <= len == mask@.len(),
            mask@ == old(mask)@,
            spread@ == dilated(mask@, pad as int).take(p as int),
        decreases len - p,
    {
        let mut q: usize = if p < pad {
            0
        } else {
            p - pad
        };
        let mut found = false;
        while q < len && (q <= p || q - p <= pad)
            invariant
                p < len == mask@.len(),
                q <= len,
                found == exists|k: int|
                    0 <= k < mask@.len() && p - pad <= k <= p + pad && k < q && #[trigger] mask@[k],
                p - pad <= q <= p + pad + 1,
            decreases len - q,
        {
            if mask[q] {
                found = true;
            }
            q += 1;
        }
        proof {
            assert(found == near_set(mask@, pad as int, p as int));
        }
        spread.push(found);
        p += 1;
        assert(spread@ =~= dilated(mask@, pad as int).take(p as int));
    }
    assert(spread@ =~= dilated(mask@, pad as int));
    *mask = spread;
}

/// Dilating never clears a flag, and by nothing it changes nothing.
pub proof fn law_dilate_keeps_flags(mask: Seq<bool>, pad: int, p: int)
    requires
        0 <= pad,
        0 <= p < mask.len(),
    ensures
        mask[p] ==> dilated(mask, pad)[p],
        dilated(mask, 0)[p] == mask[p],
{
}

/// Whether a flag is set at `p` in one of the masks.
pub open spec fn set_in_any(masks: Seq<Vec<bool>>, p: int) -> bool {
    exists|c: int| 0 <= c < masks.len() && p < (#[trigger] masks[c])@.len() && masks[c]@[p]
}

/// The first `len` flags of all masks taken together.
pub open spec fn union_mask(masks: Seq<Vec<bool>>, len: int) -> Seq<bool> {
    Seq::new(len as nat, |p: int| set_in_any(masks, p))
}

/// Takes the first `len` flags of all masks together; a mask may be shorter.
pub fn union_masks(masks: &[Vec<bool>], len: usize) -> (union: Vec<bool>)
    ensures
        union@ == union_mask(masks@, len as int),
{
    let mut union: Vec<bool> = Vec::with_capacity(len);
    let mut p: usize = 0;
    while p < len
        invariant
            p <= len,
            union@ == union_mask(masks@, len as int).take(p as int),
        decreases len - p,
    {
        let mut set = false;
        let mut c: usize = 0;
        while c < masks.len()
            invariant
                c <= masks@.len(),
                set == exists|k: int|
                    0 <= k < c && p < (#[trigger] masks@[k])@.len() && masks@[k]@[p as int],
            decreases masks@.len() - c,
        {
            if p < masks[c].len() && masks[c][p] {
                set = true;
                assert(p < masks@[c as int]@.len() && masks@[c as int]@[p as int]);
            }
            c += 1;
        }
        assert(set == set_in_any(masks@, p as int));
        union.push(set);
        p += 1;
        assert(union@ =~= union_mask(masks@, len as int).take(p as int));
    }
    assert(union@ =~= union_mask(masks@, len as int));
    union
}

/// Dilating sets a flag exactly where one was set at most `pad` places away, and
/// dilating twice is dilating once by as much.
pub proof fn law_dilate_reaches(mask: Seq<bool>, pad: int, more: int, p: int)
    requires
        0 <= pad,
        0 <= more,
        0 <= p < mask.len(),
    ensures
        dilated(mask, pad).len() == mask.len(),
        dilated(mask, pad)[p] <==> exists|q: int|
            0 <= q < mask.len() && p - pad <= q <= p + pad && #[trigger] mask[q],
        dilated(dilated(mask, pad), more)[p] == dilated(mask, pad + more)[p],
{
    let once = dilated(mask, pad);
    if near_set(once, more, p) {
        let q = choose|q: int|
            0 <= q < once.len() && p - more <= q <= p + more && #[trigger] once[q];
        let r = choose|r: int|
            0 <= r < mask.len() && q - pad <= r <= q + pad && #[trigger] mask[r];
        assert(mask[r]);
        assert(near_set(mask, pad + more, p));
    }
    if near_set(mask, pad + more, p) {
        let r = choose|r: int|
            0 <= r < mask.len() && p - (pad + more) <= r <= p + (pad + more)
                && #[trigger] mask[r];
        let q = if r < p - more {
            p - more
        } else if r > p + more {
            p + more
        } else {
            r
        };
        assert(mask[r]);
        assert(near_set(mask, pad, q));
        assert(once[q]);
    }
}

/// Marking sets the flags of the samples that a region holds and leaves the others.
pub proof fn law_mark_sets_the_regions(mask: Seq<bool>, regions: Seq<Region>, p: int)
    requires
        0 <= p < mask.len(),
    ensures
        marked(mask, regions).len() == mask.len(),
        marked(mask, regions)[p] <==> mask[p] || exists|i: int|
            0 <= i < regions.len() && (#[trigger] regions[i]).0 <= p < regions[i].1,
{
}

/// A flag is set in the union exactly if it is set in one of the masks that reach so
/// far.
pub proof fn law_union_of_masks(masks: Seq<Vec<bool>>, len: int, p: int)
    requires
        0 <= p < len,
    ensures
        union_mask(masks, len).len() == len,
        union_mask(masks, len)[p] <==> exists|c: int|
            0 <= c < masks.len() && p < (#[trigger] masks[c])@.len() && masks[c]@[p],
{
}

/// Each region counts for its length, wherever it stands, and one that ends before it
/// starts for nothing.
pub proof fn law_total_span_adds_up(regions: Seq<Region>, more: Seq<Region>, region: Region)
    ensures
        total_span(Seq::<Region>::empty()) == 0,
        region.0 <= region.1 ==> total_span(seq![region]) == region.1 - region.0,
        region.0 > region.1 ==> total_span(seq![region]) == 0,
        total_span(regions + more) == total_span(regions) + total_span(more),
    decreases more.len(),
{
    reveal_with_fuel(total_span, 2);
    assert(seq![region].drop_last() =~= Seq::<Region>::empty());
    if more.len() == 0 {
        assert(regions + more =~= regions);
    } else {
        law_total_span_adds_up(regions, more.drop_last(), region);
        assert((regions + more).drop_last() =~= regions + more.drop_last());
    }
}

/// Regions that are more than `gap` samples apart stay as they are, and of two that
/// are not, the first ends where the later one of them does.
pub proof fn law_merge_of_two(first: Region, second: Region, gap: int)
    requires
        0 <= gap,
        first.0 <= first.1,
        first.0 <= second.0 <= second.1,
    ensures
        first.1 + gap < second.0 ==> merged(seq![first, second], gap) == seq![first, second],
        second.0 <= first.1 + gap ==> merged(seq![first, second], gap).len() == 1,
        second.0 <= first.1 + gap ==> merged(seq![first, second], gap)[0].0 == first.0,
        second.0 <= first.1 + gap && first.1 <= second.1 ==> merged(
            seq![first, second],
            gap,
        )[0].1 == second.1,
        second.0 <= first.1 + gap && second.1 <= first.1 ==> merged(
            seq![first, second],
            gap,
        )[0].1 == first.1,
{
    reveal_with_fuel(merged, 3);
    let both = seq![first, second];
    assert(both.drop_last() =~= seq![first]);
    assert(both.drop_last().drop_last() =~= Seq::<Region>::empty());
    assert(merged(seq![first], gap) =~= seq![first]);
    if first.1 + gap < second.0 {
        assert(merged(both, gap) =~= both);
    }
}

} // verus!
