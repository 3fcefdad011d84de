//! What detection finds: bursts of flags.
//!
//! A burst is a stretch of flags without a large hole, with no other flag near it.
//! The laws here say of every stage of the detection which bursts come out of it,
//! no fewer and no more.
use vstd::prelude::*;

#[allow(unused_imports)]
use crate::cleanup::frames::FrameFeatures;
#[allow(unused_imports)]
use crate::cleanup::regions::{
    Region, apart, covers, dilated, in_order, law_merge_fills_small_holes, law_merge_separates,
    law_runs_are_the_mask, merged, near_set, overlap, set_in_any, span, true_runs, union_mask,
    upright,
};
#[allow(unused_imports)]
use crate::cleanup::v21::V21PassConfig;
#[allow(unused_imports)]
use crate::cleanup::windows::{
    all_relocalized, candidate_flags, candidate_windows, channel_union, covered_by_any,
    dilated_window, fallback_windows, falls_back, found_regions, free_of,
    law_relocalized_lie_in_window, lemma_all_relocalized, lemma_apart_is_in_order, lemma_filter,
    lemma_local_regions, lemma_sorted_windows, local_regions, no_longer_than, relocalized,
    repairable, run_window, run_windows, shifted, spectral_windows, supplemented, window_order,
    with_free,
};

verus! {

/// Whether there is a flag at `p` or at most `gap` samples behind it, before `end`.
pub open spec fn flag_follows(flags: Seq<bool>, gap: int, end: int, p: int) -> bool {
    exists|q: int| p <= q <= p + gap && q < end && #[trigger] flags[q]
}

/// Whether the flags from `start` to `end` make up one burst: the stretch starts and
/// ends with a flag, no hole in it is longer than `gap`, and every other flag is
/// further away than `gap`.
pub open spec fn burst(flags: Seq<bool>, gap: int, start: int, end: int) -> bool {
    &&& 0 <= start < end <= flags.len()
    &&& flags[start]
    &&& flags[end - 1]
    &&& forall|p: int| start <= p < end ==> #[trigger] flag_follows(flags, gap, end, p)
    &&& forall|p: int|
        0 <= p < flags.len() && !(start <= p < end) && #[trigger] flags[p] ==> p + 1 + gap < start
            || end + gap < p
}

/// Whether the flags are those of the samples that the regions hold.
pub open spec fn flags_of(flags: Seq<bool>, regions: Seq<Region>) -> bool {
    forall|p: int|
        0 <= p < flags.len() ==> (#[trigger] flags[p] <==> exists|i: int|
            0 <= i < regions.len() && (#[trigger] regions[i]).0 <= p < regions[i].1)
}

/// Whether the regions hold samples of a recording of `len` samples.
pub open spec fn filled(regions: Seq<Region>, len: int) -> bool {
    forall|i: int|
        0 <= i < regions.len() ==> (#[trigger] regions[i]).0 < regions[i].1 <= len
}

proof fn lemma_flags_cover(flags: Seq<bool>, regions: Seq<Region>, p: int)
    requires
        flags_of(flags, regions),
        filled(regions, flags.len() as int),
    ensures
        covers(regions, p) <==> 0 <= p < flags.len() && flags[p],
{
    if covers(regions, p) {
        let i = choose|i: int|
            0 <= i < regions.len() && (#[trigger] regions[i]).0 <= p < regions[i].1;
        assert(regions[i].1 <= flags.len());
        assert(flags[p]);
    }
}

/// Merging makes of regions in order exactly the bursts of the samples that they
/// hold.
pub proof fn law_merging_makes_bursts(
    regions: Seq<Region>,
    flags: Seq<bool>,
    gap: int,
    region: Region,
)
    requires
        0 <= gap,
        in_order(regions),
        filled(regions, flags.len() as int),
        flags_of(flags, regions),
    ensures
        merged(regions, gap).contains(region) <==> burst(
            flags,
            gap,
            region.0 as int,
            region.1 as int,
        ),
{
    let joined = merged(regions, gap);
    law_merge_separates(regions, gap);
    if joined.contains(region) {
        let k = choose|k: int| 0 <= k < joined.len() && joined[k] == region;
        lemma_joined_is_burst(regions, flags, gap, k);
    }
    if burst(flags, gap, region.0 as int, region.1 as int) {
        lemma_burst_is_joined(regions, flags, gap, region);
    }
}

/// A sample that merging covers is flagged, or lies in a hole between two flags that
/// are at most `gap` samples apart.
proof fn lemma_covered_sample(regions: Seq<Region>, flags: Seq<bool>, gap: int, p: int)
    requires
        0 <= gap,
        in_order(regions),
        filled(regions, flags.len() as int),
        flags_of(flags, regions),
    ensures
        0 <= p < flags.len() && flags[p] ==> covers(merged(regions, gap), p),
        covers(merged(regions, gap), p) ==> (0 <= p < flags.len() && flags[p]) || exists|x: int, y: int|
            #![trigger flags[x], flags[y]]
            0 <= x < p < y < flags.len() && flags[x] && flags[y] && y <= x + 1 + gap,
{
    assert(upright(regions)) by {
        assert forall|i: int| 0 <= i < regions.len() implies (#[trigger] regions[i]).0
            <= regions[i].1 by {}
    }
    lemma_flags_cover(flags, regions, p);
    law_merge_fills_small_holes(regions, gap, p);
    if covers(merged(regions, gap), p) && !covers(regions, p) {
        let (i, j) = choose|i: int, j: int|
            0 <= i < regions.len() && 0 <= j < regions.len() && (#[trigger] regions[i]).1 <= p < (
            #[trigger] regions[j]).0 <= regions[i].1 + gap;
        let x = regions[i].1 - 1;
        let y = regions[j].0 as int;
        assert(regions[i].0 <= x < regions[i].1);
        assert(regions[j].0 <= y < regions[j].1);
        assert(flags[x] && flags[y]);
    }
}

proof fn lemma_joined_is_burst(regions: Seq<Region>, flags: Seq<bool>, gap: int, k: int)
    requires
        0 <= gap,
        in_order(regions),
        filled(regions, flags.len() as int),
        flags_of(flags, regions),
        0 <= k < merged(regions, gap).len(),
    ensures
        burst(flags, gap, merged(regions, gap)[k].0 as int, merged(regions, gap)[k].1 as int),
{
    let joined = merged(regions, gap);
    assert(upright(regions)) by {
        assert forall|i: int| 0 <= i < regions.len() implies (#[trigger] regions[i]).0
            <= regions[i].1 by {}
    }
    law_merge_separates(regions, gap);
    let start = joined[k].0 as int;
    let end = joined[k].1 as int;
    let i = choose|i: int| 0 <= i < regions.len() && regions[i].0 == joined[k].0;
    let j = choose|j: int| 0 <= j < regions.len() && regions[j].1 == joined[k].1;
    assert(regions[i].0 < regions[i].1 <= flags.len());
    assert(regions[j].0 < regions[j].1 <= flags.len());
    assert(regions[i].0 <= start < regions[i].1);
    assert(flags[start]);
    assert(regions[j].0 <= end - 1 < regions[j].1);
    assert(flags[end - 1]);
    lemma_covered_sample(regions, flags, gap, start);
    let s = choose|s: int| 0 <= s < joined.len() && (#[trigger] joined[s]).0 <= start < joined[s].1;
    if s != k {
        if s < k {
            assert(joined[s].1 + gap < joined[k].0);
        } else {
            assert(joined[k].1 + gap < joined[s].0);
        }
    }
    assert forall|p: int| start <= p < end implies #[trigger] flag_follows(
        flags,
        gap,
        end,
        p,
    ) by {
        assert(joined[k].0 <= p < joined[k].1);
        assert(covers(joined, p));
        lemma_covered_sample(regions, flags, gap, p);
        if flags[p] {
            assert(p <= p <= p + gap);
        } else {
            let (x, y) = choose|x: int, y: int|
                #![trigger flags[x], flags[y]]
                0 <= x < p < y < flags.len() && flags[x] && flags[y] && y <= x + 1 + gap;
            lemma_covered_sample(regions, flags, gap, y);
            let m = choose|m: int|
                0 <= m < joined.len() && (#[trigger] joined[m]).0 <= y < joined[m].1;
            if y >= end {
                if m < k {
                    assert(joined[m].1 + gap < joined[k].0);
                } else if k < m {
                    assert(joined[k].1 + gap < joined[m].0);
                }
                assert(false);
            }
            assert(p <= y <= p + gap && y < end && flags[y]);
        }
    }
    assert forall|p: int|
        0 <= p < flags.len() && !(start <= p < end) && #[trigger] flags[p] implies p + 1 + gap
        < start || end + gap < p by {
        lemma_covered_sample(regions, flags, gap, p);
        let m = choose|m: int| 0 <= m < joined.len() && (#[trigger] joined[m]).0 <= p < joined[m].1;
        if m < k {
            assert(joined[m].1 + gap < joined[k].0);
        } else if k < m {
            assert(joined[k].1 + gap < joined[m].0);
        }
    }
}

proof fn lemma_burst_is_joined(regions: Seq<Region>, flags: Seq<bool>, gap: int, region: Region)
    requires
        0 <= gap,
        in_order(regions),
        filled(regions, flags.len() as int),
        flags_of(flags, regions),
        burst(flags, gap, region.0 as int, region.1 as int),
    ensures
        merged(regions, gap).contains(region),
{
    let joined = merged(regions, gap);
    let start = region.0 as int;
    let end = region.1 as int;
    assert(upright(regions)) by {
        assert forall|i: int| 0 <= i < regions.len() implies (#[trigger] regions[i]).0
            <= regions[i].1 by {}
    }
    law_merge_separates(regions, gap);
    lemma_covered_sample(regions, flags, gap, start);
    let k = choose|k: int| 0 <= k < joined.len() && (#[trigger] joined[k]).0 <= start < joined[k].1;
    let (a, b) = (joined[k].0 as int, joined[k].1 as int);
    lemma_joined_is_burst(regions, flags, gap, k);
    if a < start {
        lemma_step_into(flags, gap, a, b, start);
        assert(false);
    }
    if b < end {
        assert(flag_follows(flags, gap, end, b));
        let q = choose|q: int| b <= q <= b + gap && q < end && #[trigger] flags[q];
        assert(flags[q] && !(a <= q < b));
        assert(false);
    }
    if end < b {
        assert(flag_follows(flags, gap, b, end));
        let q = choose|q: int| end <= q <= end + gap && q < b && #[trigger] flags[q];
        assert(flags[q] && !(start <= q < end));
        assert(false);
    }
    assert(joined[k] == region);
}

/// Inside a burst there is a flag at most `gap` samples before every place but the
/// first.
proof fn lemma_step_into(flags: Seq<bool>, gap: int, a: int, b: int, p: int)
    requires
        0 <= gap,
        burst(flags, gap, a, b),
        a < p < b,
    ensures
        exists|x: int| a <= x < p && p <= x + 1 + gap && #[trigger] flags[x],
    decreases p - a,
{
    if p == a + 1 || flags[p - 1] {
        assert(flags[p - 1]);
    } else {
        lemma_last_flag(flags, a, p);
        let x = choose|x: int|
            a <= x < p && #[trigger] flags[x] && forall|y: int| x < y < p ==> !flags[y];
        assert(flag_follows(flags, gap, b, x + 1));
        let q = choose|q: int| x + 1 <= q <= x + 1 + gap && q < b && #[trigger] flags[q];
        assert(q >= p);
    }
}

/// There is a last flag before `p`.
proof fn lemma_last_flag(flags: Seq<bool>, a: int, p: int)
    requires
        0 <= a < p <= flags.len(),
        flags[a],
    ensures
        exists|x: int|
            a <= x < p && #[trigger] flags[x] && forall|y: int| x < y < p ==> !flags[y],
    decreases p - a,
{
    if flags[p - 1] {
        assert(flags[p - 1] && forall|y: int| p - 1 < y < p ==> !flags[y]);
    } else {
        lemma_last_flag(flags, a, p - 1);
        let x = choose|x: int|
            a <= x < p - 1 && #[trigger] flags[x] && forall|y: int| x < y < p - 1 ==> !flags[y];
        assert(flags[x] && forall|y: int| x < y < p ==> !flags[y]);
    }
}

/// Merging the runs of a mask gives exactly its bursts.
pub proof fn law_joined_runs_are_bursts(flags: Seq<bool>, gap: int, region: Region)
    requires
        0 <= gap,
        flags.len() <= usize::MAX,
    ensures
        merged(true_runs(flags), gap).contains(region) <==> burst(
            flags,
            gap,
            region.0 as int,
            region.1 as int,
        ),
{
    let runs = true_runs(flags);
    law_runs_are_the_mask(flags);
    assert forall|i: int| 0 <= i < runs.len() implies (#[trigger] runs[i]).0 <= runs[i].1 by {}
    lemma_apart_is_in_order(runs, 0);
    assert forall|p: int| 0 <= p < flags.len() implies (#[trigger] flags[p] <==> exists|i: int|
        0 <= i < runs.len() && (#[trigger] runs[i]).0 <= p < runs[i].1) by {
        assert(flags[p] <==> covers(runs, p));
    }
    law_merging_makes_bursts(runs, flags, gap, region);
}

// ---------------------------------------------------------------- repairs
/// Whether a flag is set in one of the masks at most `pad` places away from `p`, in a
/// window of `len` samples.
pub open spec fn flagged_near(masks: Seq<Vec<bool>>, len: int, pad: int, p: int) -> bool {
    exists|c: int, q: int|
        #![trigger masks[c]@[q]]
        0 <= c < masks.len() && 0 <= q < len && q < masks[c]@.len() && p - pad <= q <= p + pad
            && masks[c]@[q]
}

/// Filtering keeps exactly what passes.
proof fn lemma_filter_keeps(regions: Seq<Region>, keep: spec_fn(Region) -> bool, region: Region)
    ensures
        regions.filter(keep).contains(region) <==> regions.contains(region) && keep(region),
{
    lemma_filter(regions, keep, 0);
    let kept = regions.filter(keep);
    if kept.contains(region) {
        let k = choose|k: int| 0 <= k < kept.len() && kept[k] == region;
        assert(keep(kept[k]) && regions.contains(kept[k]));
    }
    if regions.contains(region) && keep(region) {
        let i = choose|i: int| 0 <= i < regions.len() && regions[i] == region;
        regions.lemma_filter_contains(keep, i);
    }
}

/// A window of at least five samples is narrowed to exactly the bursts of what was
/// flagged in one of the channels, padded, that are not too long for a repair. Each
/// is as long as the padded flags say; a shorter window gives nothing.
pub proof fn law_relocalizing_finds_bursts(
    local_masks: Seq<Vec<bool>>,
    start: usize,
    end: usize,
    config: V21PassConfig,
    flags: Seq<bool>,
    region: Region,
)
    requires
        flags.len() == end - start,
        forall|p: int|
            0 <= p < flags.len() ==> (#[trigger] flags[p] <==> flagged_near(
                local_masks,
                flags.len() as int,
                config.relocalizer.repair_pad as int,
                p,
            )),
    ensures
        relocalized(local_masks, start, end, config).contains(region) <==> {
            &&& start + 5 <= end
            &&& burst(flags, config.final_merge_gap as int, region.0 - start, region.1 - start)
            &&& region.1 - region.0 <= config.relocalizer.max_span
        },
{
    let pad = config.relocalizer.repair_pad as int;
    let gap = config.final_merge_gap as int;
    let len = end - start;
    if start + 5 <= end {
        let union = union_mask(local_masks, len);
        let mask = dilated(union, pad);
        assert forall|p: int| 0 <= p < len implies mask[p] == flags[p] by {
            assert(flags[p] <==> flagged_near(local_masks, len, pad, p));
            if near_set(union, pad, p) {
                let q = choose|q: int|
                    0 <= q < union.len() && p - pad <= q <= p + pad && #[trigger] union[q];
                assert(set_in_any(local_masks, q));
                let c = choose|c: int|
                    0 <= c < local_masks.len() && q < (#[trigger] local_masks[c])@.len()
                        && local_masks[c]@[q];
                assert(local_masks[c]@[q]);
            }
            if flagged_near(local_masks, len, pad, p) {
                let (c, q) = choose|c: int, q: int|
                    #![trigger local_masks[c]@[q]]
                    0 <= c < local_masks.len() && 0 <= q < len && q < local_masks[c]@.len() && p
                        - pad <= q <= p + pad && local_masks[c]@[q];
                assert(set_in_any(local_masks, q));
                assert(union[q]);
            }
        }
        assert(mask =~= flags);
        let local = local_regions(local_masks, len, config);
        let placed = shifted(local, start as int);
        let short = |r: Region| span(r) <= config.relocalizer.max_span as int;
        lemma_local_regions(local_masks, len, config);
        lemma_filter_keeps(placed, short, region);
        if placed.contains(region) {
            let i = choose|i: int| 0 <= i < placed.len() && placed[i] == region;
            assert(local[i].0 < local[i].1 <= len);
            assert(local.contains(local[i]));
            law_joined_runs_are_bursts(flags, gap, local[i]);
        }
        if burst(flags, gap, region.0 - start, region.1 - start) {
            let inner = ((region.0 - start) as usize, (region.1 - start) as usize);
            law_joined_runs_are_bursts(flags, gap, inner);
            let i = choose|i: int| 0 <= i < local.len() && local[i] == inner;
            assert(placed[i] == region);
        }
    }
}

/// Whether the sample at `p` belongs to what was found in one of the windows.
pub open spec fn found_in_window(
    windows: Seq<Region>,
    local_masks: Seq<Vec<Vec<bool>>>,
    config: V21PassConfig,
    p: int,
) -> bool {
    exists|w: int, r: Region|
        #![trigger relocalized(local_masks[w]@, windows[w].0, windows[w].1, config).contains(r)]
        0 <= w < windows.len() && relocalized(
            local_masks[w]@,
            windows[w].0,
            windows[w].1,
            config,
        ).contains(r) && r.0 <= p < r.1
}

/// What the windows gave, window by window.
proof fn lemma_all_relocalized_contains(
    windows: Seq<Region>,
    local_masks: Seq<Vec<Vec<bool>>>,
    config: V21PassConfig,
    count: int,
    region: Region,
)
    requires
        0 <= count,
    ensures
        all_relocalized(windows, local_masks, config, count).contains(region) <==> exists|w: int|
            #![trigger relocalized(local_masks[w]@, windows[w].0, windows[w].1, config)]
            0 <= w < count && relocalized(
                local_masks[w]@,
                windows[w].0,
                windows[w].1,
                config,
            ).contains(region),
    decreases count,
{
    if count > 0 {
        let last = count - 1;
        let before = all_relocalized(windows, local_masks, config, last);
        let inside = relocalized(local_masks[last]@, windows[last].0, windows[last].1, config);
        let all = all_relocalized(windows, local_masks, config, count);
        lemma_all_relocalized_contains(windows, local_masks, config, last, region);
        assert(all == before + inside);
        if all.contains(region) {
            let i = choose|i: int| 0 <= i < all.len() && all[i] == region;
            if i < before.len() {
                assert(before[i] == region);
            } else {
                assert(inside[i - before.len()] == region);
            }
        }
        if before.contains(region) {
            let i = choose|i: int| 0 <= i < before.len() && before[i] == region;
            assert(all[i] == region);
        }
        if inside.contains(region) {
            let i = choose|i: int| 0 <= i < inside.len() && inside[i] == region;
            assert(all[before.len() + i] == region);
        }
    }
}

/// The regions to repair are exactly the bursts of what was found in the windows that
/// hold at most as many samples as a repair may and leave 16 samples on both sides;
/// none is left out. A recording below five samples has none.
pub proof fn law_detection_finds_bursts(
    len: int,
    windows: Seq<Region>,
    local_masks: Seq<Vec<Vec<bool>>>,
    config: V21PassConfig,
    flags: Seq<bool>,
    region: Region,
)
    requires
        upright(windows),
        apart(windows, 0),
        forall|w: int| 0 <= w < windows.len() ==> (#[trigger] windows[w]).1 <= len,
        flags.len() == len,
        forall|p: int|
            0 <= p < len ==> (#[trigger] flags[p] <==> found_in_window(
                windows,
                local_masks,
                config,
                p,
            )),
    ensures
        found_regions(len, windows, local_masks, config).contains(region) <==> {
            &&& len >= 5
            &&& burst(flags, config.final_merge_gap as int, region.0 as int, region.1 as int)
            &&& region.1 - region.0 <= config.relocalizer.max_span
            &&& region.0 >= 16
            &&& region.1 + 16 <= len
        },
{
    let count = windows.len() as int;
    let gap = config.final_merge_gap as int;
    if len >= 5 {
        let all = all_relocalized(windows, local_masks, config, count);
        let keep = |r: Region| repairable(r, config, len);
        lemma_all_relocalized(windows, local_masks, config, count);
        assert forall|i: int| 0 <= i < all.len() implies (#[trigger] all[i]).0 < all[i].1
            <= len by {
            let w = choose|w: int|
                0 <= w < count && (#[trigger] windows[w]).0 <= all[i].0 && all[i].1
                    <= windows[w].1;
            assert(windows[w].1 <= len);
        }
        assert forall|p: int| 0 <= p < flags.len() implies (#[trigger] flags[p] <==> exists|i: int|
            0 <= i < all.len() && (#[trigger] all[i]).0 <= p < all[i].1) by {
            assert(flags[p] <==> found_in_window(windows, local_masks, config, p));
            if found_in_window(windows, local_masks, config, p) {
                let (w, r) = choose|w: int, r: Region|
                    #![trigger relocalized(local_masks[w]@, windows[w].0, windows[w].1, config).contains(r)]
                    0 <= w < windows.len() && relocalized(
                        local_masks[w]@,
                        windows[w].0,
                        windows[w].1,
                        config,
                    ).contains(r) && r.0 <= p < r.1;
                lemma_all_relocalized_contains(windows, local_masks, config, count, r);
                let i = choose|i: int| 0 <= i < all.len() && all[i] == r;
                assert(all[i].0 <= p < all[i].1);
            }
            if covers(all, p) {
                let i = choose|i: int|
                    0 <= i < all.len() && (#[trigger] all[i]).0 <= p < all[i].1;
                assert(all.contains(all[i]));
                lemma_all_relocalized_contains(windows, local_masks, config, count, all[i]);
                let w = choose|w: int|
                    #![trigger relocalized(local_masks[w]@, windows[w].0, windows[w].1, config)]
                    0 <= w < count && relocalized(
                        local_masks[w]@,
                        windows[w].0,
                        windows[w].1,
                        config,
                    ).contains(all[i]);
                assert(relocalized(
                    local_masks[w]@,
                    windows[w].0,
                    windows[w].1,
                    config,
                ).contains(all[i]));
            }
        }
        law_merging_makes_bursts(all, flags, gap, region);
        lemma_filter_keeps(merged(all, gap), keep, region);
    }
}

/// A burst is repaired: in a window of at least five samples, a burst of the flags of
/// any channel, padded, with no other window near it, is among the regions to repair
/// exactly if it is no longer than a repair may be and leaves 16 samples on both
/// sides.
pub proof fn law_lone_burst_is_repaired(
    len: int,
    windows: Seq<Region>,
    local_masks: Seq<Vec<Vec<bool>>>,
    config: V21PassConfig,
    w: int,
    flags: Seq<bool>,
    region: Region,
)
    requires
        5 <= len,
        upright(windows),
        apart(windows, 0),
        forall|v: int| 0 <= v < windows.len() ==> (#[trigger] windows[v]).1 <= len,
        0 <= w < windows.len(),
        windows[w].0 + 5 <= windows[w].1,
        flags.len() == windows[w].1 - windows[w].0,
        forall|p: int|
            0 <= p < flags.len() ==> (#[trigger] flags[p] <==> flagged_near(
                local_masks[w]@,
                flags.len() as int,
                config.relocalizer.repair_pad as int,
                p,
            )),
        burst(
            flags,
            config.final_merge_gap as int,
            region.0 - windows[w].0,
            region.1 - windows[w].0,
        ),
        forall|v: int|
            0 <= v < windows.len() && v != w ==> (#[trigger] windows[v]).1 + config.final_merge_gap
                < region.0 || region.1 + config.final_merge_gap < windows[v].0,
    ensures
        found_regions(len, windows, local_masks, config).contains(region) <==> {
            &&& region.1 - region.0 <= config.relocalizer.max_span
            &&& region.0 >= 16
            &&& region.1 + 16 <= len
        },
{
    let gap = config.final_merge_gap as int;
    let all = Seq::new(len as nat, |p: int| found_in_window(windows, local_masks, config, p));
    law_detection_finds_bursts(len, windows, local_masks, config, all, region);
    if region.1 - region.0 <= config.relocalizer.max_span {
        let (start, end) = (windows[w].0, windows[w].1);
        let inside = relocalized(local_masks[w]@, start, end, config);
        law_relocalizing_finds_bursts(local_masks[w]@, start, end, config, flags, region);
        assert(inside.contains(region));
        assert(windows[w].1 <= len);
        assert forall|p: int| region.0 <= p < region.1 implies #[trigger] flag_follows(
            all,
            gap,
            region.1 as int,
            p,
        ) by {
            assert(relocalized(
                local_masks[w]@,
                windows[w].0,
                windows[w].1,
                config,
            ).contains(region));
            assert(found_in_window(windows, local_masks, config, p));
            assert(all[p]);
        }
        assert(flag_follows(all, gap, region.1 as int, region.0 as int));
        assert forall|p: int|
            0 <= p < all.len() && !(region.0 <= p < region.1) && #[trigger] all[p] implies p + 1
            + gap < region.0 || region.1 + gap < p by {
            let (v, r) = choose|v: int, r: Region|
                #![trigger relocalized(local_masks[v]@, windows[v].0, windows[v].1, config).contains(r)]
                0 <= v < windows.len() && relocalized(
                    local_masks[v]@,
                    windows[v].0,
                    windows[v].1,
                    config,
                ).contains(r) && r.0 <= p < r.1;
            let found = relocalized(local_masks[v]@, windows[v].0, windows[v].1, config);
            law_relocalized_lie_in_window(local_masks[v]@, windows[v].0, windows[v].1, config);
            let j = choose|j: int| 0 <= j < found.len() && found[j] == r;
            assert(windows[v].0 <= found[j].0 < found[j].1 <= windows[v].1);
            if v == w {
                let i = choose|i: int| 0 <= i < inside.len() && inside[i] == region;
                if i < j {
                    assert(inside[i].1 + gap < inside[j].0);
                } else if j < i {
                    assert(inside[j].1 + gap < inside[i].0);
                }
            }
        }
        assert(found_in_window(windows, local_masks, config, region.0 as int)) by {
            assert(relocalized(
                local_masks[w]@,
                windows[w].0,
                windows[w].1,
                config,
            ).contains(region));
        }
        assert(found_in_window(windows, local_masks, config, region.1 - 1)) by {
            assert(relocalized(
                local_masks[w]@,
                windows[w].0,
                windows[w].1,
                config,
            ).contains(region));
        }
        assert(all[region.0 as int] && all[region.1 - 1]);
    }
}

// ---------------------------------------------------------------- windows
/// The windows of all channels together are exactly the bursts of the samples that
/// belong to a window of some channel, as far as they are not too long.
pub proof fn law_channels_join_to_bursts(
    channel_windows: Seq<Vec<Region>>,
    config: V21PassConfig,
    len: int,
    flags: Seq<bool>,
    region: Region,
)
    requires
        len <= usize::MAX,
        flags.len() == len,
        forall|p: int|
            0 <= p < len ==> (#[trigger] flags[p] <==> exists|c: int, i: int|
                #![trigger channel_windows[c]@[i]]
                0 <= c < channel_windows.len() && 0 <= i < channel_windows[c]@.len()
                    && channel_windows[c]@[i].0 <= p < channel_windows[c]@[i].1),
    ensures
        spectral_windows(channel_windows, config, len).contains(region) <==> {
            &&& burst(flags, config.candidate_merge_gap as int, region.0 as int, region.1 as int)
            &&& region.1 - region.0 <= config.max_candidate_span
        },
{
    let mask = channel_union(channel_windows, len);
    let short = |r: Region| span(r) <= config.max_candidate_span as int;
    assert forall|p: int| 0 <= p < len implies mask[p] == flags[p] by {
        if covered_by_any(channel_windows, p) {
            let c = choose|c: int|
                0 <= c < channel_windows.len() && covers((#[trigger] channel_windows[c])@, p);
            let i = choose|i: int|
                0 <= i < channel_windows[c]@.len() && (#[trigger] channel_windows[c]@[i]).0 <= p
                    < channel_windows[c]@[i].1;
            assert(channel_windows[c]@[i].0 <= p < channel_windows[c]@[i].1);
        }
        if flags[p] {
            let (c, i) = choose|c: int, i: int|
                #![trigger channel_windows[c]@[i]]
                0 <= c < channel_windows.len() && 0 <= i < channel_windows[c]@.len()
                    && channel_windows[c]@[i].0 <= p < channel_windows[c]@[i].1;
            assert(covers(channel_windows[c]@, p));
        }
    }
    assert(mask =~= flags);
    law_joined_runs_are_bursts(flags, config.candidate_merge_gap as int, region);
    lemma_filter_keeps(
        merged(true_runs(flags), config.candidate_merge_gap as int),
        short,
        region,
    );
}

/// Mapping with gaps gives exactly what some region is mapped to.
proof fn lemma_filter_map_gives(
    regions: Seq<Region>,
    f: spec_fn(Region) -> Option<Region>,
    window: Region,
)
    ensures
        regions.filter_map(f).contains(window) <==> exists|r: Region| #[trigger]
            regions.contains(r) && f(r) == Some(window),
    decreases regions.len(),
{
    let windows = regions.filter_map(f);
    if regions.len() > 0 {
        let rest = regions.drop_last();
        let before = rest.filter_map(f);
        let last = regions.last();
        assert(regions[regions.len() - 1] == last);
        lemma_filter_map_gives(rest, f, window);
        if windows.contains(window) {
            let k = choose|k: int| 0 <= k < windows.len() && windows[k] == window;
            if k < before.len() {
                assert(before[k] == window);
                let r = choose|r: Region| #[trigger] rest.contains(r) && f(r) == Some(window);
                let i = choose|i: int| 0 <= i < rest.len() && rest[i] == r;
                assert(regions[i] == r);
                assert(regions.contains(r));
            } else {
                assert(f(last) == Some(window));
                assert(regions.contains(last));
            }
        }
        if exists|r: Region| #[trigger] regions.contains(r) && f(r) == Some(window) {
            let r = choose|r: Region| #[trigger] regions.contains(r) && f(r) == Some(window);
            let i = choose|i: int| 0 <= i < regions.len() && regions[i] == r;
            if i < rest.len() {
                assert(rest[i] == r);
                assert(rest.contains(r));
                let k = choose|k: int| 0 <= k < before.len() && before[k] == window;
                assert(windows[k] == window);
            } else {
                assert(windows[windows.len() - 1] == window);
            }
        }
    }
}

/// Whether a window holds exactly the samples of a recording of `len` samples that
/// lie at most `reach` samples before `from` or behind `to`, or between them.
pub open spec fn surrounds(window: Region, from: int, to: int, reach: int, len: int) -> bool {
    &&& window.0 < window.1
    &&& forall|p: int|
        #![trigger in_window(window, p)]
        in_window(window, p) <==> 0 <= p < len && from - reach <= p < to + reach
}

/// Whether a sample belongs to a window.
pub open spec fn in_window(window: Region, p: int) -> bool {
    window.0 <= p < window.1
}

/// The fallback windows are exactly the surroundings of the bursts of what was flagged
/// in some channel, as far as they are not too long.
pub proof fn law_fallback_surrounds_bursts(
    masks: Seq<Vec<bool>>,
    config: V21PassConfig,
    len: int,
    flags: Seq<bool>,
    window: Region,
)
    requires
        len <= usize::MAX,
        flags.len() == len,
        forall|p: int|
            0 <= p < len ==> (#[trigger] flags[p] <==> exists|c: int|
                0 <= c < masks.len() && p < (#[trigger] masks[c])@.len() && masks[c]@[p]),
    ensures
        fallback_windows(masks, config, len).contains(window) <==> {
            &&& window.1 - window.0 <= config.max_candidate_span
            &&& exists|r: Region|
                #![trigger burst(flags, config.final_merge_gap as int, r.0 as int, r.1 as int)]
                burst(flags, config.final_merge_gap as int, r.0 as int, r.1 as int) && surrounds(
                    window,
                    r.0 as int,
                    r.1 as int,
                    config.candidate_dilation as int,
                    len,
                )
        },
{
    let gap = config.final_merge_gap as int;
    let d = config.candidate_dilation as int;
    let mask = union_mask(masks, len);
    let window_of = |r: Region| dilated_window(r, config, len);
    let joined = merged(true_runs(mask), gap);
    assert(mask =~= flags);
    lemma_filter_map_gives(joined, window_of, window);
    if joined.filter_map(window_of).contains(window) {
        let r = choose|r: Region| #[trigger] joined.contains(r) && window_of(r) == Some(window);
        law_joined_runs_are_bursts(flags, gap, r);
        assert(burst(flags, gap, r.0 as int, r.1 as int));
        assert(surrounds(window, r.0 as int, r.1 as int, d, len));
    }
    if window.1 - window.0 <= config.max_candidate_span && exists|r: Region|
        #![trigger burst(flags, config.final_merge_gap as int, r.0 as int, r.1 as int)]
        burst(flags, config.final_merge_gap as int, r.0 as int, r.1 as int) && surrounds(
            window,
            r.0 as int,
            r.1 as int,
            d,
            len,
        ) {
        let r = choose|r: Region|
            #![trigger burst(flags, config.final_merge_gap as int, r.0 as int, r.1 as int)]
            burst(flags, config.final_merge_gap as int, r.0 as int, r.1 as int) && surrounds(
                window,
                r.0 as int,
                r.1 as int,
                d,
                len,
            );
        law_joined_runs_are_bursts(flags, gap, r);
        lemma_surroundings(window, r.0 as int, r.1 as int, d, len);
        assert(window_of(r) == Some(window));
        assert(joined.contains(r));
    }
}

/// Where the surroundings of a stretch start and end.
proof fn lemma_surroundings(window: Region, from: int, to: int, reach: int, len: int)
    requires
        surrounds(window, from, to, reach, len),
        0 <= reach,
    ensures
        window.0 == (if from - reach < 0 {
            0
        } else {
            from - reach
        }),
        window.1 == (if to + reach < len {
            to + reach
        } else {
            len
        }),
{
    assert(in_window(window, window.0 as int));
    assert(in_window(window, window.1 - 1));
    assert(!in_window(window, window.0 - 1));
    assert(!in_window(window, window.1 as int));
}

/// Supplementing gives exactly the bursts of the samples that belong to a spectral
/// window, or to a fallback window that shares no sample with any of them.
pub proof fn law_supplementing_makes_bursts(
    spectral: Seq<Region>,
    fallback: Seq<Region>,
    merge_gap: int,
    flags: Seq<bool>,
    region: Region,
)
    requires
        0 <= merge_gap,
        filled(spectral, flags.len() as int),
        filled(fallback, flags.len() as int),
        forall|p: int|
            0 <= p < flags.len() ==> (#[trigger] flags[p] <==> {
                ||| exists|i: int|
                    0 <= i < spectral.len() && (#[trigger] spectral[i]).0 <= p < spectral[i].1
                ||| exists|k: int|
                    0 <= k < fallback.len() && (#[trigger] fallback[k]).0 <= p < fallback[k].1
                        && forall|q: int, i: int|
                        #![trigger in_window(fallback[k], q), spectral[i]]
                        0 <= i < spectral.len() && in_window(fallback[k], q) ==> !(spectral[i].0
                            <= q < spectral[i].1)
            }),
    ensures
        supplemented(spectral, fallback, merge_gap).contains(region) <==> burst(
            flags,
            merge_gap,
            region.0 as int,
            region.1 as int,
        ),
{
    let keep = |r: Region| free_of(spectral, r);
    let all = with_free(spectral, fallback);
    let free = fallback.filter(keep);
    let sorted = all.sort_by(window_order());
    lemma_sorted_windows(all);
    lemma_filter(fallback, keep, 0);
    assert forall|k: int| 0 <= k < sorted.len() implies (#[trigger] sorted[k]).0 < sorted[k].1
        <= flags.len() by {
        assert(sorted.contains(sorted[k]));
        let i = choose|i: int| 0 <= i < all.len() && all[i] == sorted[k];
        if i < spectral.len() {
            assert(all[i] == spectral[i]);
        } else {
            assert(all[i] == free[i - spectral.len()]);
            let j = choose|j: int|
                0 <= j < fallback.len() && fallback[j] == free[i - spectral.len()];
            assert(fallback[j].0 < fallback[j].1 <= flags.len());
        }
    }
    assert forall|p: int| 0 <= p < flags.len() implies (#[trigger] flags[p] <==> exists|i: int|
        0 <= i < sorted.len() && (#[trigger] sorted[i]).0 <= p < sorted[i].1) by {
        if covers(sorted, p) {
            let k = choose|k: int|
                0 <= k < sorted.len() && (#[trigger] sorted[k]).0 <= p < sorted[k].1;
            assert(sorted.contains(sorted[k]));
            let i = choose|i: int| 0 <= i < all.len() && all[i] == sorted[k];
            if i < spectral.len() {
                assert(spectral[i].0 <= p < spectral[i].1);
            } else {
                let f = free[i - spectral.len()];
                assert(f == all[i]);
                assert(keep(f));
                let j = choose|j: int| 0 <= j < fallback.len() && fallback[j] == f;
                assert(fallback[j].0 <= p < fallback[j].1);
                assert forall|q: int, n: int|
                    #![trigger in_window(fallback[j], q), spectral[n]]
                    0 <= n < spectral.len() && in_window(fallback[j], q) implies !(spectral[n].0
                    <= q < spectral[n].1) by {
                    assert(!overlap(f, spectral[n]));
                }
            }
        }
        if exists|i: int|
            0 <= i < spectral.len() && (#[trigger] spectral[i]).0 <= p < spectral[i].1 {
            let i = choose|i: int|
                0 <= i < spectral.len() && (#[trigger] spectral[i]).0 <= p < spectral[i].1;
            assert(all[i] == spectral[i]);
            assert(sorted.contains(all[i]));
            let k = choose|k: int| 0 <= k < sorted.len() && sorted[k] == all[i];
            assert(sorted[k].0 <= p < sorted[k].1);
        } else if flags[p] {
            let k = choose|k: int|
                0 <= k < fallback.len() && (#[trigger] fallback[k]).0 <= p < fallback[k].1
                    && forall|q: int, i: int|
                    #![trigger in_window(fallback[k], q), spectral[i]]
                    0 <= i < spectral.len() && in_window(fallback[k], q) ==> !(spectral[i].0 <= q
                        < spectral[i].1);
            let f = fallback[k];
            assert forall|i: int| 0 <= i < spectral.len() implies !overlap(
                f,
                #[trigger] spectral[i],
            ) by {
                let q = if f.0 < spectral[i].0 {
                    spectral[i].0 as int
                } else {
                    f.0 as int
                };
                assert(spectral[i].0 < spectral[i].1);
                if overlap(f, spectral[i]) {
                    assert(in_window(fallback[k], q));
                    assert(spectral[i].0 <= q < spectral[i].1);
                }
            }
            assert(keep(f));
            fallback.lemma_filter_contains(keep, k);
            let j = choose|j: int| 0 <= j < free.len() && free[j] == f;
            assert(all[spectral.len() + j] == f);
            assert(sorted.contains(f));
            let n = choose|n: int| 0 <= n < sorted.len() && sorted[n] == f;
            assert(sorted[n].0 <= p < sorted[n].1);
        }
    }
    law_merging_makes_bursts(sorted, flags, merge_gap, region);
}

/// The candidate windows are the spectral ones; the residual detector's are taken into
/// account exactly where a limit is set and the rate does not exceed it.
pub proof fn law_when_fallback_counts(
    channel_windows: Seq<Vec<Region>>,
    fallback_masks: Seq<Vec<bool>>,
    sample_rate: u32,
    config: V21PassConfig,
    len: int,
)
    ensures
        ({
            let spectral = spectral_windows(channel_windows, config, len);
            let all = candidate_windows(channel_windows, fallback_masks, sample_rate, config, len);
            match config.residual_fallback_sample_rate_limit {
                None => all == spectral,
                Some(rate) => if sample_rate <= rate {
                    all == supplemented(
                        spectral,
                        fallback_windows(fallback_masks, config, len),
                        config.candidate_merge_gap as int,
                    )
                } else {
                    all == spectral
                },
            }
        }),
        falls_back(sample_rate, V21PassConfig::crackle(sample_rate)) <==> sample_rate <= 12_000,
        !falls_back(sample_rate, V21PassConfig::click(sample_rate)),
{
}

/// A run of flagged frames has a window exactly if it has enough frames and its window
/// is not too long. The window holds exactly the samples of the recording that lie at
/// most the dilation away from what the frames were computed from.
pub proof fn law_run_window(
    run: Region,
    frame_starts: Seq<usize>,
    sample_len: int,
    config: V21PassConfig,
    window: Region,
)
    requires
        run.0 < run.1 <= frame_starts.len(),
        0 <= sample_len <= usize::MAX,
    ensures
        run_window(run, frame_starts, sample_len, config) == Some(window) <==> {
            &&& run.1 - run.0 >= config.min_flag_frames
            &&& window.1 - window.0 <= config.max_candidate_span
            &&& surrounds(
                window,
                frame_starts[run.0 as int] as int,
                if frame_starts[run.1 - 1] + config.fft_size <= sample_len {
                    frame_starts[run.1 - 1] + config.fft_size
                } else {
                    sample_len
                },
                config.candidate_dilation as int,
                sample_len,
            )
        },
{
    let d = config.candidate_dilation as int;
    let from = frame_starts[run.0 as int] as int;
    let to = if frame_starts[run.1 - 1] + config.fft_size <= sample_len {
        frame_starts[run.1 - 1] + config.fft_size
    } else {
        sample_len
    };
    if surrounds(window, from, to, d, sample_len) {
        lemma_surroundings(window, from, to, d, sample_len);
    }
}

/// The candidate windows of a channel are exactly the bursts of the samples that belong
/// to the window of some run of flagged frames.
pub proof fn law_flagged_runs_become_windows(
    features: Seq<FrameFeatures>,
    frame_starts: Seq<usize>,
    sample_len: int,
    config: V21PassConfig,
    flags: Seq<bool>,
    region: Region,
)
    requires
        0 <= sample_len <= usize::MAX,
        features.len() <= frame_starts.len(),
        features.len() <= usize::MAX,
        forall|i: int, j: int|
            0 <= i <= j < frame_starts.len() ==> frame_starts[i] <= frame_starts[j],
        flags.len() == sample_len,
        forall|p: int|
            0 <= p < sample_len ==> (#[trigger] flags[p] <==> exists|run: Region|
                #![trigger frame_run(features, run)]
                frame_run(features, run) && (run_window(
                    run,
                    frame_starts,
                    sample_len,
                    config,
                ) matches Some(window) && window.0 <= p < window.1)),
    ensures
        merged(
            run_windows(features, frame_starts, sample_len, config),
            config.candidate_merge_gap as int,
        ).contains(region) <==> burst(
            flags,
            config.candidate_merge_gap as int,
            region.0 as int,
            region.1 as int,
        ),
{
    let runs = true_runs(candidate_flags(features));
    let windows = run_windows(features, frame_starts, sample_len, config);
    law_runs_are_the_mask(candidate_flags(features));
    crate::cleanup::windows::lemma_run_windows_in_order(runs, frame_starts, sample_len, config);
    assert forall|p: int| 0 <= p < flags.len() implies (#[trigger] flags[p] <==> exists|i: int|
        0 <= i < windows.len() && (#[trigger] windows[i]).0 <= p < windows[i].1) by {
        if covers(windows, p) {
            let i = choose|i: int|
                0 <= i < windows.len() && (#[trigger] windows[i]).0 <= p < windows[i].1;
            let k = choose|k: int|
                0 <= k < runs.len() && run_window(
                    #[trigger] runs[k],
                    frame_starts,
                    sample_len,
                    config,
                ) == Some(windows[i]);
            assert(runs.contains(runs[k]));
            lemma_frame_runs(features, runs[k]);
            assert(frame_run(features, runs[k]));
        }
        if flags[p] {
            let run = choose|run: Region|
                #![trigger frame_run(features, run)]
                frame_run(features, run) && (run_window(
                    run,
                    frame_starts,
                    sample_len,
                    config,
                ) matches Some(window) && window.0 <= p < window.1);
            lemma_frame_runs(features, run);
            let k = choose|k: int| 0 <= k < runs.len() && runs[k] == run;
            let window = run_window(runs[k], frame_starts, sample_len, config)->0;
            assert(windows.contains(window));
            let i = choose|i: int| 0 <= i < windows.len() && windows[i] == window;
            assert(windows[i].0 <= p < windows[i].1);
        }
    }
    law_merging_makes_bursts(windows, flags, config.candidate_merge_gap as int, region);
}

/// Whether the frames of a run are all candidates, and those next to it are not.
pub open spec fn frame_run(features: Seq<FrameFeatures>, run: Region) -> bool {
    &&& run.0 < run.1 <= features.len()
    &&& forall|i: int| run.0 <= i < run.1 ==> (#[trigger] features[i]).candidate
    &&& run.0 > 0 ==> !features[run.0 - 1].candidate
    &&& run.1 < features.len() ==> !features[run.1 as int].candidate
}

proof fn lemma_frame_runs(features: Seq<FrameFeatures>, run: Region)
    requires
        features.len() <= usize::MAX,
    ensures
        true_runs(candidate_flags(features)).contains(run) <==> frame_run(features, run),
{
    let flags = candidate_flags(features);
    let runs = true_runs(flags);
    law_runs_are_the_mask(flags);
    if runs.contains(run) {
        let k = choose|k: int| 0 <= k < runs.len() && runs[k] == run;
        assert forall|i: int| run.0 <= i < run.1 implies (#[trigger] features[i]).candidate by {
            assert(runs[k].0 <= i < runs[k].1);
            assert(flags[i]);
        }
        if run.0 > 0 && flags[run.0 - 1] {
            let p = run.0 - 1;
            let j = choose|j: int| 0 <= j < runs.len() && (#[trigger] runs[j]).0 <= p < runs[j].1;
            if j < k {
                assert(runs[j].1 + 0 < runs[k].0);
            } else if k < j {
                assert(runs[k].1 + 0 < runs[j].0);
            }
        }
        if run.1 < features.len() && flags[run.1 as int] {
            let p = run.1 as int;
            let j = choose|j: int| 0 <= j < runs.len() && (#[trigger] runs[j]).0 <= p < runs[j].1;
            if j < k {
                assert(runs[j].1 + 0 < runs[k].0);
            } else if k < j {
                assert(runs[k].1 + 0 < runs[j].0);
            }
        }
    }
    if frame_run(features, run) {
        assert(features[run.0 as int].candidate);
        assert(flags[run.0 as int]);
        let p = run.0 as int;
        let k = choose|k: int| 0 <= k < runs.len() && (#[trigger] runs[k]).0 <= p < runs[k].1;
        if runs[k].0 < run.0 {
            assert(runs[k].0 <= p - 1 < runs[k].1);
            assert(flags[p - 1]);
        }
        if runs[k].1 > run.1 {
            assert(runs[k].0 <= run.1 < runs[k].1);
            assert(flags[run.1 as int]);
        }
        if runs[k].1 < run.1 {
            let q = runs[k].1 as int;
            assert(features[q].candidate);
            assert(flags[q]);
            let j = choose|j: int| 0 <= j < runs.len() && (#[trigger] runs[j]).0 <= q < runs[j].1;
            if j < k {
                assert(runs[j].1 + 0 < runs[k].0);
            } else if k < j {
                assert(runs[k].1 + 0 < runs[j].0);
            }
        }
        assert(runs[k] == run);
    }
}

} // verus!
