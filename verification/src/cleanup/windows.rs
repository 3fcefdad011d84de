//! From flagged frames to the regions that are repaired.
//!
//! Runs of candidate frames become candidate windows; inside each window the
//! residual detector finds the samples that are actually damaged.
use vstd::prelude::*;

use crate::cleanup::frames::FrameFeatures;
use crate::cleanup::regions::{
    Region, dilate_mask, mark_regions, mask_to_regions, merge_close_regions, region_len,
    regions_overlap, union_masks,
};
#[allow(unused_imports)]
use crate::cleanup::regions::{
    apart, covers, dilated, in_order, law_merge_fills_small_holes, law_merge_separates,
    law_runs_are_the_mask, law_total_span_bound, merged, overlap, set_in_any, span, total_span,
    true_runs, union_mask, upright,
};
use crate::cleanup::v21::{MIN_CONTEXT_SAMPLES, ResidualRelocalizer, V21PassConfig};
use crate::cleanup::{ResidualDetectParams, odd_window};
#[allow(unused_imports)]
use crate::cleanup::{larger, odd_fit};
use crate::sorting::sorted;

verus! {

/// The smaller of two numbers.
pub open spec fn smaller(a: int, b: int) -> int {
    if b < a {
        b
    } else {
        a
    }
}

// ---------------------------------------------------------------- candidates
/// The candidate flags of frames.
pub open spec fn candidate_flags(features: Seq<FrameFeatures>) -> Seq<bool> {
    Seq::new(features.len(), |i: int| features[i].candidate)
}

/// The samples that a run of frames was computed from, inside the recording, with
/// the dilation on both sides.
pub open spec fn run_support(
    run: Region,
    frame_starts: Seq<usize>,
    sample_len: int,
    config: V21PassConfig,
) -> (int, int) {
    let first = frame_starts[run.0 as int] as int;
    let last = frame_starts[run.1 - 1] as int;
    let end = smaller(last + config.fft_size, sample_len);
    (
        larger(first - config.candidate_dilation, 0),
        smaller(end + config.candidate_dilation, sample_len),
    )
}

/// The candidate window of a run of flagged frames, if the run is long enough and
/// the window neither empty nor too long.
pub open spec fn run_window(
    run: Region,
    frame_starts: Seq<usize>,
    sample_len: int,
    config: V21PassConfig,
) -> Option<Region> {
    let (start, end) = run_support(run, frame_starts, sample_len, config);
    if run.1 - run.0 >= config.min_flag_frames && end > start && end - start
        <= config.max_candidate_span {
        Some((start as usize, end as usize))
    } else {
        None
    }
}

/// The candidate windows of a channel before they are merged.
pub open spec fn run_windows(
    features: Seq<FrameFeatures>,
    frame_starts: Seq<usize>,
    sample_len: int,
    config: V21PassConfig,
) -> Seq<Region> {
    true_runs(candidate_flags(features)).filter_map(
        |run: Region| run_window(run, frame_starts, sample_len, config),
    )
}

/// Turns the runs of flagged frames of a channel of `sample_len` samples into
/// candidate windows; `frame_starts` says where the frames start, at least those of
/// the runs that are long enough.
pub fn candidate_regions_from_features(
    frame_starts: &[usize],
    features: &[FrameFeatures],
    sample_len: usize,
    config: V21PassConfig,
) -> (windows: Vec<Region>)
    requires
        forall|k: int|
            0 <= k < true_runs(candidate_flags(features@)).len() && span(
                #[trigger] true_runs(candidate_flags(features@))[k],
            ) >= config.min_flag_frames ==> true_runs(candidate_flags(features@))[k].1
                <= frame_starts@.len(),
        sample_len + config.candidate_dilation <= usize::MAX,
    ensures
        windows@ == merged(
            run_windows(features@, frame_starts@, sample_len as int, config),
            config.candidate_merge_gap as int,
        ),
{
    let mut flags: Vec<bool> = Vec::with_capacity(features.len());
    let count: usize = features.len();
    let mut i: usize = 0;
    while i < count
        invariant
            i <= count == features@.len(),
            flags@ == candidate_flags(features@).take(i as int),
        decreases count - i,
    {
        flags.push(features[i].candidate);
        i += 1;
        assert(flags@ =~= candidate_flags(features@).take(i as int));
    }
    assert(flags@ =~= candidate_flags(features@));
    let runs = mask_to_regions(flags.as_slice());
    proof {
        law_runs_are_the_mask(flags@);
    }
    let ghost window_of = |run: Region| run_window(run, frame_starts@, sample_len as int, config);
    let mut windows: Vec<Region> = Vec::new();
    let mut k: usize = 0;
    while k < runs.len()
        invariant
            k <= runs@.len(),
            sample_len + config.candidate_dilation <= usize::MAX,
            forall|j: int|
                0 <= j < runs@.len() ==> (#[trigger] runs@[j]).0 < runs@[j].1,
            forall|j: int|
                0 <= j < runs@.len() && span(#[trigger] runs@[j]) >= config.min_flag_frames
                    ==> runs@[j].1 <= frame_starts@.len(),
            window_of == (|run: Region| run_window(run, frame_starts@, sample_len as int, config)),
            windows@ == runs@.take(k as int).filter_map(window_of),
        decreases runs@.len() - k,
    {
        let run = runs[k];
        assert(runs@.take(k + 1).drop_last() =~= runs@.take(k as int));
        assert(runs@.take(k + 1).last() == run);
        assert(runs@[k as int].0 < runs@[k as int].1);
        if run.1 - run.0 >= config.min_flag_frames {
            let first: usize = frame_starts[run.0];
            let last: usize = frame_starts[run.1 - 1];
            let start: usize = if first < config.candidate_dilation {
                0
            } else {
                first - config.candidate_dilation
            };
            let support_end: usize = if last < sample_len && config.fft_size < sample_len - last {
                last + config.fft_size
            } else {
                sample_len
            };
            let end: usize = if support_end + config.candidate_dilation < sample_len {
                support_end + config.candidate_dilation
            } else {
                sample_len
            };
            if end > start && end - start <= config.max_candidate_span {
                windows.push((start, end));
            }
        }
        assert(windows@ =~= runs@.take(k + 1).filter_map(window_of));
        k += 1;
    }
    assert(runs@.take(k as int) =~= runs@);
    merge_close_regions(windows.as_slice(), config.candidate_merge_gap)
}

/// A window covers the whole support of its run: it starts no later than the run's
/// first frame and ends no earlier than the last frame's last sample, or with the
/// recording; it stays inside the recording.
pub proof fn law_window_covers_support(
    run: Region,
    frame_starts: Seq<usize>,
    sample_len: int,
    config: V21PassConfig,
)
    requires
        run.0 < run.1 <= frame_starts.len(),
        0 <= sample_len <= usize::MAX,
    ensures
        run_window(run, frame_starts, sample_len, config) matches Some(window) ==> {
            &&& window.0 <= frame_starts[run.0 as int]
            &&& window.1 >= smaller(frame_starts[run.1 - 1] + config.fft_size, sample_len)
            &&& window.0 < window.1 <= sample_len
            &&& window.1 - window.0 <= config.max_candidate_span
        },
{
}

/// Whether the sample at `p` belongs to a window of one of the channels.
pub open spec fn covered_by_any(channel_windows: Seq<Vec<Region>>, p: int) -> bool {
    exists|c: int| 0 <= c < channel_windows.len() && covers((#[trigger] channel_windows[c])@, p)
}

/// The samples of the first `len` that belong to a window of one of the channels.
pub open spec fn channel_union(channel_windows: Seq<Vec<Region>>, len: int) -> Seq<bool> {
    Seq::new(len as nat, |p: int| covered_by_any(channel_windows, p))
}

/// The regions of at most `max_span` samples.
pub open spec fn no_longer_than(regions: Seq<Region>, max_span: int) -> Seq<Region> {
    regions.filter(|r: Region| span(r) <= max_span)
}

/// The spectral candidate windows of all channels together.
pub open spec fn spectral_windows(
    channel_windows: Seq<Vec<Region>>,
    config: V21PassConfig,
    len: int,
) -> Seq<Region> {
    no_longer_than(
        merged(
            true_runs(channel_union(channel_windows, len)),
            config.candidate_merge_gap as int,
        ),
        config.max_candidate_span as int,
    )
}

/// Keeps the regions of at most `max_span` samples.
fn keep_short(regions: &Vec<Region>, max_span: usize) -> (kept: Vec<Region>)
    ensures
        kept@ == no_longer_than(regions@, max_span as int),
{
    let ghost short = |r: Region| span(r) <= max_span as int;
    let mut kept: Vec<Region> = Vec::new();
    let mut i: usize = 0;
    while i < regions.len()
        invariant
            i <= regions@.len(),
            short == (|r: Region| span(r) <= max_span as int),
            kept@ == regions@.take(i as int).filter(short),
        decreases regions@.len() - i,
    {
        proof {
            reveal(Seq::filter);
            assert(regions@.take(i + 1).drop_last() =~= regions@.take(i as int));
            assert(regions@.take(i + 1).last() == regions@[i as int]);
        }
        if region_len(regions[i]) <= max_span {
            kept.push(regions[i]);
        }
        i += 1;
    }
    assert(regions@.take(i as int) =~= regions@);
    kept
}

/// Joins the candidate windows of all channels.
fn join_channel_windows(
    channel_windows: &[Vec<Region>],
    config: V21PassConfig,
    len: usize,
) -> (windows: Vec<Region>)
    ensures
        windows@ == spectral_windows(channel_windows@, config, len as int),
{
    let mut mask: Vec<bool> = vec![false; len];
    let mut c: usize = 0;
    while c < channel_windows.len()
        invariant
            c <= channel_windows@.len(),
            mask@.len() == len,
            forall|p: int|
                0 <= p < len ==> (#[trigger] mask@[p] <==> covered_by_any(
                    channel_windows@.take(c as int),
                    p,
                )),
        decreases channel_windows@.len() - c,
    {
        let ghost before = mask@;
        mark_regions(&mut mask, channel_windows[c].as_slice());
        proof {
            let done = channel_windows@.take(c as int);
            let more = channel_windows@.take(c + 1);
            assert(more[c as int] == channel_windows@[c as int]);
            assert(forall|k: int| 0 <= k < c ==> done[k] == more[k]);
            assert forall|p: int| 0 <= p < len implies (#[trigger] mask@[p] <==> covered_by_any(
                more,
                p,
            )) by {
                assert(before[p] <==> covered_by_any(done, p));
                assert(mask@[p] == (before[p] || covers(channel_windows@[c as int]@, p)));
                if covered_by_any(done, p) {
                    let k = choose|k: int|
                        0 <= k < done.len() && covers((#[trigger] done[k])@, p);
                    assert(covers(more[k]@, p));
                }
                if covers(channel_windows@[c as int]@, p) {
                    assert(covers(more[c as int]@, p));
                }
                if covered_by_any(more, p) {
                    let k = choose|k: int|
                        0 <= k < more.len() && covers((#[trigger] more[k])@, p);
                    if k < c {
                        assert(covers(done[k]@, p));
                    }
                }
            }
        }
        c += 1;
    }
    assert(channel_windows@.take(c as int) =~= channel_windows@);
    assert(mask@ =~= channel_union(channel_windows@, len as int));
    let runs = mask_to_regions(mask.as_slice());
    let joined = merge_close_regions(runs.as_slice(), config.candidate_merge_gap);
    keep_short(&joined, config.max_candidate_span)
}

// ---------------------------------------------------------------- fallback
/// Whether the residual detector supplements the spectral windows at this rate.
pub open spec fn falls_back(sample_rate: u32, config: V21PassConfig) -> bool {
    config.residual_fallback_sample_rate_limit matches Some(rate_limit) && sample_rate <= rate_limit
}

/// Whether the residual detector supplements the spectral windows at this rate. Its
/// settings are then those of [`crackle_detect_params`](crate::cleanup::v1::crackle_detect_params).
pub fn uses_fallback(sample_rate: u32, config: V21PassConfig) -> (used: bool)
    ensures
        used == falls_back(sample_rate, config),
{
    match config.residual_fallback_sample_rate_limit {
        Some(rate_limit) => sample_rate <= rate_limit,
        None => false,
    }
}

/// A detected region with the dilation on both sides, unless that is empty or too
/// long.
pub open spec fn dilated_window(region: Region, config: V21PassConfig, len: int) -> Option<Region> {
    let start = larger(region.0 - config.candidate_dilation, 0);
    let end = smaller(region.1 + config.candidate_dilation, len);
    if end > start && end - start <= config.max_candidate_span {
        Some((start as usize, end as usize))
    } else {
        None
    }
}

/// The candidate windows around what the residual detector flagged.
pub open spec fn fallback_windows(
    masks: Seq<Vec<bool>>,
    config: V21PassConfig,
    len: int,
) -> Seq<Region> {
    merged(true_runs(union_mask(masks, len)), config.final_merge_gap as int).filter_map(
        |region: Region| dilated_window(region, config, len),
    )
}

/// Turns what the residual detector flagged in each channel into candidate windows.
pub fn fallback_crackle_candidate_windows(
    masks: &[Vec<bool>],
    config: V21PassConfig,
    len: usize,
) -> (windows: Vec<Region>)
    requires
        len + config.candidate_dilation <= usize::MAX,
    ensures
        windows@ == fallback_windows(masks@, config, len as int),
{
    let union = union_masks(masks, len);
    let runs = mask_to_regions(union.as_slice());
    let regions = merge_close_regions(runs.as_slice(), config.final_merge_gap);
    proof {
        law_runs_are_the_mask(union@);
        lemma_apart_is_in_order(runs@, 0);
        law_merge_separates(runs@, config.final_merge_gap as int);
    }
    let ghost window_of = |region: Region| dilated_window(region, config, len as int);
    let mut windows: Vec<Region> = Vec::new();
    let mut i: usize = 0;
    assert forall|j: int| 0 <= j < regions@.len() implies (#[trigger] regions@[j]).1 <= len by {
        let k = choose|k: int| 0 <= k < runs@.len() && runs@[k].1 == regions@[j].1;
        assert(runs@[k].1 <= union@.len());
    }
    while i < regions.len()
        invariant
            i <= regions@.len(),
            len + config.candidate_dilation <= usize::MAX,
            forall|j: int| 0 <= j < regions@.len() ==> (#[trigger] regions@[j]).1 <= len,
            window_of == (|region: Region| dilated_window(region, config, len as int)),
            windows@ == regions@.take(i as int).filter_map(window_of),
        decreases regions@.len() - i,
    {
        let region = regions[i];
        assert(regions@.take(i + 1).drop_last() =~= regions@.take(i as int));
        assert(regions@.take(i + 1).last() == region);
        assert(regions@[i as int].1 <= len);
        let start: usize = if region.0 < config.candidate_dilation {
            0
        } else {
            region.0 - config.candidate_dilation
        };
        let end: usize = if region.1 + config.candidate_dilation < len {
            region.1 + config.candidate_dilation
        } else {
            len
        };
        if end > start && end - start <= config.max_candidate_span {
            windows.push((start, end));
        }
        assert(windows@ =~= regions@.take(i + 1).filter_map(window_of));
        i += 1;
    }
    assert(regions@.take(i as int) =~= regions@);
    windows
}

/// The order in which windows are merged: by where they start, then by where they
/// end.
pub open spec fn window_order() -> spec_fn(Region, Region) -> bool {
    |a: Region, b: Region| a.0 < b.0 || (a.0 == b.0 && a.1 <= b.1)
}

/// Whether a region overlaps none of the regions.
pub open spec fn free_of(regions: Seq<Region>, region: Region) -> bool {
    forall|i: int| 0 <= i < regions.len() ==> !overlap(region, #[trigger] regions[i])
}

/// The spectral windows and the fallback windows that overlap none of them.
pub open spec fn with_free(spectral: Seq<Region>, fallback: Seq<Region>) -> Seq<Region> {
    spectral + fallback.filter(|r: Region| free_of(spectral, r))
}

/// The spectral windows supplemented by the fallback windows that overlap none of
/// them.
pub open spec fn supplemented(
    spectral: Seq<Region>,
    fallback: Seq<Region>,
    merge_gap: int,
) -> Seq<Region> {
    merged(with_free(spectral, fallback).sort_by(window_order()), merge_gap)
}

proof fn lemma_window_order_is_total()
    ensures
        vstd::relations::total_ordering(window_order()),
{
}

/// Whether a region comes no later than another.
fn is_window_no_later(a: Region, b: Region) -> (holds: bool)
    ensures
        holds == window_order()(a, b),
{
    a.0 < b.0 || (a.0 == b.0 && a.1 <= b.1)
}

/// Whether a region overlaps none of the regions.
fn is_free_of(regions: &Vec<Region>, region: Region) -> (free: bool)
    ensures
        free == free_of(regions@, region),
{
    let mut i: usize = 0;
    while i < regions.len()
        invariant
            i <= regions@.len(),
            forall|k: int| 0 <= k < i ==> !overlap(region, #[trigger] regions@[k]),
        decreases regions@.len() - i,
    {
        if regions_overlap(region, regions[i]) {
            assert(overlap(region, regions@[i as int]));
            return false;
        }
        i += 1;
    }
    true
}

/// Supplements the spectral windows by the fallback windows that overlap none of
/// them.
pub fn supplement_candidate_windows(
    spectral: Vec<Region>,
    fallback: Vec<Region>,
    merge_gap: usize,
) -> (windows: Vec<Region>)
    ensures
        windows@ == supplemented(spectral@, fallback@, merge_gap as int),
{
    let ghost free = |r: Region| free_of(spectral@, r);
    let mut all: Vec<Region> = Vec::new();
    let mut i: usize = 0;
    while i < spectral.len()
        invariant
            i <= spectral@.len(),
            all@ == spectral@.take(i as int),
        decreases spectral@.len() - i,
    {
        all.push(spectral[i]);
        i += 1;
        assert(all@ =~= spectral@.take(i as int));
    }
    assert(all@ =~= spectral@ + fallback@.take(0).filter(free)) by {
        reveal(Seq::filter);
    }
    let mut k: usize = 0;
    while k < fallback.len()
        invariant
            k <= fallback@.len(),
            free == (|r: Region| free_of(spectral@, r)),
            all@ == spectral@ + fallback@.take(k as int).filter(free),
        decreases fallback@.len() - k,
    {
        proof {
            reveal(Seq::filter);
            assert(fallback@.take(k + 1).drop_last() =~= fallback@.take(k as int));
            assert(fallback@.take(k + 1).last() == fallback@[k as int]);
        }
        if is_free_of(&spectral, fallback[k]) {
            all.push(fallback[k]);
        }
        k += 1;
        assert(all@ =~= spectral@ + fallback@.take(k as int).filter(free));
    }
    assert(fallback@.take(k as int) =~= fallback@);
    assert(all@ == with_free(spectral@, fallback@));
    proof {
        lemma_window_order_is_total();
    }
    let ordered = sorted(all.as_slice(), is_window_no_later, Ghost(window_order()));
    merge_close_regions(ordered.as_slice(), merge_gap)
}

/// The candidate windows of a recording: the spectral ones of all channels, and at
/// low rates those of the residual detector in addition.
pub open spec fn candidate_windows(
    channel_windows: Seq<Vec<Region>>,
    fallback_masks: Seq<Vec<bool>>,
    sample_rate: u32,
    config: V21PassConfig,
    len: int,
) -> Seq<Region> {
    let spectral = spectral_windows(channel_windows, config, len);
    if falls_back(sample_rate, config) {
        supplemented(
            spectral,
            fallback_windows(fallback_masks, config, len),
            config.candidate_merge_gap as int,
        )
    } else {
        spectral
    }
}

/// Joins the candidate windows of all channels. Where the residual detector is used
/// in addition, `fallback_masks` holds what it flagged in each channel.
pub fn detect_candidate_windows(
    channel_windows: &[Vec<Region>],
    fallback_masks: &[Vec<bool>],
    sample_rate: u32,
    config: V21PassConfig,
    len: usize,
) -> (windows: Vec<Region>)
    requires
        falls_back(sample_rate, config) ==> len + config.candidate_dilation <= usize::MAX,
    ensures
        windows@ == candidate_windows(
            channel_windows@,
            fallback_masks@,
            sample_rate,
            config,
            len as int,
        ),
{
    let spectral = join_channel_windows(channel_windows, config, len);
    if !uses_fallback(sample_rate, config) {
        return spectral;
    }
    let fallback = fallback_crackle_candidate_windows(fallback_masks, config, len);
    supplement_candidate_windows(spectral, fallback, config.candidate_merge_gap)
}

// ---------------------------------------------------------------- relocalizing
/// The detector's settings inside a window of `candidate_len` samples.
pub open spec fn window_params(
    relocalizer: ResidualRelocalizer,
    candidate_len: int,
) -> ResidualDetectParams {
    ResidualDetectParams {
        mad_window: odd_fit(relocalizer.mad_window as int, candidate_len) as usize,
        z_hi: relocalizer.z_hi,
        z_lo: relocalizer.z_lo,
        edge_rms_mult: relocalizer.edge_rms_mult,
        max_click_samples: smaller(relocalizer.max_span as int, candidate_len) as usize,
        pad_samples: relocalizer.repair_pad,
    }
}

/// The detector's settings inside a window of `candidate_len` samples.
pub fn relocalizer_params_for_window(
    relocalizer: ResidualRelocalizer,
    candidate_len: usize,
) -> (params: ResidualDetectParams)
    ensures
        params == window_params(relocalizer, candidate_len as int),
{
    ResidualDetectParams {
        mad_window: odd_window(relocalizer.mad_window, candidate_len),
        z_hi: relocalizer.z_hi,
        z_lo: relocalizer.z_lo,
        edge_rms_mult: relocalizer.edge_rms_mult,
        max_click_samples: if candidate_len < relocalizer.max_span {
            candidate_len
        } else {
            relocalizer.max_span
        },
        pad_samples: relocalizer.repair_pad,
    }
}

/// Regions counted from a later first sample.
pub open spec fn shifted(regions: Seq<Region>, by: int) -> Seq<Region> {
    regions.map_values(|r: Region| ((r.0 + by) as usize, (r.1 + by) as usize))
}

/// The regions of a window counted from its start, however long.
pub open spec fn local_regions(masks: Seq<Vec<bool>>, len: int, config: V21PassConfig) -> Seq<
    Region,
> {
    merged(
        true_runs(dilated(union_mask(masks, len), config.relocalizer.repair_pad as int)),
        config.final_merge_gap as int,
    )
}

/// The regions inside the window from `start` to `end`, given what the detector
/// flagged there in each channel.
pub open spec fn relocalized(
    local_masks: Seq<Vec<bool>>,
    start: usize,
    end: usize,
    config: V21PassConfig,
) -> Seq<Region> {
    if span((start, end)) < 5 {
        seq![]
    } else {
        no_longer_than(
            shifted(local_regions(local_masks, end - start, config), start as int),
            config.relocalizer.max_span as int,
        )
    }
}

/// What holds of the regions of a window.
pub(crate) proof fn lemma_local_regions(masks: Seq<Vec<bool>>, len: int, config: V21PassConfig)
    requires
        0 <= len <= usize::MAX,
    ensures
        ({
            let local = local_regions(masks, len, config);
            &&& apart(local, config.final_merge_gap as int)
            &&& forall|j: int| 0 <= j < local.len() ==> (#[trigger] local[j]).0 < local[j].1 <= len
        }),
{
    let mask = dilated(union_mask(masks, len), config.relocalizer.repair_pad as int);
    let runs = true_runs(mask);
    let local = local_regions(masks, len, config);
    law_runs_are_the_mask(mask);
    lemma_merge_of_runs(runs, config.final_merge_gap as int, len);
}

/// What merging makes of regions that are apart and hold samples.
pub(crate) proof fn lemma_merge_of_runs(runs: Seq<Region>, gap: int, len: int)
    requires
        0 <= gap,
        apart(runs, 0),
        forall|j: int| 0 <= j < runs.len() ==> (#[trigger] runs[j]).0 < runs[j].1 <= len,
    ensures
        apart(merged(runs, gap), gap),
        forall|j: int|
            0 <= j < merged(runs, gap).len() ==> (#[trigger] merged(runs, gap)[j]).0 < merged(
                runs,
                gap,
            )[j].1 <= len,
{
    let joined = merged(runs, gap);
    lemma_apart_is_in_order(runs, 0);
    law_merge_separates(runs, gap);
    assert forall|j: int| 0 <= j < joined.len() implies (#[trigger] joined[j]).0 < joined[j].1
        <= len by {
        let e = choose|e: int| 0 <= e < runs.len() && runs[e].1 == joined[j].1;
        let s = choose|s: int| 0 <= s < runs.len() && runs[s].0 == joined[j].0;
        assert(runs[e].1 <= len);
        assert(runs[s].0 < runs[s].1);
        assert(joined[j].0 <= joined[j].1);
        if joined[j].0 == joined[j].1 {
            assert(runs[e].0 < runs[e].1);
            if s < e {
                assert(runs[s].1 + 0 < runs[e].0);
            } else if e < s {
                assert(runs[e].1 + 0 < runs[s].0);
            }
        }
    }
}

/// Narrows the window from `start` to `end` down to the regions that the detector
/// flagged in one of the channels.
pub fn relocalize_candidate_window(
    local_masks: &[Vec<bool>],
    start: usize,
    end: usize,
    config: V21PassConfig,
) -> (regions: Vec<Region>)
    ensures
        regions@ == relocalized(local_masks@, start, end, config),
{
    let candidate_len: usize = region_len((start, end));
    if candidate_len < 5 {
        return Vec::new();
    }
    let mut mask = union_masks(local_masks, candidate_len);
    dilate_mask(&mut mask, config.relocalizer.repair_pad);
    let runs = mask_to_regions(mask.as_slice());
    let local = merge_close_regions(runs.as_slice(), config.final_merge_gap);
    proof {
        lemma_local_regions(local_masks@, candidate_len as int, config);
    }
    let mut regions: Vec<Region> = Vec::new();
    let mut i: usize = 0;
    while i < local.len()
        invariant
            i <= local@.len(),
            start + candidate_len == end,
            forall|j: int|
                0 <= j < local@.len() ==> (#[trigger] local@[j]).0 < local@[j].1 <= candidate_len,
            regions@ == shifted(local@, start as int).take(i as int),
        decreases local@.len() - i,
    {
        assert(local@[i as int].1 <= candidate_len);
        regions.push((start + local[i].0, start + local[i].1));
        i += 1;
        assert(regions@ =~= shifted(local@, start as int).take(i as int));
    }
    assert(regions@ =~= shifted(local@, start as int));
    keep_short(&regions, config.relocalizer.max_span)
}

/// What was found in the first `count` windows.
pub open spec fn all_relocalized(
    windows: Seq<Region>,
    local_masks: Seq<Vec<Vec<bool>>>,
    config: V21PassConfig,
    count: int,
) -> Seq<Region>
    decreases count,
{
    if count <= 0 {
        seq![]
    } else {
        all_relocalized(windows, local_masks, config, count - 1) + relocalized(
            local_masks[count - 1]@,
            windows[count - 1].0,
            windows[count - 1].1,
            config,
        )
    }
}

/// Whether a region can be repaired: it holds samples but not too many, and enough
/// samples are left on both sides.
pub open spec fn repairable(region: Region, config: V21PassConfig, len: int) -> bool {
    &&& 0 < span(region) <= config.relocalizer.max_span
    &&& region.0 >= MIN_CONTEXT_SAMPLES
    &&& len - region.1 >= MIN_CONTEXT_SAMPLES
}

/// The regions to repair in a recording of `len` samples per channel.
pub open spec fn found_regions(
    len: int,
    windows: Seq<Region>,
    local_masks: Seq<Vec<Vec<bool>>>,
    config: V21PassConfig,
) -> Seq<Region> {
    if len < 5 {
        seq![]
    } else {
        merged(
            all_relocalized(windows, local_masks, config, windows.len() as int),
            config.final_merge_gap as int,
        ).filter(|r: Region| repairable(r, config, len))
    }
}

/// Finds the regions to repair in a recording of `len` samples per channel;
/// `local_masks` holds for each candidate window what the detector flagged there in
/// each channel.
pub fn detect_v21_regions(
    len: usize,
    windows: &[Region],
    local_masks: &[Vec<Vec<bool>>],
    config: V21PassConfig,
) -> (regions: Vec<Region>)
    requires
        windows@.len() == local_masks@.len(),
    ensures
        regions@ == found_regions(len as int, windows@, local_masks@, config),
{
    let mut regions: Vec<Region> = Vec::new();
    if len < 5 {
        return regions;
    }
    let mut found: Vec<Region> = Vec::new();
    let mut w: usize = 0;
    while w < windows.len()
        invariant
            w <= windows@.len() == local_masks@.len(),
            found@ == all_relocalized(windows@, local_masks@, config, w as int),
        decreases windows@.len() - w,
    {
        let mut inside = relocalize_candidate_window(
            local_masks[w].as_slice(),
            windows[w].0,
            windows[w].1,
            config,
        );
        found.append(&mut inside);
        w += 1;
        assert(found@ =~= all_relocalized(windows@, local_masks@, config, w as int));
    }
    let joined = merge_close_regions(found.as_slice(), config.final_merge_gap);
    let ghost keep = |r: Region| repairable(r, config, len as int);
    let mut i: usize = 0;
    assert(regions@ =~= joined@.take(0).filter(keep)) by {
        reveal(Seq::filter);
    }
    while i < joined.len()
        invariant
            i <= joined@.len(),
            keep == (|r: Region| repairable(r, config, len as int)),
            regions@ == joined@.take(i as int).filter(keep),
        decreases joined@.len() - i,
    {
        proof {
            reveal(Seq::filter);
            assert(joined@.take(i + 1).drop_last() =~= joined@.take(i as int));
            assert(joined@.take(i + 1).last() == joined@[i as int]);
        }
        let region = joined[i];
        let samples: usize = region_len(region);
        if samples > 0 && samples <= config.relocalizer.max_span && region.0 >= MIN_CONTEXT_SAMPLES
            && region.1 <= len && len - region.1 >= MIN_CONTEXT_SAMPLES {
            regions.push(region);
        }
        i += 1;
    }
    assert(joined@.take(i as int) =~= joined@);
    regions
}

/// The number of samples that all channels have.
pub fn shortest_channel(lengths: &[usize]) -> (shortest: Option<usize>)
    ensures
        shortest is None <==> lengths@.len() == 0,
        shortest matches Some(len) ==> lengths@.contains(len) && forall|i: int|
            0 <= i < lengths@.len() ==> len <= #[trigger] lengths@[i],
{
    if lengths.len() == 0 {
        return None;
    }
    let mut shortest: usize = lengths[0];
    let mut i: usize = 1;
    assert(lengths@[0] == shortest);
    while i < lengths.len()
        invariant
            1 <= i <= lengths@.len(),
            lengths@.contains(shortest),
            forall|k: int| 0 <= k < i ==> shortest <= #[trigger] lengths@[k],
        decreases lengths@.len() - i,
    {
        if lengths[i] < shortest {
            shortest = lengths[i];
            assert(lengths@[i as int] == shortest);
        }
        i += 1;
    }
    Some(shortest)
}

// ---------------------------------------------------------------- laws
/// Regions that are apart are in order.
pub(crate) proof fn lemma_apart_is_in_order(regions: Seq<Region>, gap: int)
    requires
        0 <= gap,
        apart(regions, gap),
        upright(regions),
    ensures
        in_order(regions),
{
    assert forall|i: int, j: int| 0 <= i < j < regions.len() implies (#[trigger] regions[i]).0 <= (
    #[trigger] regions[j]).0 by {
        assert(regions[i].0 <= regions[i].1);
    }
}

/// What holds of regions from which some were left out.
pub(crate) proof fn lemma_filter(regions: Seq<Region>, keep: spec_fn(Region) -> bool, gap: int)
    ensures
        forall|k: int|
            0 <= k < regions.filter(keep).len() ==> keep(#[trigger] regions.filter(keep)[k])
                && regions.contains(regions.filter(keep)[k]),
        apart(regions, gap) ==> apart(regions.filter(keep), gap),
    decreases regions.len(),
{
    reveal(Seq::filter);
    let kept = regions.filter(keep);
    if regions.len() > 0 {
        let rest = regions.drop_last();
        let before = rest.filter(keep);
        let n = regions.len() - 1;
        lemma_filter(rest, keep, gap);
        assert forall|k: int| 0 <= k < kept.len() implies keep(#[trigger] kept[k])
            && regions.contains(kept[k]) by {
            if k < before.len() {
                assert(kept[k] == before[k]);
                let i = choose|i: int| 0 <= i < rest.len() && rest[i] == before[k];
                assert(regions[i] == kept[k]);
            } else {
                assert(regions[n] == kept[k]);
            }
        }
        if apart(regions, gap) {
            assert forall|i: int, j: int| 0 <= i < j < kept.len() implies (#[trigger] kept[i]).1
                + gap < (#[trigger] kept[j]).0 by {
                assert(kept[i] == before[i]);
                if j < before.len() {
                    assert(before[i].1 + gap < before[j].0);
                } else {
                    let k = choose|k: int| 0 <= k < rest.len() && rest[k] == before[i];
                    assert(regions[k].1 + gap < regions[n].0);
                }
            }
        }
    }
}

/// Starts of frames that come in order give run windows in order.
pub(crate) proof fn lemma_run_windows_in_order(
    runs: Seq<Region>,
    frame_starts: Seq<usize>,
    sample_len: int,
    config: V21PassConfig,
)
    requires
        0 <= sample_len <= usize::MAX,
        forall|i: int, j: int|
            0 <= i <= j < frame_starts.len() ==> frame_starts[i] <= frame_starts[j],
        apart(runs, 0),
        forall|i: int| 0 <= i < runs.len() ==> (#[trigger] runs[i]).0 < runs[i].1,
        forall|i: int|
            0 <= i < runs.len() && span(#[trigger] runs[i]) >= config.min_flag_frames
                ==> runs[i].1 <= frame_starts.len(),
    ensures
        ({
            let windows = runs.filter_map(
                |run: Region| run_window(run, frame_starts, sample_len, config),
            );
            &&& in_order(windows)
            &&& forall|k: int|
                0 <= k < windows.len() ==> (#[trigger] windows[k]).0 < windows[k].1 <= sample_len
            &&& forall|k: int|
                0 <= k < windows.len() ==> exists|i: int|
                    0 <= i < runs.len() && run_window(
                        #[trigger] runs[i],
                        frame_starts,
                        sample_len,
                        config,
                    ) == Some(#[trigger] windows[k])
            &&& forall|i: int|
                0 <= i < runs.len() ==> (run_window(
                    #[trigger] runs[i],
                    frame_starts,
                    sample_len,
                    config,
                ) matches Some(window) ==> windows.contains(window))
        }),
    decreases runs.len(),
{
    let window_of = |run: Region| run_window(run, frame_starts, sample_len, config);
    let windows = runs.filter_map(window_of);
    if runs.len() > 0 {
        let rest = runs.drop_last();
        let before = rest.filter_map(window_of);
        let n = runs.len() - 1;
        lemma_run_windows_in_order(rest, frame_starts, sample_len, config);
        assert forall|k: int| 0 <= k < windows.len() implies exists|i: int|
            0 <= i < runs.len() && run_window(
                #[trigger] runs[i],
                frame_starts,
                sample_len,
                config,
            ) == Some(#[trigger] windows[k]) by {
            if k < before.len() {
                assert(windows[k] == before[k]);
                let i = choose|i: int|
                    0 <= i < rest.len() && run_window(
                        #[trigger] rest[i],
                        frame_starts,
                        sample_len,
                        config,
                    ) == Some(before[k]);
                assert(runs[i] == rest[i]);
            } else {
                assert(window_of(runs[n]) == Some(windows[k]));
            }
        }
        assert forall|i: int, j: int| 0 <= i < j < windows.len() implies (#[trigger] windows[i]).0
            <= (#[trigger] windows[j]).0 by {
            assert(windows[i] == before[i]);
            if j < before.len() {
                assert(windows[j] == before[j]);
            } else {
                let k = choose|k: int|
                    0 <= k < rest.len() && run_window(
                        #[trigger] rest[k],
                        frame_starts,
                        sample_len,
                        config,
                    ) == Some(before[i]);
                assert(runs[k] == rest[k]);
                assert(runs[k].1 + 0 < runs[n].0);
                assert(frame_starts[runs[k].0 as int] <= frame_starts[runs[n].0 as int]);
                assert(window_of(runs[n]) == Some(windows[j]));
            }
        }
        assert forall|i: int| 0 <= i < runs.len() implies (run_window(
            #[trigger] runs[i],
            frame_starts,
            sample_len,
            config,
        ) matches Some(window) ==> windows.contains(window)) by {
            if let Some(window) = run_window(runs[i], frame_starts, sample_len, config) {
                if i < n {
                    assert(rest[i] == runs[i]);
                    let k = choose|k: int| 0 <= k < before.len() && before[k] == window;
                    assert(windows[k] == window);
                } else {
                    assert(window_of(runs[n]) == Some(window));
                    assert(windows[windows.len() - 1] == window);
                }
            }
        }
    }
}

/// Flagged frames that make a window are covered: every sample that the frames of
/// such a run were computed from, inside the recording, lies in a candidate window.
pub proof fn law_candidates_cover_support(
    features: Seq<FrameFeatures>,
    frame_starts: Seq<usize>,
    sample_len: int,
    config: V21PassConfig,
    k: int,
    p: int,
)
    requires
        0 <= sample_len <= usize::MAX,
        features.len() <= usize::MAX,
        forall|j: int|
            0 <= j < true_runs(candidate_flags(features)).len() && span(
                #[trigger] true_runs(candidate_flags(features))[j],
            ) >= config.min_flag_frames ==> true_runs(candidate_flags(features))[j].1
                <= frame_starts.len(),
        forall|i: int, j: int|
            0 <= i <= j < frame_starts.len() ==> frame_starts[i] <= frame_starts[j],
        0 <= k < true_runs(candidate_flags(features)).len(),
        run_window(true_runs(candidate_flags(features))[k], frame_starts, sample_len, config) is Some,
        frame_starts[true_runs(candidate_flags(features))[k].0 as int] <= p < sample_len,
        p < frame_starts[true_runs(candidate_flags(features))[k].1 - 1] + config.fft_size,
    ensures
        covers(
            merged(
                run_windows(features, frame_starts, sample_len, config),
                config.candidate_merge_gap as int,
            ),
            p,
        ),
{
    let flags = candidate_flags(features);
    let runs = true_runs(flags);
    let windows = run_windows(features, frame_starts, sample_len, config);
    law_runs_are_the_mask(flags);
    lemma_run_windows_in_order(runs, frame_starts, sample_len, config);
    let window = run_window(runs[k], frame_starts, sample_len, config)->0;
    assert(windows.contains(window));
    let i = choose|i: int| 0 <= i < windows.len() && windows[i] == window;
    assert(windows[i].0 <= p < windows[i].1);
    assert(covers(windows, p));
    law_merge_fills_small_holes(windows, config.candidate_merge_gap as int, p);
}

/// Whatever order the windows come in, sorting them moves no sample in or out.
pub(crate) proof fn lemma_sorted_windows(windows: Seq<Region>)
    ensures
        in_order(windows.sort_by(window_order())),
        forall|r: Region| #[trigger]
            windows.sort_by(window_order()).contains(r) <==> windows.contains(r),
{
    let sorted = windows.sort_by(window_order());
    lemma_window_order_is_total();
    windows.lemma_sort_by_ensures(window_order());
    assert forall|r: Region| #[trigger] sorted.contains(r) <==> windows.contains(r) by {
        broadcast use vstd::seq_lib::group_to_multiset_ensures;

        assert(sorted.contains(r) <==> sorted.to_multiset().count(r) > 0);
        assert(windows.contains(r) <==> windows.to_multiset().count(r) > 0);
    }
    assert forall|i: int, j: int| 0 <= i < j < sorted.len() implies (#[trigger] sorted[i]).0 <= (
    #[trigger] sorted[j]).0 by {
        assert(window_order()(sorted[i], sorted[j]));
    }
}

/// Supplementing loses no sample of a spectral window. What it adds are the samples
/// of fallback windows that overlap no spectral window, and holes of at most
/// `merge_gap` samples; the windows come out more than that far apart.
pub proof fn law_supplement(
    spectral: Seq<Region>,
    fallback: Seq<Region>,
    merge_gap: int,
    p: int,
)
    requires
        0 <= merge_gap,
        upright(spectral),
        upright(fallback),
    ensures
        upright(supplemented(spectral, fallback, merge_gap)),
        apart(supplemented(spectral, fallback, merge_gap), merge_gap),
        covers(spectral, p) ==> covers(supplemented(spectral, fallback, merge_gap), p),
        forall|i: int|
            0 <= i < fallback.len() && free_of(spectral, #[trigger] fallback[i]) && fallback[i].0
                <= p < fallback[i].1 ==> covers(supplemented(spectral, fallback, merge_gap), p),
        covers(supplemented(spectral, fallback, merge_gap), p) ==> {
            ||| covers(spectral, p)
            ||| exists|i: int|
                0 <= i < fallback.len() && free_of(spectral, #[trigger] fallback[i])
                    && fallback[i].0 <= p < fallback[i].1
            ||| exists|a: Region, b: Region|
                #![trigger with_free(spectral, fallback).contains(a), with_free(
                    spectral,
                    fallback,
                ).contains(b)]
                with_free(spectral, fallback).contains(a) && with_free(
                    spectral,
                    fallback,
                ).contains(b) && a.1 <= p < b.0 <= a.1 + merge_gap
        },
{
    let keep = |r: Region| free_of(spectral, r);
    let all = with_free(spectral, fallback);
    let sorted = all.sort_by(window_order());
    let free = fallback.filter(keep);
    lemma_filter(fallback, keep, 0);
    lemma_sorted_windows(all);
    assert forall|k: int| 0 <= k < sorted.len() implies (#[trigger] sorted[k]).0 <= sorted[k].1 by {
        assert(sorted.contains(sorted[k]));
        let i = choose|i: int| 0 <= i < all.len() && all[i] == sorted[k];
        if i < spectral.len() {
            assert(all[i] == spectral[i]);
        } else {
            assert(all[i] == free[i - spectral.len()]);
            let j = choose|j: int|
                0 <= j < fallback.len() && fallback[j] == free[i - spectral.len()];
            assert(fallback[j].0 <= fallback[j].1);
        }
    }
    law_merge_separates(sorted, merge_gap);
    law_merge_fills_small_holes(sorted, merge_gap, p);
    if covers(spectral, p) {
        let i = choose|i: int|
            0 <= i < spectral.len() && (#[trigger] spectral[i]).0 <= p < spectral[i].1;
        assert(all[i] == spectral[i]);
        assert(sorted.contains(all[i]));
        let k = choose|k: int| 0 <= k < sorted.len() && sorted[k] == all[i];
        assert(sorted[k].0 <= p < sorted[k].1);
    }
    assert forall|i: int|
        0 <= i < fallback.len() && free_of(spectral, #[trigger] fallback[i]) && fallback[i].0 <= p
            < fallback[i].1 implies covers(supplemented(spectral, fallback, merge_gap), p) by {
        assert(keep(fallback[i]));
        fallback.lemma_filter_contains(keep, i);
        let j = choose|j: int| 0 <= j < free.len() && free[j] == fallback[i];
        assert(all[spectral.len() + j] == fallback[i]);
        assert(sorted.contains(fallback[i]));
        let k = choose|k: int| 0 <= k < sorted.len() && sorted[k] == fallback[i];
        assert(sorted[k].0 <= p < sorted[k].1);
    }
    if covers(supplemented(spectral, fallback, merge_gap), p) {
        if covers(sorted, p) {
            let k = choose|k: int| 0 <= k < sorted.len() && (#[trigger] sorted[k]).0 <= p
                < sorted[k].1;
            assert(sorted.contains(sorted[k]));
            let i = choose|i: int| 0 <= i < all.len() && all[i] == sorted[k];
            if i < spectral.len() {
                assert(spectral[i].0 <= p < spectral[i].1);
            } else {
                let f = free[i - spectral.len()];
                assert(f == all[i]);
                assert(keep(f));
                let j = choose|j: int| 0 <= j < fallback.len() && fallback[j] == f;
                assert(free_of(spectral, fallback[j]) && fallback[j].0 <= p < fallback[j].1);
            }
        } else {
            let (a, b) = choose|a: int, b: int|
                0 <= a < sorted.len() && 0 <= b < sorted.len() && (#[trigger] sorted[a]).1 <= p < (
                #[trigger] sorted[b]).0 <= sorted[a].1 + merge_gap;
            assert(sorted.contains(sorted[a]) && sorted.contains(sorted[b]));
            assert(all.contains(sorted[a]) && all.contains(sorted[b]));
        }
    }
}

/// Every fallback window holds samples of the recording, and no more than a window
/// may.
pub(crate) proof fn lemma_fallback_windows(regions: Seq<Region>, config: V21PassConfig, len: int)
    requires
        0 <= len <= usize::MAX,
    ensures
        ({
            let windows = regions.filter_map(|region: Region| dilated_window(region, config, len));
            forall|k: int|
                0 <= k < windows.len() ==> (#[trigger] windows[k]).0 < windows[k].1 <= len
                    && windows[k].1 - windows[k].0 <= config.max_candidate_span
        }),
    decreases regions.len(),
{
    if regions.len() > 0 {
        let window_of = |region: Region| dilated_window(region, config, len);
        let windows = regions.filter_map(window_of);
        let before = regions.drop_last().filter_map(window_of);
        lemma_fallback_windows(regions.drop_last(), config, len);
        assert forall|k: int| 0 <= k < windows.len() implies (#[trigger] windows[k]).0
            < windows[k].1 <= len && windows[k].1 - windows[k].0 <= config.max_candidate_span by {
            if k < before.len() {
                assert(windows[k] == before[k]);
            } else {
                assert(window_of(regions.last()) == Some(windows[k]));
            }
        }
    }
}

/// Merging keeps the ends of regions that end by `len`.
proof fn lemma_merged_ends(regions: Seq<Region>, gap: int, len: int)
    requires
        0 <= gap,
        upright(regions),
        in_order(regions),
        forall|i: int| 0 <= i < regions.len() ==> (#[trigger] regions[i]).1 <= len,
    ensures
        forall|j: int|
            0 <= j < merged(regions, gap).len() ==> (#[trigger] merged(regions, gap)[j]).1 <= len,
{
    law_merge_separates(regions, gap);
    assert forall|j: int| 0 <= j < merged(regions, gap).len() implies (#[trigger] merged(
        regions,
        gap,
    )[j]).1 <= len by {
        let i = choose|i: int| 0 <= i < regions.len() && regions[i].1 == merged(regions, gap)[j].1;
        assert(regions[i].1 <= len);
    }
}

/// The candidate windows are in order, inside the recording, and further apart than
/// windows that would have been joined.
pub proof fn law_candidate_windows_are_apart(
    channel_windows: Seq<Vec<Region>>,
    fallback_masks: Seq<Vec<bool>>,
    sample_rate: u32,
    config: V21PassConfig,
    len: int,
)
    requires
        0 <= len <= usize::MAX,
    ensures
        ({
            let windows = candidate_windows(
                channel_windows,
                fallback_masks,
                sample_rate,
                config,
                len,
            );
            &&& upright(windows)
            &&& apart(windows, config.candidate_merge_gap as int)
            &&& forall|i: int| 0 <= i < windows.len() ==> (#[trigger] windows[i]).1 <= len
            &&& !falls_back(sample_rate, config) ==> forall|i: int|
                0 <= i < windows.len() ==> 0 < span(#[trigger] windows[i])
                    <= config.max_candidate_span
        }),
{
    let gap = config.candidate_merge_gap as int;
    let mask = channel_union(channel_windows, len);
    let joined = merged(true_runs(mask), gap);
    let spectral = spectral_windows(channel_windows, config, len);
    let short = |r: Region| span(r) <= config.max_candidate_span as int;
    law_runs_are_the_mask(mask);
    lemma_merge_of_runs(true_runs(mask), gap, len);
    lemma_filter(joined, short, gap);
    assert forall|i: int| 0 <= i < spectral.len() implies (#[trigger] spectral[i]).0
        < spectral[i].1 <= len by {
        let j = choose|j: int| 0 <= j < joined.len() && joined[j] == spectral[i];
        assert(joined[j].0 < joined[j].1 <= len);
    }
    if falls_back(sample_rate, config) {
        let regions = merged(
            true_runs(union_mask(fallback_masks, len)),
            config.final_merge_gap as int,
        );
        let fallback = fallback_windows(fallback_masks, config, len);
        lemma_fallback_windows(regions, config, len);
        law_supplement(spectral, fallback, gap, 0);
        let keep = |r: Region| free_of(spectral, r);
        let all = with_free(spectral, fallback);
        let sorted = all.sort_by(window_order());
        lemma_filter(fallback, keep, 0);
        lemma_sorted_windows(all);
        assert forall|k: int| 0 <= k < sorted.len() implies (#[trigger] sorted[k]).0 <= sorted[k].1
            <= len by {
            assert(sorted.contains(sorted[k]));
            let i = choose|i: int| 0 <= i < all.len() && all[i] == sorted[k];
            if i < spectral.len() {
                assert(all[i] == spectral[i]);
            } else {
                let free = fallback.filter(keep);
                assert(all[i] == free[i - spectral.len()]);
                let j = choose|j: int|
                    0 <= j < fallback.len() && fallback[j] == free[i - spectral.len()];
                assert(fallback[j].0 < fallback[j].1 <= len);
            }
        }
        lemma_merged_ends(sorted, gap, len);
    }
}

/// The regions of a window lie inside it, hold samples but not too many, and are
/// further apart than regions that would have been joined.
pub proof fn law_relocalized_lie_in_window(
    local_masks: Seq<Vec<bool>>,
    start: usize,
    end: usize,
    config: V21PassConfig,
)
    ensures
        ({
            let regions = relocalized(local_masks, start, end, config);
            &&& apart(regions, config.final_merge_gap as int)
            &&& forall|i: int|
                0 <= i < regions.len() ==> start <= (#[trigger] regions[i]).0 < regions[i].1 <= end
                    && span(regions[i]) <= config.relocalizer.max_span
        }),
{
    if span((start, end)) >= 5 {
        let gap = config.final_merge_gap as int;
        let local = local_regions(local_masks, end - start, config);
        let placed = shifted(local, start as int);
        let short = |r: Region| span(r) <= config.relocalizer.max_span as int;
        lemma_local_regions(local_masks, end - start, config);
        assert forall|i: int| 0 <= i < placed.len() implies start <= (#[trigger] placed[i]).0
            < placed[i].1 <= end by {
            assert(local[i].0 < local[i].1 <= end - start);
        }
        assert forall|i: int, j: int| 0 <= i < j < placed.len() implies (#[trigger] placed[i]).1
            + gap < (#[trigger] placed[j]).0 by {
            assert(local[i].0 < local[i].1 <= end - start);
            assert(local[j].0 < local[j].1 <= end - start);
            assert(local[i].1 + gap < local[j].0);
        }
        lemma_filter(placed, short, gap);
        let regions = relocalized(local_masks, start, end, config);
        assert forall|i: int| 0 <= i < regions.len() implies start <= (#[trigger] regions[i]).0
            < regions[i].1 <= end && span(regions[i]) <= config.relocalizer.max_span by {
            assert(short(regions[i]));
            let j = choose|j: int| 0 <= j < placed.len() && placed[j] == regions[i];
            assert(start <= placed[j].0 < placed[j].1 <= end);
        }
    }
}

/// What was found in windows that are apart is in order.
pub(crate) proof fn lemma_all_relocalized(
    windows: Seq<Region>,
    local_masks: Seq<Vec<Vec<bool>>>,
    config: V21PassConfig,
    count: int,
)
    requires
        upright(windows),
        apart(windows, 0),
        0 <= count <= windows.len(),
    ensures
        ({
            let found = all_relocalized(windows, local_masks, config, count);
            &&& in_order(found)
            &&& forall|i: int| 0 <= i < found.len() ==> (#[trigger] found[i]).0 < found[i].1
            &&& forall|i: int|
                0 <= i < found.len() ==> exists|w: int|
                    0 <= w < count && (#[trigger] windows[w]).0 <= (#[trigger] found[i]).0
                        && found[i].1 <= windows[w].1
        }),
    decreases count,
{
    if count > 0 {
        let last = count - 1;
        let window = windows[last];
        let before = all_relocalized(windows, local_masks, config, last);
        let inside = relocalized(local_masks[last]@, window.0, window.1, config);
        let found = all_relocalized(windows, local_masks, config, count);
        lemma_all_relocalized(windows, local_masks, config, last);
        law_relocalized_lie_in_window(local_masks[last]@, window.0, window.1, config);
        assert forall|i: int| 0 <= i < inside.len() implies found[before.len() + i]
            == #[trigger] inside[i] by {}
        assert forall|i: int| 0 <= i < found.len() implies exists|w: int|
            0 <= w < count && (#[trigger] windows[w]).0 <= (#[trigger] found[i]).0 && found[i].1
                <= windows[w].1 by {
            if i < before.len() {
                assert(found[i] == before[i]);
                let w = choose|w: int|
                    0 <= w < last && (#[trigger] windows[w]).0 <= before[i].0 && before[i].1
                        <= windows[w].1;
                assert(windows[w].0 <= found[i].0 && found[i].1 <= windows[w].1);
            } else {
                assert(found[i] == inside[i - before.len()]);
                assert(windows[last].0 <= found[i].0 && found[i].1 <= windows[last].1);
            }
        }
        assert forall|i: int, j: int| 0 <= i < j < found.len() implies (#[trigger] found[i]).0 <= (
        #[trigger] found[j]).0 by {
            if j < before.len() {
                assert(found[i] == before[i] && found[j] == before[j]);
            } else if i < before.len() {
                assert(found[i] == before[i]);
                assert(found[j] == inside[j - before.len()]);
                let w = choose|w: int|
                    0 <= w < last && (#[trigger] windows[w]).0 <= before[i].0 && before[i].1
                        <= windows[w].1;
                assert(windows[w].1 + 0 < windows[last].0);
            } else {
                assert(found[i] == inside[i - before.len()]);
                assert(found[j] == inside[j - before.len()]);
            }
        }
        assert forall|i: int| 0 <= i < found.len() implies (#[trigger] found[i]).0
            < found[i].1 by {
            if i < before.len() {
                assert(found[i] == before[i]);
            } else {
                assert(found[i] == inside[i - before.len()]);
            }
        }
    }
}

/// The regions to repair are further apart than regions that would have been joined;
/// each leaves the context that a repair needs, holds at most as many samples as a
/// repair may, and starts and ends inside candidate windows. All together they hold
/// no more samples than the recording.
pub proof fn law_found_regions_are_safe(
    len: int,
    windows: Seq<Region>,
    local_masks: Seq<Vec<Vec<bool>>>,
    config: V21PassConfig,
)
    requires
        0 <= len,
        upright(windows),
        apart(windows, 0),
    ensures
        ({
            let found = found_regions(len, windows, local_masks, config);
            &&& apart(found, config.final_merge_gap as int)
            &&& forall|i: int|
                0 <= i < found.len() ==> MIN_CONTEXT_SAMPLES <= (#[trigger] found[i]).0
                    < found[i].1 <= len - MIN_CONTEXT_SAMPLES
            &&& forall|i: int|
                0 <= i < found.len() ==> span(#[trigger] found[i]) <= config.relocalizer.max_span
            &&& forall|i: int|
                0 <= i < found.len() ==> covers(windows, (#[trigger] found[i]).0 as int) && covers(
                    windows,
                    found[i].1 - 1,
                )
            &&& total_span(found) <= len
        }),
{
    let gap = config.final_merge_gap as int;
    let found = found_regions(len, windows, local_masks, config);
    if len >= 5 {
        let all = all_relocalized(windows, local_masks, config, windows.len() as int);
        let joined = merged(all, gap);
        let keep = |r: Region| repairable(r, config, len);
        lemma_all_relocalized(windows, local_masks, config, windows.len() as int);
        law_merge_separates(all, gap);
        lemma_filter(joined, keep, gap);
        assert forall|i: int| 0 <= i < found.len() implies repairable(
            #[trigger] found[i],
            config,
            len,
        ) by {
            assert(keep(found[i]));
        }
        assert forall|i: int| 0 <= i < found.len() implies covers(
            windows,
            (#[trigger] found[i]).0 as int,
        ) && covers(windows, found[i].1 - 1) by {
            let j = choose|j: int| 0 <= j < joined.len() && joined[j] == found[i];
            let s = choose|s: int| 0 <= s < all.len() && all[s].0 == joined[j].0;
            let e = choose|e: int| 0 <= e < all.len() && all[e].1 == joined[j].1;
            assert(all[s].0 < all[s].1 && all[e].0 < all[e].1);
            let v = choose|w: int|
                0 <= w < windows.len() && (#[trigger] windows[w]).0 <= all[s].0 && all[s].1
                    <= windows[w].1;
            let w = choose|w: int|
                0 <= w < windows.len() && (#[trigger] windows[w]).0 <= all[e].0 && all[e].1
                    <= windows[w].1;
            assert(windows[v].0 <= found[i].0 < windows[v].1);
            assert(windows[w].0 <= found[i].1 - 1 < windows[w].1);
        }
        assert forall|i: int, j: int| 0 <= i < j < found.len() implies (#[trigger] found[i]).1 + 0
            < (#[trigger] found[j]).0 by {
            assert(found[i].1 + gap < found[j].0);
        }
    }
    law_total_span_bound(found, len);
}

/// Whatever was measured and flagged, the regions that detection finds in a
/// recording are further apart than regions that would have been joined, leave the
/// context that a repair needs, hold at most as many samples as a repair may, start
/// and end inside candidate windows, and hold no more samples than the recording, so
/// that they can be counted.
pub proof fn law_detection_is_safe(
    channel_windows: Seq<Vec<Region>>,
    fallback_masks: Seq<Vec<bool>>,
    sample_rate: u32,
    config: V21PassConfig,
    len: int,
    local_masks: Seq<Vec<Vec<bool>>>,
)
    requires
        0 <= len <= usize::MAX,
    ensures
        ({
            let windows = candidate_windows(
                channel_windows,
                fallback_masks,
                sample_rate,
                config,
                len,
            );
            let found = found_regions(len, windows, local_masks, config);
            &&& apart(found, config.final_merge_gap as int)
            &&& forall|i: int|
                0 <= i < found.len() ==> MIN_CONTEXT_SAMPLES <= (#[trigger] found[i]).0
                    < found[i].1 <= len - MIN_CONTEXT_SAMPLES
            &&& forall|i: int|
                0 <= i < found.len() ==> span(#[trigger] found[i]) <= config.relocalizer.max_span
            &&& forall|i: int|
                0 <= i < found.len() ==> covers(windows, (#[trigger] found[i]).0 as int) && covers(
                    windows,
                    found[i].1 - 1,
                )
            &&& total_span(found) <= len <= usize::MAX
        }),
{
    let windows = candidate_windows(channel_windows, fallback_masks, sample_rate, config, len);
    law_candidate_windows_are_apart(channel_windows, fallback_masks, sample_rate, config, len);
    assert forall|i: int, j: int| 0 <= i < j < windows.len() implies (#[trigger] windows[i]).1 + 0
        < (#[trigger] windows[j]).0 by {
        assert(windows[i].1 + config.candidate_merge_gap < windows[j].0);
    }
    law_found_regions_are_safe(len, windows, local_masks, config);
}

/// Whether everything that one list of channels holds is held by a channel of the
/// other list too.
pub open spec fn held_by<T>(channels: Seq<Vec<T>>, others: Seq<Vec<T>>) -> bool {
    forall|i: int|
        0 <= i < channels.len() ==> exists|j: int|
            0 <= j < others.len() && (#[trigger] others[j])@ == (#[trigger] channels[i])@
}

/// Whether two lists hold the same channels, in whatever order and however often.
pub open spec fn same_channels<T>(channels: Seq<Vec<T>>, others: Seq<Vec<T>>) -> bool {
    held_by(channels, others) && held_by(others, channels)
}

proof fn lemma_held_windows(channels: Seq<Vec<Region>>, others: Seq<Vec<Region>>, p: int)
    requires
        held_by(channels, others),
        covered_by_any(channels, p),
    ensures
        covered_by_any(others, p),
{
    let i = choose|i: int| 0 <= i < channels.len() && covers((#[trigger] channels[i])@, p);
    let j = choose|j: int| 0 <= j < others.len() && (#[trigger] others[j])@ == channels[i]@;
    assert(covers(others[j]@, p));
}

proof fn lemma_held_flags(channels: Seq<Vec<bool>>, others: Seq<Vec<bool>>, p: int)
    requires
        held_by(channels, others),
        set_in_any(channels, p),
    ensures
        set_in_any(others, p),
{
    let i = choose|i: int|
        0 <= i < channels.len() && p < (#[trigger] channels[i])@.len() && channels[i]@[p];
    let j = choose|j: int| 0 <= j < others.len() && (#[trigger] others[j])@ == channels[i]@;
    assert(p < others[j]@.len() && others[j]@[p]);
}

proof fn lemma_same_union(channels: Seq<Vec<bool>>, others: Seq<Vec<bool>>, len: int)
    requires
        same_channels(channels, others),
    ensures
        union_mask(channels, len) == union_mask(others, len),
{
    assert forall|p: int| set_in_any(channels, p) == set_in_any(others, p) by {
        if set_in_any(channels, p) {
            lemma_held_flags(channels, others, p);
        }
        if set_in_any(others, p) {
            lemma_held_flags(others, channels, p);
        }
    }
    assert(union_mask(channels, len) =~= union_mask(others, len));
}

/// The candidate windows do not depend on the order of the channels, nor on whether
/// one is repeated.
pub proof fn law_windows_ignore_channel_order(
    channel_windows: Seq<Vec<Region>>,
    other_windows: Seq<Vec<Region>>,
    fallback_masks: Seq<Vec<bool>>,
    other_masks: Seq<Vec<bool>>,
    sample_rate: u32,
    config: V21PassConfig,
    len: int,
)
    requires
        same_channels(channel_windows, other_windows),
        falls_back(sample_rate, config) ==> same_channels(fallback_masks, other_masks),
    ensures
        candidate_windows(channel_windows, fallback_masks, sample_rate, config, len)
            == candidate_windows(other_windows, other_masks, sample_rate, config, len),
{
    assert forall|p: int|
        covered_by_any(channel_windows, p) == covered_by_any(other_windows, p) by {
        if covered_by_any(channel_windows, p) {
            lemma_held_windows(channel_windows, other_windows, p);
        }
        if covered_by_any(other_windows, p) {
            lemma_held_windows(other_windows, channel_windows, p);
        }
    }
    assert(channel_union(channel_windows, len) =~= channel_union(other_windows, len));
    if falls_back(sample_rate, config) {
        lemma_same_union(fallback_masks, other_masks, len);
    }
}

proof fn lemma_all_relocalized_ignores_order(
    windows: Seq<Region>,
    local_masks: Seq<Vec<Vec<bool>>>,
    other_masks: Seq<Vec<Vec<bool>>>,
    config: V21PassConfig,
    count: int,
)
    requires
        forall|w: int|
            0 <= w < count ==> same_channels((#[trigger] local_masks[w])@, other_masks[w]@),
    ensures
        all_relocalized(windows, local_masks, config, count) == all_relocalized(
            windows,
            other_masks,
            config,
            count,
        ),
    decreases count,
{
    if count > 0 {
        let last = count - 1;
        let window = windows[last];
        lemma_all_relocalized_ignores_order(windows, local_masks, other_masks, config, last);
        lemma_same_union(local_masks[last]@, other_masks[last]@, window.1 - window.0);
    }
}

/// The regions to repair do not depend on the order in which the channels are
/// searched, nor on whether one is repeated.
pub proof fn law_regions_ignore_channel_order(
    len: int,
    windows: Seq<Region>,
    local_masks: Seq<Vec<Vec<bool>>>,
    other_masks: Seq<Vec<Vec<bool>>>,
    config: V21PassConfig,
)
    requires
        forall|w: int|
            0 <= w < windows.len() ==> same_channels(
                (#[trigger] local_masks[w])@,
                other_masks[w]@,
            ),
    ensures
        found_regions(len, windows, local_masks, config) == found_regions(
            len,
            windows,
            other_masks,
            config,
        ),
{
    lemma_all_relocalized_ignores_order(
        windows,
        local_masks,
        other_masks,
        config,
        windows.len() as int,
    );
}

/// A window keeps the detector's thresholds. Its lengths stay as they are where the
/// window is long enough for them, and shrink to fit it where it is not.
pub proof fn law_detector_fits_the_window(
    relocalizer: ResidualRelocalizer,
    candidate_len: int,
)
    requires
        0 < candidate_len <= usize::MAX,
    ensures
        ({
            let params = window_params(relocalizer, candidate_len);
            &&& params.z_hi == relocalizer.z_hi && params.z_lo == relocalizer.z_lo
            &&& params.edge_rms_mult == relocalizer.edge_rms_mult
            &&& params.pad_samples == relocalizer.repair_pad
            &&& params.max_click_samples <= candidate_len
            &&& relocalizer.max_span <= candidate_len ==> params.max_click_samples
                == relocalizer.max_span
            &&& relocalizer.max_span > candidate_len ==> params.max_click_samples == candidate_len
            &&& params.mad_window % 2 == 1 && params.mad_window <= candidate_len
            &&& relocalizer.mad_window % 2 == 1 && relocalizer.mad_window <= candidate_len
                ==> params.mad_window == relocalizer.mad_window
            &&& relocalizer.mad_window < candidate_len ==> relocalizer.mad_window
                <= params.mad_window <= relocalizer.mad_window + 1
            &&& relocalizer.mad_window >= candidate_len ==> params.mad_window >= candidate_len - 1
        }),
{
}

} // verus!
