//! The frames into which a channel is cut for its spectral analysis, and the
//! judgement of what was measured in them.
use vstd::prelude::*;

use crate::cleanup::v21::V21PassConfig;
use crate::float_order::{is_at_least64, is_ranked_no_later};
#[allow(unused_imports)]
use crate::float_order::{at_least64, total_rank};
use crate::sorting::sorted;

verus! {

/// How many frames start in `len` samples, `hop` samples apart.
pub open spec fn frame_count(len: int, hop: int) -> int {
    if len <= 0 {
        0
    } else if hop == 0 {
        1
    } else {
        (len + hop - 1) / hop
    }
}

/// The samples at which frames start: every multiple of `hop` below `len`, and only
/// the first sample if `hop` is 0.
pub open spec fn starts_of_frames(len: int, hop: int) -> Seq<usize> {
    Seq::new(frame_count(len, hop) as nat, |k: int| (k * hop) as usize)
}

proof fn lemma_frame_count(len: int, hop: int)
    requires
        0 < len,
        0 < hop,
    ensures
        0 < frame_count(len, hop),
        (frame_count(len, hop) - 1) * hop < len <= frame_count(len, hop) * hop,
{
    let n = frame_count(len, hop);
    vstd::arithmetic::div_mod::lemma_fundamental_div_mod(len + hop - 1, hop);
    vstd::arithmetic::div_mod::lemma_mod_bound(len + hop - 1, hop);
    assert(hop * n == n * hop && (n - 1) * hop == n * hop - hop) by (nonlinear_arith);
    assert(0 < n) by (nonlinear_arith)
        requires
            len <= n * hop,
            0 < len,
            0 < hop,
    ;
}

/// Lists the samples at which frames start.
pub fn frame_starts(len: usize, hop_size: usize) -> (starts: Vec<usize>)
    ensures
        starts@ == starts_of_frames(len as int, hop_size as int),
{
    let mut starts: Vec<usize> = Vec::new();
    if len == 0 {
        assert(starts@ =~= starts_of_frames(0, hop_size as int));
        return starts;
    }
    let ghost all = starts_of_frames(len as int, hop_size as int);
    let ghost count = frame_count(len as int, hop_size as int);
    if hop_size == 0 {
        starts.push(0);
        assert(all.len() == 1 && all[0] == (0 * hop_size) as usize);
        assert(starts@ =~= all);
        return starts;
    }
    proof {
        lemma_frame_count(len as int, hop_size as int);
    }
    let mut start: usize = 0;
    loop
        invariant_except_break
            starts@.len() < count,
            start == starts@.len() * hop_size,
            start < len,
            starts@ == all.take(starts@.len() as int),
        invariant
            0 < hop_size,
            0 < len,
            all == starts_of_frames(len as int, hop_size as int),
            count == frame_count(len as int, hop_size as int) == all.len(),
            (count - 1) * hop_size < len <= count * hop_size,
        ensures
            starts@ == all,
        decreases len - start,
    {
        let ghost k = starts@.len() as int;
        starts.push(start);
        assert(starts@ =~= all.take(k + 1));
        if hop_size >= len - start {
            assert(k + 1 >= count) by (nonlinear_arith)
                requires
                    (count - 1) * hop_size < len,
                    len <= k * hop_size + hop_size,
                    0 < hop_size,
            ;
            assert(starts@ =~= all);
            break ;
        }
        assert(k + 1 < count && (k + 1) * hop_size == k * hop_size + hop_size) by (nonlinear_arith)
            requires
                len <= count * hop_size,
                k * hop_size + hop_size < len,
                0 < hop_size,
        ;
        start += hop_size;
    }
    starts
}

/// Frames start in order inside the recording, `hop` samples apart, the first one at
/// the first sample, and the hop behind the last one reaches the end: no sample lies
/// further than a hop behind the start of a frame.
pub proof fn law_frames_reach_the_end(len: int, hop: int)
    requires
        0 < len <= usize::MAX,
        0 < hop <= usize::MAX,
    ensures
        starts_of_frames(len, hop).len() > 0,
        starts_of_frames(len, hop)[0] == 0,
        forall|k: int|
            0 <= k < starts_of_frames(len, hop).len() ==> (#[trigger] starts_of_frames(len, hop)[k])
                < len,
        forall|k: int|
            0 < k < starts_of_frames(len, hop).len() ==> (#[trigger] starts_of_frames(len, hop)[k])
                == starts_of_frames(len, hop)[k - 1] + hop,
        starts_of_frames(len, hop).last() + hop >= len,
{
    lemma_frame_count(len, hop);
    let n = frame_count(len, hop);
    let starts = starts_of_frames(len, hop);
    assert forall|k: int| 0 <= k < n implies (#[trigger] starts[k]) == k * hop && k * hop
        < len by {
        assert(0 <= k * hop <= (n - 1) * hop) by (nonlinear_arith)
            requires
                0 <= k <= n - 1,
                0 < hop,
        ;
    }
    assert forall|k: int| 0 < k < n implies (#[trigger] starts[k]) == starts[k - 1] + hop by {
        assert(k * hop == (k - 1) * hop + hop) by (nonlinear_arith);
    }
    assert(n * hop == (n - 1) * hop + hop) by (nonlinear_arith);
    assert(0 * hop == 0);
}

/// The `fft_size` samples from `start` on, silence behind the last sample.
pub open spec fn frame_at<T>(samples: Seq<T>, start: int, fft_size: int, silence: T) -> Seq<T> {
    Seq::new(
        fft_size as nat,
        |i: int|
            if start + i < samples.len() {
                samples[start + i]
            } else {
                silence
            },
    )
}

/// Copies the `fft_size` samples from `start` on, filled up with silence.
pub fn extract_frame<T: Copy>(
    samples: &[T],
    start: usize,
    fft_size: usize,
    silence: T,
) -> (frame: Vec<T>)
    requires
        start <= samples@.len(),
    ensures
        frame@ == frame_at(samples@, start as int, fft_size as int, silence),
{
    let rest: usize = samples.len() - start;
    let mut frame: Vec<T> = Vec::with_capacity(fft_size);
    let mut i: usize = 0;
    while i < fft_size
        invariant
            i <= fft_size,
            start + rest == samples@.len() <= usize::MAX,
            frame@ == frame_at(samples@, start as int, fft_size as int, silence).take(i as int),
        decreases fft_size - i,
    {
        if i < rest {
            frame.push(samples[start + i]);
        } else {
            frame.push(silence);
        }
        i += 1;
        assert(frame@ =~= frame_at(samples@, start as int, fft_size as int, silence).take(
            i as int,
        ));
    }
    assert(frame@ =~= frame_at(samples@, start as int, fft_size as int, silence));
    frame
}

/// The order of doubles in which a median is taken.
pub open spec fn rank_order() -> spec_fn(u64, u64) -> bool {
    |a: u64, b: u64| total_rank(a) <= total_rank(b)
}

/// Where the median of some numbers lies.
#[derive(Debug, Clone, Copy, PartialEq, Eq, Structural)]
pub enum MedianPick {
    /// There are no numbers.
    Nowhere,
    /// At this number.
    At(u64),
    /// Halfway between these two.
    Between(u64, u64),
}

/// The median of numbers in order.
pub open spec fn median_of_ordered(ordered: Seq<u64>) -> MedianPick {
    let mid = ordered.len() as int / 2;
    if ordered.len() == 0 {
        MedianPick::Nowhere
    } else if ordered.len() % 2 == 0 {
        MedianPick::Between(ordered[mid - 1], ordered[mid])
    } else {
        MedianPick::At(ordered[mid])
    }
}

/// The values at most `radius` places away from `index`.
pub open spec fn neighbors(values: Seq<u64>, index: int, radius: int) -> Seq<u64> {
    let start = if index < radius {
        0
    } else {
        index - radius
    };
    let end = if index + radius + 1 < values.len() {
        index + radius + 1
    } else {
        values.len() as int
    };
    values.subrange(start, end)
}

proof fn lemma_rank_order_is_total()
    ensures
        vstd::relations::total_ordering(rank_order()),
{
}

/// Finds the median of the values at most `radius` places away from `index`; the
/// values are doubles.
pub fn local_median(values: &[u64], index: usize, radius: usize) -> (median: MedianPick)
    requires
        index + radius < usize::MAX,
        index <= values@.len() + radius,
    ensures
        median == median_of_ordered(
            neighbors(values@, index as int, radius as int).sort_by(rank_order()),
        ),
{
    let start: usize = if index < radius {
        0
    } else {
        index - radius
    };
    let end: usize = if index + radius + 1 < values.len() {
        index + radius + 1
    } else {
        values.len()
    };
    let mut around: Vec<u64> = Vec::new();
    let mut i: usize = start;
    while i < end
        invariant
            start <= i <= end <= values@.len(),
            around@ == values@.subrange(start as int, i as int),
        decreases end - i,
    {
        around.push(values[i]);
        i += 1;
        assert(around@ =~= values@.subrange(start as int, i as int));
    }
    proof {
        lemma_rank_order_is_total();
    }
    let ordered = sorted(around.as_slice(), is_ranked_no_later, Ghost(rank_order()));
    let mid: usize = ordered.len() / 2;
    if ordered.len() == 0 {
        MedianPick::Nowhere
    } else if ordered.len() % 2 == 0 {
        MedianPick::Between(ordered[mid - 1], ordered[mid])
    } else {
        MedianPick::At(ordered[mid])
    }
}

/// How far around a frame the median of the energies is taken.
pub const BASELINE_RADIUS: usize = 8;

/// Finds for every frame the median of the energies around it; the energies are
/// doubles.
pub fn baselines(energies: &[u64]) -> (medians: Vec<MedianPick>)
    requires
        energies@.len() + BASELINE_RADIUS < usize::MAX,
    ensures
        medians@ == Seq::new(
            energies@.len(),
            |i: int|
                median_of_ordered(
                    neighbors(energies@, i, BASELINE_RADIUS as int).sort_by(rank_order()),
                ),
        ),
{
    let ghost all = Seq::new(
        energies@.len(),
        |i: int|
            median_of_ordered(
                neighbors(energies@, i, BASELINE_RADIUS as int).sort_by(rank_order()),
            ),
    );
    let mut medians: Vec<MedianPick> = Vec::with_capacity(energies.len());
    let mut i: usize = 0;
    while i < energies.len()
        invariant
            i <= energies@.len(),
            energies@.len() + BASELINE_RADIUS < usize::MAX,
            all == Seq::new(
                energies@.len(),
                |k: int|
                    median_of_ordered(
                        neighbors(energies@, k, BASELINE_RADIUS as int).sort_by(rank_order()),
                    ),
            ),
            medians@ == all.take(i as int),
        decreases energies@.len() - i,
    {
        medians.push(local_median(energies, i, BASELINE_RADIUS));
        i += 1;
        assert(medians@ =~= all.take(i as int));
    }
    assert(medians@ =~= all);
    medians
}

/// What was measured in a frame, as doubles, and whether the frame is a candidate
/// for a defect.
#[derive(Debug, Clone, Copy, PartialEq, Eq, Structural)]
pub struct FrameFeatures {
    pub energy_db: u64,
    pub flatness: u64,
    pub crest_db: u64,
    pub flux: u64,
    pub residual_kurtosis: u64,
    pub candidate: bool,
}

/// `-120.0`: the energy of a frame without a spectrum.
pub const SILENT_ENERGY_DB: u64 = 0xc05e_0000_0000_0000;

impl FrameFeatures {
    /// The features of a frame without a spectrum.
    pub fn silent() -> (features: FrameFeatures)
        ensures
            features == (FrameFeatures {
                energy_db: SILENT_ENERGY_DB,
                flatness: 0,
                crest_db: 0,
                flux: 0,
                residual_kurtosis: 0,
                candidate: false,
            }),
    {
        FrameFeatures {
            energy_db: SILENT_ENERGY_DB,
            flatness: 0,
            crest_db: 0,
            flux: 0,
            residual_kurtosis: 0,
            candidate: false,
        }
    }
}

/// How many of the auxiliary features speak for a defect.
pub open spec fn auxiliary_votes(feature: FrameFeatures, config: V21PassConfig) -> int {
    (if at_least64(config.crest_db_max, feature.crest_db) {
        1int
    } else {
        0
    }) + (if at_least64(feature.flux, config.flux_min) {
        1int
    } else {
        0
    }) + (if at_least64(feature.residual_kurtosis, config.residual_kurtosis_min) {
        1int
    } else {
        0
    })
}

/// Whether a frame is a candidate: flat enough, loud enough against its surroundings
/// and against the quiet frames, and with enough auxiliary features.
pub open spec fn qualifies(
    feature: FrameFeatures,
    energy_delta_db: u64,
    quiet_gate_db: u64,
    config: V21PassConfig,
) -> bool {
    &&& at_least64(feature.flatness, config.flatness_threshold)
    &&& at_least64(energy_delta_db, config.energy_delta_db)
    &&& at_least64(feature.energy_db, quiet_gate_db)
    &&& auxiliary_votes(feature, config) >= config.aux_required
}

/// Whether a frame is a candidate. `energy_delta_db` is the frame's energy above the
/// median of its surroundings, `quiet_gate_db` the energy of the quiet frames and
/// the margin above it.
pub fn frame_qualifies_as_candidate(
    feature: FrameFeatures,
    energy_delta_db: u64,
    quiet_gate_db: u64,
    config: V21PassConfig,
) -> (candidate: bool)
    ensures
        candidate == qualifies(feature, energy_delta_db, quiet_gate_db, config),
{
    let core_gate = is_at_least64(feature.flatness, config.flatness_threshold) && is_at_least64(
        energy_delta_db,
        config.energy_delta_db,
    ) && is_at_least64(feature.energy_db, quiet_gate_db);
    let mut aux_count: usize = 0;
    if is_at_least64(config.crest_db_max, feature.crest_db) {
        aux_count += 1;
    }
    if is_at_least64(feature.flux, config.flux_min) {
        aux_count += 1;
    }
    if is_at_least64(feature.residual_kurtosis, config.residual_kurtosis_min) {
        aux_count += 1;
    }
    core_gate && aux_count >= config.aux_required
}

/// Decides for every frame whether it is a candidate; `energy_deltas_db` holds each
/// frame's energy above the median of its surroundings.
pub fn mark_candidates(
    features: &mut Vec<FrameFeatures>,
    energy_deltas_db: &[u64],
    quiet_gate_db: u64,
    config: V21PassConfig,
)
    requires
        old(features)@.len() <= energy_deltas_db@.len(),
    ensures
        final(features)@.len() == old(features)@.len(),
        forall|i: int|
            0 <= i < old(features)@.len() ==> #[trigger] final(features)@[i] == (FrameFeatures {
                candidate: qualifies(
                    old(features)@[i],
                    energy_deltas_db@[i],
                    quiet_gate_db,
                    config,
                ),
                ..old(features)@[i]
            }),
{
    let mut i: usize = 0;
    while i < features.len()
        invariant
            i <= features@.len() == old(features)@.len() <= energy_deltas_db@.len(),
            forall|j: int| i <= j < features@.len() ==> features@[j] == old(features)@[j],
            forall|j: int|
                0 <= j < i ==> #[trigger] features@[j] == (FrameFeatures {
                    candidate: qualifies(
                        old(features)@[j],
                        energy_deltas_db@[j],
                        quiet_gate_db,
                        config,
                    ),
                    ..old(features)@[j]
                }),
        decreases features@.len() - i,
    {
        let feature = features[i];
        let candidate = frame_qualifies_as_candidate(
            feature,
            energy_deltas_db[i],
            quiet_gate_db,
            config,
        );
        features[i] = FrameFeatures { candidate, ..feature };
        i += 1;
    }
}

/// Whatever else was measured, a candidate for crackle needs two auxiliary features
/// and one for a click needs one; a frame that does not stand out from the quiet
/// frames is never a candidate; and being marked already does not matter.
pub proof fn law_candidate_gates(
    feature: FrameFeatures,
    energy_delta_db: u64,
    quiet_gate_db: u64,
    sample_rate: u32,
    config: V21PassConfig,
)
    ensures
        qualifies(feature, energy_delta_db, quiet_gate_db, V21PassConfig::crackle(sample_rate))
            ==> auxiliary_votes(feature, V21PassConfig::crackle(sample_rate)) >= 2,
        qualifies(feature, energy_delta_db, quiet_gate_db, V21PassConfig::click(sample_rate))
            ==> auxiliary_votes(feature, V21PassConfig::click(sample_rate)) >= 1,
        !at_least64(feature.energy_db, quiet_gate_db) ==> !qualifies(
            feature,
            energy_delta_db,
            quiet_gate_db,
            config,
        ),
        qualifies(
            FrameFeatures { candidate: true, ..feature },
            energy_delta_db,
            quiet_gate_db,
            config,
        ) == qualifies(feature, energy_delta_db, quiet_gate_db, config),
{
}

/// Each auxiliary feature counts once: a frame is a candidate exactly if it passes the
/// three gates and as many of the three comparisons hold as are asked for.
pub proof fn law_votes_count_once(
    feature: FrameFeatures,
    energy_delta_db: u64,
    quiet_gate_db: u64,
    config: V21PassConfig,
)
    ensures
        ({
            let gates = at_least64(feature.flatness, config.flatness_threshold) && at_least64(
                energy_delta_db,
                config.energy_delta_db,
            ) && at_least64(feature.energy_db, quiet_gate_db);
            let crest = at_least64(config.crest_db_max, feature.crest_db);
            let flux = at_least64(feature.flux, config.flux_min);
            let kurtosis = at_least64(feature.residual_kurtosis, config.residual_kurtosis_min);
            let candidate = qualifies(feature, energy_delta_db, quiet_gate_db, config);
            &&& config.aux_required == 0 ==> (candidate <==> gates)
            &&& config.aux_required == 1 ==> (candidate <==> gates && (crest || flux || kurtosis))
            &&& config.aux_required == 2 ==> (candidate <==> gates && ((crest && flux) || (crest
                && kurtosis) || (flux && kurtosis)))
            &&& config.aux_required == 3 ==> (candidate <==> gates && crest && flux && kurtosis)
            &&& config.aux_required > 3 ==> !candidate
        }),
{
}

/// With a hop of 0 only one frame starts, at the first sample, and none in an empty
/// recording, whatever the hop.
pub proof fn law_frames_without_a_hop(len: int, hop: int)
    ensures
        len > 0 ==> starts_of_frames(len, 0) == seq![0usize],
        len <= 0 ==> starts_of_frames(len, hop).len() == 0,
{
    if len > 0 {
        assert(0 * 0 == 0);
        assert(starts_of_frames(len, 0) =~= seq![0usize]);
    }
}

/// A frame holds the samples from its start on, and silence behind the recording.
pub proof fn law_frame_holds_samples<T>(
    samples: Seq<T>,
    start: int,
    fft_size: int,
    silence: T,
    i: int,
)
    requires
        0 <= start <= samples.len(),
        0 <= i < fft_size,
    ensures
        frame_at(samples, start, fft_size, silence).len() == fft_size,
        start + i < samples.len() ==> frame_at(samples, start, fft_size, silence)[i]
            == samples[start + i],
        start + i >= samples.len() ==> frame_at(samples, start, fft_size, silence)[i] == silence,
{
}

/// The median of numbers in order stands in their middle: as many come before it as
/// behind it.
pub proof fn law_median_is_the_middle(ordered: Seq<u64>)
    ensures
        match median_of_ordered(ordered) {
            MedianPick::Nowhere => ordered.len() == 0,
            MedianPick::At(value) => exists|k: int|
                0 <= k < ordered.len() && #[trigger] ordered[k] == value && k == ordered.len() - 1
                    - k,
            MedianPick::Between(low, high) => exists|k: int|
                0 <= k < ordered.len() - 1 && #[trigger] ordered[k] == low && ordered[k + 1] == high
                    && k == ordered.len() - 2 - k,
        },
{
    let mid = ordered.len() as int / 2;
    if ordered.len() > 0 {
        if ordered.len() % 2 == 0 {
            assert(ordered[mid - 1] == ordered[mid - 1]);
        } else {
            assert(ordered[mid] == ordered[mid]);
        }
    }
}

/// Whether two places are no more than `radius` apart.
pub open spec fn is_near(index: int, radius: int, j: int) -> bool {
    index - radius <= j <= index + radius
}

/// The neighbors of a place are the values from `from` to `to`, if these are all places
/// that are no more than `radius` away.
pub proof fn law_neighbors(values: Seq<u64>, index: int, radius: int, from: int, to: int)
    requires
        0 <= radius,
        0 <= index < values.len(),
        0 <= from <= to <= values.len(),
        forall|j: int|
            0 <= j < values.len() ==> (from <= j < to <==> #[trigger] is_near(index, radius, j)),
    ensures
        neighbors(values, index, radius) == values.subrange(from, to),
{
    assert(is_near(index, radius, index));
    assert(is_near(index, radius, from));
    assert(!is_near(index, radius, from - 1) || from == 0);
    assert(is_near(index, radius, to - 1));
    assert(!is_near(index, radius, to) || to == values.len());
}

} // verus!
