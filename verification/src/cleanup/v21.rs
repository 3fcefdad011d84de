//! The second generation of the cleanup: spectral candidates, narrowed down by the
//! residual detector.
use vstd::prelude::*;

use crate::cleanup::regions::{Region, total_region_len};
#[allow(unused_imports)]
use crate::cleanup::regions::total_span;
use crate::cleanup::{CleanupMode, RepairMode, RepairTuning, at_least, limit, odd_window};
#[allow(unused_imports)]
use crate::cleanup::{larger, limited, odd_fit};

verus! {

/// `0.65`.
pub const CLICK_FLATNESS: u64 = 0x3fe4_cccc_cccc_cccd;

/// `0.55`.
pub const CRACKLE_FLATNESS: u64 = 0x3fe1_9999_9999_999a;

/// `6.0`.
pub const CLICK_ENERGY_DELTA_DB: u64 = 0x4018_0000_0000_0000;

/// `4.0`.
pub const CRACKLE_ENERGY_DELTA_DB: u64 = 0x4010_0000_0000_0000;

/// `6.0`: how far above the quiet frames a candidate has to be.
pub const QUIET_FLOOR_MARGIN_DB: u64 = 0x4018_0000_0000_0000;

/// `7.0`.
pub const CLICK_CREST_DB_MAX: u64 = 0x401c_0000_0000_0000;

/// `9.0`.
pub const CRACKLE_CREST_DB_MAX: u64 = 0x4022_0000_0000_0000;

/// `0.20`.
pub const CLICK_FLUX_MIN: u64 = 0x3fc9_9999_9999_999a;

/// `0.15`.
pub const CRACKLE_FLUX_MIN: u64 = 0x3fc3_3333_3333_3333;

/// `6.0`.
pub const CLICK_KURTOSIS_MIN: u64 = 0x4018_0000_0000_0000;

/// `5.0`.
pub const CRACKLE_KURTOSIS_MIN: u64 = 0x4014_0000_0000_0000;

/// `8.0`.
pub const CLICK_RELOCALIZER_Z_HI: u64 = 0x4020_0000_0000_0000;

/// `3.5`.
pub const CLICK_RELOCALIZER_Z_LO: u64 = 0x400c_0000_0000_0000;

/// `2.5`.
pub const CLICK_RELOCALIZER_EDGE: u64 = 0x4004_0000_0000_0000;

/// `6.0`.
pub const CRACKLE_RELOCALIZER_Z_HI: u64 = 0x4018_0000_0000_0000;

/// `2.8`.
pub const CRACKLE_RELOCALIZER_Z_LO: u64 = 0x4006_6666_6666_6666;

/// `1.6`.
pub const CRACKLE_RELOCALIZER_EDGE: u64 = 0x3ff9_9999_9999_999a;

/// Samples that have to be left on both sides of a repair.
pub const MIN_CONTEXT_SAMPLES: usize = 16;

/// Settings of one pass; thresholds are double-precision bit patterns.
#[derive(Debug, Clone, Copy, PartialEq, Eq, Structural)]
pub struct V21PassConfig {
    pub fft_size: usize,
    pub hop_size: usize,
    pub flatness_threshold: u64,
    pub energy_delta_db: u64,
    pub min_flag_frames: usize,
    pub aux_required: usize,
    pub crest_db_max: u64,
    pub flux_min: u64,
    pub residual_kurtosis_min: u64,
    pub candidate_dilation: usize,
    pub candidate_merge_gap: usize,
    pub max_candidate_span: usize,
    pub relocalizer: ResidualRelocalizer,
    pub final_merge_gap: usize,
    pub residual_fallback_sample_rate_limit: Option<u32>,
}

/// Settings for narrowing a candidate down.
#[derive(Debug, Clone, Copy, PartialEq, Eq, Structural)]
pub struct ResidualRelocalizer {
    pub mad_window: usize,
    pub z_hi: u64,
    pub z_lo: u64,
    pub edge_rms_mult: u64,
    pub max_span: usize,
    pub repair_pad: usize,
}

/// The transform's length: 6 ms, rounded up to a power of two from 128 to 512.
pub open spec fn fft_len(sample_rate: u32) -> int {
    let samples = larger((sample_rate * 3 + 250) / 500, 32);
    if samples <= 128 {
        128
    } else if samples <= 256 {
        256
    } else {
        512
    }
}

/// The transform's length for a sample rate.
pub fn fft_size_for_sample_rate(sample_rate: u32) -> (size: usize)
    ensures
        size == fft_len(sample_rate),
{
    let samples: usize = at_least(((sample_rate as u64 * 3 + 250) / 500) as usize, 32);
    if samples <= 128 {
        128
    } else if samples <= 256 {
        256
    } else {
        512
    }
}

/// The distance between frames: 1.5 ms, and no fewer than 16 samples.
pub open spec fn hop_len(sample_rate: u32) -> int {
    larger((sample_rate * 3 + 1000) / 2000, 16)
}

/// The distance between frames for a sample rate.
pub fn hop_size_for_sample_rate(sample_rate: u32) -> (size: usize)
    ensures
        size == hop_len(sample_rate),
{
    at_least(((sample_rate as u64 * 3 + 1000) / 2000) as usize, 16)
}

/// As many samples as there are in `per_mille` thousandths of a second.
pub open spec fn samples_in(sample_rate: u32, per_mille: int) -> int {
    sample_rate * per_mille / 1000
}

fn samples_within(sample_rate: u32, per_mille: u64) -> (samples: usize)
    requires
        per_mille <= 1000,
    ensures
        samples == samples_in(sample_rate, per_mille as int),
{
    assert(sample_rate * per_mille <= 1000 * u32::MAX) by (nonlinear_arith)
        requires
            per_mille <= 1000,
            sample_rate <= u32::MAX,
    ;
    (sample_rate as u64 * per_mille / 1000) as usize
}

impl V21PassConfig {
    /// The settings against clicks.
    pub open spec fn click(sample_rate: u32) -> V21PassConfig {
        V21PassConfig {
            fft_size: fft_len(sample_rate) as usize,
            hop_size: hop_len(sample_rate) as usize,
            flatness_threshold: CLICK_FLATNESS,
            energy_delta_db: CLICK_ENERGY_DELTA_DB,
            min_flag_frames: 2,
            aux_required: 1,
            crest_db_max: CLICK_CREST_DB_MAX,
            flux_min: CLICK_FLUX_MIN,
            residual_kurtosis_min: CLICK_KURTOSIS_MIN,
            candidate_dilation: larger(hop_len(sample_rate) / 2, 1) as usize,
            candidate_merge_gap: hop_len(sample_rate) as usize,
            max_candidate_span: limited(samples_in(sample_rate, 12), 128, 1024) as usize,
            relocalizer: ResidualRelocalizer {
                mad_window: odd_fit(
                    larger(samples_in(sample_rate, 4), 5),
                    usize::MAX as int,
                ) as usize,
                z_hi: CLICK_RELOCALIZER_Z_HI,
                z_lo: CLICK_RELOCALIZER_Z_LO,
                edge_rms_mult: CLICK_RELOCALIZER_EDGE,
                max_span: limited(samples_in(sample_rate, 3), 32, 256) as usize,
                repair_pad: 1,
            },
            final_merge_gap: 2,
            residual_fallback_sample_rate_limit: None,
        }
    }

    /// The settings against crackle.
    pub open spec fn crackle(sample_rate: u32) -> V21PassConfig {
        V21PassConfig {
            fft_size: fft_len(sample_rate) as usize,
            hop_size: hop_len(sample_rate) as usize,
            flatness_threshold: CRACKLE_FLATNESS,
            energy_delta_db: CRACKLE_ENERGY_DELTA_DB,
            min_flag_frames: 1,
            aux_required: 2,
            crest_db_max: CRACKLE_CREST_DB_MAX,
            flux_min: CRACKLE_FLUX_MIN,
            residual_kurtosis_min: CRACKLE_KURTOSIS_MIN,
            candidate_dilation: larger(hop_len(sample_rate) / 4, 1) as usize,
            candidate_merge_gap: larger(hop_len(sample_rate) / 2, 1) as usize,
            max_candidate_span: limited(samples_in(sample_rate, 4), 32, 256) as usize,
            relocalizer: ResidualRelocalizer {
                mad_window: odd_fit(
                    larger(samples_in(sample_rate, 3), 5),
                    usize::MAX as int,
                ) as usize,
                z_hi: CRACKLE_RELOCALIZER_Z_HI,
                z_lo: CRACKLE_RELOCALIZER_Z_LO,
                edge_rms_mult: CRACKLE_RELOCALIZER_EDGE,
                max_span: limited(samples_in(sample_rate, 1), 8, 64) as usize,
                repair_pad: 0,
            },
            final_merge_gap: 1,
            residual_fallback_sample_rate_limit: Some(12_000),
        }
    }

    /// The settings against clicks.
    pub fn for_click(sample_rate: u32) -> (config: V21PassConfig)
        ensures
            config == V21PassConfig::click(sample_rate),
    {
        let fft_size: usize = fft_size_for_sample_rate(sample_rate);
        let hop_size: usize = hop_size_for_sample_rate(sample_rate);
        V21PassConfig {
            fft_size,
            hop_size,
            flatness_threshold: CLICK_FLATNESS,
            energy_delta_db: CLICK_ENERGY_DELTA_DB,
            min_flag_frames: 2,
            aux_required: 1,
            crest_db_max: CLICK_CREST_DB_MAX,
            flux_min: CLICK_FLUX_MIN,
            residual_kurtosis_min: CLICK_KURTOSIS_MIN,
            candidate_dilation: at_least(hop_size / 2, 1),
            candidate_merge_gap: hop_size,
            max_candidate_span: limit(samples_within(sample_rate, 12), 128, 1024),
            relocalizer: ResidualRelocalizer {
                mad_window: odd_window(at_least(samples_within(sample_rate, 4), 5), usize::MAX),
                z_hi: CLICK_RELOCALIZER_Z_HI,
                z_lo: CLICK_RELOCALIZER_Z_LO,
                edge_rms_mult: CLICK_RELOCALIZER_EDGE,
                max_span: limit(samples_within(sample_rate, 3), 32, 256),
                repair_pad: 1,
            },
            final_merge_gap: 2,
            residual_fallback_sample_rate_limit: None,
        }
    }

    /// The settings against crackle.
    pub fn for_crackle(sample_rate: u32) -> (config: V21PassConfig)
        ensures
            config == V21PassConfig::crackle(sample_rate),
    {
        let fft_size: usize = fft_size_for_sample_rate(sample_rate);
        let hop_size: usize = hop_size_for_sample_rate(sample_rate);
        V21PassConfig {
            fft_size,
            hop_size,
            flatness_threshold: CRACKLE_FLATNESS,
            energy_delta_db: CRACKLE_ENERGY_DELTA_DB,
            min_flag_frames: 1,
            aux_required: 2,
            crest_db_max: CRACKLE_CREST_DB_MAX,
            flux_min: CRACKLE_FLUX_MIN,
            residual_kurtosis_min: CRACKLE_KURTOSIS_MIN,
            candidate_dilation: at_least(hop_size / 4, 1),
            candidate_merge_gap: at_least(hop_size / 2, 1),
            max_candidate_span: limit(samples_within(sample_rate, 4), 32, 256),
            relocalizer: ResidualRelocalizer {
                mad_window: odd_window(at_least(samples_within(sample_rate, 3), 5), usize::MAX),
                z_hi: CRACKLE_RELOCALIZER_Z_HI,
                z_lo: CRACKLE_RELOCALIZER_Z_LO,
                edge_rms_mult: CRACKLE_RELOCALIZER_EDGE,
                max_span: limit(samples_within(sample_rate, 1), 8, 64),
                repair_pad: 0,
            },
            final_merge_gap: 1,
            residual_fallback_sample_rate_limit: Some(12_000),
        }
    }
}

/// Consecutive frames touch or overlap exactly up to 341666 Hz. At every rate both
/// kinds of passes share their frames, a repair is shorter than the longest window that it is
/// searched in, and the detector's windows are odd.
pub proof fn law_configs(sample_rate: u32)
    ensures
        ({
            let click = V21PassConfig::click(sample_rate);
            let crackle = V21PassConfig::crackle(sample_rate);
            &&& click.hop_size <= click.fft_size <==> sample_rate <= 341_666
            &&& crackle.fft_size == click.fft_size && crackle.hop_size == click.hop_size
            &&& click.relocalizer.max_span < click.max_candidate_span
            &&& crackle.relocalizer.max_span < crackle.max_candidate_span
            &&& click.relocalizer.mad_window % 2 == 1
            &&& crackle.relocalizer.mad_window % 2 == 1
        }),
{
}

/// One recording on its way through the passes of a mode.
///
/// Before each pass the host detects the regions to repair and hands them in; the
/// run answers whether they are to be repaired and whether another pass follows.
#[derive(Debug, Clone, Copy, PartialEq, Eq, Structural)]
pub struct V21Run {
    pub config: V21PassConfig,
    pub tuning: RepairTuning,
    pub mode: RepairMode,
    /// Passes that may still come.
    pub passes_left: u32,
    /// Samples repaired by the first pass.
    pub first_pass_samples: Option<usize>,
    /// Samples repaired by the latest pass.
    pub previous_samples: Option<usize>,
}

/// What is to be done with a recording.
#[derive(Debug, Clone, Copy, PartialEq, Eq, Structural)]
pub enum V21Start {
    /// Return nothing.
    Empty,
    /// Return the recording as it is.
    Unchanged,
    /// Separate the channels, repair clipping, carry out the run and put the
    /// channels together again.
    Run(V21Run),
}

/// A run at its beginning.
pub open spec fn fresh_run(
    config: V21PassConfig,
    tuning: RepairTuning,
    mode: RepairMode,
    passes: u32,
) -> V21Run {
    V21Run {
        config,
        tuning,
        mode,
        passes_left: passes,
        first_pass_samples: None,
        previous_samples: None,
    }
}

/// What a mode does with `data_len` interleaved samples of `channels` channels: one
/// pass against clicks, at most three against crackle.
pub open spec fn started(
    data_len: usize,
    sample_rate: u32,
    channels: usize,
    mode: CleanupMode,
) -> V21Start {
    if channels == 0 || data_len == 0 {
        V21Start::Empty
    } else {
        match mode {
            CleanupMode::Off => V21Start::Unchanged,
            CleanupMode::DeclickAr => V21Start::Run(
                fresh_run(
                    V21PassConfig::click(sample_rate),
                    RepairTuning::Click,
                    RepairMode::Ar,
                    1,
                ),
            ),
            CleanupMode::DeclickMedian => V21Start::Run(
                fresh_run(
                    V21PassConfig::click(sample_rate),
                    RepairTuning::Click,
                    RepairMode::Median,
                    1,
                ),
            ),
            CleanupMode::Decrackle => V21Start::Run(
                fresh_run(
                    V21PassConfig::crackle(sample_rate),
                    RepairTuning::Crackle,
                    RepairMode::Ar,
                    3,
                ),
            ),
        }
    }
}

/// Starts what a mode does with `data_len` interleaved samples of `channels`
/// channels.
pub fn apply_cleanup_v21(
    data_len: usize,
    sample_rate: u32,
    channels: usize,
    mode: CleanupMode,
) -> (start: V21Start)
    ensures
        start == started(data_len, sample_rate, channels, mode),
{
    if channels == 0 || data_len == 0 {
        return V21Start::Empty;
    }
    let (config, tuning, repair_mode, passes_left) = match mode {
        CleanupMode::Off => {
            return V21Start::Unchanged;
        },
        CleanupMode::DeclickAr => (
            V21PassConfig::for_click(sample_rate),
            RepairTuning::Click,
            RepairMode::Ar,
            1u32,
        ),
        CleanupMode::DeclickMedian => (
            V21PassConfig::for_click(sample_rate),
            RepairTuning::Click,
            RepairMode::Median,
            1u32,
        ),
        CleanupMode::Decrackle => (
            V21PassConfig::for_crackle(sample_rate),
            RepairTuning::Crackle,
            RepairMode::Ar,
            3u32,
        ),
    };
    V21Start::Run(
        V21Run {
            config,
            tuning,
            mode: repair_mode,
            passes_left,
            first_pass_samples: None,
            previous_samples: None,
        },
    )
}

/// Whether a later pass that found `samples` samples still does enough: at least a
/// tenth of what the first pass repaired, and at least 8 samples.
pub open spec fn active_enough(samples: int, first: int) -> bool {
    samples >= larger(first / 10, 8)
}

/// Whether a pass that found `samples` samples grew by more than a quarter over the
/// one before.
pub open spec fn grew_too_much(samples: int, previous: int) -> bool {
    samples * 4 > previous * 5
}

impl V21Run {
    /// Whether a pass that found `regions` repairs them.
    pub open spec fn repairs(self, regions: Seq<Region>) -> bool {
        &&& self.passes_left > 0
        &&& match self.tuning {
            RepairTuning::Click => regions.len() > 0,
            RepairTuning::Crackle => {
                let samples = total_span(regions);
                &&& samples > 0
                &&& self.first_pass_samples matches Some(first) ==> {
                    &&& active_enough(samples, first as int)
                    &&& self.previous_samples matches Some(previous) ==> !grew_too_much(
                        samples,
                        previous as int,
                    )
                }
            },
        }
    }

    /// The run after a pass that found `regions`.
    pub open spec fn after(self, regions: Seq<Region>) -> V21Run {
        if !self.repairs(regions) {
            V21Run { passes_left: 0, ..self }
        } else {
            match self.tuning {
                RepairTuning::Click => V21Run {
                    passes_left: (self.passes_left - 1) as u32,
                    ..self
                },
                RepairTuning::Crackle => V21Run {
                    passes_left: (self.passes_left - 1) as u32,
                    first_pass_samples: if self.first_pass_samples is Some {
                        self.first_pass_samples
                    } else {
                        Some(total_span(regions) as usize)
                    },
                    previous_samples: Some(total_span(regions) as usize),
                    ..self
                },
            }
        }
    }

    /// Whether another pass is to be made.
    pub fn wants_pass(&self) -> (wanted: bool)
        ensures
            wanted == (self.passes_left > 0),
    {
        self.passes_left > 0
    }

    /// Takes the regions that a pass found and answers whether to repair them.
    pub fn on_regions(&mut self, regions: &[Region]) -> (repair: bool)
        requires
            old(self).tuning is Crackle ==> total_span(regions@) <= usize::MAX,
        ensures
            repair == old(self).repairs(regions@),
            *final(self) == old(self).after(regions@),
    {
        if self.passes_left == 0 {
            return false;
        }
        if self.tuning == RepairTuning::Click {
            if regions.len() == 0 {
                self.passes_left = 0;
                return false;
            }
            self.passes_left = self.passes_left - 1;
            return true;
        }
        let samples: usize = total_region_len(regions);
        let mut repair = samples > 0;
        if let Some(first) = self.first_pass_samples {
            if samples < at_least(first / 10, 8) {
                repair = false;
            }
            if let Some(previous) = self.previous_samples {
                if samples as u128 * 4 > previous as u128 * 5 {
                    repair = false;
                }
            }
        }
        if !repair {
            self.passes_left = 0;
            return false;
        }
        self.passes_left = self.passes_left - 1;
        if self.first_pass_samples.is_none() {
            self.first_pass_samples = Some(samples);
        }
        self.previous_samples = Some(samples);
        true
    }
}

/// The sample counts of the passes that are repaired when the host finds
/// `found[0]`, then `found[1]`, and so on, as long as the run wants passes.
pub open spec fn repaired_counts(run: V21Run, found: Seq<Seq<Region>>) -> Seq<int>
    decreases found.len(),
{
    if found.len() == 0 || !run.repairs(found[0]) {
        seq![]
    } else {
        seq![total_span(found[0])] + repaired_counts(run.after(found[0]), found.drop_first())
    }
}

/// Whatever the host finds, decrackling repairs at most three times, always some
/// samples; each later repair has at least 8 samples, at least a tenth of the first
/// one's, and at most a quarter more than the one before.
pub proof fn law_decrackling_is_bounded(
    data_len: usize,
    sample_rate: u32,
    channels: usize,
    run: V21Run,
    found: Seq<Seq<Region>>,
)
    requires
        started(data_len, sample_rate, channels, CleanupMode::Decrackle) == V21Start::Run(run),
        forall|i: int| 0 <= i < found.len() ==> total_span(#[trigger] found[i]) <= usize::MAX,
    ensures
        repaired_counts(run, found).len() <= 3,
        forall|i: int|
            0 <= i < repaired_counts(run, found).len() ==> #[trigger] repaired_counts(run, found)[i]
                > 0,
        forall|i: int|
            0 < i < repaired_counts(run, found).len() ==> {
                &&& #[trigger] repaired_counts(run, found)[i] >= 8
                &&& repaired_counts(run, found)[i] >= repaired_counts(run, found)[0] / 10
                &&& repaired_counts(run, found)[i] * 4 <= repaired_counts(run, found)[i - 1] * 5
            },
{
    reveal_with_fuel(repaired_counts, 4);
}

/// Whatever the host finds, declicking repairs at most once, and exactly if the
/// first search found anything.
pub proof fn law_declicking_is_one_pass(
    data_len: usize,
    sample_rate: u32,
    channels: usize,
    mode: CleanupMode,
    run: V21Run,
    found: Seq<Seq<Region>>,
)
    requires
        mode is DeclickAr || mode is DeclickMedian,
        started(data_len, sample_rate, channels, mode) == V21Start::Run(run),
    ensures
        repaired_counts(run, found).len() == (if found.len() > 0 && found[0].len() > 0 {
            1int
        } else {
            0
        }),
{
    reveal_with_fuel(repaired_counts, 3);
}

/// Nothing is returned exactly if there is no channel or no data. Otherwise the
/// recording stays as it is in the mode that is off and goes through a run in every
/// other one, through the same run for every number of channels and samples.
pub proof fn law_runs_by_input(
    data_len: usize,
    sample_rate: u32,
    channels: usize,
    mode: CleanupMode,
    other_len: usize,
    other_channels: usize,
)
    ensures
        ({
            let start = started(data_len, sample_rate, channels, mode);
            let other = started(other_len, sample_rate, other_channels, mode);
            &&& start is Empty <==> channels == 0 || data_len == 0
            &&& channels > 0 && data_len > 0 ==> (start is Unchanged <==> mode is Off)
            &&& channels > 0 && data_len > 0 ==> (start is Run <==> !(mode is Off))
            &&& channels > 0 && data_len > 0 && other_channels > 0 && other_len > 0 ==> start
                == other
            &&& start matches V21Start::Run(run) ==> {
                &&& mode is DeclickAr || mode is Decrackle ==> run.mode is Ar
                &&& mode is DeclickMedian ==> run.mode is Median
                &&& mode is Decrackle <==> run.tuning is Crackle
                &&& mode is Decrackle ==> run.config == V21PassConfig::crackle(sample_rate)
                &&& !(mode is Decrackle) ==> run.config == V21PassConfig::click(sample_rate)
            }
        }),
{
}

/// How long decrackling goes on: it repairs what each search found, in turn, and stops
/// only after three repairs, when nothing more was searched, or at the first search
/// that found nothing, fewer than 8 samples, less than a tenth of what the first repair
/// held, or more than a quarter above the repair before.
pub proof fn law_decrackling_goes_on(
    data_len: usize,
    sample_rate: u32,
    channels: usize,
    run: V21Run,
    found: Seq<Seq<Region>>,
)
    requires
        started(data_len, sample_rate, channels, CleanupMode::Decrackle) == V21Start::Run(run),
        forall|i: int| 0 <= i < found.len() ==> total_span(#[trigger] found[i]) <= usize::MAX,
    ensures
        ({
            let counts = repaired_counts(run, found);
            let n = counts.len() as int;
            &&& n <= found.len()
            &&& forall|i: int| 0 <= i < n ==> #[trigger] counts[i] == total_span(found[i])
            &&& n < 3 && n < found.len() ==> {
                let next = total_span(found[n]);
                ||| next <= 0
                ||| n > 0 && next < 8
                ||| n > 0 && counts[0] >= 10 * (next + 1)
                ||| n > 0 && 4 * next > 5 * counts[n - 1]
            }
        }),
{
    reveal_with_fuel(repaired_counts, 4);
    let counts = repaired_counts(run, found);
    if found.len() > 0 && run.repairs(found[0]) {
        let second = run.after(found[0]);
        let rest = found.drop_first();
        assert(counts[0] == total_span(found[0]));
        if rest.len() > 0 {
            assert(rest[0] == found[1]);
            if second.repairs(rest[0]) {
                assert(counts[1] == total_span(found[1]));
                if rest.drop_first().len() > 0 {
                    assert(rest.drop_first()[0] == found[2]);
                    if second.after(rest[0]).repairs(found[2]) {
                        assert(counts[2] == total_span(found[2]));
                    }
                }
            }
        }
    }
}

/// A pass changes nothing but the counts: settings, tuning and repair stay.
pub proof fn law_passes_keep_settings(run: V21Run, regions: Seq<Region>)
    ensures
        run.after(regions).config == run.config,
        run.after(regions).tuning == run.tuning,
        run.after(regions).mode == run.mode,
        run.repairs(regions) ==> run.after(regions).passes_left == run.passes_left - 1,
        !run.repairs(regions) ==> run.after(regions).passes_left == 0,
{
}

/// A transform lasts 6 thousandths of a second, rounded up to a power of two from 128
/// to 512; frames start 1.5 thousandths apart, rounded to the nearest, and at least 16
/// samples.
pub proof fn law_frame_sizes(sample_rate: u32)
    ensures
        ({
            let (fft, hop) = (fft_len(sample_rate), hop_len(sample_rate));
            &&& fft == 128 || fft == 256 || fft == 512
            &&& fft < 512 ==> 3 * sample_rate < 500 * fft + 250
            &&& fft > 128 ==> 3 * sample_rate >= 500 * (fft / 2) + 250
            &&& hop >= 16
            &&& hop > 16 ==> 2000 * hop - 1000 <= 3 * sample_rate
            &&& 3 * sample_rate < 2000 * hop + 1000
        }),
{
}

/// Whether `n` is as many samples as there are in `per_mille` thousandths of a second,
/// cut off, inside the limits.
pub open spec fn lasts(n: usize, sample_rate: u32, per_mille: int, low: int, high: int) -> bool {
    &&& low <= n <= high
    &&& n < high ==> per_mille * sample_rate < 1000 * (n + 1)
    &&& n > low ==> per_mille * sample_rate >= 1000 * n
}

/// The lengths of both kinds of passes follow the rate: how long a window may be and a
/// repair, how far a window reaches beyond its frames, and across which holes windows
/// are joined. A pass against clicks asks for more frames, a flatter spectrum and more
/// energy, but for less besides; only it pads.
pub proof fn law_pass_lengths(sample_rate: u32)
    ensures
        ({
            let click = V21PassConfig::click(sample_rate);
            let crackle = V21PassConfig::crackle(sample_rate);
            let hop = hop_len(sample_rate);
            &&& lasts(click.max_candidate_span, sample_rate, 12, 128, 1024)
            &&& lasts(click.relocalizer.max_span, sample_rate, 3, 32, 256)
            &&& lasts(crackle.max_candidate_span, sample_rate, 4, 32, 256)
            &&& lasts(crackle.relocalizer.max_span, sample_rate, 1, 8, 64)
            &&& click.hop_size == hop && click.fft_size == fft_len(sample_rate)
            &&& 2 * click.candidate_dilation <= hop < 2 * click.candidate_dilation + 2
            &&& click.candidate_merge_gap == hop
            &&& 4 * crackle.candidate_dilation <= hop < 4 * crackle.candidate_dilation + 4
            &&& 2 * crackle.candidate_merge_gap <= hop < 2 * crackle.candidate_merge_gap + 2
            &&& click.min_flag_frames == 2 && crackle.min_flag_frames == 1
            &&& click.aux_required == 1 && crackle.aux_required == 2
            &&& click.flatness_threshold > crackle.flatness_threshold
            &&& click.energy_delta_db > crackle.energy_delta_db
            &&& click.relocalizer.repair_pad == 1 && crackle.relocalizer.repair_pad == 0
            &&& click.final_merge_gap == 2 && crackle.final_merge_gap == 1
        }),
        ({
            let click = V21PassConfig::click(sample_rate).relocalizer.mad_window;
            let crackle = V21PassConfig::crackle(sample_rate).relocalizer.mad_window;
            &&& click >= 5 && crackle >= 5 && click % 2 == 1 && crackle % 2 == 1
            &&& 4 * sample_rate < 1000 * (click + 1)
            &&& click > 5 ==> 4 * sample_rate >= 1000 * (click - 1)
            &&& 3 * sample_rate < 1000 * (crackle + 1)
            &&& crackle > 5 ==> 3 * sample_rate >= 1000 * (crackle - 1)
        }),
{
}

} // verus!
