//! The first generation of the cleanup: fixed passes for each mode.
use vstd::prelude::*;

use crate::cleanup::regions::Region;
use crate::cleanup::{
    CleanupMode, RepairMode, RepairTuning, ResidualDetectParams, RetiredCleanupPreset, at_least,
    limit,
};
#[allow(unused_imports)]
use crate::cleanup::{larger, limited, odd_from};

verus! {

/// `10.0`.
pub const CLICK_Z_HI: u64 = 0x4024_0000_0000_0000;

/// `4.5`.
pub const CLICK_Z_LO: u64 = 0x4012_0000_0000_0000;

/// `3.0`.
pub const CLICK_EDGE_RMS_MULT: u64 = 0x4008_0000_0000_0000;

/// `7.5`.
pub const CRACKLE_Z_HI: u64 = 0x401e_0000_0000_0000;

/// `3.2`.
pub const CRACKLE_Z_LO: u64 = 0x4009_9999_9999_999a;

/// `1.8`.
pub const CRACKLE_EDGE_RMS_MULT: u64 = 0x3ffc_cccc_cccc_cccd;

/// The detector's settings for clicks: a window of 4 ms, clicks of up to 1 ms.
pub open spec fn click_params(sample_rate: u32) -> ResidualDetectParams {
    ResidualDetectParams {
        mad_window: odd_from(larger(sample_rate as int / 250, 63)) as usize,
        z_hi: CLICK_Z_HI,
        z_lo: CLICK_Z_LO,
        edge_rms_mult: CLICK_EDGE_RMS_MULT,
        max_click_samples: limited(sample_rate as int / 1000, 8, 64) as usize,
        pad_samples: 1,
    }
}

/// The detector's settings for crackle: a window of 3 ms, clicks of up to 0.45 ms.
pub open spec fn crackle_params(sample_rate: u32) -> ResidualDetectParams {
    ResidualDetectParams {
        mad_window: odd_from(larger(sample_rate * 3 / 1000, 31)) as usize,
        z_hi: CRACKLE_Z_HI,
        z_lo: CRACKLE_Z_LO,
        edge_rms_mult: CRACKLE_EDGE_RMS_MULT,
        max_click_samples: limited(sample_rate * 9 / 20000, 2, 24) as usize,
        pad_samples: 0,
    }
}

fn raise_to_odd(n: usize) -> (odd: usize)
    requires
        n < usize::MAX,
    ensures
        odd == odd_from(n as int),
{
    if n % 2 == 0 {
        n + 1
    } else {
        n
    }
}

/// The detector's settings for clicks.
pub fn click_detect_params(sample_rate: u32) -> (params: ResidualDetectParams)
    ensures
        params == click_params(sample_rate),
{
    ResidualDetectParams {
        mad_window: raise_to_odd(at_least((sample_rate / 250) as usize, 63)),
        z_hi: CLICK_Z_HI,
        z_lo: CLICK_Z_LO,
        edge_rms_mult: CLICK_EDGE_RMS_MULT,
        max_click_samples: limit((sample_rate / 1000) as usize, 8, 64),
        pad_samples: 1,
    }
}

/// The detector's settings for crackle.
pub fn crackle_detect_params(sample_rate: u32) -> (params: ResidualDetectParams)
    ensures
        params == crackle_params(sample_rate),
{
    let rate: u64 = sample_rate as u64;
    ResidualDetectParams {
        mad_window: raise_to_odd(at_least((rate * 3 / 1000) as usize, 31)),
        z_hi: CRACKLE_Z_HI,
        z_lo: CRACKLE_Z_LO,
        edge_rms_mult: CRACKLE_EDGE_RMS_MULT,
        max_click_samples: limit((rate * 9 / 20000) as usize, 2, 24),
        pad_samples: 0,
    }
}

/// At every sample rate the windows are odd, and longer than the defects searched
/// for.
pub proof fn law_detect_params(sample_rate: u32)
    ensures
        click_params(sample_rate).mad_window % 2 == 1,
        crackle_params(sample_rate).mad_window % 2 == 1,
        click_params(sample_rate).max_click_samples < click_params(sample_rate).mad_window,
        crackle_params(sample_rate).max_click_samples < crackle_params(sample_rate).mad_window,
{
}

/// One pass over the recording: detect defects with these settings and repair what
/// was found.
#[derive(Debug, Clone, Copy, PartialEq, Eq, Structural)]
pub struct RepairPass {
    pub detect: ResidualDetectParams,
    pub tuning: RepairTuning,
    pub mode: RepairMode,
}

/// What is to be done with a recording.
#[derive(Debug)]
pub enum CleanupPlan {
    /// Return nothing.
    Empty,
    /// Return the recording as it is.
    Unchanged,
    /// Separate the channels, repair clipping, run the passes in order and put the
    /// channels together again.
    Passes(Vec<RepairPass>),
}

/// What is to be done with a recording, as mathematical values.
pub enum PlannedCleanup {
    Empty,
    Unchanged,
    Passes(Seq<RepairPass>),
}

impl View for CleanupPlan {
    type V = PlannedCleanup;

    open spec fn view(&self) -> PlannedCleanup {
        match *self {
            CleanupPlan::Empty => PlannedCleanup::Empty,
            CleanupPlan::Unchanged => PlannedCleanup::Unchanged,
            CleanupPlan::Passes(passes) => PlannedCleanup::Passes(passes@),
        }
    }
}

/// The pass against clicks.
pub open spec fn click_pass(sample_rate: u32, mode: RepairMode) -> RepairPass {
    RepairPass { detect: click_params(sample_rate), tuning: RepairTuning::Click, mode }
}

/// The pass against crackle.
pub open spec fn crackle_pass(sample_rate: u32) -> RepairPass {
    RepairPass {
        detect: crackle_params(sample_rate),
        tuning: RepairTuning::Crackle,
        mode: RepairMode::Ar,
    }
}

/// The passes of a mode.
pub open spec fn mode_passes(sample_rate: u32, mode: CleanupMode) -> Seq<RepairPass> {
    match mode {
        CleanupMode::Off => seq![],
        CleanupMode::DeclickAr => seq![click_pass(sample_rate, RepairMode::Ar)],
        CleanupMode::DeclickMedian => seq![click_pass(sample_rate, RepairMode::Median)],
        CleanupMode::Decrackle => seq![crackle_pass(sample_rate), crackle_pass(sample_rate)],
    }
}

/// The passes of a retired preset.
pub open spec fn preset_passes(
    sample_rate: u32,
    preset: RetiredCleanupPreset,
) -> Seq<RepairPass> {
    match preset {
        RetiredCleanupPreset::Light => seq![click_pass(sample_rate, RepairMode::Ar)],
        RetiredCleanupPreset::Archival => seq![
            click_pass(sample_rate, RepairMode::Ar),
            crackle_pass(sample_rate),
            crackle_pass(sample_rate),
        ],
    }
}

/// What a mode does with `data_len` interleaved samples of `channels` channels.
pub open spec fn planned_cleanup(
    data_len: usize,
    sample_rate: u32,
    channels: usize,
    mode: CleanupMode,
) -> PlannedCleanup {
    if channels == 0 || data_len == 0 {
        PlannedCleanup::Empty
    } else if mode is Off {
        PlannedCleanup::Unchanged
    } else {
        PlannedCleanup::Passes(mode_passes(sample_rate, mode))
    }
}

/// What a retired preset does with `data_len` interleaved samples of `channels`
/// channels.
pub open spec fn planned_preset(
    data_len: usize,
    sample_rate: u32,
    channels: usize,
    preset: RetiredCleanupPreset,
) -> PlannedCleanup {
    if channels == 0 || data_len == 0 {
        PlannedCleanup::Empty
    } else {
        PlannedCleanup::Passes(preset_passes(sample_rate, preset))
    }
}

fn push_click_pass(passes: &mut Vec<RepairPass>, sample_rate: u32, mode: RepairMode)
    ensures
        final(passes)@ == old(passes)@.push(click_pass(sample_rate, mode)),
{
    passes.push(
        RepairPass { detect: click_detect_params(sample_rate), tuning: RepairTuning::Click, mode },
    );
}

fn push_crackle_passes(passes: &mut Vec<RepairPass>, sample_rate: u32)
    ensures
        final(passes)@ == old(passes)@.push(crackle_pass(sample_rate)).push(
            crackle_pass(sample_rate),
        ),
{
    let pass = RepairPass {
        detect: crackle_detect_params(sample_rate),
        tuning: RepairTuning::Crackle,
        mode: RepairMode::Ar,
    };
    passes.push(pass);
    passes.push(pass);
}

/// Plans what a mode does with `data_len` interleaved samples of `channels`
/// channels.
pub fn apply_cleanup_v1(
    data_len: usize,
    sample_rate: u32,
    channels: usize,
    mode: CleanupMode,
) -> (plan: CleanupPlan)
    ensures
        plan@ == planned_cleanup(data_len, sample_rate, channels, mode),
{
    if channels == 0 || data_len == 0 {
        return CleanupPlan::Empty;
    }
    if mode == CleanupMode::Off {
        return CleanupPlan::Unchanged;
    }
    let mut passes: Vec<RepairPass> = Vec::new();
    match mode {
        CleanupMode::Off => {},
        CleanupMode::DeclickAr => {
            push_click_pass(&mut passes, sample_rate, RepairMode::Ar);
        },
        CleanupMode::DeclickMedian => {
            push_click_pass(&mut passes, sample_rate, RepairMode::Median);
        },
        CleanupMode::Decrackle => {
            push_crackle_passes(&mut passes, sample_rate);
        },
    }
    assert(passes@ =~= mode_passes(sample_rate, mode));
    CleanupPlan::Passes(passes)
}

/// Plans what a retired preset does with `data_len` interleaved samples of
/// `channels` channels.
pub fn apply_retired_cleanup_preset_v1(
    data_len: usize,
    sample_rate: u32,
    channels: usize,
    preset: RetiredCleanupPreset,
) -> (plan: CleanupPlan)
    ensures
        plan@ == planned_preset(data_len, sample_rate, channels, preset),
{
    if channels == 0 || data_len == 0 {
        return CleanupPlan::Empty;
    }
    let mut passes: Vec<RepairPass> = Vec::new();
    push_click_pass(&mut passes, sample_rate, RepairMode::Ar);
    match preset {
        RetiredCleanupPreset::Light => {},
        RetiredCleanupPreset::Archival => {
            push_crackle_passes(&mut passes, sample_rate);
        },
    }
    assert(passes@ =~= preset_passes(sample_rate, preset));
    CleanupPlan::Passes(passes)
}

/// Whether a pass that found `regions` changes the recording.
pub open spec fn pass_repairs(regions: Seq<Region>) -> bool {
    regions.len() > 0
}

/// Whether a pass that found `regions` changes the recording: it repairs all
/// channels unless there is nothing to repair.
pub fn apply_repair_pass(regions: &[Region]) -> (repairs: bool)
    ensures
        repairs == pass_repairs(regions@),
{
    regions.len() > 0
}

/// The light preset does what declicking does; the archival one adds the passes of
/// decrackling.
pub proof fn law_presets_are_modes(
    data_len: usize,
    sample_rate: u32,
    channels: usize,
)
    ensures
        planned_preset(data_len, sample_rate, channels, RetiredCleanupPreset::Light)
            == planned_cleanup(data_len, sample_rate, channels, CleanupMode::DeclickAr),
        preset_passes(sample_rate, RetiredCleanupPreset::Archival) == mode_passes(
            sample_rate,
            CleanupMode::DeclickAr,
        ) + mode_passes(sample_rate, CleanupMode::Decrackle),
{
    assert(preset_passes(sample_rate, RetiredCleanupPreset::Archival) =~= mode_passes(
        sample_rate,
        CleanupMode::DeclickAr,
    ) + mode_passes(sample_rate, CleanupMode::Decrackle));
}

/// A plan is empty exactly if there is no channel or no data. Otherwise the recording
/// stays as it is in the mode that is off and goes through passes in every other one,
/// through the same passes for every number of channels and samples.
pub proof fn law_plans_by_input(
    data_len: usize,
    sample_rate: u32,
    channels: usize,
    mode: CleanupMode,
    preset: RetiredCleanupPreset,
    other_len: usize,
    other_channels: usize,
)
    ensures
        ({
            let plan = planned_cleanup(data_len, sample_rate, channels, mode);
            let other = planned_cleanup(other_len, sample_rate, other_channels, mode);
            &&& plan is Empty <==> channels == 0 || data_len == 0
            &&& channels > 0 && data_len > 0 ==> (plan is Unchanged <==> mode is Off)
            &&& channels > 0 && data_len > 0 ==> (plan is Passes <==> !(mode is Off))
            &&& channels > 0 && data_len > 0 && other_channels > 0 && other_len > 0 ==> plan
                == other
        }),
        ({
            let plan = planned_preset(data_len, sample_rate, channels, preset);
            let other = planned_preset(other_len, sample_rate, other_channels, preset);
            &&& plan is Empty <==> channels == 0 || data_len == 0
            &&& !(plan is Empty) ==> plan is Passes
            &&& channels > 0 && data_len > 0 && other_channels > 0 && other_len > 0 ==> plan
                == other
        }),
{
}

/// What the passes of a mode are: declicking makes one against clicks, with the repair
/// that the mode names; decrackling makes two against crackle. Whatever the rate, a
/// pass against clicks pads what it finds and needs more evidence than one against
/// crackle, which searches for shorter defects.
pub proof fn law_passes_by_mode(sample_rate: u32, mode: CleanupMode)
    ensures
        ({
            let passes = mode_passes(sample_rate, mode);
            &&& mode is DeclickAr ==> passes.len() == 1 && passes[0].mode is Ar
            &&& mode is DeclickMedian ==> passes.len() == 1 && passes[0].mode is Median
            &&& mode is DeclickAr || mode is DeclickMedian ==> passes[0].tuning is Click
                && passes[0].detect == click_params(sample_rate)
            &&& mode is Decrackle ==> passes.len() == 2 && passes[0] == passes[1]
                && passes[0].mode is Ar && passes[0].tuning is Crackle && passes[0].detect
                == crackle_params(sample_rate)
        }),
        click_params(sample_rate).pad_samples == 1,
        crackle_params(sample_rate).pad_samples == 0,
        click_params(sample_rate).z_hi > crackle_params(sample_rate).z_hi,
        click_params(sample_rate).z_lo > crackle_params(sample_rate).z_lo,
        click_params(sample_rate).edge_rms_mult > crackle_params(sample_rate).edge_rms_mult,
        crackle_params(sample_rate).max_click_samples < click_params(
            sample_rate,
        ).max_click_samples,
{
}

/// The detector's lengths follow the rate: the window is the next odd number from 4 or
/// 3 thousandths of a second on, at least 63 or 31; a click lasts up to 1 or 0.45
/// thousandths, inside the limits.
pub proof fn law_lengths_by_rate(sample_rate: u32)
    ensures
        ({
            let click = click_params(sample_rate);
            let crackle = crackle_params(sample_rate);
            &&& click.mad_window % 2 == 1 && crackle.mad_window % 2 == 1
            &&& sample_rate < 64 * 250 ==> click.mad_window == 63
            &&& sample_rate >= 64 * 250 ==> 250 * (click.mad_window - 1) <= sample_rate < 250 * (
            click.mad_window + 1)
            &&& 3 * sample_rate < 32 * 1000 ==> crackle.mad_window == 31
            &&& 3 * sample_rate >= 32 * 1000 ==> 1000 * (crackle.mad_window - 1) <= 3 * sample_rate
                < 1000 * (crackle.mad_window + 1)
            &&& 8 <= click.max_click_samples <= 64
            &&& click.max_click_samples < 64 ==> sample_rate < 1000 * (click.max_click_samples + 1)
            &&& click.max_click_samples > 8 ==> sample_rate >= 1000 * click.max_click_samples
            &&& 2 <= crackle.max_click_samples <= 24
            &&& crackle.max_click_samples < 24 ==> 9 * sample_rate < 20000 * (
            crackle.max_click_samples + 1)
            &&& crackle.max_click_samples > 2 ==> 9 * sample_rate >= 20000
                * crackle.max_click_samples
        }),
{
}

/// A pass repairs as soon as it found any region, whatever else it found, and not
/// otherwise.
pub proof fn law_pass_repairs_what_it_finds(regions: Seq<Region>, region: Region)
    ensures
        regions.contains(region) ==> pass_repairs(regions),
        pass_repairs(regions.push(region)),
        !pass_repairs(Seq::<Region>::empty()),
{
}

} // verus!
