use modscope::cleanup::v1::{
    CleanupPlan, RepairPass, apply_cleanup_v1, apply_repair_pass, apply_retired_cleanup_preset_v1,
    click_detect_params, crackle_detect_params,
};
use modscope::cleanup::v21::{
    V21PassConfig, V21Run, V21Start, apply_cleanup_v21, fft_size_for_sample_rate,
    hop_size_for_sample_rate,
};
use modscope::cleanup::{CleanupMode, RepairMode, RepairTuning, RetiredCleanupPreset};

fn rates() -> Vec<u32> {
    let mut rates: Vec<u32> = (0..200_000).step_by(7).collect();
    rates.extend([
        8_000, 8_363, 11_025, 16_000, 22_050, 44_100, 48_000, 88_200, 96_000, 192_000, 384_000,
        u32::MAX - 1, u32::MAX,
    ]);
    rates
}

#[test]
fn detector_settings_follow_the_rate() {
    for sample_rate in rates() {
        let sr = sample_rate as usize;
        let click = click_detect_params(sample_rate);
        assert_eq!(click.mad_window, (((0.004 * sr as f64) as usize).max(63)) | 1);
        assert_eq!(
            click.max_click_samples,
            ((0.0010 * sr as f64) as usize).clamp(8, 64)
        );
        let crackle = crackle_detect_params(sample_rate);
        assert_eq!(crackle.mad_window, (((0.003 * sr as f64) as usize).max(31)) | 1);
        assert_eq!(
            crackle.max_click_samples,
            ((0.00045 * sr as f64) as usize).clamp(2, 24)
        );
    }
}

#[test]
fn detector_thresholds_are_the_numbers_they_name() {
    let click = click_detect_params(44_100);
    assert_eq!(click.z_hi, 10.0f64.to_bits());
    assert_eq!(click.z_lo, 4.5f64.to_bits());
    assert_eq!(click.edge_rms_mult, 3.0f64.to_bits());
    assert_eq!(click.pad_samples, 1);
    assert_eq!((click.mad_window, click.max_click_samples), (177, 44));
    let crackle = crackle_detect_params(44_100);
    assert_eq!(crackle.z_hi, 7.5f64.to_bits());
    assert_eq!(crackle.z_lo, 3.2f64.to_bits());
    assert_eq!(crackle.edge_rms_mult, 1.8f64.to_bits());
    assert_eq!(crackle.pad_samples, 0);
    assert_eq!((crackle.mad_window, crackle.max_click_samples), (133, 19));
}

#[test]
fn frame_sizes_follow_the_rate() {
    for sample_rate in rates() {
        let samples = ((0.006 * sample_rate as f64).round() as usize).max(32);
        assert_eq!(
            fft_size_for_sample_rate(sample_rate),
            samples.next_power_of_two().clamp(128, 512)
        );
        assert_eq!(
            hop_size_for_sample_rate(sample_rate),
            ((0.0015 * sample_rate as f64).round() as usize).max(16)
        );
    }
    assert_eq!(fft_size_for_sample_rate(44_100), 512);
    assert_eq!(hop_size_for_sample_rate(44_100), 66);
}

#[test]
fn pass_settings_follow_the_rate() {
    for sample_rate in rates() {
        let hop = hop_size_for_sample_rate(sample_rate);
        let part = |seconds: f64| (seconds * sample_rate as f64) as usize;
        let click = V21PassConfig::for_click(sample_rate);
        assert_eq!(click.candidate_dilation, (hop / 2).max(1));
        assert_eq!(click.candidate_merge_gap, hop);
        assert_eq!(click.max_candidate_span, part(0.012).clamp(128, 1024));
        assert_eq!(click.relocalizer.max_span, part(0.003).clamp(32, 256));
        let crackle = V21PassConfig::for_crackle(sample_rate);
        assert_eq!(crackle.candidate_dilation, (hop / 4).max(1));
        assert_eq!(crackle.candidate_merge_gap, (hop / 2).max(1));
        assert_eq!(crackle.max_candidate_span, part(0.004).clamp(32, 256));
        assert_eq!(crackle.relocalizer.max_span, part(0.001).clamp(8, 64));
        assert_eq!(click.relocalizer.mad_window % 2, 1);
        assert_eq!(crackle.relocalizer.mad_window % 2, 1);
    }
}

#[test]
fn pass_thresholds_are_the_numbers_they_name() {
    let click = V21PassConfig::for_click(44_100);
    assert_eq!(click.flatness_threshold, 0.65f64.to_bits());
    assert_eq!(click.energy_delta_db, 6.0f64.to_bits());
    assert_eq!((click.min_flag_frames, click.aux_required), (2, 1));
    assert_eq!(click.crest_db_max, 7.0f64.to_bits());
    assert_eq!(click.flux_min, 0.20f64.to_bits());
    assert_eq!(click.residual_kurtosis_min, 6.0f64.to_bits());
    assert_eq!(click.relocalizer.z_hi, 8.0f64.to_bits());
    assert_eq!(click.relocalizer.z_lo, 3.5f64.to_bits());
    assert_eq!(click.relocalizer.edge_rms_mult, 2.5f64.to_bits());
    assert_eq!(click.relocalizer.repair_pad, 1);
    assert_eq!(click.final_merge_gap, 2);
    assert_eq!(click.residual_fallback_sample_rate_limit, None);
    let crackle = V21PassConfig::for_crackle(44_100);
    assert_eq!(crackle.flatness_threshold, 0.55f64.to_bits());
    assert_eq!(crackle.energy_delta_db, 4.0f64.to_bits());
    assert_eq!((crackle.min_flag_frames, crackle.aux_required), (1, 2));
    assert_eq!(crackle.crest_db_max, 9.0f64.to_bits());
    assert_eq!(crackle.flux_min, 0.15f64.to_bits());
    assert_eq!(crackle.residual_kurtosis_min, 5.0f64.to_bits());
    assert_eq!(crackle.relocalizer.z_hi, 6.0f64.to_bits());
    assert_eq!(crackle.relocalizer.z_lo, 2.8f64.to_bits());
    assert_eq!(crackle.relocalizer.edge_rms_mult, 1.6f64.to_bits());
    assert_eq!(crackle.relocalizer.repair_pad, 0);
    assert_eq!(crackle.final_merge_gap, 1);
    assert_eq!(crackle.residual_fallback_sample_rate_limit, Some(12_000));
    assert_eq!(modscope::cleanup::v21::QUIET_FLOOR_MARGIN_DB, 6.0f64.to_bits());
    assert_eq!(modscope::cleanup::v21::MIN_CONTEXT_SAMPLES, 16);
}

fn passes(plan: CleanupPlan) -> Vec<RepairPass> {
    match plan {
        CleanupPlan::Passes(passes) => passes,
        other => panic!("no passes: {other:?}"),
    }
}

fn click(mode: RepairMode) -> RepairPass {
    RepairPass { detect: click_detect_params(48_000), tuning: RepairTuning::Click, mode }
}

fn crackle() -> RepairPass {
    RepairPass {
        detect: crackle_detect_params(48_000),
        tuning: RepairTuning::Crackle,
        mode: RepairMode::Ar,
    }
}

#[test]
fn modes_have_fixed_passes() {
    let plan = |mode| apply_cleanup_v1(960, 48_000, 2, mode);
    assert_eq!(passes(plan(CleanupMode::DeclickAr)), vec![click(RepairMode::Ar)]);
    assert_eq!(passes(plan(CleanupMode::DeclickMedian)), vec![click(RepairMode::Median)]);
    assert_eq!(passes(plan(CleanupMode::Decrackle)), vec![crackle(), crackle()]);
    assert!(matches!(plan(CleanupMode::Off), CleanupPlan::Unchanged));
    assert!(matches!(
        apply_cleanup_v1(0, 48_000, 2, CleanupMode::Off),
        CleanupPlan::Empty
    ));
    assert!(matches!(
        apply_cleanup_v1(960, 48_000, 0, CleanupMode::Decrackle),
        CleanupPlan::Empty
    ));
}

#[test]
fn presets_have_fixed_passes() {
    let plan = |preset| apply_retired_cleanup_preset_v1(960, 48_000, 2, preset);
    assert_eq!(passes(plan(RetiredCleanupPreset::Light)), vec![click(RepairMode::Ar)]);
    assert_eq!(
        passes(plan(RetiredCleanupPreset::Archival)),
        vec![click(RepairMode::Ar), crackle(), crackle()]
    );
    assert!(matches!(
        apply_retired_cleanup_preset_v1(0, 48_000, 2, RetiredCleanupPreset::Light),
        CleanupPlan::Empty
    ));
    assert!(matches!(
        apply_retired_cleanup_preset_v1(1, 48_000, 0, RetiredCleanupPreset::Light),
        CleanupPlan::Empty
    ));
}

#[test]
fn a_pass_without_regions_repairs_nothing() {
    assert!(!apply_repair_pass(&[]));
    assert!(apply_repair_pass(&[(3, 4)]));
}

fn run(mode: CleanupMode) -> V21Run {
    match apply_cleanup_v21(960, 48_000, 2, mode) {
        V21Start::Run(run) => run,
        other => panic!("no run: {other:?}"),
    }
}

#[test]
fn second_generation_starts_by_mode() {
    assert_eq!(apply_cleanup_v21(0, 48_000, 2, CleanupMode::DeclickAr), V21Start::Empty);
    assert_eq!(apply_cleanup_v21(9, 48_000, 0, CleanupMode::Off), V21Start::Empty);
    assert_eq!(apply_cleanup_v21(9, 48_000, 1, CleanupMode::Off), V21Start::Unchanged);
    let declick = run(CleanupMode::DeclickAr);
    assert_eq!(declick.config, V21PassConfig::for_click(48_000));
    assert_eq!((declick.tuning, declick.mode), (RepairTuning::Click, RepairMode::Ar));
    assert_eq!(run(CleanupMode::DeclickMedian).mode, RepairMode::Median);
    let decrackle = run(CleanupMode::Decrackle);
    assert_eq!(decrackle.config, V21PassConfig::for_crackle(48_000));
    assert_eq!((decrackle.tuning, decrackle.mode), (RepairTuning::Crackle, RepairMode::Ar));
}

#[test]
fn declicking_makes_one_pass() {
    let mut declick = run(CleanupMode::DeclickAr);
    assert!(declick.wants_pass());
    assert!(declick.on_regions(&[(20, 21)]));
    assert!(!declick.wants_pass());
    assert!(!declick.on_regions(&[(20, 21)]));
    let mut idle = run(CleanupMode::DeclickMedian);
    assert!(!idle.on_regions(&[]));
    assert!(!idle.wants_pass());
}

/// How often decrackling repairs if it finds these numbers of samples.
fn repairs(found: &[usize]) -> usize {
    let mut decrackle = run(CleanupMode::Decrackle);
    let mut count = 0;
    for &samples in found {
        if !decrackle.wants_pass() {
            break;
        }
        if decrackle.on_regions(&[(100, 100 + samples)]) {
            count += 1;
        }
    }
    count
}

#[test]
fn decrackling_stops_when_it_pays_no_more() {
    // Three passes at most.
    assert_eq!(repairs(&[100, 100, 100, 100]), 3);
    // Nothing found.
    assert_eq!(repairs(&[0, 100]), 0);
    assert_eq!(repairs(&[100, 0, 100]), 1);
    // Less than a tenth of the first pass.
    assert_eq!(repairs(&[1000, 100, 100]), 3);
    assert_eq!(repairs(&[1000, 99, 100]), 1);
    // Fewer than eight samples.
    assert_eq!(repairs(&[10, 8, 8]), 3);
    assert_eq!(repairs(&[10, 7]), 1);
    assert_eq!(repairs(&[1, 1]), 1);
    // More than a quarter above the pass before.
    assert_eq!(repairs(&[100, 125, 156]), 3);
    assert_eq!(repairs(&[100, 126]), 1);
    assert_eq!(repairs(&[100, 80, 101]), 2);
}
