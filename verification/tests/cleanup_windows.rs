use modscope::cleanup::frames::{FrameFeatures, frame_qualifies_as_candidate, frame_starts};
use modscope::cleanup::regions::total_region_len;
use modscope::cleanup::v21::{QUIET_FLOOR_MARGIN_DB, V21PassConfig};
use modscope::cleanup::windows::{
    candidate_regions_from_features, detect_candidate_windows, detect_v21_regions,
    fallback_crackle_candidate_windows, relocalize_candidate_window, relocalizer_params_for_window,
    shortest_channel, supplement_candidate_windows, uses_fallback,
};

fn unmarked() -> FrameFeatures {
    FrameFeatures {
        energy_db: 0.0f64.to_bits(),
        flatness: 0.0f64.to_bits(),
        crest_db: 0.0f64.to_bits(),
        flux: 0.0f64.to_bits(),
        residual_kurtosis: 0.0f64.to_bits(),
        candidate: false,
    }
}

fn mask(len: usize, set: &[usize]) -> Vec<bool> {
    (0..len).map(|i| set.contains(&i)).collect()
}

#[test]
fn click_candidate_windows_cover_fft_support_near_sample_boundaries() {
    let sample_rate = 16_000;
    let config = V21PassConfig::for_click(sample_rate);
    let sample_len = 512usize;
    let frame_starts = frame_starts(sample_len, config.hop_size);
    assert!(frame_starts.len() >= config.min_flag_frames);

    let mut features = vec![unmarked(); frame_starts.len()];

    features[0].candidate = true;
    features[1].candidate = true;
    let start_regions =
        candidate_regions_from_features(&frame_starts, &features, sample_len, config);
    assert!(
        start_regions
            .iter()
            .any(|(start, end)| *start == 0 && *end >= config.fft_size),
        "first-frame candidates should cover the full FFT support at the start boundary",
    );

    for feature in &mut features {
        feature.candidate = false;
    }
    let last = features.len() - 1;
    features[last - 1].candidate = true;
    features[last].candidate = true;
    let end_regions = candidate_regions_from_features(&frame_starts, &features, sample_len, config);
    assert!(
        end_regions
            .iter()
            .any(|(start, end)| *start <= frame_starts[last - 1] && *end == sample_len),
        "last-frame candidates should extend through the end of the sample",
    );
}

/// Judges a frame against the median of its surroundings and the quiet floor.
fn qualifies(feature: FrameFeatures, baseline: f64, quiet_floor: f64, config: V21PassConfig) -> bool {
    let energy_delta_db = f64::from_bits(feature.energy_db) - baseline;
    let quiet_gate_db = quiet_floor + f64::from_bits(QUIET_FLOOR_MARGIN_DB);
    frame_qualifies_as_candidate(
        feature,
        energy_delta_db.to_bits(),
        quiet_gate_db.to_bits(),
        config,
    )
}

#[test]
fn crackle_requires_two_auxiliary_features() {
    let config = V21PassConfig::for_crackle(8_000);
    let baseline = -12.0;
    let quiet_floor = -24.0;

    let one_aux_feature = FrameFeatures {
        energy_db: (-4.0f64).to_bits(),
        flatness: 0.70f64.to_bits(),
        crest_db: 8.5f64.to_bits(),
        flux: 0.10f64.to_bits(),
        residual_kurtosis: 4.0f64.to_bits(),
        candidate: false,
    };
    assert!(
        !qualifies(one_aux_feature, baseline, quiet_floor, config),
        "crackle should reject frames that only satisfy one auxiliary feature",
    );

    let two_aux_features = FrameFeatures {
        flux: 0.20f64.to_bits(),
        ..one_aux_feature
    };
    assert!(
        qualifies(two_aux_features, baseline, quiet_floor, config),
        "crackle should accept frames that satisfy two auxiliary features",
    );
}

#[test]
fn low_rate_crackle_fallback_supplements_non_overlapping_spectral_windows() {
    let config = V21PassConfig::for_crackle(8_000);
    let spectral = vec![(96usize, 132usize)];
    let fallback = vec![(100usize, 128usize), (220usize, 246usize)];
    let combined =
        supplement_candidate_windows(spectral.clone(), fallback, config.candidate_merge_gap);

    assert_eq!(combined, vec![(96, 132), (220, 246)]);
}

#[test]
fn each_gate_can_reject_a_frame() {
    let config = V21PassConfig::for_click(16_000);
    let good = FrameFeatures {
        energy_db: (-4.0f64).to_bits(),
        flatness: 0.65f64.to_bits(),
        crest_db: 7.0f64.to_bits(),
        flux: 0.0f64.to_bits(),
        residual_kurtosis: 0.0f64.to_bits(),
        candidate: false,
    };
    assert!(qualifies(good, -10.0, -10.0, config));
    assert!(!qualifies(good, -9.9, -10.0, config));
    assert!(!qualifies(good, -10.0, -9.9, config));
    let tonal = FrameFeatures { flatness: 0.649f64.to_bits(), ..good };
    assert!(!qualifies(tonal, -10.0, -10.0, config));
    let peaky = FrameFeatures { crest_db: 7.1f64.to_bits(), ..good };
    assert!(!qualifies(peaky, -10.0, -10.0, config));
    let impulsive = FrameFeatures { residual_kurtosis: 6.0f64.to_bits(), ..peaky };
    assert!(qualifies(impulsive, -10.0, -10.0, config));
    let rising = FrameFeatures { flux: 0.2f64.to_bits(), ..peaky };
    assert!(qualifies(rising, -10.0, -10.0, config));
    let broken = FrameFeatures { energy_db: f64::NAN.to_bits(), ..good };
    assert!(!qualifies(broken, -10.0, -10.0, config));
}

#[test]
fn windows_are_dilated_runs_of_flagged_frames() {
    // At 16 kHz: transforms of 128 samples every 24, dilated by 12.
    let config = V21PassConfig::for_click(16_000);
    assert_eq!((config.fft_size, config.hop_size), (128, 24));
    let len = 4000;
    let starts = frame_starts(len, config.hop_size);
    let mut features = vec![unmarked(); starts.len()];
    for i in [10, 11, 40, 80, 81, 82, 83, 84, 85] {
        features[i].candidate = true;
    }
    // Frame 40 stands alone; frames 80 to 85 make a window that is too long.
    assert_eq!(config.max_candidate_span, 192);
    let windows = candidate_regions_from_features(&starts, &features, len, config);
    assert_eq!(windows, vec![(240 - 12, 264 + 128 + 12)]);
    assert!(candidate_regions_from_features(&[], &[], 0, config).is_empty());
    // A run that is too short needs no frame starts.
    let alone = [FrameFeatures { candidate: true, ..unmarked() }];
    assert!(candidate_regions_from_features(&[], &alone, 100, config).is_empty());
}

#[test]
fn windows_that_touch_are_joined() {
    let config = V21PassConfig::for_crackle(16_000);
    let starts = vec![0, 1000, 1140, 3000];
    let mut features = vec![unmarked(); 4];
    features[1].candidate = true;
    let one = candidate_regions_from_features(&starts, &features, 4000, config);
    // At 16 kHz a crackle window has at most 64 samples, fewer than a transform.
    assert_eq!(config.max_candidate_span, 64);
    assert!(one.is_empty());

    let wide = V21PassConfig { max_candidate_span: 400, ..config };
    features[2].candidate = false;
    features[3].candidate = true;
    let two = candidate_regions_from_features(&starts, &features, 4000, wide);
    assert_eq!(two, vec![(994, 1134), (2994, 3134)]);
    let merging = V21PassConfig { candidate_merge_gap: 1860, ..wide };
    assert_eq!(
        candidate_regions_from_features(&starts, &features, 4000, merging),
        vec![(994, 3134)]
    );
}

#[test]
fn channels_are_joined_and_long_windows_dropped() {
    let config = V21PassConfig {
        candidate_merge_gap: 2,
        max_candidate_span: 10,
        ..V21PassConfig::for_click(16_000)
    };
    let left = vec![(5, 8), (20, 25)];
    let right = vec![(7, 9), (11, 12), (30, 41)];
    let windows = detect_candidate_windows(&[left, right], &[], 16_000, config, 100);
    assert_eq!(windows, vec![(5, 12), (20, 25)]);
    // What lies behind the shortest channel is left out.
    let behind = detect_candidate_windows(&[vec![(95, 104)]], &[], 16_000, config, 100);
    assert_eq!(behind, vec![(95, 100)]);
}

#[test]
fn the_fallback_is_for_low_rates_and_crackle() {
    assert!(uses_fallback(8_000, V21PassConfig::for_crackle(8_000)));
    assert!(uses_fallback(12_000, V21PassConfig::for_crackle(12_000)));
    assert!(!uses_fallback(12_001, V21PassConfig::for_crackle(12_001)));
    assert!(!uses_fallback(8_000, V21PassConfig::for_click(8_000)));
}

#[test]
fn fallback_windows_surround_what_was_flagged() {
    let config = V21PassConfig::for_crackle(8_000);
    assert_eq!((config.candidate_dilation, config.max_candidate_span), (4, 32));
    assert_eq!(config.final_merge_gap, 1);
    let masks = [mask(100, &[1, 50]), mask(100, &[52, 97])];
    let windows = fallback_crackle_candidate_windows(&masks, config, 100);
    assert_eq!(windows, vec![(0, 6), (46, 57), (93, 100)]);
    let dense = [mask(100, &(10..40).collect::<Vec<usize>>())];
    assert!(fallback_crackle_candidate_windows(&dense, config, 100).is_empty());
    // At a low rate they supplement the spectral windows.
    let spectral = [vec![(50, 60)]];
    let combined = detect_candidate_windows(&spectral, &masks, 8_000, config, 100);
    assert_eq!(combined, vec![(0, 6), (50, 60), (93, 100)]);
    let unaided = detect_candidate_windows(&spectral, &masks, 48_000, config, 100);
    assert_eq!(unaided, vec![(50, 60)]);
}

#[test]
fn supplementing_sorts_and_joins() {
    let spectral = vec![(50, 60), (10, 20)];
    let fallback = vec![(70, 80), (0, 5), (62, 64), (0, 3), (20, 22), (59, 62)];
    assert_eq!(
        supplement_candidate_windows(spectral.clone(), fallback, 3),
        vec![(0, 5), (10, 22), (50, 64), (70, 80)]
    );
    assert_eq!(
        supplement_candidate_windows(spectral, vec![], 3),
        vec![(10, 20), (50, 60)]
    );
    assert!(supplement_candidate_windows(vec![], vec![], 3).is_empty());
}

#[test]
fn the_detector_is_fitted_to_the_window() {
    let relocalizer = V21PassConfig::for_click(16_000).relocalizer;
    assert_eq!((relocalizer.mad_window, relocalizer.max_span), (65, 48));
    let wide = relocalizer_params_for_window(relocalizer, 100);
    assert_eq!((wide.mad_window, wide.max_click_samples, wide.pad_samples), (65, 48, 1));
    assert_eq!(wide.z_hi, 8.0f64.to_bits());
    assert_eq!(wide.z_lo, 3.5f64.to_bits());
    assert_eq!(wide.edge_rms_mult, 2.5f64.to_bits());
    let narrow = relocalizer_params_for_window(relocalizer, 20);
    assert_eq!((narrow.mad_window, narrow.max_click_samples), (19, 20));
}

#[test]
fn a_window_is_narrowed_to_what_was_flagged() {
    let config = V21PassConfig::for_click(16_000);
    // Flags are spread by one sample and joined over two.
    let masks = [mask(100, &[40, 41]), mask(100, &[46, 80])];
    let regions = relocalize_candidate_window(&masks, 980, 1080, config);
    assert_eq!(regions, vec![(1019, 1028), (1059, 1062)]);
    assert_eq!(total_region_len(&regions), 12);
    // Windows below five samples are left alone.
    let few = [mask(4, &[1])];
    assert!(relocalize_candidate_window(&few, 10, 14, config).is_empty());
    assert_eq!(relocalize_candidate_window(&few, 10, 15, config), vec![(10, 13)]);
    assert!(relocalize_candidate_window(&few, 15, 10, config).is_empty());
    // A region that is too long for a repair is dropped.
    let long = [mask(100, &(10..60).collect::<Vec<usize>>())];
    assert!(relocalize_candidate_window(&long, 980, 1080, config).is_empty());
}

#[test]
fn repairs_keep_their_context() {
    let config = V21PassConfig::for_click(16_000);
    let windows = [(0, 40), (100, 140), (160, 200)];
    let local_masks = [
        vec![mask(40, &[15, 25])],
        vec![mask(40, &[5, 38]), mask(40, &[20])],
        vec![mask(40, &[22, 24])],
    ];
    // Flags at 15, 25, 105, 120, 138, 182 and 184, each spread by one sample.
    let regions = detect_v21_regions(200, &windows, &local_masks, config);
    assert_eq!(regions, vec![(24, 27), (104, 107), (119, 122), (137, 140)]);
    let longer = detect_v21_regions(202, &windows, &local_masks, config);
    assert_eq!(longer, vec![(24, 27), (104, 107), (119, 122), (137, 140), (181, 186)]);
    assert!(detect_v21_regions(4, &windows, &local_masks, config).is_empty());
    assert!(detect_v21_regions(200, &[], &[], config).is_empty());
}

#[test]
fn regions_of_neighboring_windows_are_joined() {
    let config = V21PassConfig::for_click(16_000);
    let windows = [(100, 110), (112, 122)];
    let local_masks = [vec![mask(10, &[9])], vec![mask(10, &[1])]];
    assert_eq!(
        detect_v21_regions(400, &windows, &local_masks, config),
        vec![(108, 115)]
    );
}

#[test]
fn the_shortest_channel_counts() {
    assert_eq!(shortest_channel(&[]), None);
    assert_eq!(shortest_channel(&[7]), Some(7));
    assert_eq!(shortest_channel(&[9, 4, 6, 4]), Some(4));
}

#[test]
fn channels_may_come_in_any_order() {
    let config = V21PassConfig::for_crackle(8_000);
    let (a, b) = (vec![(5, 8), (20, 25)], vec![(7, 9), (40, 45)]);
    let (c, d) = (mask(100, &[60, 62]), mask(100, &[70]));
    let windows = detect_candidate_windows(
        &[a.clone(), b.clone()],
        &[c.clone(), d.clone()],
        8_000,
        config,
        100,
    );
    assert_eq!(windows, vec![(5, 9), (20, 25), (40, 45), (56, 75)]);
    let shuffled = detect_candidate_windows(
        &[b.clone(), a, b],
        &[d.clone(), d, c],
        8_000,
        config,
        100,
    );
    assert_eq!(windows, shuffled);

    let (e, f) = (mask(19, &[4, 6]), mask(19, &[9]));
    let regions = detect_v21_regions(100, &[(56, 75)], &[vec![e.clone(), f.clone()]], config);
    assert_eq!(regions, vec![(60, 63), (65, 66)]);
    let swapped = detect_v21_regions(100, &[(56, 75)], &[vec![f.clone(), e, f]], config);
    assert_eq!(regions, swapped);
}
