use modscope::cleanup::frames::{
    BASELINE_RADIUS, FrameFeatures, MedianPick, baselines, extract_frame, frame_starts,
    local_median, mark_candidates,
};
use modscope::cleanup::v21::V21PassConfig;

#[test]
fn frames_start_a_hop_apart() {
    assert_eq!(frame_starts(10, 3), vec![0, 3, 6, 9]);
    assert_eq!(frame_starts(9, 3), vec![0, 3, 6]);
    assert_eq!(frame_starts(2, 3), vec![0]);
    assert_eq!(frame_starts(5, 0), vec![0]);
    assert!(frame_starts(0, 3).is_empty());
    assert!(frame_starts(0, 0).is_empty());
    assert_eq!(frame_starts(usize::MAX, usize::MAX - 1), vec![0, usize::MAX - 1]);
}

#[test]
fn frames_are_filled_up_with_silence() {
    let samples = [0.5f64, -0.25, 0.125];
    assert_eq!(extract_frame(&samples, 0, 2, 0.0), vec![0.5, -0.25]);
    assert_eq!(extract_frame(&samples, 1, 4, 0.0), vec![-0.25, 0.125, 0.0, 0.0]);
    assert_eq!(extract_frame(&samples, 3, 2, 0.0), vec![0.0, 0.0]);
    assert!(extract_frame(&samples, 0, 0, 0.0).is_empty());
}

fn bits(values: &[f64]) -> Vec<u64> {
    values.iter().map(|value| value.to_bits()).collect()
}

fn value(pick: MedianPick) -> f64 {
    match pick {
        MedianPick::Nowhere => 0.0,
        MedianPick::At(bits) => f64::from_bits(bits),
        MedianPick::Between(low, high) => 0.5 * (f64::from_bits(low) + f64::from_bits(high)),
    }
}

fn expected_median(values: &[f64], index: usize, radius: usize) -> f64 {
    let start = index.saturating_sub(radius);
    let end = (index + radius + 1).min(values.len());
    let mut local = values[start..end].to_vec();
    local.sort_by(|lhs, rhs| lhs.total_cmp(rhs));
    if local.is_empty() {
        0.0
    } else if local.len() % 2 == 0 {
        let mid = local.len() / 2;
        0.5 * (local[mid - 1] + local[mid])
    } else {
        local[local.len() / 2]
    }
}

#[test]
fn medians_are_taken_around_a_frame() {
    let values = [3.0, -1.0, 2.0, 2.0, -0.0, 0.0, 9.0, -7.5, 1e300, -1e-300, 4.0];
    let encoded = bits(&values);
    for index in 0..values.len() {
        for radius in 0..12 {
            let median = value(local_median(&encoded, index, radius));
            let expected = expected_median(&values, index, radius);
            assert_eq!(median.to_bits(), expected.to_bits(), "{index} {radius}");
        }
    }
    assert_eq!(local_median(&encoded, 0, 1), MedianPick::Between(encoded[1], encoded[0]));
    assert_eq!(local_median(&[], 0, 3), MedianPick::Nowhere);
    assert_eq!(local_median(&encoded, 11, 0), MedianPick::Nowhere);
}

#[test]
fn a_frame_without_a_spectrum_is_silent() {
    let silent = FrameFeatures::silent();
    assert_eq!(f64::from_bits(silent.energy_db), -120.0);
    assert_eq!(f64::from_bits(silent.flatness), 0.0);
    assert_eq!(f64::from_bits(silent.crest_db), 0.0);
    assert_eq!(f64::from_bits(silent.flux), 0.0);
    assert_eq!(f64::from_bits(silent.residual_kurtosis), 0.0);
    assert!(!silent.candidate);
}

#[test]
fn candidates_are_marked_frame_by_frame() {
    let config = V21PassConfig::for_click(16_000);
    let loud = FrameFeatures {
        energy_db: 10.0f64.to_bits(),
        flatness: 0.9f64.to_bits(),
        ..FrameFeatures::silent()
    };
    let mut features = vec![loud, FrameFeatures { candidate: true, ..FrameFeatures::silent() }, loud];
    let deltas = bits(&[8.0, 8.0, 5.0]);
    mark_candidates(&mut features, &deltas, (-60.0f64).to_bits(), config);
    let marks: Vec<bool> = features.iter().map(|feature| feature.candidate).collect();
    assert_eq!(marks, vec![true, false, false]);
    assert_eq!(features[2].energy_db, 10.0f64.to_bits());
}

#[test]
fn every_frame_has_its_baseline() {
    assert_eq!(BASELINE_RADIUS, 8);
    let values: Vec<f64> = (0..40).map(|i| ((i * 7919) % 101) as f64 - 50.0).collect();
    let medians = baselines(&bits(&values));
    assert_eq!(medians.len(), values.len());
    for (index, median) in medians.into_iter().enumerate() {
        assert_eq!(value(median), expected_median(&values, index, 8), "{index}");
    }
    assert!(baselines(&[]).is_empty());
}
