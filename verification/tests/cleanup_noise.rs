use modscope::cleanup::frames::{
    FrameFeatures, MedianPick, baselines, extract_frame, frame_starts, mark_candidates,
};
use modscope::cleanup::v21::{QUIET_FLOOR_MARGIN_DB, V21PassConfig};
use rustfft::FftPlanner;
use rustfft::num_complex::Complex;

const EPSILON: f64 = 1.0e-12;

fn second_difference(samples: &[f64]) -> Vec<f64> {
    let at = |i: usize| samples.get(i).copied().unwrap_or(0.0);
    (0..samples.len())
        .map(|i| if i == 0 { 0.0 } else { at(i - 1) - 2.0 * at(i) + at(i + 1) })
        .collect()
}

fn kurtosis(samples: &[f64]) -> f64 {
    let n = samples.len() as f64;
    let mean = samples.iter().sum::<f64>() / n;
    let variance = samples.iter().map(|x| (x - mean).powi(2)).sum::<f64>() / n;
    let fourth = samples.iter().map(|x| (x - mean).powi(4)).sum::<f64>() / n;
    fourth / (variance * variance + EPSILON)
}

fn percentile(values: &[f64], fraction: f64) -> f64 {
    let mut sorted = values.to_vec();
    sorted.sort_by(|lhs, rhs| lhs.total_cmp(rhs));
    sorted[((sorted.len() - 1) as f64 * fraction).round() as usize]
}

fn analyze(samples: &[f64], fft_size: usize, hop_size: usize, config: V21PassConfig) -> Vec<FrameFeatures> {
    let fft = FftPlanner::<f64>::new().plan_fft_forward(fft_size);
    let mut features = Vec::new();
    let mut previous: Option<Vec<f64>> = None;
    for start in frame_starts(samples.len(), hop_size) {
        let residual = second_difference(&extract_frame(samples, start, fft_size, 0.0));
        let mut spectrum: Vec<Complex<f64>> = residual
            .iter()
            .enumerate()
            .map(|(i, sample)| {
                let phase = 2.0 * std::f64::consts::PI * i as f64 / (fft_size - 1) as f64;
                Complex::new(sample * (0.5 - 0.5 * phase.cos()), 0.0)
            })
            .collect();
        fft.process(&mut spectrum);
        let power: Vec<f64> = spectrum[1..fft_size / 2].iter().map(|bin| bin.norm_sqr()).collect();
        let energy = power.iter().sum::<f64>();
        let mean = energy / power.len() as f64;
        let max = power.iter().copied().fold(0.0f64, f64::max);
        let log_mean = power.iter().map(|p| (p + EPSILON).ln()).sum::<f64>() / power.len() as f64;
        let flux = match &previous {
            Some(previous) => {
                let rise: f64 = power.iter().zip(previous).map(|(c, p)| (c - p).max(0.0)).sum();
                rise / (energy + EPSILON)
            }
            None => 0.0,
        };
        features.push(FrameFeatures {
            energy_db: (10.0 * (energy + EPSILON).log10()).to_bits(),
            flatness: (log_mean.exp() / (mean + EPSILON)).to_bits(),
            crest_db: (10.0 * ((max + EPSILON) / (mean + EPSILON)).log10()).to_bits(),
            flux: flux.to_bits(),
            residual_kurtosis: kurtosis(&residual).to_bits(),
            candidate: false,
        });
        previous = Some(power);
    }
    let energies: Vec<u64> = features.iter().map(|feature| feature.energy_db).collect();
    let energies_db: Vec<f64> = energies.iter().map(|bits| f64::from_bits(*bits)).collect();
    let gate = percentile(&energies_db, 0.20) + f64::from_bits(QUIET_FLOOR_MARGIN_DB);
    let deltas: Vec<u64> = energies_db
        .iter()
        .zip(baselines(&energies))
        .map(|(energy, median)| {
            let baseline = match median {
                MedianPick::Nowhere => 0.0,
                MedianPick::At(bits) => f64::from_bits(bits),
                MedianPick::Between(low, high) => 0.5 * (f64::from_bits(low) + f64::from_bits(high)),
            };
            (energy - baseline).to_bits()
        })
        .collect();
    mark_candidates(&mut features, &deltas, gate.to_bits(), config);
    features
}

#[test]
fn quiet_noise_is_suppressed_by_candidate_gates() {
    let noise: Vec<f64> = (0..4096)
        .map(|i| ((i as f64 * 0.731).sin() * (i as f64 * 1.113).cos()) * 0.002)
        .collect();
    let features = analyze(&noise, 256, 64, V21PassConfig::for_click(16_000));
    assert!(features.iter().all(|feature| !feature.candidate));
}
