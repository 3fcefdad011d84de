use std::sync::atomic::Ordering;
use std::time::Duration;

use modscope::spectrogram::{
    DEFAULT_SPECTRO_COLS, FFT_SIZE, MAX_SPECTRO_COLS, MIN_SPECTRO_COLS, NUM_SPECTRO_BINS,
    RESIZE_SETTLE_NANOS, SpectrogramState, bin_peaks, fft_input, fft_input_frames,
};
use modscope::stereo::stereo_frame;
use rustfft::FftPlanner;
use rustfft::num_complex::Complex;

const DB_FLOOR: f32 = -80.0;

/// Transforms a stereo waveform into the levels of a column.
struct Analyzer {
    planner: FftPlanner<f64>,
    window: Vec<f64>,
}

impl Analyzer {
    fn new() -> Self {
        let window = (0..FFT_SIZE)
            .map(|i| {
                let phase = 2.0 * std::f64::consts::PI * i as f64 / (FFT_SIZE - 1) as f64;
                0.5 - 0.5 * phase.cos()
            })
            .collect();
        Self {
            planner: FftPlanner::new(),
            window,
        }
    }

    fn levels(&mut self, waveform: &[f64]) -> Vec<u32> {
        let Some(input) = fft_input(waveform, 0.0) else {
            return Vec::new();
        };
        let fft = self.planner.plan_fft_forward(FFT_SIZE);
        let mut buf: Vec<Complex<f64>> = input
            .iter()
            .zip(self.window.iter())
            .map(|((l, r), window)| Complex::new((l + r) * 0.5 * window, 0.0))
            .collect();
        fft.process(&mut buf);
        let magnitudes: Vec<u64> = buf[..FFT_SIZE / 2]
            .iter()
            .map(|bin| (bin.norm() * 2.0 / FFT_SIZE as f64).to_bits())
            .collect();
        bin_peaks(&magnitudes)
            .into_iter()
            .map(|peak| {
                let db = match peak {
                    Some(bits) => 20.0 * f64::from_bits(bits).log10(),
                    None => DB_FLOOR as f64,
                };
                ((db as f32 - DB_FLOOR) / -DB_FLOOR).to_bits()
            })
            .collect()
    }

    fn push(&mut self, state: &mut SpectrogramState, waveform: &[f64]) {
        let levels = self.levels(waveform);
        state.push_fft(waveform.len(), &levels);
    }
}

fn test_waveform(freq_hz: f64, frames: usize) -> Vec<f64> {
    (0..frames)
        .flat_map(|i| {
            let s = (i as f64 * freq_hz * 2.0 * std::f64::consts::PI / 48_000.0).sin() * 0.8;
            [s, s]
        })
        .collect()
}

fn flat_column(level: f32) -> Vec<u32> {
    vec![level.to_bits(); NUM_SPECTRO_BINS]
}

#[test]
fn resize_preserves_latest_column() {
    let mut state = SpectrogramState::new();
    let mut analyzer = Analyzer::new();
    assert_eq!(state.num_cols(), DEFAULT_SPECTRO_COLS);

    // Fill enough columns that resize can never legitimately drop the
    // most-recent one. Use distinct frequencies so latest_column is unique.
    for i in 0..600 {
        let wave = test_waveform(220.0 + i as f64 * 5.0, 2048);
        analyzer.push(&mut state, &wave);
    }
    assert_eq!(state.write_index(), 600);
    let latest_before = state.latest_column().to_vec();
    assert!(latest_before.iter().any(|&v| f32::from_bits(v) > 0.0));

    // Shrink: most recent column must survive (512 < 600, so keep window
    // still ends at the most-recent push).
    state.resize(512);
    assert_eq!(state.num_cols(), 512);
    assert_eq!(state.latest_column(), latest_before.as_slice());

    // Grow: preserved data persists, capacity expands.
    state.resize(3000);
    assert_eq!(state.num_cols(), 3000);
    assert_eq!(state.latest_column(), latest_before.as_slice());
    assert_eq!(
        state.magnitudes().len(),
        3000 * NUM_SPECTRO_BINS,
        "backing Vec must match new capacity"
    );
}

#[test]
fn resize_no_op_when_unchanged() {
    let mut state = SpectrogramState::new();
    let mut analyzer = Analyzer::new();
    let wave = test_waveform(440.0, 2048);
    analyzer.push(&mut state, &wave);
    let before = state.latest_column().to_vec();
    state.resize(DEFAULT_SPECTRO_COLS);
    assert_eq!(state.num_cols(), DEFAULT_SPECTRO_COLS);
    assert_eq!(state.latest_column(), before.as_slice());
}

fn millis(n: u64) -> u64 {
    Duration::from_millis(n).as_nanos() as u64
}

#[test]
fn poll_desired_cols_debounces_and_clamps() {
    let mut state = SpectrogramState::new();
    let handle = state.observed_width_handle();
    let t0 = millis(5000);

    // No observation yet: None.
    assert_eq!(state.poll_desired_cols(t0), None);

    // Observe a new width; first poll arms the pending timer.
    handle.store(1920, Ordering::Relaxed);
    assert_eq!(state.poll_desired_cols(t0), None);

    // Before settle window, still None.
    assert_eq!(state.poll_desired_cols(t0 + millis(100)), None);

    // After settle window, resize fires.
    assert_eq!(state.poll_desired_cols(t0 + millis(200)), Some(1920));

    // If the value changes before settle, timer resets.
    handle.store(3840, Ordering::Relaxed);
    let t1 = t0 + millis(300);
    assert_eq!(state.poll_desired_cols(t1), None);
    // Clamp to MAX_SPECTRO_COLS.
    handle.store(20_000, Ordering::Relaxed);
    let t2 = t1 + millis(50);
    assert_eq!(state.poll_desired_cols(t2), None);
    assert_eq!(
        state.poll_desired_cols(t2 + millis(200)),
        Some(MAX_SPECTRO_COLS)
    );

    // Clamp to MIN_SPECTRO_COLS.
    handle.store(1, Ordering::Relaxed);
    let t3 = t2 + millis(1000);
    assert_eq!(state.poll_desired_cols(t3), None);
    assert_eq!(
        state.poll_desired_cols(t3 + millis(200)),
        Some(MIN_SPECTRO_COLS)
    );
}

#[test]
fn dirty_spans_single_contiguous_run() {
    let mut state = SpectrogramState::new();
    let mut analyzer = Analyzer::new();
    // Drain the new()-time full_upload flag so it doesn't conflate the test.
    assert!(state.take_full_upload_needed());
    assert!(state.take_dirty_spans().is_empty());

    for i in 0..5 {
        analyzer.push(&mut state, &test_waveform(220.0 + i as f64 * 5.0, 2048));
    }
    let spans = state.take_dirty_spans();
    assert_eq!(spans.len(), 1);
    assert_eq!(spans[0].start_col, 0);
    assert_eq!(spans[0].data.len(), 5 * NUM_SPECTRO_BINS);

    // Span contents must match the underlying magnitudes at the reported offset.
    let expected = &state.magnitudes()[0..5 * NUM_SPECTRO_BINS];
    assert_eq!(spans[0].data.as_slice(), expected);

    // Second call without new pushes drains to empty.
    assert!(state.take_dirty_spans().is_empty());
}

#[test]
fn dirty_spans_wrap_around() {
    let mut state = SpectrogramState::new();
    let mut analyzer = Analyzer::new();
    let _ = state.take_full_upload_needed();
    let num = state.num_cols();

    // Push until write_index is 2 short of num_cols, then drain.
    for _ in 0..(num - 2) {
        analyzer.push(&mut state, &test_waveform(440.0, 2048));
    }
    let _ = state.take_dirty_spans();
    assert_eq!(state.write_index(), num - 2);

    // Push 5 more: should wrap, producing two spans (2 tail + 3 head).
    for _ in 0..5 {
        analyzer.push(&mut state, &test_waveform(660.0, 2048));
    }
    assert_eq!(state.write_index(), 3);
    let spans = state.take_dirty_spans();
    assert_eq!(spans.len(), 2);
    assert_eq!(spans[0].start_col, num - 2);
    assert_eq!(spans[0].data.len(), 2 * NUM_SPECTRO_BINS);
    assert_eq!(spans[1].start_col, 0);
    assert_eq!(spans[1].data.len(), 3 * NUM_SPECTRO_BINS);
}

#[test]
fn dirty_spans_overflow_triggers_full_upload() {
    let mut state = SpectrogramState::new();
    let mut analyzer = Analyzer::new();
    let _ = state.take_full_upload_needed();
    let num = state.num_cols();

    // Push more than num_cols without draining: saturates dirty_count.
    for _ in 0..(num + 3) {
        analyzer.push(&mut state, &test_waveform(440.0, 2048));
    }
    let spans = state.take_dirty_spans();
    assert!(spans.is_empty(), "overflow path returns empty spans");
    assert!(
        state.take_full_upload_needed(),
        "overflow should arm full_upload_needed"
    );
}

#[test]
fn constants_are_the_documented_ones() {
    assert_eq!(NUM_SPECTRO_BINS, 1024);
    assert_eq!(DEFAULT_SPECTRO_COLS, 2048);
    assert_eq!(MIN_SPECTRO_COLS, 128);
    assert_eq!(MAX_SPECTRO_COLS, 8192);
    assert_eq!(FFT_SIZE, 4096);
    assert_eq!(RESIZE_SETTLE_NANOS, millis(150));
    assert_eq!(modscope::spectrogram::SILENT_MAGNITUDE, 1e-12f64.to_bits());
}

#[test]
fn a_new_ring_is_silent_and_wants_a_full_upload() {
    let mut state = SpectrogramState::new();
    assert_eq!(state.magnitudes().len(), 2048 * 1024);
    assert!(state.magnitudes().iter().all(|&bits| bits == 0));
    assert_eq!(state.write_index(), 0);
    assert_eq!(state.latest_column_index(), 2047);
    assert!(state.take_full_upload_needed());
    assert!(!state.take_full_upload_needed());
}

#[test]
fn levels_are_limited_to_the_unit_range() {
    let mut state = SpectrogramState::new();
    let mut levels = flat_column(0.5);
    levels[0] = (-0.25f32).to_bits();
    levels[1] = 1.5f32.to_bits();
    levels[2] = f32::INFINITY.to_bits();
    levels[3] = 1.0f32.to_bits();
    levels[4] = f32::NAN.to_bits();
    state.push_fft(8, &levels);
    let column = state.latest_column();
    assert_eq!(column[0], 0.0f32.to_bits());
    assert_eq!(column[1], 1.0f32.to_bits());
    assert_eq!(column[2], 1.0f32.to_bits());
    assert_eq!(column[3], 1.0f32.to_bits());
    assert!(f32::from_bits(column[4]).is_nan());
    assert_eq!(column[5], 0.5f32.to_bits());
}

#[test]
fn short_waveforms_push_nothing() {
    let mut state = SpectrogramState::new();
    state.push_fft(7, &[]);
    assert_eq!(state.write_index(), 0);
    assert!(state.take_dirty_spans().is_empty());
    assert_eq!(fft_input_frames(0), None);
    assert_eq!(fft_input_frames(7), None);
    assert_eq!(fft_input_frames(8), Some(4));
    assert_eq!(fft_input_frames(9), Some(4));
    assert_eq!(fft_input_frames(8192), Some(4096));
    assert_eq!(fft_input_frames(100_000), Some(4096));
}

#[test]
fn pushing_appends_and_drops_the_oldest_column() {
    let mut state = SpectrogramState::new();
    state.resize(4);
    for k in 1..=6 {
        state.push_fft(8, &flat_column(k as f32 / 10.0));
    }
    // Six columns in a ring of four: 0.5 and 0.6 overwrote 0.1 and 0.2.
    let levels: Vec<f32> = (0..4)
        .map(|c| f32::from_bits(state.magnitudes()[c * NUM_SPECTRO_BINS]))
        .collect();
    assert_eq!(levels, vec![0.5, 0.6, 0.3, 0.4]);
    assert_eq!(state.write_index(), 2);
    assert_eq!(state.latest_column_index(), 1);
    assert_eq!(f32::from_bits(state.latest_column()[7]), 0.6);
}

#[test]
fn resizing_keeps_the_youngest_columns_in_order() {
    let mut state = SpectrogramState::new();
    state.resize(4);
    for k in 1..=6 {
        state.push_fft(8, &flat_column(k as f32 / 10.0));
    }
    let _ = state.take_full_upload_needed();
    state.resize(3);
    let shrunk: Vec<f32> = (0..3)
        .map(|c| f32::from_bits(state.magnitudes()[c * NUM_SPECTRO_BINS]))
        .collect();
    assert_eq!(shrunk, vec![0.4, 0.5, 0.6]);
    assert_eq!(state.write_index(), 0);
    assert!(state.take_full_upload_needed());
    assert!(state.take_dirty_spans().is_empty());

    state.resize(5);
    let grown: Vec<f32> = (0..5)
        .map(|c| f32::from_bits(state.magnitudes()[c * NUM_SPECTRO_BINS]))
        .collect();
    assert_eq!(grown, vec![0.4, 0.5, 0.6, 0.0, 0.0]);
    assert_eq!(state.write_index(), 3);

    state.resize(0);
    assert_eq!(state.num_cols(), 5);
}

#[test]
fn clearing_silences_and_asks_for_a_full_upload() {
    let mut state = SpectrogramState::new();
    state.resize(4);
    for _ in 0..3 {
        state.push_fft(8, &flat_column(0.7));
    }
    let _ = state.take_full_upload_needed();
    state.clear();
    assert_eq!(state.write_index(), 0);
    assert_eq!(state.num_cols(), 4);
    assert!(state.magnitudes().iter().all(|&bits| bits == 0));
    assert!(state.take_full_upload_needed());
    assert!(state.take_dirty_spans().is_empty());
}

#[test]
fn spans_bring_a_mirror_up_to_date() {
    let mut state = SpectrogramState::new();
    state.resize(6);
    let mut mirror = state.magnitudes().to_vec();
    let mut level = 1;
    for pushes in [1usize, 4, 5, 2, 5, 3] {
        for _ in 0..pushes {
            state.push_fft(8, &flat_column(level as f32 / 100.0));
            level += 1;
        }
        let spans = state.take_dirty_spans();
        assert!(spans.len() <= 2);
        let columns: usize = spans.iter().map(|span| span.data.len()).sum();
        assert_eq!(columns, pushes * NUM_SPECTRO_BINS);
        for span in &spans {
            let start = span.start_col * NUM_SPECTRO_BINS;
            mirror[start..start + span.data.len()].copy_from_slice(&span.data);
        }
        assert_eq!(mirror.as_slice(), state.magnitudes());
    }
}

#[test]
fn a_width_that_returns_is_not_waited_for() {
    let mut state = SpectrogramState::new();
    assert_eq!(state.poll_width(1000, 10), None);
    // Back at the width in use: the wait is over.
    assert_eq!(state.poll_width(2048, 20), None);
    assert_eq!(state.poll_width(1000, 10 + RESIZE_SETTLE_NANOS), None);
    assert_eq!(
        state.poll_width(1000, 9 + 2 * RESIZE_SETTLE_NANOS),
        None
    );
    assert_eq!(
        state.poll_width(1000, 10 + 2 * RESIZE_SETTLE_NANOS),
        Some(1000)
    );
    // Offered once, then waited for again.
    assert_eq!(state.poll_width(1000, 3 * RESIZE_SETTLE_NANOS), None);
    // A width of 0 was never observed and changes nothing.
    assert_eq!(state.poll_width(0, 9 * RESIZE_SETTLE_NANOS), None);
    assert_eq!(state.poll_width(1000, 4 * RESIZE_SETTLE_NANOS), Some(1000));
    // A clock that runs backwards settles nothing.
    assert_eq!(state.poll_width(700, 100), None);
    assert_eq!(state.poll_width(700, 0), None);
}

#[test]
fn peaks_are_taken_over_two_bins_each() {
    let mut magnitudes = vec![0.0f64.to_bits(); FFT_SIZE / 2];
    magnitudes[0] = 0.25f64.to_bits();
    magnitudes[1] = 0.5f64.to_bits();
    magnitudes[2] = 0.75f64.to_bits();
    magnitudes[3] = f64::NAN.to_bits();
    magnitudes[4] = 1e-12f64.to_bits();
    magnitudes[6] = 1.1e-12f64.to_bits();
    magnitudes[9] = (-3.0f64).to_bits();
    let peaks = bin_peaks(&magnitudes);
    assert_eq!(peaks.len(), NUM_SPECTRO_BINS);
    assert_eq!(peaks[0], Some(0.5f64.to_bits()));
    assert_eq!(peaks[1], Some(0.75f64.to_bits()));
    assert_eq!(peaks[2], None);
    assert_eq!(peaks[3], Some(1.1e-12f64.to_bits()));
    assert_eq!(peaks[4], None);
    assert!(peaks[5..].iter().all(|peak| peak.is_none()));
}

#[test]
fn frames_are_pairs_of_samples() {
    let samples = [1.0, 2.0, 3.0, 4.0, 5.0];
    assert_eq!(stereo_frame(&samples, 0), (1.0, 2.0));
    assert_eq!(stereo_frame(&samples, 1), (3.0, 4.0));
    assert_eq!(stereo_frame(&samples, 2), (5.0, 5.0));
}

#[test]
fn transforms_take_the_first_frames_and_silence() {
    assert_eq!(fft_input(&[1.0; 7], 0.0), None);
    let nine: Vec<f64> = (1..=9).map(f64::from).collect();
    let input = fft_input(&nine, 0.0).unwrap();
    assert_eq!(input.len(), FFT_SIZE);
    assert_eq!(input[..4], [(1.0, 2.0), (3.0, 4.0), (5.0, 6.0), (7.0, 8.0)]);
    assert!(input[4..].iter().all(|pair| *pair == (0.0, 0.0)));
    let long: Vec<usize> = (0..20_000).collect();
    let input = fft_input(&long, 0).unwrap();
    assert_eq!(input.len(), FFT_SIZE);
    assert_eq!(input[4095], (8190, 8191));
}
