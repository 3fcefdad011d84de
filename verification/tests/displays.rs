use std::sync::Arc;
use std::sync::atomic::{AtomicU32, Ordering};

use modscope::scope::{MAX_SCOPE_SAMPLES, ScopeProgram};
use modscope::spectro::SpectroProgram;
use modscope::spectrogram::{DirtySpan, NUM_SPECTRO_BINS, SpectrogramState};
use modscope::stereo::stereo_frame;
use modscope::upload::UploadStep;
use modscope::vinyl::{
    MAX_GROOVE_SAMPLES, SILENT_PEAK, VinylProgram, groove_normalizer, groove_windows,
};

fn memory(words: &[u32]) -> Vec<u8> {
    words.iter().flat_map(|word| word.to_ne_bytes()).collect()
}

fn bits(values: &[f32]) -> Vec<u32> {
    values.iter().map(|value| value.to_bits()).collect()
}

#[test]
fn the_scope_shows_both_channels_at_equal_length() {
    let program = ScopeProgram {
        left: bits(&[0.1, 0.2, 0.3]),
        right: bits(&[-0.1]),
        gain: 2.0f32.to_bits(),
    };
    let frame = program.draw(640.0f32.to_bits(), 120.0f32.to_bits());
    assert_eq!(frame.samples, bits(&[0.1, 0.2, 0.3, -0.1, 0.0, 0.0]));
    assert_eq!(frame.uniforms.num_samples, 3);

    let steps = frame.prepare(false);
    assert_eq!(steps.len(), 3);
    assert!(matches!(
        steps[0],
        UploadStep::BuildPipeline { uniform_bytes: 16, storage_bytes: 32768 }
    ));
    let uniforms = memory(&[640.0f32.to_bits(), 120.0f32.to_bits(), 3, 2.0f32.to_bits()]);
    assert!(matches!(&steps[1], UploadStep::WriteUniforms { data } if *data == uniforms));
    let samples = memory(&frame.samples);
    assert!(matches!(
        &steps[2],
        UploadStep::WriteStorage { offset: 0, data } if *data == samples
    ));

    let steps = frame.prepare(true);
    assert_eq!(steps.len(), 2);
    assert!(matches!(&steps[0], UploadStep::WriteUniforms { .. }));
}

#[test]
fn the_scope_cuts_long_channels() {
    let left: Vec<u32> = (0..5000).collect();
    let right: Vec<u32> = (10_000..15_000).collect();
    let frame = ScopeProgram { left, right, gain: 0 }.draw(0, 0);
    assert_eq!(frame.uniforms.num_samples, MAX_SCOPE_SAMPLES as u32);
    assert_eq!(frame.samples.len(), 8192);
    assert_eq!(frame.samples[4095], 4095);
    assert_eq!(frame.samples[4096], 10_000);
    assert_eq!(frame.samples[8191], 14_095);
}

#[test]
fn an_empty_scope_writes_uniforms_only() {
    let frame = ScopeProgram { left: vec![], right: vec![1, 2], gain: 0 }.draw(1, 2);
    let steps = frame.prepare(true);
    assert_eq!(steps.len(), 1);
    let uniforms = memory(&[1, 2, 0, 0]);
    assert!(matches!(&steps[0], UploadStep::WriteUniforms { data } if *data == uniforms));
}

fn spectro(dirty: Vec<DirtySpan>, full_upload: Option<Vec<u32>>, num_cols: usize) -> SpectroProgram {
    SpectroProgram {
        dirty,
        write_index: 5,
        sample_rate: 48_000.0f32.to_bits(),
        full_upload,
        num_cols,
        observed_width_px: Arc::new(AtomicU32::new(0)),
    }
}

#[test]
fn the_spectrogram_writes_span_by_span() {
    let dirty = vec![
        DirtySpan { start_col: 3, data: vec![7; NUM_SPECTRO_BINS] },
        DirtySpan { start_col: 0, data: vec![8; 2 * NUM_SPECTRO_BINS] },
    ];
    let frame = spectro(dirty, None, 4).draw(11, 12);
    let mut steps = frame.prepare(640, Some(4));
    assert_eq!(steps.len(), 4);
    assert!(matches!(steps.remove(0), UploadStep::ReportWidth { px: 640 }));
    let uniforms = memory(&[11, 12, 1024, 4, 5, 48_000.0f32.to_bits(), 0, 0]);
    assert!(matches!(&steps[0], UploadStep::WriteUniforms { data } if *data == uniforms));
    let tail = memory(&vec![7; NUM_SPECTRO_BINS]);
    assert!(matches!(
        &steps[1],
        UploadStep::WriteStorage { offset: 12288, data } if *data == tail
    ));
    let head = memory(&vec![8; 2 * NUM_SPECTRO_BINS]);
    assert!(matches!(
        &steps[2],
        UploadStep::WriteStorage { offset: 0, data } if *data == head
    ));
}

#[test]
fn the_spectrogram_prefers_a_full_upload() {
    let cells: Vec<u32> = (0..2 * NUM_SPECTRO_BINS as u32).collect();
    let dirty = vec![DirtySpan { start_col: 1, data: vec![7; NUM_SPECTRO_BINS] }];
    let frame = spectro(dirty, Some(cells.clone()), 2).draw(0, 0);
    let mut steps = frame.prepare(1, None);
    assert_eq!(steps.len(), 4);
    assert!(matches!(steps.remove(0), UploadStep::ReportWidth { px: 1 }));
    assert!(matches!(
        steps[0],
        UploadStep::BuildPipeline { uniform_bytes: 32, storage_bytes: 8192 }
    ));
    let whole = memory(&cells);
    assert!(matches!(
        &steps[2],
        UploadStep::WriteStorage { offset: 0, data } if *data == whole
    ));
}

#[test]
fn the_spectrogram_replaces_a_buffer_of_another_size() {
    let frame = spectro(vec![], None, 8).draw(0, 0);
    let steps = frame.prepare(1, Some(4));
    assert_eq!(steps.len(), 3);
    assert!(matches!(steps[1], UploadStep::ReplaceStorage { storage_bytes: 32768 }));
    assert!(matches!(steps[2], UploadStep::WriteUniforms { .. }));
    assert_eq!(frame.prepare(1, Some(8)).len(), 2);
}

#[test]
fn the_display_buffer_follows_the_ring() {
    let mut state = SpectrogramState::new();
    state.resize(5);
    let mut buffer: Vec<u8> = Vec::new();
    let mut capacity = None;
    for round in 0..12u32 {
        for k in 0..(round % 5) {
            let level = (round * 10 + k) as f32 / 200.0;
            state.push_fft(8, &vec![level.to_bits(); NUM_SPECTRO_BINS]);
        }
        if round == 7 {
            state.resize(9);
        }
        let full_upload = if state.take_full_upload_needed() {
            Some(state.magnitudes().to_vec())
        } else {
            None
        };
        let program = SpectroProgram {
            dirty: state.take_dirty_spans(),
            write_index: state.write_index(),
            sample_rate: 0,
            full_upload,
            num_cols: state.num_cols(),
            observed_width_px: state.observed_width_handle(),
        };
        for step in program.draw(0, 0).prepare(1000 + round, capacity) {
            match step {
                UploadStep::ReportWidth { px } => {
                    program.observed_width_px.store(px, Ordering::Relaxed);
                }
                UploadStep::BuildPipeline { storage_bytes, .. }
                | UploadStep::ReplaceStorage { storage_bytes } => {
                    buffer = vec![0xee; storage_bytes as usize];
                }
                UploadStep::WriteUniforms { data } => assert_eq!(data.len(), 32),
                UploadStep::WriteStorage { offset, data } => {
                    let at = offset as usize;
                    buffer[at..at + data.len()].copy_from_slice(&data);
                }
            }
        }
        capacity = Some(state.num_cols());
        assert_eq!(buffer, memory(state.magnitudes()));
        assert_eq!(
            state.observed_width_handle().load(Ordering::Relaxed),
            1000 + round
        );
    }
}

#[test]
fn the_record_uploads_its_groove() {
    let program = VinylProgram {
        rotation_angle: 1.5f32.to_bits(),
        frame: 77,
        groove_data: bits(&[0.25, 1.0]),
    };
    let frame = program.draw(200.0f32.to_bits(), 100.0f32.to_bits());
    let steps = frame.prepare(false);
    assert_eq!(steps.len(), 3);
    assert!(matches!(
        steps[0],
        UploadStep::BuildPipeline { uniform_bytes: 32, storage_bytes: 524288 }
    ));
    let uniforms = memory(&[
        200.0f32.to_bits(),
        100.0f32.to_bits(),
        1.5f32.to_bits(),
        2,
        77,
        0,
        0,
        0,
    ]);
    assert!(matches!(&steps[1], UploadStep::WriteUniforms { data } if *data == uniforms));
    let groove = memory(&bits(&[0.25, 1.0]));
    assert!(matches!(
        &steps[2],
        UploadStep::WriteStorage { offset: 0, data } if *data == groove
    ));

    let silent = VinylProgram { rotation_angle: 0, frame: 0, groove_data: vec![] };
    assert_eq!(silent.draw(0, 0).prepare(true).len(), 1);
}

#[test]
fn groove_windows_tile_the_song() {
    assert!(groove_windows(0).is_empty());
    assert!(groove_windows(1).is_empty());
    assert_eq!(groove_windows(7), vec![(0, 1), (1, 2), (2, 3)]);

    let full = groove_windows(2 * MAX_GROOVE_SAMPLES);
    assert_eq!(full.len(), MAX_GROOVE_SAMPLES);
    assert_eq!(full[MAX_GROOVE_SAMPLES - 1], (131071, 131072));

    // 200000 frames are not enough for two frames per amplitude: some stand for one
    // frame and some for two.
    let uneven = groove_windows(400_000);
    assert_eq!(uneven.len(), MAX_GROOVE_SAMPLES);
    assert_eq!(uneven[..3], [(0, 1), (1, 3), (3, 4)]);
    assert_eq!(uneven[MAX_GROOVE_SAMPLES - 1], (199_998, 200_000));

    let double = groove_windows(4 * MAX_GROOVE_SAMPLES);
    assert_eq!(double[0], (0, 2));
    assert_eq!(double[MAX_GROOVE_SAMPLES - 1], (262_142, 262_144));
}

#[test]
fn every_frame_lies_in_one_groove_window() {
    for frames in [1usize, 2, 1000, 131_071, 131_072, 131_073, 262_143, 262_144, 300_001] {
        let windows = groove_windows(2 * frames + 1);
        assert_eq!(windows.len(), frames.min(MAX_GROOVE_SAMPLES));
        let mut next = 0;
        for (start, end) in windows {
            assert_eq!(start, next);
            assert!(start < end);
            next = end;
        }
        assert_eq!(next, frames);
    }
}

#[test]
fn the_end_of_a_long_song_is_heard() {
    let frames = 262_143;
    let mut samples = vec![0.0f64; 2 * frames];
    samples[2 * (frames - 1)] = 0.5;
    samples[2 * (frames - 1) + 1] = 0.5;
    let loud = groove_windows(samples.len())
        .into_iter()
        .filter(|&(start, end)| {
            (start..end).any(|frame| {
                let (l, r) = stereo_frame(&samples, frame);
                (l + r) * 0.5 > 0.0
            })
        })
        .count();
    assert_eq!(loud, 1);
}

#[test]
fn grooves_are_normalized_by_their_peak() {
    assert_eq!(SILENT_PEAK, 1e-6f32.to_bits());
    assert_eq!(groove_normalizer(&[]), None);
    assert_eq!(groove_normalizer(&bits(&[0.0, 1e-6])), None);
    assert_eq!(groove_normalizer(&bits(&[0.0, 2e-6])), Some(2e-6f32.to_bits()));
    assert_eq!(
        groove_normalizer(&bits(&[0.25, f32::NAN, 0.75, 0.5])),
        Some(0.75f32.to_bits())
    );
    assert_eq!(groove_normalizer(&bits(&[-4.0, -1.0])), None);
}
