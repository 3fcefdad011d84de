//! The vinyl record: a disc whose grooves follow the loudness of the song.
use vstd::prelude::*;

#[allow(unused_imports)]
use crate::cleanup::regions::covers;
use crate::float_order::is_above32;
#[allow(unused_imports)]
use crate::float_order::{above32, nan32, place32};
use crate::upload::{UploadStep, frame_steps};
#[allow(unused_imports)]
use crate::upload::{PlannedStep, follows, frame_plan, law_frame_is_stored, storage_after, writes_fit};

verus! {

pub const MAX_GROOVE_SAMPLES: usize = 131072;

/// The sample rate at which a song is rendered for its groove: the classic Amiga
/// Paula rate, which is detail enough for a disc.
pub const GROOVE_RENDER_RATE: u32 = 8363;

/// Bytes of the uniform buffer: eight words.
pub const VINYL_UNIFORM_BYTES: u64 = 32;

/// Bytes of the storage buffer: a full groove.
pub const VINYL_STORAGE_BYTES: u64 = 524288;

/// The shader's parameters; `width`, `height` and `angle` are single-precision bit
/// patterns.
#[derive(Debug, Clone, Copy)]
pub struct VinylUniforms {
    pub width: u32,
    pub height: u32,
    pub angle: u32,
    pub num_groove_samples: u32,
    pub frame: u32,
}

impl View for VinylUniforms {
    type V = Seq<u32>;

    /// The words of the uniform buffer, padded to eight.
    open spec fn view(&self) -> Seq<u32> {
        seq![
            self.width,
            self.height,
            self.angle,
            self.num_groove_samples,
            self.frame,
            0u32,
            0u32,
            0u32,
        ]
    }
}

/// A frame of the record.
#[derive(Debug)]
pub struct VinylPrimitive {
    pub uniforms: VinylUniforms,
    pub groove_data: Vec<u32>,
}

/// The record's state; the angle and the groove's amplitudes are single-precision
/// bit patterns.
#[derive(Debug, Clone)]
pub struct VinylProgram {
    pub rotation_angle: u32,
    pub frame: u32,
    pub groove_data: Vec<u32>,
}

impl VinylProgram {
    /// The shader's parameters for bounds of `width` by `height`.
    pub open spec fn uniforms(self, width: u32, height: u32) -> VinylUniforms {
        VinylUniforms {
            width,
            height,
            angle: self.rotation_angle,
            num_groove_samples: self.groove_data@.len() as u32,
            frame: self.frame,
        }
    }

    /// The frame for bounds of `width` by `height`.
    pub fn draw(&self, width: u32, height: u32) -> (primitive: VinylPrimitive)
        ensures
            primitive.groove_data@ == self.groove_data@,
            primitive.uniforms == self.uniforms(width, height),
    {
        let groove_data = self.groove_data.clone();
        assert(groove_data@ =~= self.groove_data@);
        VinylPrimitive {
            uniforms: VinylUniforms {
                width,
                height,
                angle: self.rotation_angle,
                num_groove_samples: self.groove_data.len() as u32,
                frame: self.frame,
            },
            groove_data,
        }
    }
}

impl VinylPrimitive {
    /// The steps that a frame takes.
    pub open spec fn plan(self, ready: bool) -> Seq<PlannedStep> {
        frame_plan(
            ready,
            VINYL_UNIFORM_BYTES as int,
            VINYL_STORAGE_BYTES as int,
            self.uniforms@,
            self.groove_data@,
        )
    }

    /// Lists the steps that a frame takes; `ready` says whether the pipeline exists.
    pub fn prepare(&self, ready: bool) -> (steps: Vec<UploadStep>)
        ensures
            follows(steps@, self.plan(ready)),
    {
        let uniforms = [
            self.uniforms.width,
            self.uniforms.height,
            self.uniforms.angle,
            self.uniforms.num_groove_samples,
            self.uniforms.frame,
            0u32,
            0u32,
            0u32,
        ];
        assert(uniforms@ =~= self.uniforms@);
        frame_steps(
            ready,
            VINYL_UNIFORM_BYTES,
            VINYL_STORAGE_BYTES,
            uniforms.as_slice(),
            self.groove_data.as_slice(),
        )
    }
}

/// How many amplitudes the groove of a song of `frames` frames has.
pub open spec fn groove_len(frames: int) -> int {
    if frames < MAX_GROOVE_SAMPLES {
        frames
    } else {
        MAX_GROOVE_SAMPLES as int
    }
}

/// The frame at which the run of the amplitude at `k` starts, which is where the run
/// before it ends.
pub open spec fn groove_edge(frames: int, k: int) -> int {
    k * frames / groove_len(frames)
}

/// The runs of frames that the amplitudes stand for: consecutive, as equally long as
/// whole frames allow, and together the whole song.
pub open spec fn groove_runs(frames: int) -> Seq<(usize, usize)> {
    Seq::new(
        groove_len(frames) as nat,
        |k: int| (groove_edge(frames, k) as usize, groove_edge(frames, k + 1) as usize),
    )
}

/// Splits the frames of `sample_count` interleaved stereo samples into the runs
/// whose loudness makes up the groove, each as its first frame and the one behind
/// its last.
pub fn groove_windows(sample_count: usize) -> (windows: Vec<(usize, usize)>)
    ensures
        windows@ == groove_runs(sample_count as int / 2),
{
    let frames: usize = sample_count / 2;
    let mut windows: Vec<(usize, usize)> = Vec::new();
    if frames == 0 {
        assert(windows@ =~= groove_runs(0));
        return windows;
    }
    let target_len: usize = if frames < MAX_GROOVE_SAMPLES {
        frames
    } else {
        MAX_GROOVE_SAMPLES
    };
    proof {
        lemma_groove_edge(frames as int, 0);
    }
    let mut start: usize = 0;
    let mut k: usize = 0;
    while k < target_len
        invariant
            0 < frames,
            target_len == groove_len(frames as int),
            k <= target_len,
            start == groove_edge(frames as int, k as int),
            windows@ == groove_runs(frames as int).take(k as int),
        decreases target_len - k,
    {
        proof {
            lemma_groove_edge(frames as int, k as int);
            assert((k + 1) * frames <= 131072 * u64::MAX) by (nonlinear_arith)
                requires
                    k + 1 <= 131072,
                    frames <= u64::MAX,
            ;
        }
        let end: usize = ((k as u128 + 1) * frames as u128 / target_len as u128) as usize;
        windows.push((start, end));
        start = end;
        k += 1;
        assert(windows@ =~= groove_runs(frames as int).take(k as int));
    }
    assert(windows@ =~= groove_runs(frames as int));
    windows
}

proof fn lemma_groove_edge(frames: int, k: int)
    requires
        0 < frames,
        0 <= k < groove_len(frames),
    ensures
        groove_edge(frames, 0) == 0,
        0 <= groove_edge(frames, k) < groove_edge(frames, k + 1) <= frames,
        groove_edge(frames, groove_len(frames)) == frames,
{
    let len = groove_len(frames);
    assert(0 * frames == 0);
    vstd::arithmetic::div_mod::lemma_div_multiples_vanish(frames, len);
    assert(len * frames == frames * len && 0 <= k * frames && k * frames + len <= (k + 1) * frames
        && (k + 1) * frames <= len * frames) by (nonlinear_arith)
        requires
            0 < frames,
            0 <= k < len,
            len <= frames,
    ;
    vstd::arithmetic::div_mod::lemma_div_pos_is_pos(k * frames, len);
    vstd::arithmetic::div_mod::lemma_div_is_ordered(k * frames + len, (k + 1) * frames, len);
    vstd::arithmetic::div_mod::lemma_div_is_ordered((k + 1) * frames, len * frames, len);
    vstd::arithmetic::div_mod::lemma_div_plus_one(k * frames, len);
}

/// The groove stands for the whole song: its runs start at the first frame, follow
/// each other without a gap, are never empty and end with the last frame, so every
/// frame lies in one of them. There is one amplitude per frame up to the groove's
/// maximum length.
pub proof fn law_groove_runs_tile(frames: int)
    requires
        0 <= frames <= usize::MAX,
    ensures
        groove_runs(frames).len() <= MAX_GROOVE_SAMPLES,
        groove_runs(frames).len() == 0 <==> frames == 0,
        frames <= MAX_GROOVE_SAMPLES ==> groove_runs(frames).len() == frames,
        frames > 0 ==> groove_runs(frames)[0].0 == 0,
        frames > 0 ==> groove_runs(frames).last().1 == frames,
        forall|k: int|
            0 <= k < groove_runs(frames).len() ==> (#[trigger] groove_runs(frames)[k]).0
                < groove_runs(frames)[k].1 <= frames,
        forall|k: int|
            0 < k < groove_runs(frames).len() ==> (#[trigger] groove_runs(frames)[k]).0
                == groove_runs(frames)[k - 1].1,
        forall|frame: int|
            0 <= frame < frames ==> #[trigger] covers(groove_runs(frames), frame),
{
    if frames > 0 {
        let len = groove_len(frames);
        lemma_groove_edge(frames, 0);
        assert forall|k: int| 0 <= k < len implies (#[trigger] groove_runs(frames)[k]).0
            == groove_edge(frames, k) && groove_runs(frames)[k].1 == groove_edge(frames, k + 1)
            && 0 <= groove_edge(frames, k) < groove_edge(frames, k + 1) <= frames by {
            lemma_groove_edge(frames, k);
        }
        assert forall|frame: int| 0 <= frame < frames implies #[trigger] covers(
            groove_runs(frames),
            frame,
        ) by {
            lemma_frame_in_run(frames, frame, len);
        }
    }
}

/// A frame before the end of the first `k` runs lies in one of them.
proof fn lemma_frame_in_run(frames: int, frame: int, k: int)
    requires
        0 < frames <= usize::MAX,
        0 < k <= groove_len(frames),
        0 <= frame < groove_edge(frames, k),
    ensures
        covers(groove_runs(frames), frame),
    decreases k,
{
    lemma_groove_edge(frames, k - 1);
    let run = groove_runs(frames)[k - 1];
    if frame >= groove_edge(frames, k - 1) {
        assert(run.0 <= frame < run.1);
    } else {
        lemma_frame_in_run(frames, frame, k - 1);
    }
}

/// `1e-6` as a single: below it a groove is taken for silent.
pub const SILENT_PEAK: u32 = 0x3586_37bd;

/// The largest amplitude of a groove, at least `0.0`.
pub open spec fn groove_peak(envelope: Seq<u32>) -> u32
    decreases envelope.len(),
{
    if envelope.len() == 0 {
        0
    } else {
        let peak = groove_peak(envelope.drop_last());
        if above32(envelope.last(), peak) {
            envelope.last()
        } else {
            peak
        }
    }
}

/// The amplitude that becomes `1.0`; `None` if the groove is silent.
pub open spec fn normalizer_of(envelope: Seq<u32>) -> Option<u32> {
    if above32(groove_peak(envelope), SILENT_PEAK) {
        Some(groove_peak(envelope))
    } else {
        None
    }
}

/// The amplitude by which a groove has to be divided so that its loudest place
/// becomes `1.0`; `None` if the groove is silent.
pub fn groove_normalizer(envelope: &[u32]) -> (normalizer: Option<u32>)
    ensures
        normalizer == normalizer_of(envelope@),
{
    let mut peak: u32 = 0;
    let mut i: usize = 0;
    while i < envelope.len()
        invariant
            i <= envelope@.len(),
            peak == groove_peak(envelope@.take(i as int)),
        decreases envelope@.len() - i,
    {
        assert(envelope@.take(i + 1).drop_last() =~= envelope@.take(i as int));
        if is_above32(envelope[i], peak) {
            peak = envelope[i];
        }
        i += 1;
    }
    assert(envelope@.take(i as int) =~= envelope@);
    if is_above32(peak, SILENT_PEAK) {
        Some(peak)
    } else {
        None
    }
}

/// The peak is no NaN, not negative, no amplitude is above it, and unless it is
/// `0.0` it is one of the amplitudes.
pub proof fn law_groove_peak(envelope: Seq<u32>)
    ensures
        !nan32(groove_peak(envelope)),
        place32(groove_peak(envelope)) >= 0,
        forall|i: int| 0 <= i < envelope.len() ==> !above32(envelope[i], groove_peak(envelope)),
        groove_peak(envelope) == 0 || envelope.contains(groove_peak(envelope)),
    decreases envelope.len(),
{
    if envelope.len() > 0 {
        let rest = envelope.drop_last();
        law_groove_peak(rest);
        assert forall|i: int| 0 <= i < envelope.len() implies !above32(
            envelope[i],
            groove_peak(envelope),
        ) by {
            if i < rest.len() {
                assert(rest[i] == envelope[i]);
            }
        }
        if above32(envelope.last(), groove_peak(rest)) {
            assert(envelope[envelope.len() - 1] == groove_peak(envelope));
        } else if groove_peak(rest) != 0 {
            let i = choose|i: int| 0 <= i < rest.len() && rest[i] == groove_peak(rest);
            assert(envelope[i] == groove_peak(envelope));
        }
    }
}

/// A groove of at most the maximum length fits the storage buffer, whose start
/// then holds it.
pub proof fn law_vinyl_frame_fits(primitive: VinylPrimitive, ready: bool, storage: Seq<u32>)
    requires
        primitive.groove_data@.len() <= MAX_GROOVE_SAMPLES,
        storage.len() == MAX_GROOVE_SAMPLES,
    ensures
        writes_fit(primitive.plan(ready), VINYL_STORAGE_BYTES as int),
        storage_after(storage, primitive.plan(ready)).take(primitive.groove_data@.len() as int)
            == primitive.groove_data@,
{
    law_frame_is_stored(
        ready,
        VINYL_UNIFORM_BYTES as int,
        VINYL_STORAGE_BYTES as int,
        primitive.uniforms@,
        primitive.groove_data@,
        storage,
    );
    assert(storage_after(storage, primitive.plan(ready)).take(
        primitive.groove_data@.len() as int,
    ) =~= primitive.groove_data@);
}

/// The groove has as many amplitudes as the song has frames, up to its maximum length,
/// and each stands for as many frames as any other, give or take one.
pub proof fn law_groove_runs_are_even(frames: int, i: int, j: int)
    requires
        0 < frames <= usize::MAX,
        0 <= i < groove_runs(frames).len(),
        0 <= j < groove_runs(frames).len(),
    ensures
        frames <= 131072 ==> groove_runs(frames).len() == frames,
        frames > 131072 ==> groove_runs(frames).len() == 131072,
        ({
            let (a, b) = (groove_runs(frames)[i], groove_runs(frames)[j]);
            &&& (a.1 - a.0) - (b.1 - b.0) <= 1
            &&& frames / groove_runs(frames).len() as int <= a.1 - a.0 <= frames / groove_runs(
                frames,
            ).len() as int + 1
        }),
{
    lemma_groove_run_len(frames, i);
    lemma_groove_run_len(frames, j);
}

proof fn lemma_groove_run_len(frames: int, k: int)
    requires
        0 < frames <= usize::MAX,
        0 <= k < groove_len(frames),
    ensures
        groove_runs(frames)[k].0 == groove_edge(frames, k),
        groove_runs(frames)[k].1 == groove_edge(frames, k + 1),
        frames / groove_len(frames) <= groove_edge(frames, k + 1) - groove_edge(frames, k)
            <= frames / groove_len(frames) + 1,
{
    let len = groove_len(frames);
    lemma_groove_edge(frames, k);
    let a = k * frames;
    assert((k + 1) * frames == a + frames) by (nonlinear_arith)
        requires
            a == k * frames,
    ;
    vstd::arithmetic::div_mod::lemma_fundamental_div_mod(a, len);
    vstd::arithmetic::div_mod::lemma_fundamental_div_mod(frames, len);
    vstd::arithmetic::div_mod::lemma_fundamental_div_mod(a + frames, len);
    let (x, y, z) = (a / len, frames / len, (a + frames) / len);
    let (u, v, w) = (a % len, frames % len, (a + frames) % len);
    vstd::arithmetic::div_mod::lemma_mod_bound(a, len);
    vstd::arithmetic::div_mod::lemma_mod_bound(frames, len);
    vstd::arithmetic::div_mod::lemma_mod_bound(a + frames, len);
    assert(x + y <= z <= x + y + 1) by (nonlinear_arith)
        requires
            len * x + u + len * y + v == len * z + w,
            0 <= u < len,
            0 <= v < len,
            0 <= w < len,
    ;
}

/// A groove is divided by its loudest amplitude, which no other exceeds, unless none
/// is louder than `1e-6`.
pub proof fn law_normalizer_is_the_peak(envelope: Seq<u32>)
    ensures
        match normalizer_of(envelope) {
            Some(peak) => {
                &&& envelope.contains(peak)
                &&& above32(peak, 0x3586_37bd)
                &&& forall|i: int| 0 <= i < envelope.len() ==> !above32(#[trigger] envelope[i], peak)
            },
            None => forall|i: int|
                0 <= i < envelope.len() ==> !above32(#[trigger] envelope[i], 0x3586_37bd),
        },
{
    law_groove_peak(envelope);
}

/// The groove lies in the buffer as it is, and the shader is told how long it is.
pub proof fn law_vinyl_uniforms(program: VinylProgram, width: u32, height: u32)
    ensures
        ({
            let words = program.uniforms(width, height)@;
            &&& words.len() == 8
            &&& words[0] == width && words[1] == height && words[2] == program.rotation_angle
            &&& program.groove_data@.len() <= u32::MAX ==> words[3] == program.groove_data@.len()
            &&& words[4] == program.frame
            &&& words[5] == 0 && words[6] == 0 && words[7] == 0
        }),
{
}

} // verus!
