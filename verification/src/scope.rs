//! The oscilloscope: two channels side by side.
use vstd::prelude::*;

use crate::upload::{UploadStep, frame_steps};
#[allow(unused_imports)]
use crate::upload::{PlannedStep, follows, frame_plan, law_frame_is_stored, storage_after, writes_fit};

verus! {

/// Samples shown per channel.
pub const MAX_SCOPE_SAMPLES: usize = 4096;

/// Bytes of the uniform buffer: four words.
pub const SCOPE_UNIFORM_BYTES: u64 = 16;

/// Bytes of the storage buffer: both channels at full length.
pub const SCOPE_STORAGE_BYTES: u64 = 32768;

/// The shader's parameters; `width`, `height` and `gain` are single-precision bit
/// patterns.
#[derive(Debug, Clone, Copy)]
pub struct ScopeUniforms {
    pub width: u32,
    pub height: u32,
    pub num_samples: u32,
    pub gain: u32,
}

impl View for ScopeUniforms {
    type V = Seq<u32>;

    open spec fn view(&self) -> Seq<u32> {
        seq![self.width, self.height, self.num_samples, self.gain]
    }
}

/// A frame of the oscilloscope: left samples, then as many right samples.
#[derive(Debug)]
pub struct ScopePrimitive {
    pub uniforms: ScopeUniforms,
    pub samples: Vec<u32>,
}

/// What the oscilloscope shows; samples and gain are single-precision bit patterns.
#[derive(Debug)]
pub struct ScopeProgram {
    pub left: Vec<u32>,
    pub right: Vec<u32>,
    pub gain: u32,
}

/// How many samples of each channel are shown.
pub open spec fn shown_samples(left: Seq<u32>) -> int {
    if left.len() < MAX_SCOPE_SAMPLES {
        left.len() as int
    } else {
        MAX_SCOPE_SAMPLES as int
    }
}

/// The sample at `i` of a channel, silence where it has none.
pub open spec fn sample_or_silence(channel: Seq<u32>, i: int) -> u32 {
    if i < channel.len() {
        channel[i]
    } else {
        0
    }
}

/// The storage contents for two channels: the left one's samples, then the right
/// one's, filled up with silence to the same number.
pub open spec fn scope_samples(left: Seq<u32>, right: Seq<u32>) -> Seq<u32> {
    let n = shown_samples(left);
    Seq::new(
        (2 * n) as nat,
        |i: int|
            if i < n {
                left[i]
            } else {
                sample_or_silence(right, i - n)
            },
    )
}

impl ScopeProgram {
    /// The shader's parameters for bounds of `width` by `height`.
    pub open spec fn uniforms(self, width: u32, height: u32) -> ScopeUniforms {
        ScopeUniforms {
            width,
            height,
            num_samples: shown_samples(self.left@) as u32,
            gain: self.gain,
        }
    }

    /// The frame for bounds of `width` by `height`.
    pub fn draw(&self, width: u32, height: u32) -> (primitive: ScopePrimitive)
        ensures
            primitive.samples@ == scope_samples(self.left@, self.right@),
            primitive.uniforms == self.uniforms(width, height),
    {
        let n: usize = if self.left.len() < MAX_SCOPE_SAMPLES {
            self.left.len()
        } else {
            MAX_SCOPE_SAMPLES
        };
        let mut samples: Vec<u32> = Vec::with_capacity(n * 2);
        let mut i: usize = 0;
        while i < n
            invariant
                i <= n == shown_samples(self.left@),
                samples@ == scope_samples(self.left@, self.right@).subrange(0, i as int),
            decreases n - i,
        {
            samples.push(self.left[i]);
            i += 1;
            assert(samples@ =~= scope_samples(self.left@, self.right@).subrange(0, i as int));
        }
        i = 0;
        while i < n
            invariant
                i <= n == shown_samples(self.left@),
                samples@ == scope_samples(self.left@, self.right@).subrange(0, n + i),
            decreases n - i,
        {
            if i < self.right.len() {
                samples.push(self.right[i]);
            } else {
                samples.push(0);
            }
            i += 1;
            assert(samples@ =~= scope_samples(self.left@, self.right@).subrange(0, n + i));
        }
        ScopePrimitive {
            uniforms: ScopeUniforms { width, height, num_samples: n as u32, gain: self.gain },
            samples,
        }
    }
}

impl ScopePrimitive {
    /// The steps that a frame takes.
    pub open spec fn plan(self, ready: bool) -> Seq<PlannedStep> {
        frame_plan(
            ready,
            SCOPE_UNIFORM_BYTES as int,
            SCOPE_STORAGE_BYTES as int,
            self.uniforms@,
            self.samples@,
        )
    }

    /// Lists the steps that a frame takes; `ready` says whether the pipeline exists.
    pub fn prepare(&self, ready: bool) -> (steps: Vec<UploadStep>)
        ensures
            follows(steps@, self.plan(ready)),
    {
        let uniforms = [
            self.uniforms.width,
            self.uniforms.height,
            self.uniforms.num_samples,
            self.uniforms.gain,
        ];
        assert(uniforms@ =~= self.uniforms@);
        frame_steps(
            ready,
            SCOPE_UNIFORM_BYTES,
            SCOPE_STORAGE_BYTES,
            uniforms.as_slice(),
            self.samples.as_slice(),
        )
    }
}

/// Whatever is shown, the frame fits the storage buffer, its start then holds the
/// samples of both channels, and the shader is told how many there are of each.
pub proof fn law_scope_frame_fits(
    program: ScopeProgram,
    primitive: ScopePrimitive,
    ready: bool,
    storage: Seq<u32>,
)
    requires
        primitive.samples@ == scope_samples(program.left@, program.right@),
        primitive.uniforms.num_samples == shown_samples(program.left@) as u32,
        storage.len() == 2 * MAX_SCOPE_SAMPLES,
    ensures
        writes_fit(primitive.plan(ready), SCOPE_STORAGE_BYTES as int),
        storage_after(storage, primitive.plan(ready)).take(
            2 * primitive.uniforms.num_samples as int,
        ) == scope_samples(program.left@, program.right@),
{
    law_frame_is_stored(
        ready,
        SCOPE_UNIFORM_BYTES as int,
        SCOPE_STORAGE_BYTES as int,
        primitive.uniforms@,
        primitive.samples@,
        storage,
    );
    assert(storage_after(storage, primitive.plan(ready)).take(
        2 * primitive.uniforms.num_samples as int,
    ) =~= primitive.samples@);
}

/// The oscilloscope shows as many samples as the left channel has, up to 4096: first
/// those of the left channel in order, then as many of the right one, with silence
/// where it has none.
pub proof fn law_scope_shows_both_channels(left: Seq<u32>, right: Seq<u32>, i: int)
    ensures
        ({
            let n = shown_samples(left);
            let samples = scope_samples(left, right);
            &&& left.len() <= 4096 ==> n == left.len()
            &&& left.len() > 4096 ==> n == 4096
            &&& samples.len() == 2 * n
            &&& 0 <= i < n ==> samples[i] == left[i]
            &&& 0 <= i < n && i < right.len() ==> samples[n + i] == right[i]
            &&& 0 <= i < n && i >= right.len() ==> samples[n + i] == 0
        }),
{
}

/// What the shader is told.
pub proof fn law_scope_uniforms(program: ScopeProgram, width: u32, height: u32)
    ensures
        ({
            let words = program.uniforms(width, height)@;
            &&& words.len() == 4
            &&& words[0] == width && words[1] == height && words[3] == program.gain
            &&& program.left@.len() <= 4096 ==> words[2] == program.left@.len()
            &&& program.left@.len() > 4096 ==> words[2] == 4096
        }),
{
}

} // verus!
