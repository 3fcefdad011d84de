//! Frames of interleaved stereo samples.
use vstd::prelude::*;

verus! {

/// The left and the right sample of a frame; a recording that ends in the middle of
/// a frame repeats its last sample.
pub open spec fn frame_pair<T>(samples: Seq<T>, frame: int) -> (T, T) {
    let left = samples[2 * frame];
    (
        left,
        if 2 * frame + 1 < samples.len() {
            samples[2 * frame + 1]
        } else {
            left
        },
    )
}

/// The left and the right sample of a frame.
pub fn stereo_frame<T: Copy>(samples: &[T], frame: usize) -> (pair: (T, T))
    requires
        2 * frame < samples@.len(),
    ensures
        pair == frame_pair(samples@, frame as int),
{
    let len: usize = samples.len();
    let base: usize = frame * 2;
    let left = samples[base];
    let right = if base < len - 1 {
        samples[base + 1]
    } else {
        left
    };
    (left, right)
}

/// A frame's samples stand next to each other, the left one first; only a frame cut
/// in half repeats its one sample.
pub proof fn law_frame_pair<T>(samples: Seq<T>, frame: int)
    requires
        0 <= 2 * frame < samples.len(),
    ensures
        2 * frame + 1 < samples.len() ==> frame_pair(samples, frame) == (
            samples[2 * frame],
            samples[2 * frame + 1],
        ),
        2 * frame + 1 == samples.len() ==> frame_pair(samples, frame) == (
            samples[2 * frame],
            samples[2 * frame],
        ),
{
}

} // verus!
