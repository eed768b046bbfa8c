//! Filling an interleaved output block frame by frame.

use vstd::prelude::*;
use vstd::arithmetic::div_mod::lemma_fundamental_div_mod_converse;

verus! {

/// Writes one value per frame into an interleaved block: every sample of
/// frame number `k`, on each of its `channels` channels, becomes `frames[k]`.
/// The last frame may be cut short by the end of the block. Samples of frames
/// for which `frames` has no value are left as they were.
pub fn write_data<T: Copy>(output: &mut [T], channels: usize, frames: &[T])
    requires
        channels > 0,
    ensures
        final(output)@.len() == old(output)@.len(),
        forall|i: int|
            0 <= i < old(output)@.len() ==> #[trigger] final(output)@[i] == (if i / (channels as int)
                < frames@.len() {
                frames@[i / (channels as int)]
            } else {
                old(output)@[i]
            }),
{
    let n = output.len();
    let mut i: usize = 0;
    let mut frame: usize = 0;
    let mut within: usize = 0;
    while i < n && frame < frames.len()
        invariant
            channels > 0,
            n == output@.len(),
            n == old(output)@.len(),
            i <= n,
            frame <= frames@.len(),
            within < channels,
            i == frame * channels + within,
            forall|j: int|
                0 <= j < i ==> #[trigger] output@[j] == frames@[j / (channels as int)] && j / (
                channels as int) < frames@.len(),
            forall|j: int| i <= j < n ==> output@[j] == old(output)@[j],
        decreases n - i,
    {
        proof {
            lemma_fundamental_div_mod_converse(i as int, channels as int, frame as int, within as int);
            assert((frame + 1) * channels == frame * channels + channels) by (nonlinear_arith);
        }
        output[i] = frames[frame];
        i += 1;
        within += 1;
        if within == channels {
            within = 0;
            frame += 1;
        }
    }
    proof {
        assert forall|j: int| 0 <= j < n implies #[trigger] output@[j] == (if j / (channels as int)
            < frames@.len() {
            frames@[j / (channels as int)]
        } else {
            old(output)@[j]
        }) by {
            if i <= j {
                assert(frame == frames@.len());
                assert(j / (channels as int) >= frame) by (nonlinear_arith)
                    requires
                        j >= frame * channels,
                        channels > 0,
                ;
            }
        }
    }
}

} // verus!
