//! The noise source of the procedural sounds: a fixed-seed integer sequence, so
//! that two runs produce identical audio.

use vstd::prelude::*;
use crate::audio::wav::Sample;

verus! {

/// Sample rate the generators produce at. It is not that of the output device,
/// so that generated sounds are resampled.
pub const SYNTH_RATE: u32 = 44_100;

/// Where the noise starts.
pub const NOISE_SEED: u32 = 0x1234_5678;

/// The state after `n` steps from the seed.
pub open spec fn noise_state(n: nat) -> u32
    decreases n,
{
    if n == 0 {
        NOISE_SEED
    } else {
        noise_state((n - 1) as nat).wrapping_mul(1_664_525).wrapping_add(1_013_904_223)
    }
}

/// White noise of a state: its upper 24 bits, centred around zero.
pub open spec fn white_noise(state: u32) -> Sample {
    Sample::Fraction { value: (state / 256 - 8_388_608) as i64, scale: 8_388_608 }
}

/// The next state of the noise.
pub fn noise_step(state: u32) -> (r: u32)
    ensures
        r == state.wrapping_mul(1_664_525).wrapping_add(1_013_904_223),
{
    state.wrapping_mul(1_664_525).wrapping_add(1_013_904_223)
}

/// `frames` samples of white noise; at least one.
pub fn white(frames: usize) -> (r: Vec<Sample>)
    ensures
        r@.len() == (if frames == 0 {
            1
        } else {
            frames as int
        }),
        forall|i: int|
            0 <= i < r@.len() ==> #[trigger] r@[i] == white_noise(noise_state((i + 1) as nat)),
{
    let count: usize = if frames == 0 {
        1
    } else {
        frames
    };
    let mut samples: Vec<Sample> = Vec::new();
    let mut state: u32 = NOISE_SEED;
    let mut i: usize = 0;
    while i < count
        invariant
            i <= count,
            state == noise_state(i as nat),
            samples@.len() == i,
            forall|k: int|
                0 <= k < i ==> #[trigger] samples@[k] == white_noise(noise_state((k + 1) as nat)),
        decreases count - i,
    {
        state = noise_step(state);
        assert(state == noise_state((i + 1) as nat));
        assert(state >> 8 == state / 256) by (bit_vector);
        samples.push(Sample::Fraction { value: (state >> 8) as i64 - 8_388_608, scale: 8_388_608 });
        i += 1;
    }
    samples
}

/// White noise stays within full scale.
pub proof fn law_noise_stays_in_range(state: u32)
    ensures
        white_noise(state) matches Sample::Fraction { value, scale } && -scale <= value < scale,
{
}

} // verus!
