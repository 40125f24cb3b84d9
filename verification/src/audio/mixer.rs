//! The voices of the software mixer: which sounds play, which one gives way
//! when all slots are taken, and which have run out.
//!
//! Gains, speeds and cursors are bit patterns; the sample loop that reads them
//! is the caller's, who hands back where each voice came to.

use vstd::prelude::*;
use crate::engine::single::{INFINITY, at_least, below, is_less, is_nan, raise_to, rank};

verus! {

/// Most voices mixed at once.
pub const MAX_VOICES: usize = 32;

/// The slowest playback speed, one hundredth, as a bit pattern. A speed of
/// nothing would never advance a voice.
pub const MIN_SPEED: u32 = 0x3c23_d70a;

/// One, as a bit pattern.
pub const ONE: u32 = 0x3f80_0000;

/// A point or direction in the world, as bit patterns.
#[derive(Clone, Copy, Debug, PartialEq, Eq, Structural)]
pub struct Point {
    pub x: u32,
    pub y: u32,
    pub z: u32,
}

/// How a voice's volume falls off with distance.
#[derive(Clone, Copy, Debug, PartialEq, Eq, Structural)]
pub enum Attenuation {
    /// No falloff.
    Flat,
    /// Inverse-distance falloff, silent beyond `max_distance`.
    Inverse { ref_distance: u32, max_distance: u32 },
    /// Linear falloff from `ref_distance` to `max_distance`.
    Linear { ref_distance: u32, max_distance: u32 },
}

/// Sixty, as a bit pattern: the distance at which a source falls silent, where
/// nothing else is said.
pub const AUDIBLE_DISTANCE: u32 = 0x4270_0000;

impl Default for Attenuation {
    fn default() -> (r: Self)
        ensures
            r == (Attenuation::Inverse { ref_distance: ONE, max_distance: AUDIBLE_DISTANCE }),
    {
        Attenuation::Inverse { ref_distance: ONE, max_distance: AUDIBLE_DISTANCE }
    }
}

/// Where a voice sits in the world, or that it does not.
#[derive(Clone, Copy, Debug, PartialEq, Eq, Structural)]
pub enum Spatial {
    /// Not positioned: plays at full volume, centred.
    Unplaced,
    /// Positioned in world space.
    At { position: Point, velocity: Point, attenuation: Attenuation },
}

impl Spatial {
    /// A source at rest with the default falloff.
    pub fn at(position: Point) -> (r: Self)
        ensures
            r == (Spatial::At {
                position,
                velocity: Point { x: 0, y: 0, z: 0 },
                attenuation: Attenuation::Inverse {
                    ref_distance: ONE,
                    max_distance: AUDIBLE_DISTANCE,
                },
            }),
    {
        Spatial::At {
            position,
            velocity: Point { x: 0, y: 0, z: 0 },
            attenuation: Attenuation::default(),
        }
    }
}

/// One playing sound.
#[derive(Clone, Copy, Debug, PartialEq, Eq, Structural)]
pub struct Voice {
    /// Which sound it reads from.
    pub buffer: usize,
    /// Playback position in source frames, a double-precision bit pattern.
    pub cursor: u64,
    /// Volume before spatialisation.
    pub gain: u32,
    /// Playback speed multiplier.
    pub speed: u32,
    /// Whether to wrap around at the end.
    pub looping: bool,
    /// World placement.
    pub spatial: Spatial,
    /// Set when a one-shot has run out of samples.
    pub finished: bool,
}

impl Voice {
    /// A voice that plays a sound once, unpositioned, at full volume.
    pub fn new(buffer: usize) -> (r: Self)
        ensures
            r == (Voice {
                buffer,
                cursor: 0,
                gain: ONE,
                speed: ONE,
                looping: false,
                spatial: Spatial::Unplaced,
                finished: false,
            }),
    {
        Voice {
            buffer,
            cursor: 0,
            gain: ONE,
            speed: ONE,
            looping: false,
            spatial: Spatial::Unplaced,
            finished: false,
        }
    }

    /// With a gain, at least zero.
    pub fn with_gain(self, gain: u32) -> (r: Self)
        ensures
            r == (Voice { gain: at_least(gain, 0), ..self }),
    {
        Voice { gain: raise_to(gain, 0), ..self }
    }

    /// With a speed, at least the slowest, so that the voice cannot stall.
    pub fn with_speed(self, speed: u32) -> (r: Self)
        ensures
            r == (Voice { speed: at_least(speed, MIN_SPEED), ..self }),
            below(0, r.speed),
    {
        Voice { speed: raise_to(speed, MIN_SPEED), ..self }
    }

    /// Looping or not.
    pub fn looping(self, looping: bool) -> (r: Self)
        ensures
            r == (Voice { looping, ..self }),
    {
        Voice { looping, ..self }
    }

    /// At a place.
    pub fn spatial(self, spatial: Spatial) -> (r: Self)
        ensures
            r == (Voice { spatial, ..self }),
    {
        Voice { spatial, ..self }
    }

    /// Move to a position in the sound; the voice plays again.
    pub fn seek(&mut self, cursor: u64)
        ensures
            *final(self) == (Voice { cursor, finished: false, ..*old(self) }),
    {
        self.cursor = cursor;
        self.finished = false;
    }

    /// Whether this voice has finished and can be dropped.
    pub fn is_finished(&self) -> (r: bool)
        ensures
            r == self.finished,
    {
        self.finished
    }

    /// The voice after its cursor moved to `cursor`, in a sound of
    /// `frame_count` frames. Past the end a loop goes on at `wrapped`, the
    /// remainder of the cursor, and a one-shot has finished; a voice of an
    /// empty sound has finished at once.
    pub open spec fn advanced(
        self,
        cursor: u64,
        frame_count: usize,
        past_end: bool,
        wrapped: u64,
    ) -> Voice {
        if frame_count == 0 {
            Voice { cursor, finished: true, ..self }
        } else if !past_end {
            Voice { cursor, ..self }
        } else if self.looping {
            Voice { cursor: wrapped, ..self }
        } else {
            Voice { cursor, finished: true, ..self }
        }
    }

    /// Move the cursor, and wrap a loop or finish a one-shot.
    pub fn advance(&mut self, cursor: u64, frame_count: usize, past_end: bool, wrapped: u64)
        ensures
            *final(self) == old(self).advanced(cursor, frame_count, past_end, wrapped),
    {
        self.cursor = cursor;
        if frame_count == 0 {
            self.finished = true;
            return;
        }
        if !past_end {
            return;
        }
        if self.looping {
            self.cursor = wrapped;
        } else {
            self.finished = true;
        }
    }

    /// The two frames between which a voice reads when its cursor lies in frame
    /// `index`: the next one, the first again for a loop, or the last once more.
    pub fn frames_read(&self, index: usize, frame_count: usize) -> (r: (usize, usize))
        requires
            index < frame_count,
        ensures
            r.0 == index,
            r.1 == (if index + 1 < frame_count {
                index + 1
            } else if self.looping {
                0
            } else {
                index as int
            }),
            r.1 < frame_count,
    {
        let next: usize = if index + 1 < frame_count {
            index + 1
        } else if self.looping {
            0
        } else {
            index
        };
        (index, next)
    }
}

/// How many samples of an output of `len` are mixed for `frames` stereo frames.
pub fn mix_limit(frames: usize, len: usize) -> (r: usize)
    requires
        frames * 2 <= usize::MAX,
    ensures
        r == (if frames * 2 < len {
            frames * 2
        } else {
            len as int
        }),
{
    let needed: usize = frames * 2;
    if needed < len {
        needed
    } else {
        len
    }
}

// --- the quietest voice ------------------------------------------------------

/// `index` is the first of the quietest gains. Gains that are no number, or
/// infinite, are never the quietest; where all are, it is the first.
pub open spec fn is_quietest(gains: Seq<u32>, index: int) -> bool {
    &&& 0 <= index < gains.len()
    &&& forall|i: int| 0 <= i < gains.len() ==> !below(#[trigger] gains[i], gains[index])
    &&& forall|i: int| 0 <= i < index ==> !is_candidate(#[trigger] gains[i]) || below(
        gains[index],
        gains[i],
    )
    &&& (is_candidate(gains[index]) || (index == 0 && forall|i: int|
        0 <= i < gains.len() ==> !is_candidate(#[trigger] gains[i])))
}

/// A gain that can be the quietest: below infinity.
pub open spec fn is_candidate(gain: u32) -> bool {
    below(gain, INFINITY)
}

/// The first of the quietest gains and its value, infinite where no gain is
/// below that.
fn quietest(gains: &[u32]) -> (r: (usize, u32))
    requires
        gains@.len() > 0,
    ensures
        is_quietest(gains@, r.0 as int),
        r.1 == (if is_candidate(gains@[r.0 as int]) {
            gains@[r.0 as int]
        } else {
            INFINITY
        }),
{
    let mut index: usize = 0;
    let mut value: u32 = INFINITY;
    let mut i: usize = 0;
    assert(gains.len() == gains@.len());
    while i < gains.len()
        invariant
            0 < gains@.len() <= usize::MAX,
            i <= gains@.len(),
            index < gains@.len(),
            i == 0 ==> index == 0,
            index < i || index == 0,
            value == (if i > 0 && is_candidate(gains@[index as int]) {
                gains@[index as int]
            } else {
                INFINITY
            }),
            i > 0 && !is_candidate(gains@[index as int]) ==> index == 0 && forall|k: int|
                0 <= k < i ==> !is_candidate(#[trigger] gains@[k]),
            forall|k: int| 0 <= k < i ==> !below(#[trigger] gains@[k], value),
            forall|k: int|
                0 <= k < index ==> !is_candidate(#[trigger] gains@[k]) || below(value, gains@[k]),
        decreases gains@.len() - i,
    {
        if is_less(gains[i], value) {
            index = i;
            value = gains[i];
        }
        i += 1;
    }
    proof {
        let best = gains@[index as int];
        if !is_candidate(best) {
            assert forall|k: int| 0 <= k < gains@.len() implies !below(#[trigger] gains@[k], best) by {
                assert(!is_candidate(gains@[k]));
            }
        }
    }
    (index, value)
}

// --- the mixer ---------------------------------------------------------------

/// The voices after a new one asked for a slot, and whether it got one: there
/// was room, or it is louder than the quietest voice, whose slot it takes.
pub open spec fn admits(
    voices: Seq<Voice>,
    voice: Voice,
    incoming: u32,
    gains: Seq<u32>,
    after: Seq<Voice>,
    admitted: bool,
) -> bool {
    if voices.len() < MAX_VOICES {
        admitted && after == voices.push(voice)
    } else {
        exists|index: int| #[trigger]
            is_quietest(gains, index) && admitted == (is_candidate(gains[index]) && below(
                gains[index],
                incoming,
            )) && after == (if admitted {
                voices.update(index, voice)
            } else {
                voices
            })
    }
}

/// The mixer: a set of voices.
#[derive(Debug)]
pub struct Mixer {
    pub voices: Vec<Voice>,
    pub sample_rate: u32,
    pub retired: usize,
}

impl Mixer {
    /// No more voices than slots.
    pub open spec fn wf(&self) -> bool {
        self.voices@.len() <= MAX_VOICES
    }

    /// A mixer without voices; an output rate of 0 becomes 1.
    pub fn new(sample_rate: u32) -> (r: Self)
        ensures
            r.wf(),
            r.voices@.len() == 0,
            r.retired == 0,
            r.sample_rate == (if sample_rate == 0 {
                1
            } else {
                sample_rate as int
            }),
    {
        Mixer {
            voices: Vec::new(),
            sample_rate: if sample_rate == 0 {
                1
            } else {
                sample_rate
            },
            retired: 0,
        }
    }

    /// The output rate.
    pub fn sample_rate(&self) -> (r: u32)
        ensures
            r == self.sample_rate,
    {
        self.sample_rate
    }

    /// How many voices play.
    pub fn voice_count(&self) -> (r: usize)
        ensures
            r == self.voices@.len(),
    {
        self.voices.len()
    }

    /// Voices dropped after the most recent mix because they finished.
    pub fn retired(&self) -> (r: usize)
        ensures
            r == self.retired,
    {
        self.retired
    }

    /// Start a voice, whose audible gain is `incoming`; `gains` holds those of
    /// the voices that play. Returns false if it was dropped because every slot
    /// is taken by a sound at least as loud.
    pub fn play(&mut self, voice: Voice, incoming: u32, gains: &[u32]) -> (r: bool)
        requires
            old(self).wf(),
            gains@.len() == old(self).voices@.len(),
        ensures
            final(self).wf(),
            final(self).sample_rate == old(self).sample_rate,
            final(self).retired == old(self).retired,
            admits(old(self).voices@, voice, incoming, gains@, final(self).voices@, r),
    {
        if self.voices.len() < MAX_VOICES {
            self.voices.push(voice);
            return true;
        }
        let (index, value) = quietest(gains);
        proof {
            assert(is_quietest(gains@, index as int));
            assert(!below(INFINITY, incoming)) by {
                if !is_nan(incoming) {
                    assert(rank(incoming) <= rank(INFINITY));
                }
            }
        }
        if is_less(value, incoming) {
            self.voices.set(index, voice);
            true
        } else {
            false
        }
    }

    /// Stop everything.
    pub fn stop_all(&mut self)
        ensures
            final(self).wf(),
            final(self).voices@.len() == 0,
            final(self).sample_rate == old(self).sample_rate,
            final(self).retired == old(self).retired,
    {
        self.voices.clear();
    }

    /// Stop every looping voice, leaving one-shots to finish.
    pub fn stop_looping(&mut self)
        requires
            old(self).wf(),
        ensures
            final(self).wf(),
            final(self).voices@ == old(self).voices@.filter(|v: Voice| !v.looping),
            final(self).sample_rate == old(self).sample_rate,
            final(self).retired == old(self).retired,
    {
        let ghost all = self.voices@;
        let mut kept: Vec<Voice> = Vec::new();
        let mut i: usize = 0;
        while i < self.voices.len()
            invariant
                self.voices@ == all,
                i <= all.len() <= MAX_VOICES,
                kept@.len() <= i,
                kept@ == all.take(i as int).filter(|v: Voice| !v.looping),
            decreases all.len() - i,
        {
            let voice: Voice = self.voices[i];
            proof {
                lemma_filter_step(all, i as int, |v: Voice| !v.looping);
            }
            if !voice.looping {
                kept.push(voice);
            }
            i += 1;
        }
        assert(all.take(i as int) =~= all);
        self.voices = kept;
    }

    /// Move every looping voice to `spatial`.
    pub fn set_spatial_all_looping(&mut self, spatial: Spatial)
        requires
            old(self).wf(),
        ensures
            final(self).wf(),
            final(self).voices@.len() == old(self).voices@.len(),
            forall|i: int|
                0 <= i < final(self).voices@.len() ==> #[trigger] final(self).voices@[i] == (
                if old(self).voices@[i].looping {
                    Voice { spatial, ..old(self).voices@[i] }
                } else {
                    old(self).voices@[i]
                }),
            final(self).sample_rate == old(self).sample_rate,
            final(self).retired == old(self).retired,
    {
        let ghost all = self.voices@;
        let mut i: usize = 0;
        while i < self.voices.len()
            invariant
                self.voices@.len() == all.len(),
                all.len() <= MAX_VOICES,
                all == old(self).voices@,
                self.sample_rate == old(self).sample_rate,
                self.retired == old(self).retired,
                i <= all.len(),
                forall|k: int|
                    0 <= k < all.len() ==> #[trigger] self.voices@[k] == (if k < i
                        && all[k].looping {
                        Voice { spatial, ..all[k] }
                    } else {
                        all[k]
                    }),
            decreases all.len() - i,
        {
            let mut voice: Voice = self.voices[i];
            if voice.looping {
                voice.spatial = spatial;
                self.voices.set(i, voice);
            }
            i += 1;
        }
    }

    /// Drop the voices that have finished, and count them.
    pub fn retire(&mut self)
        requires
            old(self).wf(),
        ensures
            final(self).wf(),
            final(self).voices@ == old(self).voices@.filter(|v: Voice| !v.finished),
            final(self).retired == old(self).voices@.len() - final(self).voices@.len(),
            final(self).sample_rate == old(self).sample_rate,
    {
        let ghost all = self.voices@;
        let total: usize = self.voices.len();
        let mut kept: Vec<Voice> = Vec::new();
        let mut i: usize = 0;
        while i < self.voices.len()
            invariant
                self.voices@ == all,
                i <= all.len() <= MAX_VOICES,
                kept@.len() <= i,
                kept@ == all.take(i as int).filter(|v: Voice| !v.finished),
            decreases all.len() - i,
        {
            let voice: Voice = self.voices[i];
            proof {
                lemma_filter_step(all, i as int, |v: Voice| !v.finished);
            }
            if !voice.is_finished() {
                kept.push(voice);
            }
            i += 1;
        }
        assert(all.take(i as int) =~= all);
        self.retired = total - kept.len();
        self.voices = kept;
    }
}

proof fn lemma_filter_step(all: Seq<Voice>, i: int, keep: spec_fn(Voice) -> bool)
    requires
        0 <= i < all.len(),
    ensures
        all.take(i + 1).filter(keep) == (if keep(all[i]) {
            all.take(i).filter(keep).push(all[i])
        } else {
            all.take(i).filter(keep)
        }),
{
    reveal(Seq::filter);
    assert(all.take(i + 1).drop_last() =~= all.take(i));
}

// --- laws --------------------------------------------------------------------

/// With every slot taken, a voice gets one only where it is louder than some
/// voice that plays, and then every voice that gave way was no louder than any
/// other: the loudest sounds survive. The number of voices does not grow.
pub proof fn law_the_quietest_gives_way(
    voices: Seq<Voice>,
    voice: Voice,
    incoming: u32,
    gains: Seq<u32>,
    after: Seq<Voice>,
    admitted: bool,
)
    requires
        voices.len() == MAX_VOICES,
        gains.len() == voices.len(),
        admits(voices, voice, incoming, gains, after, admitted),
    ensures
        after.len() == voices.len(),
        !admitted ==> after == voices && forall|i: int|
            0 <= i < gains.len() ==> !(is_candidate(#[trigger] gains[i]) && below(
                gains[i],
                incoming,
            )),
        admitted ==> exists|index: int|
            0 <= index < voices.len() && after == voices.update(index, voice) && #[trigger] below(
                gains[index],
                incoming,
            ) && forall|i: int|
                0 <= i < gains.len() ==> !below(#[trigger] gains[i], gains[index]),
{
    let index = choose|index: int| #[trigger]
        is_quietest(gains, index) && admitted == (is_candidate(gains[index]) && below(
            gains[index],
            incoming,
        )) && after == (if admitted {
            voices.update(index, voice)
        } else {
            voices
        });
    if !admitted {
        assert forall|i: int| 0 <= i < gains.len() implies !(is_candidate(#[trigger] gains[i])
            && below(gains[i], incoming)) by {
            assert(!below(gains[i], gains[index]));
        }
    } else {
        assert(below(gains[index], incoming));
    }
}

/// A looping voice never finishes by playing, and a one-shot does when it runs
/// past its end.
pub proof fn law_only_one_shots_finish(
    voice: Voice,
    cursor: u64,
    frame_count: usize,
    past_end: bool,
    wrapped: u64,
)
    requires
        !voice.finished,
        frame_count > 0,
    ensures
        voice.advanced(cursor, frame_count, past_end, wrapped).finished == (past_end
            && !voice.looping),
{
}

} // verus!
