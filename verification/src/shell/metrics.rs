//! Frame metrics: frame rate, time per frame, and the counts of the last frame.
//!
//! Times are microseconds from any fixed moment. A rate is frames over the time
//! they really took, and is renewed once a second.

use vstd::prelude::*;

verus! {

/// A second.
pub const LOG_INTERVAL: u64 = 1_000_000;

/// Frames over the microseconds that they took.
#[derive(Clone, Copy, Debug, PartialEq, Eq, Structural)]
pub struct Rate {
    pub frames: u64,
    pub micros: u64,
}

/// Per-frame timing and counts.
#[derive(Clone, Copy, Debug, PartialEq, Eq, Structural)]
pub struct FrameMetrics {
    /// When the current frame began.
    pub cpu_start: Option<u64>,
    /// Time of the last frame.
    pub cpu_time_us: u64,
    /// Time spent handing work to the GPU in this frame.
    pub submit_time_us: u64,
    /// Frames since the last report.
    pub frame_count: u64,
    /// The rate of the last report; `None` before the first.
    pub rate: Option<Rate>,
    /// When the last report was made.
    pub last_log: u64,
    pub drawn: usize,
    pub culled: usize,
    pub material_slots: usize,
    pub glyphs: usize,
}

/// Time that passed between two moments; none where they are out of order.
pub open spec fn passed(from: u64, to: u64) -> u64 {
    if from <= to {
        (to - from) as u64
    } else {
        0
    }
}

fn elapsed(from: u64, to: u64) -> (r: u64)
    ensures
        r == passed(from, to),
{
    if from <= to {
        to - from
    } else {
        0
    }
}

impl FrameMetrics {
    /// The metrics after a frame that ended at `now`.
    pub open spec fn ended(self, now: u64) -> FrameMetrics {
        let counted = FrameMetrics {
            cpu_time_us: match self.cpu_start {
                Some(start) => passed(start, now),
                None => self.cpu_time_us,
            },
            frame_count: (self.frame_count + 1) as u64,
            ..self
        };
        if passed(self.last_log, now) >= LOG_INTERVAL {
            FrameMetrics {
                rate: Some(
                    Rate { frames: counted.frame_count, micros: passed(self.last_log, now) },
                ),
                frame_count: 0,
                last_log: now,
                ..counted
            }
        } else {
            counted
        }
    }

    /// Nothing measured yet.
    pub fn new(now: u64) -> (r: Self)
        ensures
            r == (FrameMetrics {
                cpu_start: None,
                cpu_time_us: 0,
                submit_time_us: 0,
                frame_count: 0,
                rate: None,
                last_log: now,
                drawn: 0,
                culled: 0,
                material_slots: 0,
                glyphs: 0,
            }),
    {
        FrameMetrics {
            cpu_start: None,
            cpu_time_us: 0,
            submit_time_us: 0,
            frame_count: 0,
            rate: None,
            last_log: now,
            drawn: 0,
            culled: 0,
            material_slots: 0,
            glyphs: 0,
        }
    }

    /// Record this frame's scene counts.
    pub fn set_scene_stats(&mut self, drawn: usize, culled: usize, material_slots: usize)
        ensures
            *final(self) == (FrameMetrics { drawn, culled, material_slots, ..*old(self) }),
    {
        self.drawn = drawn;
        self.culled = culled;
        self.material_slots = material_slots;
    }

    /// Record how many glyph quads were submitted this frame.
    pub fn set_glyph_count(&mut self, glyphs: usize)
        ensures
            *final(self) == (FrameMetrics { glyphs, ..*old(self) }),
    {
        self.glyphs = glyphs;
    }

    /// Begin a frame.
    pub fn begin_frame(&mut self, now: u64)
        ensures
            *final(self) == (FrameMetrics {
                cpu_start: Some(now),
                cpu_time_us: 0,
                submit_time_us: 0,
                ..*old(self)
            }),
    {
        self.cpu_start = Some(now);
        self.cpu_time_us = 0;
        self.submit_time_us = 0;
    }

    /// Record time spent handing work to the GPU.
    pub fn record_submit_phase(&mut self, phase_start: u64, now: u64)
        requires
            old(self).submit_time_us + passed(phase_start, now) <= u64::MAX,
        ensures
            *final(self) == (FrameMetrics {
                submit_time_us: (old(self).submit_time_us + passed(phase_start, now)) as u64,
                ..*old(self)
            }),
    {
        self.submit_time_us = self.submit_time_us + elapsed(phase_start, now);
    }

    /// End a frame. Returns true once a second, when the rate is renewed and a
    /// report is due.
    pub fn end_frame(&mut self, now: u64) -> (report: bool)
        requires
            old(self).frame_count < u64::MAX,
        ensures
            *final(self) == old(self).ended(now),
            report == (passed(old(self).last_log, now) >= LOG_INTERVAL),
    {
        if let Some(start) = self.cpu_start {
            self.cpu_time_us = elapsed(start, now);
        }
        self.frame_count = self.frame_count + 1;
        let since: u64 = elapsed(self.last_log, now);
        if since >= LOG_INTERVAL {
            self.rate = Some(Rate { frames: self.frame_count, micros: since });
            self.frame_count = 0;
            self.last_log = now;
            true
        } else {
            false
        }
    }

    /// The current rate, renewed every second.
    pub fn fps(&self) -> (r: Option<Rate>)
        ensures
            r == self.rate,
    {
        self.rate
    }

    /// Time of the last completed frame.
    pub fn cpu_us(&self) -> (r: u64)
        ensures
            r == self.cpu_time_us,
    {
        self.cpu_time_us
    }

    /// Time spent submitting to the GPU.
    pub fn submit_us(&self) -> (r: u64)
        ensures
            r == self.submit_time_us,
    {
        self.submit_time_us
    }

    /// Time per frame that the rate implies, as a fraction: the rate turned
    /// over. Zero before the first second.
    pub fn frame_us(&self) -> (r: (u64, u64))
        ensures
            r == (match self.rate {
                Some(rate) if rate.frames > 0 => (rate.micros, rate.frames),
                _ => (0u64, 1u64),
            }),
            r.1 > 0,
    {
        match self.rate {
            Some(rate) => {
                if rate.frames > 0 {
                    (rate.micros, rate.frames)
                } else {
                    (0, 1)
                }
            },
            None => (0, 1),
        }
    }

    /// Glyph quads drawn last frame.
    pub fn glyph_count(&self) -> (r: usize)
        ensures
            r == self.glyphs,
    {
        self.glyphs
    }

    /// Meshes drawn and culled last frame, and materials.
    pub fn scene_counts(&self) -> (r: (usize, usize, usize))
        ensures
            r == (self.drawn, self.culled, self.material_slots),
    {
        (self.drawn, self.culled, self.material_slots)
    }
}

/// The metrics after frames that ended at the given moments.
pub open spec fn after_frames(m: FrameMetrics, ends: Seq<u64>) -> FrameMetrics
    decreases ends.len(),
{
    if ends.len() == 0 {
        m
    } else {
        after_frames(m, ends.drop_last()).ended(ends.last())
    }
}

/// The rate is frames over real time: where no report fell due before, the
/// first one that does counts every frame since the last and the time that
/// passed, however long the frames were.
pub proof fn law_rate_is_frames_over_time(m: FrameMetrics, ends: Seq<u64>)
    requires
        ends.len() > 0,
        m.frame_count + ends.len() <= u64::MAX,
        forall|i: int|
            0 <= i < ends.len() - 1 ==> passed(m.last_log, #[trigger] ends[i]) < LOG_INTERVAL,
        passed(m.last_log, ends.last()) >= LOG_INTERVAL,
    ensures
        after_frames(m, ends).rate == Some(
            Rate {
                frames: (m.frame_count + ends.len()) as u64,
                micros: passed(m.last_log, ends.last()),
            },
        ),
        after_frames(m, ends).frame_count == 0,
        after_frames(m, ends).last_log == ends.last(),
{
    let early = ends.drop_last();
    assert forall|i: int| 0 <= i < early.len() implies passed(m.last_log, #[trigger] early[i])
        < LOG_INTERVAL by {
        assert(early[i] == ends[i]);
    }
    lemma_counted(m, early);
}

proof fn lemma_counted(m: FrameMetrics, ends: Seq<u64>)
    requires
        m.frame_count + ends.len() <= u64::MAX,
        forall|i: int|
            0 <= i < ends.len() ==> passed(m.last_log, #[trigger] ends[i]) < LOG_INTERVAL,
    ensures
        after_frames(m, ends).frame_count == m.frame_count + ends.len(),
        after_frames(m, ends).last_log == m.last_log,
    decreases ends.len(),
{
    if ends.len() > 0 {
        let early = ends.drop_last();
        assert forall|i: int| 0 <= i < early.len() implies passed(m.last_log, #[trigger] early[i])
            < LOG_INTERVAL by {
            assert(early[i] == ends[i]);
        }
        lemma_counted(m, early);
        assert(ends[ends.len() - 1] == ends.last());
    }
}

} // verus!
