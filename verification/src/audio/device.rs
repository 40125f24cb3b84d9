//! The output device: which buffers are queued with the operating system, and
//! which one is filled next.
//!
//! Three buffers rotate: one playing, one queued behind it, one being filled.
//! The calls into the operating system and the mixing are the caller's; the
//! device says which buffer to fill and keeps the count.

use vstd::prelude::*;
use crate::text::decimal;
use crate::text::push_decimal;
use crate::engine::error::EngineError;

verus! {

/// Output sample rate.
pub const SAMPLE_RATE: u32 = 48_000;

/// Output channels: left and right.
pub const OUTPUT_CHANNELS: usize = 2;

/// Frames per buffer submitted to the operating system.
pub const BUFFER_FRAMES: usize = 1024;

/// How many buffers are kept queued.
pub const BUFFER_COUNT: usize = 3;

/// `WAVE_FORMAT_PCM`.
pub const WAVE_FORMAT_PCM: u16 = 1;

/// `WHDR_DONE`: the device has finished with a buffer.
pub const WHDR_DONE: u32 = 0x0000_0001;

/// Whether an audio device is present, and if not, why.
#[derive(Clone, Copy, Debug, PartialEq, Eq, Structural)]
pub enum DeviceStatus {
    /// Open and accepting samples.
    Active,
    /// No output device, or the platform backend refused to open one.
    Unavailable,
    /// This platform has no backend.
    Unsupported,
}

impl DeviceStatus {
    /// Whether samples are accepted.
    pub fn is_active(self) -> (r: bool)
        ensures
            r == (self == DeviceStatus::Active),
    {
        match self {
            DeviceStatus::Active => true,
            _ => false,
        }
    }

    /// One-line explanation for the startup log and the console.
    pub fn describe(self) -> (r: &'static str)
        ensures
            r@ == match self {
                DeviceStatus::Active => "audio output open"@,
                DeviceStatus::Unavailable => "no audio output device, running silent"@,
                DeviceStatus::Unsupported => "no audio backend for this platform, running silent"@,
            },
    {
        match self {
            DeviceStatus::Active => "audio output open",
            DeviceStatus::Unavailable => "no audio output device, running silent",
            DeviceStatus::Unsupported => "no audio backend for this platform, running silent",
        }
    }

    /// Short tag for the status line, where there is one cell per character.
    pub fn tag(self) -> (r: &'static str)
        ensures
            r@ == match self {
                DeviceStatus::Active => "ON"@,
                DeviceStatus::Unavailable => "NO-DEV"@,
                DeviceStatus::Unsupported => "NO-BACKEND"@,
            },
    {
        match self {
            DeviceStatus::Active => "ON",
            DeviceStatus::Unavailable => "NO-DEV",
            DeviceStatus::Unsupported => "NO-BACKEND",
        }
    }
}

/// The wave format as the operating system expects it.
#[derive(Clone, Copy, Debug, PartialEq, Eq, Structural)]
pub struct WaveFormatEx {
    pub format_tag: u16,
    pub channels: u16,
    pub samples_per_sec: u32,
    pub avg_bytes_per_sec: u32,
    pub block_align: u16,
    pub bits_per_sample: u16,
    pub extra_size: u16,
}

/// A buffer header, but for the pointers into memory.
#[derive(Clone, Copy, Debug, PartialEq, Eq, Structural)]
pub struct WaveHdr {
    pub buffer_length: u32,
    pub bytes_recorded: u32,
    pub user: usize,
    pub flags: u32,
    pub loops: u32,
    pub reserved: usize,
}

/// The format that the device is opened with: 16-bit stereo, whose rate in
/// bytes and block size agree with the channels.
pub fn output_format() -> (r: WaveFormatEx)
    ensures
        r.format_tag == WAVE_FORMAT_PCM,
        r.channels == OUTPUT_CHANNELS,
        r.samples_per_sec == SAMPLE_RATE,
        r.bits_per_sample == 16,
        r.block_align == OUTPUT_CHANNELS * 2,
        r.avg_bytes_per_sec == SAMPLE_RATE * r.block_align,
        r.extra_size == 0,
{
    let block_align: u16 = (OUTPUT_CHANNELS * 2) as u16;
    WaveFormatEx {
        format_tag: WAVE_FORMAT_PCM,
        channels: OUTPUT_CHANNELS as u16,
        samples_per_sec: SAMPLE_RATE,
        avg_bytes_per_sec: SAMPLE_RATE * block_align as u32,
        block_align,
        bits_per_sample: 16,
        extra_size: 0,
    }
}

/// The error for a device that did not open.
pub fn open_error(code: u32) -> (r: EngineError)
    ensures
        r matches EngineError::InvalidState(s) && s@ == "waveOutOpen failed with code "@ + decimal(
            code as nat,
        ) + " (no output device?)"@,
{
    let mut s = String::from_str("waveOutOpen failed with code ");
    push_decimal(&mut s, code as u64);
    s.append(" (no output device?)");
    EngineError::InvalidState(s)
}

/// The error for a buffer that could not be prepared.
pub fn prepare_error(code: u32) -> (r: EngineError)
    ensures
        r matches EngineError::InvalidState(s) && s@ == "waveOutPrepareHeader failed with code "@
            + decimal(code as nat),
{
    let mut s = String::from_str("waveOutPrepareHeader failed with code ");
    push_decimal(&mut s, code as u64);
    EngineError::InvalidState(s)
}

// --- buffers -----------------------------------------------------------------

/// The device has finished with the buffer of these flags.
pub open spec fn is_done(flags: u32) -> bool {
    flags & WHDR_DONE != 0
}

/// A buffer of the rotation.
#[derive(Clone, Copy, Debug, PartialEq, Eq, Structural)]
pub struct Block {
    pub header: WaveHdr,
    /// Whether the buffer was ever handed to the device. A buffer that was not
    /// is free whatever its flags say.
    pub submitted: bool,
}

impl Block {
    /// The device still holds the buffer.
    pub open spec fn queued(self) -> bool {
        self.submitted && !is_done(self.header.flags)
    }

    /// A buffer that was never handed over.
    pub open spec fn fresh() -> Block {
        Block {
            header: WaveHdr {
                buffer_length: 4096,
                bytes_recorded: 0,
                user: 0,
                flags: 0,
                loops: 0,
                reserved: 0,
            },
            submitted: false,
        }
    }

    /// The buffer with the device's own flags.
    pub open spec fn with_flags(self, flags: u32) -> Block {
        Block { header: WaveHdr { flags, ..self.header }, ..self }
    }
}

/// How many of the buffers are queued.
pub open spec fn queued_count(blocks: Seq<Block>) -> nat
    decreases blocks.len(),
{
    if blocks.len() == 0 {
        0
    } else {
        queued_count(blocks.drop_last()) + (if blocks.last().queued() {
            1nat
        } else {
            0nat
        })
    }
}

/// What a device is.
pub ghost struct Output {
    pub status: DeviceStatus,
    pub frames_submitted: u64,
    pub starved: u64,
    /// The buffers of an open device.
    pub blocks: Option<Seq<Block>>,
    /// The buffer to try next.
    pub next: int,
}

impl Output {
    /// The buffers queued with the device.
    pub open spec fn queued(self) -> nat {
        match self.blocks {
            Some(blocks) => queued_count(blocks),
            None => 0,
        }
    }

    /// The device after the buffer at `next` had its turn and was not free.
    pub open spec fn skipped(self) -> Output {
        Output { next: (self.next + 1) % 3, ..self }
    }

    /// The device after a buffer was written, or was refused.
    pub open spec fn written(self, index: int, accepted: bool) -> Output {
        let block = self.blocks.unwrap()[index];
        Output {
            blocks: Some(
                self.blocks.unwrap().update(
                    index,
                    if accepted {
                        Block {
                            submitted: true,
                            ..block.with_flags(block.header.flags & !WHDR_DONE)
                        }
                    } else {
                        block.with_flags((block.header.flags & !WHDR_DONE) | WHDR_DONE)
                    },
                ),
            ),
            frames_submitted: if accepted {
                (self.frames_submitted + BUFFER_FRAMES) as u64
            } else {
                self.frames_submitted
            },
            ..self
        }
    }

    /// The device after everything queued was discarded.
    pub open spec fn stopped(self) -> Output {
        Output {
            blocks: match self.blocks {
                Some(blocks) => Some(
                    blocks.map_values(
                        |b: Block|
                            Block {
                                submitted: false,
                                ..b.with_flags(b.header.flags | WHDR_DONE)
                            },
                    ),
                ),
                None => None,
            },
            ..self
        }
    }
}

/// An open output device, or a silent stand-in for one.
#[derive(Debug)]
pub struct AudioDevice {
    status: DeviceStatus,
    frames_submitted: u64,
    starved: u64,
    blocks: Option<Vec<Block>>,
    next: usize,
}

impl View for AudioDevice {
    type V = Output;

    closed spec fn view(&self) -> Output {
        Output {
            status: self.status,
            frames_submitted: self.frames_submitted,
            starved: self.starved,
            blocks: match self.blocks {
                Some(blocks) => Some(blocks@),
                None => None,
            },
            next: self.next as int,
        }
    }
}

impl AudioDevice {
    /// An open device has its three buffers, any other has none.
    pub open spec fn wf(&self) -> bool {
        &&& 0 <= self@.next < 3
        &&& self@.status == DeviceStatus::Active <==> self@.blocks is Some
        &&& self@.blocks matches Some(blocks) ==> blocks.len() == 3
    }

    /// The device after an attempt to open it, which came out as `status`.
    pub fn open(status: DeviceStatus) -> (r: Self)
        ensures
            r.wf(),
            r@ == (Output {
                status,
                frames_submitted: 0,
                starved: 0,
                blocks: if status == DeviceStatus::Active {
                    Some(seq![Block::fresh(), Block::fresh(), Block::fresh()])
                } else {
                    None
                },
                next: 0,
            }),
    {
        let header = WaveHdr {
            buffer_length: (BUFFER_FRAMES * OUTPUT_CHANNELS * 2) as u32,
            bytes_recorded: 0,
            user: 0,
            flags: 0,
            loops: 0,
            reserved: 0,
        };
        let fresh = Block { header, submitted: false };
        let blocks: Option<Vec<Block>> = if status.is_active() {
            let list: Vec<Block> = vec![fresh, fresh, fresh];
            assert(list@ =~= seq![Block::fresh(), Block::fresh(), Block::fresh()]);
            Some(list)
        } else {
            None
        };
        AudioDevice { status, frames_submitted: 0, starved: 0, blocks, next: 0 }
    }

    /// Whether the device is open, and if not, why.
    pub fn status(&self) -> (r: DeviceStatus)
        ensures
            r == self@.status,
    {
        self.status
    }

    /// Frames submitted since the device opened.
    pub fn frames_submitted(&self) -> (r: u64)
        ensures
            r == self@.frames_submitted,
    {
        self.frames_submitted
    }

    /// How many times the device ran dry while something was still playing.
    pub fn starved(&self) -> (r: u64)
        ensures
            r == self@.starved,
    {
        self.starved
    }

    /// Buffers currently queued with the device.
    pub fn queued_buffers(&self) -> (r: usize)
        ensures
            r == self@.queued(),
    {
        match &self.blocks {
            None => 0,
            Some(blocks) => {
                let mut count: usize = 0;
                let mut i: usize = 0;
                while i < blocks.len()
                    invariant
                        i <= blocks@.len(),
                        count <= i,
                        count == queued_count(blocks@.take(i as int)),
                    decreases blocks@.len() - i,
                {
                    assert(blocks@.take(i + 1).drop_last() =~= blocks@.take(i as int));
                    if blocks[i].submitted && blocks[i].header.flags & WHDR_DONE == 0 {
                        count += 1;
                    }
                    i += 1;
                }
                assert(blocks@.take(i as int) =~= blocks@);
                count
            },
        }
    }

    /// Take over the flags that the operating system keeps for a buffer.
    pub fn set_flags(&mut self, index: usize, flags: u32)
        requires
            old(self).wf(),
            index < 3,
        ensures
            final(self).wf(),
            final(self)@ == (Output {
                blocks: match old(self)@.blocks {
                    Some(blocks) => Some(
                        blocks.update(index as int, blocks[index as int].with_flags(flags)),
                    ),
                    None => None,
                },
                ..old(self)@
            }),
    {
        match &mut self.blocks {
            Some(blocks) => {
                let mut block: Block = blocks[index];
                block.header.flags = flags;
                blocks.set(index, block);
            },
            None => {},
        }
    }

    /// Start a frame with `voices` sounds playing. A device that has nothing
    /// queued while a voice is active has run dry: the gap has been heard.
    pub fn begin_frame(&mut self, voices: usize)
        requires
            old(self).wf(),
            old(self)@.starved < u64::MAX,
        ensures
            final(self).wf(),
            final(self)@ == (Output {
                starved: if old(self)@.blocks is Some && old(self)@.queued() == 0 && voices > 0 {
                    (old(self)@.starved + 1) as u64
                } else {
                    old(self)@.starved
                },
                ..old(self)@
            }),
    {
        if !self.status.is_active() {
            return;
        }
        let queued: usize = self.queued_buffers();
        if queued == 0 && voices > 0 {
            self.starved = self.starved + 1;
        }
    }

    /// Give the next buffer its turn: its index if it is free to be filled,
    /// `None` if the device still holds it or there is no device.
    pub fn claim(&mut self) -> (r: Option<usize>)
        requires
            old(self).wf(),
        ensures
            final(self).wf(),
            old(self)@.blocks is None ==> r is None && final(self)@ == old(self)@,
            old(self)@.blocks matches Some(blocks) ==> final(self)@ == old(self)@.skipped() && r
                == (if blocks[old(self)@.next].queued() {
                None
            } else {
                Some(old(self)@.next as usize)
            }),
    {
        let index: usize = self.next;
        match &self.blocks {
            None => None,
            Some(blocks) => {
                let block: Block = blocks[index];
                self.next = (index + 1) % 3;
                if block.submitted && block.header.flags & WHDR_DONE == 0 {
                    None
                } else {
                    Some(index)
                }
            },
        }
    }

    /// Record that a claimed buffer was filled and handed over, and whether the
    /// device accepted it. A refused buffer stays free, to be tried again.
    pub fn finish_write(&mut self, index: usize, accepted: bool)
        requires
            old(self).wf(),
            old(self)@.blocks is Some,
            index < 3,
            old(self)@.frames_submitted + BUFFER_FRAMES <= u64::MAX,
        ensures
            final(self).wf(),
            final(self)@ == old(self)@.written(index as int, accepted),
    {
        match &mut self.blocks {
            Some(blocks) => {
                let mut block: Block = blocks[index];
                block.header.flags = block.header.flags & !WHDR_DONE;
                if accepted {
                    block.submitted = true;
                    self.frames_submitted = self.frames_submitted + BUFFER_FRAMES as u64;
                } else {
                    block.header.flags = block.header.flags | WHDR_DONE;
                }
                blocks.set(index, block);
            },
            None => {},
        }
    }

    /// Stop playback, discarding anything queued.
    pub fn stop(&mut self)
        requires
            old(self).wf(),
        ensures
            final(self).wf(),
            final(self)@ == old(self)@.stopped(),
    {
        let ghost before = self@;
        match &mut self.blocks {
            Some(blocks) => {
                let ghost all = blocks@;
                let mut i: usize = 0;
                while i < 3
                    invariant
                        i <= 3,
                        blocks@.len() == 3,
                        all.len() == 3,
                        forall|k: int|
                            0 <= k < 3 ==> #[trigger] blocks@[k] == (if k < i {
                                Block {
                                    submitted: false,
                                    ..all[k].with_flags(all[k].header.flags | WHDR_DONE)
                                }
                            } else {
                                all[k]
                            }),
                    decreases 3 - i,
                {
                    let mut block: Block = blocks[i];
                    block.header.flags = block.header.flags | WHDR_DONE;
                    block.submitted = false;
                    blocks.set(i, block);
                    i += 1;
                }
                assert(blocks@ =~= before.stopped().blocks.unwrap());
            },
            None => {},
        }
    }
}

// --- laws --------------------------------------------------------------------

proof fn lemma_done_bit(flags: u32)
    ensures
        !is_done(flags & !WHDR_DONE),
        is_done(flags | WHDR_DONE),
        is_done((flags & !WHDR_DONE) | WHDR_DONE),
{
    assert((flags & !1u32) & 1u32 == 0) by (bit_vector);
    assert((flags | 1u32) & 1u32 != 0) by (bit_vector);
    assert(((flags & !1u32) | 1u32) & 1u32 != 0) by (bit_vector);
}

/// A buffer that the device accepted is queued and counted; a refused one is
/// free, whether or not it was handed over before; other buffers and the turn
/// are as they were.
pub proof fn law_write_outcomes(device: Output, index: int)
    requires
        device.blocks matches Some(blocks) && blocks.len() == 3,
        0 <= index < 3,
        device.frames_submitted + BUFFER_FRAMES <= u64::MAX,
    ensures
        device.written(index, true).blocks.unwrap()[index].queued(),
        device.written(index, true).frames_submitted == device.frames_submitted + BUFFER_FRAMES,
        !device.written(index, false).blocks.unwrap()[index].queued(),
        device.written(index, false).frames_submitted == device.frames_submitted,
        forall|k: int, accepted: bool|
            0 <= k < 3 && k != index ==> #[trigger] device.written(
                index,
                accepted,
            ).blocks.unwrap()[k] == device.blocks.unwrap()[k],
        forall|accepted: bool|
            (#[trigger] device.written(index, accepted)).next == device.next,
{
    lemma_done_bit(device.blocks.unwrap()[index].header.flags);
}

/// Three turns give every buffer one, and come back to the first.
pub proof fn law_rotation(device: Output)
    requires
        0 <= device.next < 3,
    ensures
        device.skipped().next != device.next,
        device.skipped().skipped().next != device.next,
        device.skipped().skipped().next != device.skipped().next,
        device.skipped().skipped().skipped() == device,
{
}

proof fn lemma_none_queued(blocks: Seq<Block>)
    requires
        forall|i: int| 0 <= i < blocks.len() ==> !(#[trigger] blocks[i]).queued(),
    ensures
        queued_count(blocks) == 0,
    decreases blocks.len(),
{
    if blocks.len() > 0 {
        let rest = blocks.drop_last();
        assert forall|i: int| 0 <= i < rest.len() implies !(#[trigger] rest[i]).queued() by {
            assert(rest[i] == blocks[i]);
        }
        lemma_none_queued(rest);
        assert(!blocks[blocks.len() - 1].queued());
    }
}

/// After a stop nothing is queued, and every buffer is free.
pub proof fn law_stop_empties_the_queue(device: Output)
    ensures
        device.stopped().queued() == 0,
        device.stopped().blocks matches Some(blocks) ==> forall|i: int|
            0 <= i < blocks.len() ==> !(#[trigger] blocks[i]).queued(),
{
    if device.blocks is Some {
        lemma_none_queued(device.stopped().blocks.unwrap());
    }
}

} // verus!
