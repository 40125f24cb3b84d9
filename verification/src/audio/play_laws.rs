//! What playing, queueing and the noise source do, said in numbers.

use vstd::prelude::*;
use crate::audio::device::{is_done, queued_count, Block, Output};
use crate::audio::mixer::{admits, is_candidate, is_quietest, Voice};
use crate::audio::synth::{noise_state, white_noise};
use crate::audio::wav::Sample;
use crate::engine::single::below;

verus! {

/// A voice keeps its cursor within the sound; past the end a looping one goes on at the
/// wrapped cursor, and every other one is finished. Nothing else about it changes.
pub proof fn law_advancing(
    voice: Voice,
    cursor: u64,
    frame_count: usize,
    past_end: bool,
    wrapped: u64,
)
    ensures
        ({
            let r = voice.advanced(cursor, frame_count, past_end, wrapped);
            &&& r == Voice { cursor: r.cursor, finished: r.finished, ..voice }
            &&& r.cursor == (if frame_count > 0 && past_end && voice.looping {
                wrapped
            } else {
                cursor
            })
            &&& r.finished == (voice.finished || frame_count == 0 || (past_end && !voice.looping))
        }),
{
}

/// Up to 32 voices play at once, a new one behind those that already do.
pub proof fn law_free_voices(
    voices: Seq<Voice>,
    voice: Voice,
    incoming: u32,
    gains: Seq<u32>,
    after: Seq<Voice>,
    admitted: bool,
)
    requires
        voices.len() < 32,
        admits(voices, voice, incoming, gains, after, admitted),
    ensures
        admitted,
        after == voices.push(voice),
{
}

/// With 32 voices playing, a new one takes the place of the first of the quietest, and
/// only if it is louder.
pub proof fn law_crowded_voices(
    voices: Seq<Voice>,
    voice: Voice,
    incoming: u32,
    gains: Seq<u32>,
    after: Seq<Voice>,
    admitted: bool,
    quiet: int,
)
    requires
        voices.len() >= 32,
        gains.len() == voices.len(),
        admits(voices, voice, incoming, gains, after, admitted),
        0 <= quiet < gains.len(),
        gains[quiet] < 0x7f80_0000,
        forall|i: int| 0 <= i < gains.len() ==> !below(#[trigger] gains[i], gains[quiet]),
        forall|i: int| 0 <= i < quiet ==> below(gains[quiet], #[trigger] gains[i]),
    ensures
        admitted == below(gains[quiet], incoming),
        after == (if admitted {
            voices.update(quiet, voice)
        } else {
            voices
        }),
{
    let index = choose|index: int| #[trigger]
        is_quietest(gains, index) && admitted == (is_candidate(gains[index])
            && below(gains[index], incoming)) && after == (if admitted {
            voices.update(index, voice)
        } else {
            voices
        });
    assert(is_quietest(gains, index));
    assert(!below(gains[quiet], gains[index]));
    assert(!below(gains[index], gains[quiet]));
    if index < quiet {
        assert(below(gains[quiet], gains[index]));
    } else if quiet < index {
        assert(!is_candidate(gains[quiet]) || below(
            gains[index],
            gains[quiet],
        ));
    }
}

/// A header is done when the lowest of its flags is set.
pub proof fn law_done_flag(flags: u32)
    ensures
        is_done(flags) <==> flags % 2 == 1,
{
    assert((flags & 1 != 0) <==> flags % 2 == 1) by (bit_vector);
}

/// A buffer is on its way while it was handed over and is not done.
pub proof fn law_queued_blocks(block: Block)
    ensures
        block.queued() <==> block.submitted && block.header.flags % 2 == 0,
        !Block::fresh().queued(),
        Block::fresh().header.buffer_length == 4096,
        Block::fresh().header.flags == 0,
{
    law_done_flag(block.header.flags);
}

/// An accepted buffer is on its way, and its 1024 frames count; a refused one is done,
/// and no frames count. The other buffers, and the buffer that comes next, stay.
pub proof fn law_written_blocks(output: Output, index: int, accepted: bool, other: int)
    requires
        output.blocks matches Some(blocks) && 0 <= index < blocks.len() && 0 <= other
            < blocks.len(),
        output.frames_submitted + 1024 <= u64::MAX,
    ensures
        ({
            let before = output.blocks.unwrap();
            let r = output.written(index, accepted);
            let after = r.blocks.unwrap();
            &&& after.len() == before.len()
            &&& other != index ==> after[other] == before[other]
            &&& accepted ==> after[index].queued()
            &&& !accepted ==> !after[index].queued() && after[index].submitted
                == before[index].submitted && is_done(after[index].header.flags)
            &&& after[index].header.flags / 2 == before[index].header.flags / 2
            &&& after[index].header.buffer_length == before[index].header.buffer_length
            &&& r.frames_submitted == output.frames_submitted + (if accepted {
                1024int
            } else {
                0
            })
            &&& r.next == output.next
            &&& r.starved == output.starved
            &&& r.status == output.status
        }),
{
    let flags = output.blocks.unwrap()[index].header.flags;
    assert((flags & !1u32) % 2 == 0 && (flags & !1u32) / 2 == flags / 2) by (bit_vector);
    assert(((flags & !1u32) | 1) % 2 == 1 && ((flags & !1u32) | 1) / 2 == flags / 2)
        by (bit_vector);
    law_done_flag(flags & !1u32);
    law_done_flag((flags & !1u32) | 1);
}

/// Of the buffers, those on their way are counted one by one.
pub proof fn law_queued_blocks_are_counted(blocks: Seq<Block>, block: Block)
    ensures
        queued_count(Seq::<Block>::empty()) == 0,
        queued_count(blocks.push(block)) == queued_count(blocks) + (if block.submitted
            && block.header.flags % 2 == 0 {
            1int
        } else {
            0
        }),
{
    assert(blocks.push(block).drop_last() =~= blocks);
    law_queued_blocks(block);
}

/// The buffers take turns.
pub proof fn law_buffers_take_turns(output: Output)
    requires
        0 <= output.next < 3,
    ensures
        output.next < 2 ==> output.skipped().next == output.next + 1,
        output.next == 2 ==> output.skipped().next == 0,
        output.skipped() == (Output { next: output.skipped().next, ..output }),
{
}

/// The noise is a linear congruence over 32 bits.
pub proof fn law_noise_sequence(n: nat)
    ensures
        noise_state(0) == 0x1234_5678,
        noise_state(n + 1) as int == (noise_state(n) * 1_664_525 + 1_013_904_223)
            % 0x1_0000_0000,
{
    let before = noise_state(n) as int;
    let product = before * 1_664_525;
    assert(noise_state(n + 1) == noise_state(n).wrapping_mul(1_664_525).wrapping_add(
        1_013_904_223,
    ));
    vstd::arithmetic::div_mod::lemma_add_mod_noop(product, 1_013_904_223, 0x1_0000_0000);
}

/// A noise sample is what the upper 24 bits of the state say, as a signed fraction.
pub proof fn law_noise_samples(high: int, low: int, state: u32)
    requires
        0 <= high < 0x100_0000,
        0 <= low < 256,
        state == 256 * high + low,
    ensures
        white_noise(state) == (Sample::Fraction {
            value: (high - 0x80_0000) as i64,
            scale: 0x80_0000,
        }),
{
    assert(state / 256 == high);
}

/// A stopped device has every buffer back, done and not on its way, and keeps all else.
pub proof fn law_stopped_blocks(output: Output, i: int)
    requires
        output.blocks matches Some(blocks) && 0 <= i < blocks.len(),
    ensures
        ({
            let before = output.blocks.unwrap();
            let after = output.stopped().blocks.unwrap();
            &&& after.len() == before.len()
            &&& !after[i].submitted
            &&& after[i].header.flags % 2 == 1
            &&& after[i].header.flags / 2 == before[i].header.flags / 2
            &&& after[i].header.buffer_length == before[i].header.buffer_length
            &&& output.stopped() == (Output { blocks: output.stopped().blocks, ..output })
        }),
{
    let flags = output.blocks.unwrap()[i].header.flags;
    assert((flags | 1) % 2 == 1 && (flags | 1) / 2 == flags / 2) by (bit_vector);
}

} // verus!
