//! What the bytes of a WAV file stand for, said of them directly.

use vstd::prelude::*;
use crate::audio::wav::{
    audio_of, body_len, data_name, fmt_name, format_of, le32, le64, sample_at, samples_of, tag_at,
    wav_chunks, wav_decoded, width_supported, AudioBuffer, Format, Sample, WavChunks,
};

verus! {

// --- samples -----------------------------------------------------------------

/// The number that `count` bytes spell, the lowest first.
pub open spec fn spelled(data: Seq<u8>, at: int, count: nat) -> nat
    decreases count,
{
    if count == 0 {
        0
    } else {
        data[at] as nat + 256 * spelled(data, at + 1, (count - 1) as nat)
    }
}

/// Integer samples are the numbers their bytes spell: of eight bits unsigned and
/// centred on 128, of more bits in two's complement, so that the value differs
/// from the number by whole turns and lies in the half-open range around zero.
/// Full scale is half a turn.
pub proof fn law_integer_samples(bits: u16, data: Seq<u8>, at: int)
    requires
        width_supported(1, bits),
        0 <= at,
        at + bits / 8 <= data.len(),
    ensures
        sample_at(1, bits, data, at) matches Sample::Fraction { value, scale } && (if bits == 8 {
            value == data[at] - 128 && scale == 128
        } else if bits == 16 {
            scale == 0x8000 && -0x8000 <= value < 0x8000 && (value - spelled(data, at, 2)) % 0x1_0000
                == 0
        } else if bits == 24 {
            scale == 0x80_0000 && -0x80_0000 <= value < 0x80_0000 && (value - spelled(data, at, 3))
                % 0x100_0000 == 0
        } else {
            scale == 0x8000_0000 && -0x8000_0000 <= value < 0x8000_0000 && (value - spelled(
                data,
                at,
                4,
            )) % 0x1_0000_0000 == 0
        }),
{
    reveal_with_fuel(spelled, 5);
}

/// Zero bytes are silence, but for eight bits, where 128 is.
pub proof fn law_zero_is_silence(tag: u16, bits: u16, data: Seq<u8>, at: int)
    requires
        width_supported(tag, bits),
        0 <= at,
        at + bits / 8 <= data.len(),
        forall|i: int|
            at <= i < at + bits / 8 ==> #[trigger] data[i] == (if bits == 8 {
                128
            } else {
                0int
            }),
    ensures
        match sample_at(tag, bits, data, at) {
            Sample::Fraction { value, scale } => value == 0 && scale > 0,
            Sample::Single(pattern) => pattern == 0,
            Sample::Double(pattern) => pattern == 0,
        },
{
    assert(data[at] == (if bits == 8 {
        128
    } else {
        0int
    }));
    if bits >= 16 {
        assert(data[at + 1] == 0);
    }
    if bits >= 24 {
        assert(data[at + 2] == 0);
    }
    if bits >= 32 {
        assert(data[at + 3] == 0);
    }
    if bits == 64 {
        assert(data[at + 4] == 0 && data[at + 5] == 0 && data[at + 6] == 0 && data[at + 7] == 0);
    }
}

/// A float sample within range is kept bit for bit; one beyond becomes one of the
/// same sign, and one that is no finite number silence.
pub proof fn law_float_samples(data: Seq<u8>, at: int)
    requires
        0 <= at,
    ensures
        at + 4 <= data.len() ==> ({
            let pattern = spelled(data, at, 4);
            let magnitude = pattern % 0x8000_0000;
            &&& magnitude <= 0x3F80_0000 ==> sample_at(3, 32, data, at) == Sample::Single(
                pattern as u32,
            )
            &&& 0x3F80_0000 < magnitude < 0x7F80_0000 ==> sample_at(3, 32, data, at)
                == Sample::Single((pattern - magnitude + 0x3F80_0000) as u32)
            &&& magnitude >= 0x7F80_0000 ==> sample_at(3, 32, data, at) == Sample::Single(0)
        }),
        at + 8 <= data.len() ==> ({
            let pattern = spelled(data, at, 8);
            let magnitude = pattern % 0x8000_0000_0000_0000;
            &&& magnitude <= 0x3FF0_0000_0000_0000 ==> sample_at(3, 64, data, at) == Sample::Double(
                pattern as u64,
            )
            &&& 0x3FF0_0000_0000_0000 < magnitude < 0x47EF_FFFF_F000_0000 ==> sample_at(
                3,
                64,
                data,
                at,
            ) == Sample::Double((pattern - magnitude + 0x3FF0_0000_0000_0000) as u64)
            &&& magnitude >= 0x47EF_FFFF_F000_0000 ==> sample_at(3, 64, data, at) == Sample::Single(
                0,
            )
        }),
{
    reveal_with_fuel(spelled, 9);
    let single = le32(data, at);
    let double = le64(data, at);
    assert(spelled(data, at, 4) == single);
    assert(spelled(data, at, 8) == double);
    assert(single < 0x1_0000_0000);
    assert(double < 0x1_0000_0000_0000_0000);
}

/// The samples of a data chunk stand one behind the other, each as wide as the
/// format says, as many as fit whole.
pub proof fn law_samples_follow_each_other(format: Format, data: Seq<u8>, i: int)
    requires
        width_supported(format.tag, format.bits_per_sample),
    ensures
        ({
            let all = samples_of(format, data);
            let width: int = if format.bits_per_sample == 8 {
                1
            } else if format.bits_per_sample == 16 {
                2
            } else if format.bits_per_sample == 24 {
                3
            } else if format.bits_per_sample == 32 {
                4
            } else {
                8
            };
            &&& all.len() * width <= data.len() < (all.len() + 1) * width
            &&& 0 <= i < all.len() ==> all[i] == sample_at(
                format.tag,
                format.bits_per_sample,
                data,
                i * width,
            )
        }),
{
    let (n, w) = (data.len() as int, format.bits_per_sample as int / 8);
    let all = samples_of(format, data);
    assert(w == 1 || w == 2 || w == 3 || w == 4 || w == 8);
    vstd::arithmetic::div_mod::lemma_fundamental_div_mod(n, w);
    assert(w * (n / w) == (n / w) * w && (n / w + 1) * w == (n / w) * w + w) by (nonlinear_arith);
    assert(n / w >= 0) by (nonlinear_arith)
        requires
            n >= 0,
            w > 0,
    ;
    assert(all.len() == n / w);
}

/// A frame is one sample for each channel, the channels next to each other.
pub proof fn law_frames(buffer: AudioBuffer)
    requires
        buffer.channels > 0,
    ensures
        buffer.frames() * buffer.channels <= buffer.samples@.len() < (buffer.frames() + 1)
            * buffer.channels,
{
    let (n, c) = (buffer.samples@.len() as int, buffer.channels as int);
    vstd::arithmetic::div_mod::lemma_fundamental_div_mod(n, c);
    assert(c * (n / c) == (n / c) * c && (n / c + 1) * c == (n / c) * c + c) by (nonlinear_arith);
}

// --- files -------------------------------------------------------------------

/// The fields of a format chunk: the tag, or what stands for it in an extension,
/// the channels, the rate and the width.
pub proof fn law_formats(body: Seq<u8>)
    ensures
        format_of(body) matches Ok(f) ==> body.len() >= 16 && f.channels == spelled(body, 2, 2)
            && f.sample_rate == spelled(body, 4, 4) && f.bits_per_sample == spelled(body, 14, 2)
            && f.tag == (if spelled(body, 0, 2) == 0xFFFE {
            spelled(body, 24, 2)
        } else {
            spelled(body, 0, 2)
        }) && (f.tag == 1 || f.tag == 3),
        body.len() >= 26 || (body.len() >= 16 && spelled(body, 0, 2) != 0xFFFE) ==> (format_of(
            body,
        ) is Ok <==> ({
            let tag = if spelled(body, 0, 2) == 0xFFFE {
                spelled(body, 24, 2)
            } else {
                spelled(body, 0, 2)
            };
            let bits = spelled(body, 14, 2);
            ||| tag == 1 && (bits == 8 || bits == 16 || bits == 24 || bits == 32)
            ||| tag == 3 && (bits == 32 || bits == 64)
        })),
{
    reveal_with_fuel(spelled, 5);
}

/// A format chunk is read where it stands, and a data chunk gives the bytes behind
/// its eight header bytes, as many as its size says or the file holds.
pub proof fn law_chunks_say_what_they_hold(s: Seq<u8>, pos: int, acc: WavChunks)
    requires
        0 <= pos,
        pos + 8 <= s.len(),
    ensures
        body_len(s, pos) == (if spelled(s, pos + 4, 4) <= s.len() - pos - 8 {
            spelled(s, pos + 4, 4) as int
        } else {
            s.len() - pos - 8
        }),
        s[pos] == 100 && s[pos + 1] == 97 && s[pos + 2] == 116 && s[pos + 3] == 97 ==> tag_at(
            s,
            pos,
            data_name(),
        ),
        s[pos] == 102 && s[pos + 1] == 109 && s[pos + 2] == 116 && s[pos + 3] == 32 ==> tag_at(
            s,
            pos,
            fmt_name(),
        ),
        tag_at(s, pos, data_name()) && body_len(s, pos) % 2 == 0 ==> wav_chunks(s, pos, acc)
            == wav_chunks(
            s,
            pos + 8 + body_len(s, pos),
            WavChunks { data: Some(s.subrange(pos + 8, pos + 8 + body_len(s, pos))), ..acc },
        ),
        tag_at(s, pos, fmt_name()) && body_len(s, pos) % 2 == 0 && format_of(
            s.subrange(pos + 8, pos + 8 + body_len(s, pos)),
        ) is Ok ==> wav_chunks(s, pos, acc) == wav_chunks(
            s,
            pos + 8 + body_len(s, pos),
            WavChunks {
                format: Some(
                    format_of(s.subrange(pos + 8, pos + 8 + body_len(s, pos)))->Ok_0,
                ),
                ..acc
            },
        ),
{
    reveal_with_fuel(spelled, 5);
    let four = s.subrange(pos, pos + 4);
    assert(four[0] == s[pos] && four[1] == s[pos + 1] && four[2] == s[pos + 2] && four[3] == s[pos
        + 3]);
    if s[pos] == 100 && s[pos + 1] == 97 && s[pos + 2] == 116 && s[pos + 3] == 97 {
        assert(four =~= data_name());
    }
    if s[pos] == 102 && s[pos + 1] == 109 && s[pos + 2] == 116 && s[pos + 3] == 32 {
        assert(four =~= fmt_name());
    }
    if tag_at(s, pos, data_name()) {
        assert(data_name()[0] != fmt_name()[0]);
    }
}

/// A file decodes if it has a format of one channel or more and a rate, and data;
/// what it gives are the format's channels and rate and the data's samples.
pub proof fn law_audio(chunks: WavChunks)
    ensures
        match (chunks.format, chunks.data) {
            (Some(f), Some(bytes)) => if f.channels >= 1 && f.sample_rate >= 1 {
                audio_of(chunks) matches Ok(d) && d.channels == f.channels && d.sample_rate
                    == f.sample_rate && d.samples == samples_of(f, bytes)
            } else {
                audio_of(chunks) is Err
            },
            _ => audio_of(chunks) is Err,
        },
{
}

/// The chunks of a file start behind twelve bytes: four that name the container,
/// four that are not looked at and four that name the kind.
pub proof fn law_containers(s: Seq<u8>)
    requires
        s.len() >= 12,
    ensures
        wav_decoded(s) is Ok ==> s[0] == 82 && s[1] == 73 && s[2] == 70 && s[3] == 70 && s[8] == 87
            && s[9] == 65 && s[10] == 86 && s[11] == 69,
        s[0] == 82 && s[1] == 73 && s[2] == 70 && s[3] == 70 && s[8] == 87 && s[9] == 65 && s[10]
            == 86 && s[11] == 69 ==> wav_decoded(s) == (match wav_chunks(
            s,
            12,
            WavChunks { format: None, data: None },
        ) {
            Err(fault) => Err(fault),
            Ok(chunks) => audio_of(chunks),
        }),
{
    let (a, b) = (s.subrange(0, 4), s.subrange(8, 12));
    let (riff, wave) = (seq![0x52u8, 0x49u8, 0x46u8, 0x46u8], seq![0x57u8, 0x41u8, 0x56u8, 0x45u8]);
    assert(a[0] == s[0] && a[1] == s[1] && a[2] == s[2] && a[3] == s[3]);
    assert(b[0] == s[8] && b[1] == s[9] && b[2] == s[10] && b[3] == s[11]);
    assert(a == riff ==> a[0] == riff[0] && a[1] == riff[1] && a[2] == riff[2] && a[3] == riff[3]);
    assert(b == wave ==> b[0] == wave[0] && b[1] == wave[1] && b[2] == wave[2] && b[3] == wave[3]);
    if s[0] == 82 && s[1] == 73 && s[2] == 70 && s[3] == 70 {
        assert(a =~= riff);
    }
    if s[8] == 87 && s[9] == 65 && s[10] == 86 && s[11] == 69 {
        assert(b =~= wave);
    }
}

} // verus!
