//! WAV (RIFF) decoding.
//!
//! Integer PCM of 8, 16, 24 and 32 bits and IEEE floats of 32 and 64 bits are
//! decoded, in plain and extensible containers. Chunks are walked rather than
//! assumed to stand at fixed offsets. Samples are normalized to the range from
//! minus one to one, so that a mixer has one range to handle whatever the file
//! held. Within it they keep their exact value: integer samples as a fraction of
//! full scale, float samples as their bit pattern.

use vstd::prelude::*;
use crate::engine::error::EngineError;
use crate::text::decimal;
use crate::text::push_decimal;

verus! {

/// One decoded sample.
#[derive(Clone, Copy, Debug, PartialEq, Eq, Structural)]
pub enum Sample {
    /// `value / scale`, with `scale` the magnitude of the most negative value.
    Fraction { value: i64, scale: i64 },
    /// The bit pattern of a single-precision sample.
    Single(u32),
    /// The bit pattern of a double-precision sample.
    Double(u64),
}

/// Silence.
pub open spec fn silence() -> Sample {
    Sample::Single(0)
}

/// The bit pattern of one in single precision.
pub const SINGLE_ONE: u32 = 0x3F80_0000;

/// The bit pattern of one in double precision.
pub const DOUBLE_ONE: u64 = 0x3FF0_0000_0000_0000;

impl Sample {
    /// The sample lies between minus one and one. A bit pattern without its sign
    /// orders as the magnitude does.
    pub open spec fn in_range(self) -> bool {
        match self {
            Sample::Fraction { value, scale } => 0 < scale && -scale <= value <= scale,
            Sample::Single(bits) => bits as int % 0x8000_0000 <= SINGLE_ONE,
            Sample::Double(bits) => bits as int % 0x8000_0000_0000_0000 <= DOUBLE_ONE,
        }
    }
}

/// Decoded audio: interleaved samples.
#[derive(Clone, Debug, PartialEq)]
pub struct AudioBuffer {
    /// Frame 0 channel 0, frame 0 channel 1, frame 1 channel 0 and so on.
    pub samples: Vec<Sample>,
    /// Channels per frame.
    pub channels: u16,
    /// Frames per second.
    pub sample_rate: u32,
}

impl AudioBuffer {
    /// An empty buffer with the given format; a count or rate of 0 becomes 1.
    pub fn empty(channels: u16, sample_rate: u32) -> (r: Self)
        ensures
            r.samples@.len() == 0,
            r.channels == (if channels == 0 {
                1
            } else {
                channels as int
            }),
            r.sample_rate == (if sample_rate == 0 {
                1
            } else {
                sample_rate as int
            }),
    {
        AudioBuffer {
            samples: Vec::new(),
            channels: if channels == 0 {
                1
            } else {
                channels
            },
            sample_rate: if sample_rate == 0 {
                1
            } else {
                sample_rate
            },
        }
    }

    /// The number of whole frames.
    pub open spec fn frames(&self) -> int {
        if self.channels == 0 {
            0
        } else {
            self.samples@.len() as int / self.channels as int
        }
    }

    /// Frames (sample groups), not individual samples.
    pub fn frame_count(&self) -> (r: usize)
        ensures
            r == self.frames(),
    {
        if self.channels == 0 {
            return 0;
        }
        self.samples.len() / self.channels as usize
    }

    /// One channel's sample at `frame`, or silence outside the buffer.
    pub fn sample(&self, frame: usize, channel: u16) -> (r: Sample)
        requires
            frame * self.channels + channel <= usize::MAX,
        ensures
            r == (if channel < self.channels && frame * self.channels + channel
                < self.samples@.len() {
                self.samples@[frame * self.channels + channel]
            } else {
                silence()
            }),
    {
        if channel >= self.channels {
            return Sample::Single(0);
        }
        assert(0 <= frame * self.channels) by (nonlinear_arith);
        let index: usize = frame * self.channels as usize + channel as usize;
        if index < self.samples.len() {
            self.samples[index]
        } else {
            Sample::Single(0)
        }
    }
}

// --- faults ------------------------------------------------------------------

/// Why a WAV file is rejected.
#[derive(Clone, Copy, Debug)]
pub enum WavFault {
    Truncated { wanted: usize, offset: usize, remaining: usize },
    NotRiff,
    NotWave,
    NoFormat,
    NoData,
    NoChannels,
    NoRate,
    UnsupportedTag(u16),
    UnsupportedWidth { bits: u16, tag: u16 },
}

/// An upper-case hexadecimal digit.
pub open spec fn upper_hex(d: int) -> char {
    if d < 10 {
        (48 + d) as char
    } else {
        (55 + d) as char
    }
}

/// Four upper-case hexadecimal digits.
pub open spec fn hex4(n: u16) -> Seq<char> {
    seq![
        upper_hex(n as int / 4096),
        upper_hex(n as int / 256 % 16),
        upper_hex(n as int / 16 % 16),
        upper_hex(n as int % 16),
    ]
}

impl WavFault {
    /// The description of the fault.
    pub open spec fn text(self) -> Seq<char> {
        match self {
            WavFault::Truncated { wanted, offset, remaining } => "unexpected end of file: wanted "@
                + decimal(wanted as nat) + " bytes at offset "@ + decimal(offset as nat) + ", "@
                + decimal(remaining as nat) + " remain"@,
            WavFault::NotRiff => "not a RIFF file (missing \"RIFF\" magic)"@,
            WavFault::NotWave => "RIFF file is not a WAVE (missing \"WAVE\" form type)"@,
            WavFault::NoFormat => "WAVE file has no \"fmt \" chunk"@,
            WavFault::NoData => "WAVE file has no \"data\" chunk"@,
            WavFault::NoChannels => "WAVE format declares 0 channels"@,
            WavFault::NoRate => "WAVE format declares a sample rate of 0"@,
            WavFault::UnsupportedTag(tag) => "unsupported WAVE format tag 0x"@ + hex4(tag)
                + " (only PCM 0x0001 and IEEE float 0x0003 are decoded)"@,
            WavFault::UnsupportedWidth { bits, tag } => "unsupported sample width: "@ + decimal(
                bits as nat,
            ) + " bits for format tag 0x"@ + hex4(tag),
        }
    }

    /// Describe the fault.
    pub fn message(&self) -> (r: String)
        ensures
            r@ == self.text(),
    {
        match *self {
            WavFault::Truncated { wanted, offset, remaining } => {
                let mut s = String::from_str("unexpected end of file: wanted ");
                push_decimal(&mut s, wanted as u64);
                s.append(" bytes at offset ");
                push_decimal(&mut s, offset as u64);
                s.append(", ");
                push_decimal(&mut s, remaining as u64);
                s.append(" remain");
                s
            },
            WavFault::NotRiff => String::from_str("not a RIFF file (missing \"RIFF\" magic)"),
            WavFault::NotWave => String::from_str(
                "RIFF file is not a WAVE (missing \"WAVE\" form type)",
            ),
            WavFault::NoFormat => String::from_str("WAVE file has no \"fmt \" chunk"),
            WavFault::NoData => String::from_str("WAVE file has no \"data\" chunk"),
            WavFault::NoChannels => String::from_str("WAVE format declares 0 channels"),
            WavFault::NoRate => String::from_str("WAVE format declares a sample rate of 0"),
            WavFault::UnsupportedTag(tag) => {
                let mut s = String::from_str("unsupported WAVE format tag 0x");
                push_hex4(&mut s, tag);
                s.append(" (only PCM 0x0001 and IEEE float 0x0003 are decoded)");
                s
            },
            WavFault::UnsupportedWidth { bits, tag } => {
                let mut s = String::from_str("unsupported sample width: ");
                push_decimal(&mut s, bits as u64);
                s.append(" bits for format tag 0x");
                push_hex4(&mut s, tag);
                s
            },
        }
    }
}

fn upper_hex_digit(d: u16) -> (r: char)
    requires
        d < 16,
    ensures
        r == upper_hex(d as int),
{
    let n: u8 = d as u8;
    if n < 10 {
        (48 + n) as char
    } else {
        (55 + n) as char
    }
}

fn push_hex4(s: &mut String, n: u16)
    ensures
        final(s)@ == old(s)@ + hex4(n),
{
    s.push(upper_hex_digit(n / 4096));
    s.push(upper_hex_digit(n / 256 % 16));
    s.push(upper_hex_digit(n / 16 % 16));
    s.push(upper_hex_digit(n % 16));
    assert(s@ =~= old(s)@ + hex4(n));
}

// --- fields ------------------------------------------------------------------

/// Integer samples.
pub const FORMAT_PCM: u16 = 0x0001;

/// Floating-point samples.
pub const FORMAT_FLOAT: u16 = 0x0003;

/// The real format tag lives in the extension block.
pub const FORMAT_EXTENSIBLE: u16 = 0xFFFE;

/// The little-endian 16-bit integer at `at`.
pub open spec fn le16(s: Seq<u8>, at: int) -> nat {
    s[at] as nat + 256 * (s[at + 1] as nat)
}

/// The little-endian 32-bit integer at `at`.
pub open spec fn le32(s: Seq<u8>, at: int) -> nat {
    le16(s, at) + 0x1_0000 * le16(s, at + 2)
}

/// The little-endian 64-bit integer at `at`.
pub open spec fn le64(s: Seq<u8>, at: int) -> nat {
    le32(s, at) + 0x1_0000_0000 * le32(s, at + 4)
}

fn read_le16(s: &[u8], at: usize) -> (r: u16)
    requires
        at + 2 <= s@.len(),
    ensures
        r == le16(s@, at as int),
{
    assert(at + 2 <= s.len());
    s[at] as u16 + 256 * s[at + 1] as u16
}

fn read_le32(s: &[u8], at: usize) -> (r: u32)
    requires
        at + 4 <= s@.len(),
    ensures
        r == le32(s@, at as int),
{
    assert(at + 4 <= s.len());
    read_le16(s, at) as u32 + 0x1_0000 * read_le16(s, at + 2) as u32
}

fn read_le64(s: &[u8], at: usize) -> (r: u64)
    requires
        at + 8 <= s@.len(),
    ensures
        r == le64(s@, at as int),
{
    assert(at + 8 <= s.len());
    read_le32(s, at) as u64 + 0x1_0000_0000 * read_le32(s, at + 4) as u64
}

/// The fault of wanting `wanted` bytes at `offset`, if there are too few.
pub open spec fn short_at(s: Seq<u8>, offset: int, wanted: int) -> Option<WavFault> {
    if s.len() - offset < wanted {
        Some(
            WavFault::Truncated {
                wanted: wanted as usize,
                offset: offset as usize,
                remaining: (s.len() - offset) as usize,
            },
        )
    } else {
        None
    }
}

/// Check that `wanted` bytes follow `offset`.
fn check_bytes(s: &[u8], offset: usize, wanted: usize) -> (r: Option<WavFault>)
    requires
        offset <= s@.len(),
    ensures
        r == short_at(s@, offset as int, wanted as int),
{
    if s.len() - offset < wanted {
        Some(WavFault::Truncated { wanted, offset, remaining: s.len() - offset })
    } else {
        None
    }
}

/// What the format chunk described.
#[derive(Clone, Copy, Debug)]
pub struct Format {
    /// `FORMAT_PCM` or `FORMAT_FLOAT`.
    pub tag: u16,
    pub channels: u16,
    pub sample_rate: u32,
    pub bits_per_sample: u16,
}

/// The sample widths each format tag comes in.
pub open spec fn width_supported(tag: u16, bits: u16) -> bool {
    ||| tag == FORMAT_PCM && (bits == 8 || bits == 16 || bits == 24 || bits == 32)
    ||| tag == FORMAT_FLOAT && (bits == 32 || bits == 64)
}

/// The first field of the format chunk from field `i` on that is cut off.
/// Fields stand at 0, 2, 4, 8, 12 and 14; an extensible format has four more at
/// 16, 18, 20 and 24.
pub open spec fn format_short(body: Seq<u8>, extensible: bool) -> Option<WavFault> {
    if short_at(body, 0, 2) is Some {
        short_at(body, 0, 2)
    } else if short_at(body, 2, 2) is Some {
        short_at(body, 2, 2)
    } else if short_at(body, 4, 4) is Some {
        short_at(body, 4, 4)
    } else if short_at(body, 8, 4) is Some {
        short_at(body, 8, 4)
    } else if short_at(body, 12, 2) is Some {
        short_at(body, 12, 2)
    } else if short_at(body, 14, 2) is Some {
        short_at(body, 14, 2)
    } else if !extensible {
        None
    } else if short_at(body, 16, 2) is Some {
        short_at(body, 16, 2)
    } else if short_at(body, 18, 2) is Some {
        short_at(body, 18, 2)
    } else if short_at(body, 20, 4) is Some {
        short_at(body, 20, 4)
    } else {
        short_at(body, 24, 2)
    }
}

/// The format a format chunk describes, or what is wrong with it. An extensible
/// format's real tag is the first field of its sub-format.
pub open spec fn format_of(body: Seq<u8>) -> Result<Format, WavFault> {
    let declared = le16(body, 0);
    let extensible = declared == FORMAT_EXTENSIBLE;
    let tag = if extensible {
        le16(body, 24) as u16
    } else {
        declared as u16
    };
    let bits = le16(body, 14) as u16;
    match format_short(body, extensible) {
        Some(fault) => Err(fault),
        None => if tag != FORMAT_PCM && tag != FORMAT_FLOAT {
            Err(WavFault::UnsupportedTag(tag))
        } else if !width_supported(tag, bits) {
            Err(WavFault::UnsupportedWidth { bits, tag })
        } else {
            Ok(
                Format {
                    tag,
                    channels: le16(body, 2) as u16,
                    sample_rate: le32(body, 4) as u32,
                    bits_per_sample: bits,
                },
            )
        },
    }
}

/// Check every field of the format chunk in order.
fn check_format(body: &[u8], extensible: bool) -> (r: Option<WavFault>)
    ensures
        r == format_short(body@, extensible),
{
    let offsets: [usize; 10] = [0, 2, 4, 8, 12, 14, 16, 18, 20, 24];
    let sizes: [usize; 10] = [2, 2, 4, 4, 2, 2, 2, 2, 4, 2];
    let count: usize = if extensible {
        10
    } else {
        6
    };
    let mut i: usize = 0;
    while i < count
        invariant
            i <= count,
            count == (if extensible {
                10int
            } else {
                6int
            }),
            offsets == [0usize, 2, 4, 8, 12, 14, 16, 18, 20, 24],
            sizes == [2usize, 2, 4, 4, 2, 2, 2, 2, 4, 2],
            i > 0 ==> body@.len() >= offsets[i - 1] + sizes[i - 1],
        decreases count - i,
    {
        assert(i == 0 || i == 1 || i == 2 || i == 3 || i == 4 || i == 5 || i == 6 || i == 7 || i
            == 8 || i == 9);
        let short = check_bytes(body, offsets[i], sizes[i]);
        if short.is_some() {
            return short;
        }
        i = i + 1;
    }
    None
}

/// Read and validate a format chunk.
fn parse_format(body: &[u8]) -> (r: Result<Format, WavFault>)
    ensures
        r == format_of(body@),
        r matches Ok(f) ==> width_supported(f.tag, f.bits_per_sample),
{
    match check_format(body, false) {
        Some(fault) => {
            return Err(fault);
        },
        None => {},
    }
    let mut tag: u16 = read_le16(body, 0);
    if tag == FORMAT_EXTENSIBLE {
        match check_format(body, true) {
            Some(fault) => {
                return Err(fault);
            },
            None => {},
        }
        tag = read_le16(body, 24);
    }
    let bits: u16 = read_le16(body, 14);
    if tag != FORMAT_PCM && tag != FORMAT_FLOAT {
        return Err(WavFault::UnsupportedTag(tag));
    }
    let supported: bool = (tag == FORMAT_PCM && (bits == 8 || bits == 16 || bits == 24 || bits
        == 32)) || (tag == FORMAT_FLOAT && (bits == 32 || bits == 64));
    if !supported {
        return Err(WavFault::UnsupportedWidth { bits, tag });
    }
    Ok(
        Format {
            tag,
            channels: read_le16(body, 2),
            sample_rate: read_le32(body, 4),
            bits_per_sample: bits,
        },
    )
}

// --- samples -----------------------------------------------------------------

/// The two's complement value of an unsigned integer whose sign bit weighs
/// `half`.
pub open spec fn signed(n: nat, half: int) -> int {
    if n >= half {
        n - 2 * half
    } else {
        n as int
    }
}

/// A single-precision bit pattern that is neither infinite nor not-a-number.
pub open spec fn single_finite(bits: u32) -> bool {
    (bits as int / 0x80_0000) % 0x100 != 0xFF
}

/// A double-precision bit pattern whose value stays finite when narrowed to
/// single precision: its magnitude lies below the midpoint past the largest
/// single-precision number.
pub open spec fn double_narrows(bits: u64) -> bool {
    bits as int % 0x8000_0000_0000_0000 < 0x47EF_FFFF_F000_0000
}

/// A single-precision pattern brought into range: beyond one it becomes one,
/// with its sign kept.
pub open spec fn normalized_single(bits: u32) -> u32 {
    if bits as int % 0x8000_0000 <= SINGLE_ONE {
        bits
    } else if bits < 0x8000_0000 {
        SINGLE_ONE
    } else {
        (0x8000_0000 + SINGLE_ONE) as u32
    }
}

/// A double-precision pattern brought into range: beyond one it becomes one,
/// with its sign kept.
pub open spec fn normalized_double(bits: u64) -> u64 {
    if bits as int % 0x8000_0000_0000_0000 <= DOUBLE_ONE {
        bits
    } else if bits < 0x8000_0000_0000_0000 {
        DOUBLE_ONE
    } else {
        (0x8000_0000_0000_0000 + DOUBLE_ONE) as u64
    }
}

/// The sample that starts at `at`. Eight-bit samples are unsigned and centred
/// on 128; the others are signed. Floats beyond full scale are brought back to
/// it, and floats that are not finite are silence.
pub open spec fn sample_at(tag: u16, bits: u16, data: Seq<u8>, at: int) -> Sample {
    if tag == FORMAT_PCM {
        if bits == 8 {
            Sample::Fraction { value: (data[at] - 128) as i64, scale: 128 }
        } else if bits == 16 {
            Sample::Fraction { value: signed(le16(data, at), 0x8000) as i64, scale: 0x8000 }
        } else if bits == 24 {
            Sample::Fraction {
                value: signed(le16(data, at) + 0x1_0000 * (data[at + 2] as nat), 0x80_0000) as i64,
                scale: 0x80_0000,
            }
        } else {
            Sample::Fraction {
                value: signed(le32(data, at), 0x8000_0000) as i64,
                scale: 0x8000_0000,
            }
        }
    } else if bits == 32 {
        if single_finite(le32(data, at) as u32) {
            Sample::Single(normalized_single(le32(data, at) as u32))
        } else {
            silence()
        }
    } else {
        if double_narrows(le64(data, at) as u64) {
            Sample::Double(normalized_double(le64(data, at) as u64))
        } else {
            silence()
        }
    }
}

/// The samples of a data chunk. A trailing partial sample is dropped.
pub open spec fn samples_of(format: Format, data: Seq<u8>) -> Seq<Sample> {
    let width = format.bits_per_sample as int / 8;
    Seq::new(
        (data.len() as int / width) as nat,
        |i: int| sample_at(format.tag, format.bits_per_sample, data, i * width),
    )
}

/// Every sample of every supported format lies between minus one and one.
pub proof fn law_samples_stay_in_range(tag: u16, bits: u16, data: Seq<u8>, at: int)
    requires
        width_supported(tag, bits),
        0 <= at,
        at + bits / 8 <= data.len(),
    ensures
        sample_at(tag, bits, data, at).in_range(),
{
}

/// Integer samples reach full scale on the negative side only: the most negative
/// is exactly minus one and every other lies strictly between minus one and one.
pub proof fn law_integer_samples_stay_below_one(bits: u16, data: Seq<u8>, at: int)
    requires
        width_supported(FORMAT_PCM, bits),
        0 <= at,
        at + bits / 8 <= data.len(),
    ensures
        sample_at(FORMAT_PCM, bits, data, at) matches Sample::Fraction { value, scale } && -scale
            <= value < scale && scale > 0,
{
}

fn to_signed(n: u32, half: i64) -> (r: i64)
    requires
        0 < half <= 0x8000_0000,
    ensures
        r == signed(n as nat, half as int),
{
    if n as i64 >= half {
        n as i64 - 2 * half
    } else {
        n as i64
    }
}

fn normalize_single(bits: u32) -> (r: u32)
    ensures
        r == normalized_single(bits),
{
    if bits % 0x8000_0000 <= SINGLE_ONE {
        bits
    } else if bits < 0x8000_0000 {
        SINGLE_ONE
    } else {
        0x8000_0000 + SINGLE_ONE
    }
}

fn normalize_double(bits: u64) -> (r: u64)
    ensures
        r == normalized_double(bits),
{
    if bits % 0x8000_0000_0000_0000 <= DOUBLE_ONE {
        bits
    } else if bits < 0x8000_0000_0000_0000 {
        DOUBLE_ONE
    } else {
        0x8000_0000_0000_0000 + DOUBLE_ONE
    }
}

fn convert_sample(tag: u16, bits: u16, data: &[u8], at: usize) -> (r: Sample)
    requires
        width_supported(tag, bits),
        at + bits / 8 <= data@.len(),
    ensures
        r == sample_at(tag, bits, data@, at as int),
{
    assert(at + bits / 8 <= data.len());
    if tag == FORMAT_PCM {
        if bits == 8 {
            Sample::Fraction { value: data[at] as i64 - 128, scale: 128 }
        } else if bits == 16 {
            Sample::Fraction {
                value: to_signed(read_le16(data, at) as u32, 0x8000),
                scale: 0x8000,
            }
        } else if bits == 24 {
            let n: u32 = read_le16(data, at) as u32 + 0x1_0000 * data[at + 2] as u32;
            Sample::Fraction { value: to_signed(n, 0x80_0000), scale: 0x80_0000 }
        } else {
            Sample::Fraction {
                value: to_signed(read_le32(data, at), 0x8000_0000),
                scale: 0x8000_0000,
            }
        }
    } else if bits == 32 {
        let pattern: u32 = read_le32(data, at);
        if (pattern / 0x80_0000) % 0x100 != 0xFF {
            Sample::Single(normalize_single(pattern))
        } else {
            Sample::Single(0)
        }
    } else {
        let pattern: u64 = read_le64(data, at);
        if pattern % 0x8000_0000_0000_0000 < 0x47EF_FFFF_F000_0000 {
            Sample::Double(normalize_double(pattern))
        } else {
            Sample::Single(0)
        }
    }
}

/// Convert a data chunk to samples.
fn convert_samples(format: &Format, data: &[u8]) -> (r: Vec<Sample>)
    requires
        width_supported(format.tag, format.bits_per_sample),
    ensures
        r@ == samples_of(*format, data@),
{
    let width: usize = (format.bits_per_sample / 8) as usize;
    let ghost w = format.bits_per_sample as int / 8;
    assert(width == w && 1 <= w <= 8);
    let count: usize = data.len() / width;
    let mut out: Vec<Sample> = Vec::new();
    let mut i: usize = 0;
    proof {
        vstd::arithmetic::div_mod::lemma_fundamental_div_mod(data@.len() as int, w);
    }
    while i < count
        invariant
            i <= count,
            w == width,
            w == format.bits_per_sample as int / 8,
            1 <= w <= 8,
            w * count <= data@.len() <= usize::MAX,
            width_supported(format.tag, format.bits_per_sample),
            out@.len() == i,
            forall|j: int|
                0 <= j < i ==> #[trigger] out@[j] == sample_at(
                    format.tag,
                    format.bits_per_sample,
                    data@,
                    j * w,
                ),
        decreases count - i,
    {
        assert(0 <= i * w && i * w + w <= w * count) by (nonlinear_arith)
            requires
                0 <= i < count,
                1 <= w,
        ;
        out.push(convert_sample(format.tag, format.bits_per_sample, data, i * width));
        i = i + 1;
    }
    assert(out@ =~= samples_of(*format, data@));
    out
}

// --- chunks ------------------------------------------------------------------

/// What the chunks of a file say: its format and where its data lies.
pub struct WavChunks {
    pub format: Option<Format>,
    pub data: Option<Seq<u8>>,
}

/// Bytes of a chunk's body: as declared, but no more than the file holds.
pub open spec fn body_len(s: Seq<u8>, pos: int) -> int {
    let declared = le32(s, pos + 4) as int;
    if declared > s.len() - pos - 8 {
        s.len() - pos - 8
    } else {
        declared
    }
}

/// The position of the next chunk: an odd-sized body is followed by a pad byte.
pub open spec fn next_chunk(s: Seq<u8>, pos: int) -> int {
    let end = pos + 8 + body_len(s, pos);
    if body_len(s, pos) % 2 == 1 && end < s.len() {
        end + 1
    } else {
        end
    }
}

/// Whether the four bytes at `at` are `name`.
pub open spec fn tag_at(s: Seq<u8>, at: int, name: Seq<u8>) -> bool {
    s.subrange(at, at + 4) == name
}

/// The name of the format chunk.
pub open spec fn fmt_name() -> Seq<u8> {
    seq![0x66u8, 0x6Du8, 0x74u8, 0x20u8]
}

/// The name of the data chunk.
pub open spec fn data_name() -> Seq<u8> {
    seq![0x64u8, 0x61u8, 0x74u8, 0x61u8]
}

/// Read the chunks from `pos` on, adding to what was read before. A later
/// chunk replaces an earlier one of the same name, and others are skipped.
pub open spec fn wav_chunks(s: Seq<u8>, pos: int, acc: WavChunks) -> Result<WavChunks, WavFault>
    decreases s.len() - pos,
    when 0 <= pos
{
    let body = s.subrange(pos + 8, pos + 8 + body_len(s, pos));
    let next = next_chunk(s, pos);
    if s.len() - pos < 8 {
        Ok(acc)
    } else if tag_at(s, pos, fmt_name()) {
        match format_of(body) {
            Err(fault) => Err(fault),
            Ok(format) => wav_chunks(s, next, WavChunks { format: Some(format), ..acc }),
        }
    } else if tag_at(s, pos, data_name()) {
        wav_chunks(s, next, WavChunks { data: Some(body), ..acc })
    } else {
        wav_chunks(s, next, acc)
    }
}

/// A decoded file as its samples, channel count and rate.
pub struct Decoded {
    pub samples: Seq<Sample>,
    pub channels: u16,
    pub sample_rate: u32,
}

/// The audio of a file whose chunks have been read.
pub open spec fn audio_of(chunks: WavChunks) -> Result<Decoded, WavFault> {
    match (chunks.format, chunks.data) {
        (None, _) => Err(WavFault::NoFormat),
        (_, None) => Err(WavFault::NoData),
        (Some(format), Some(data)) => if format.channels == 0 {
            Err(WavFault::NoChannels)
        } else if format.sample_rate == 0 {
            Err(WavFault::NoRate)
        } else {
            Ok(
                Decoded {
                    samples: samples_of(format, data),
                    channels: format.channels,
                    sample_rate: format.sample_rate,
                },
            )
        },
    }
}

/// What a WAV file decodes to. The declared file size is not looked at.
pub open spec fn wav_decoded(s: Seq<u8>) -> Result<Decoded, WavFault> {
    if short_at(s, 0, 4) is Some {
        Err(short_at(s, 0, 4)->Some_0)
    } else if !tag_at(s, 0, seq![0x52u8, 0x49u8, 0x46u8, 0x46u8]) {
        Err(WavFault::NotRiff)
    } else if short_at(s, 4, 4) is Some {
        Err(short_at(s, 4, 4)->Some_0)
    } else if short_at(s, 8, 4) is Some {
        Err(short_at(s, 8, 4)->Some_0)
    } else if !tag_at(s, 8, seq![0x57u8, 0x41u8, 0x56u8, 0x45u8]) {
        Err(WavFault::NotWave)
    } else {
        match wav_chunks(s, 12, WavChunks { format: None, data: None }) {
            Err(fault) => Err(fault),
            Ok(chunks) => audio_of(chunks),
        }
    }
}

fn name_stands_at(s: &[u8], at: usize, name: &[u8; 4]) -> (r: bool)
    requires
        at + 4 <= s@.len(),
    ensures
        r == tag_at(s@, at as int, name@),
{
    assert(at + 4 <= s.len());
    let r: bool = s[at] == name[0] && s[at + 1] == name[1] && s[at + 2] == name[2] && s[at + 3]
        == name[3];
    let ghost here = s@.subrange(at as int, at + 4);
    if r {
        assert(here =~= name@);
    } else {
        assert(here[0] == s@[at as int] && here[1] == s@[at + 1] && here[2] == s@[at + 2] && here[3]
            == s@[at + 3]);
    }
    r
}

/// Walk the chunks after the file header.
fn read_chunks(bytes: &[u8]) -> (r: Result<(Option<Format>, Option<(usize, usize)>), WavFault>)
    requires
        bytes@.len() >= 12,
    ensures
        match wav_chunks(bytes@, 12, WavChunks { format: None, data: None }) {
            Ok(chunks) => r matches Ok((format, data)) && format == chunks.format && (format matches
                Some(f) ==> width_supported(f.tag, f.bits_per_sample)) && match data {
                Some((from, to)) => from <= to <= bytes@.len() && chunks.data == Some(
                    bytes@.subrange(from as int, to as int),
                ),
                None => chunks.data is None,
            },
            Err(fault) => r matches Err(f) && f == fault,
        },
{
    let fmt: [u8; 4] = [0x66, 0x6D, 0x74, 0x20];
    let name: [u8; 4] = [0x64, 0x61, 0x74, 0x61];
    assert(fmt@ =~= fmt_name());
    assert(name@ =~= data_name());
    let mut format: Option<Format> = None;
    let mut data: Option<(usize, usize)> = None;
    let mut pos: usize = 12;
    assert(bytes.len() == bytes@.len());
    while bytes.len() - pos >= 8
        invariant
            12 <= pos <= bytes@.len() <= usize::MAX,
            fmt@ == fmt_name(),
            name@ == data_name(),
            format matches Some(f) ==> width_supported(f.tag, f.bits_per_sample),
            data matches Some((from, to)) ==> from <= to <= bytes@.len(),
            wav_chunks(bytes@, 12, WavChunks { format: None, data: None }) == wav_chunks(
                bytes@,
                pos as int,
                WavChunks {
                    format,
                    data: match data {
                        Some((from, to)) => Some(bytes@.subrange(from as int, to as int)),
                        None => None,
                    },
                },
            ),
        decreases bytes.len() - pos,
    {
        let declared: usize = read_le32(bytes, pos + 4) as usize;
        let start: usize = pos + 8;
        let available: usize = bytes.len() - start;
        let size: usize = if declared > available {
            available
        } else {
            declared
        };
        let end: usize = start + size;
        if name_stands_at(bytes, pos, &fmt) {
            match parse_format(vstd::slice::slice_subrange(bytes, start, end)) {
                Ok(f) => {
                    format = Some(f);
                },
                Err(fault) => {
                    return Err(fault);
                },
            }
        } else if name_stands_at(bytes, pos, &name) {
            data = Some((start, end));
        }
        pos = if size % 2 == 1 && end < bytes.len() {
            end + 1
        } else {
            end
        };
    }
    Ok((format, data))
}

fn decode_audio(bytes: &[u8]) -> (r: Result<AudioBuffer, WavFault>)
    ensures
        match wav_decoded(bytes@) {
            Ok(d) => r matches Ok(b) && b.samples@ == d.samples && b.channels == d.channels
                && b.sample_rate == d.sample_rate,
            Err(fault) => r matches Err(f) && f == fault,
        },
{
    let riff: [u8; 4] = [0x52, 0x49, 0x46, 0x46];
    let wave: [u8; 4] = [0x57, 0x41, 0x56, 0x45];
    assert(riff@ =~= seq![0x52u8, 0x49u8, 0x46u8, 0x46u8]);
    assert(wave@ =~= seq![0x57u8, 0x41u8, 0x56u8, 0x45u8]);
    match check_bytes(bytes, 0, 4) {
        Some(fault) => {
            return Err(fault);
        },
        None => {},
    }
    if !name_stands_at(bytes, 0, &riff) {
        return Err(WavFault::NotRiff);
    }
    match check_bytes(bytes, 4, 4) {
        Some(fault) => {
            return Err(fault);
        },
        None => {},
    }
    match check_bytes(bytes, 8, 4) {
        Some(fault) => {
            return Err(fault);
        },
        None => {},
    }
    if !name_stands_at(bytes, 8, &wave) {
        return Err(WavFault::NotWave);
    }
    let (format, data) = match read_chunks(bytes) {
        Ok(chunks) => chunks,
        Err(fault) => {
            return Err(fault);
        },
    };
    let format = match format {
        Some(format) => format,
        None => {
            return Err(WavFault::NoFormat);
        },
    };
    let (from, to) = match data {
        Some(range) => range,
        None => {
            return Err(WavFault::NoData);
        },
    };
    if format.channels == 0 {
        return Err(WavFault::NoChannels);
    }
    if format.sample_rate == 0 {
        return Err(WavFault::NoRate);
    }
    let samples = convert_samples(&format, vstd::slice::slice_subrange(bytes, from, to));
    Ok(AudioBuffer { samples, channels: format.channels, sample_rate: format.sample_rate })
}

/// Decode a WAV file from memory.
pub fn decode(bytes: &[u8]) -> (r: Result<AudioBuffer, EngineError>)
    ensures
        match wav_decoded(bytes@) {
            Ok(d) => r matches Ok(b) && b.samples@ == d.samples && b.channels == d.channels
                && b.sample_rate == d.sample_rate && b.channels > 0 && b.sample_rate > 0,
            Err(fault) => r matches Err(e) && e.is_invalid_state(fault.text()),
        },
{
    match decode_audio(bytes) {
        Ok(buffer) => Ok(buffer),
        Err(fault) => Err(EngineError::InvalidState(fault.message())),
    }
}

proof fn lemma_read_format_is_supported(s: Seq<u8>, pos: int, acc: WavChunks)
    requires
        0 <= pos,
        acc.format matches Some(f) ==> width_supported(f.tag, f.bits_per_sample),
    ensures
        wav_chunks(s, pos, acc) matches Ok(chunks) ==> (chunks.format matches Some(f)
            ==> width_supported(f.tag, f.bits_per_sample)),
    decreases s.len() - pos,
{
    if s.len() - pos >= 8 {
        let body = s.subrange(pos + 8, pos + 8 + body_len(s, pos));
        let next = next_chunk(s, pos);
        if tag_at(s, pos, fmt_name()) {
            if let Ok(format) = format_of(body) {
                lemma_read_format_is_supported(
                    s,
                    next,
                    WavChunks { format: Some(format), ..acc },
                );
            }
        } else if tag_at(s, pos, data_name()) {
            lemma_read_format_is_supported(s, next, WavChunks { data: Some(body), ..acc });
        } else {
            lemma_read_format_is_supported(s, next, acc);
        }
    }
}

/// Whatever a file holds, the audio decoded from it lies between minus one and
/// one.
pub proof fn law_decoded_audio_is_normalized(s: Seq<u8>)
    ensures
        wav_decoded(s) matches Ok(audio) ==> forall|i: int|
            0 <= i < audio.samples.len() ==> (#[trigger] audio.samples[i]).in_range(),
{
    if let Ok(audio) = wav_decoded(s) {
        let start = WavChunks { format: None, data: None };
        lemma_read_format_is_supported(s, 12, start);
        let chunks = wav_chunks(s, 12, start)->Ok_0;
        let format = chunks.format->Some_0;
        let data = chunks.data->Some_0;
        let bits = format.bits_per_sample;
        let width = bits as int / 8;
        let count = data.len() as int / width;
        vstd::arithmetic::div_mod::lemma_fundamental_div_mod(data.len() as int, width);
        assert forall|i: int| 0 <= i < audio.samples.len() implies (
        #[trigger] audio.samples[i]).in_range() by {
            assert(0 <= i * width && i * width + width <= width * count) by (nonlinear_arith)
                requires
                    0 <= i < count,
                    1 <= width,
            ;
            law_samples_stay_in_range(format.tag, bits, data, i * width);
        }
    }
}

/// Metadata chunks are skipped, with their pad byte when their size is odd.
pub proof fn law_other_chunks_are_skipped(s: Seq<u8>, pos: int, acc: WavChunks)
    requires
        0 <= pos,
        pos + 8 <= s.len(),
        !tag_at(s, pos, fmt_name()),
        !tag_at(s, pos, data_name()),
    ensures
        wav_chunks(s, pos, acc) == wav_chunks(s, next_chunk(s, pos), acc),
        le32(s, pos + 4) + pos + 9 <= s.len() ==> next_chunk(s, pos) == pos + 8 + le32(s, pos + 4)
            + le32(s, pos + 4) % 2,
{
}

/// A data chunk that claims more than the file holds is cut to what is there.
pub proof fn law_oversized_data_is_clamped(s: Seq<u8>, pos: int, acc: WavChunks)
    requires
        0 <= pos,
        pos + 8 <= s.len(),
        tag_at(s, pos, data_name()),
        le32(s, pos + 4) >= s.len() - pos - 8,
    ensures
        wav_chunks(s, pos, acc) == Ok::<WavChunks, WavFault>(
            WavChunks { data: Some(s.subrange(pos + 8, s.len() as int)), ..acc },
        ),
{
    assert(fmt_name()[0] != data_name()[0]);
    assert(wav_chunks(
        s,
        next_chunk(s, pos),
        WavChunks { data: Some(s.subrange(pos + 8, s.len() as int)), ..acc },
    ) == Ok::<WavChunks, WavFault>(
        WavChunks { data: Some(s.subrange(pos + 8, s.len() as int)), ..acc },
    ));
}

} // verus!
