//! What can be wrong with a PNG file, and how each fault is worded.

use vstd::prelude::*;
use crate::text::decimal;
use crate::text::decode_lossy;
use crate::text::lossy_text;
use crate::text::push_decimal;
use crate::text::quote;
use crate::text::quoted;

verus! {

/// Every reason a PNG or the DEFLATE stream inside it is rejected.
#[derive(Clone, Copy, Debug)]
pub enum PngFault {
    BadSignature,
    ChunkOverflow,
    ChunkTruncated { kind: [u8; 4], length: usize, remaining: usize },
    /// A chunk of an animated image, by its name.
    Animation([u8; 4]),
    NoHeader,
    NoData,
    HeaderTooShort,
    ColorType(u8),
    ZeroDimension,
    TooBig { width: u32, height: u32 },
    Compression(u8),
    FilterMethod(u8),
    Interlace(u8),
    UnsupportedDepth(u8),
    InvalidDepth(u8),
    PaletteDepth,
    MissingFilter(usize),
    TruncatedLine(usize),
    UnknownFilter { line: usize, filter: u8 },
    InterlaceTruncated,
    StreamEnded,
    CodeLengthTooLarge,
    InvalidCode,
    ZlibTooShort,
    ZlibMethod(u8),
    ZlibChecksum,
    ZlibDictionary,
    StoredComplement,
    BlockType,
    OutputTooLarge,
    MatchTooLarge,
    RepeatAtStart,
    RepeatPastTable,
    ZeroRepeatPastTable,
    CodeLengthSymbol(u16),
    DistanceSymbol(u16),
    BackReference { distance: usize, decoded: usize },
    LiteralSymbol(u16),
}

/// A chunk's name, one character for each byte.
pub open spec fn chunk_name(kind: Seq<u8>) -> Seq<char> {
    Seq::new(kind.len(), |i: int| kind[i] as char)
}

fn push_chunk_name(s: &mut String, kind: &[u8; 4])
    ensures
        final(s)@ == old(s)@ + chunk_name(kind@),
{
    let mut i: usize = 0;
    while i < 4
        invariant
            i <= 4,
            s@ == old(s)@ + chunk_name(kind@).take(i as int),
        decreases 4 - i,
    {
        s.push(kind[i] as char);
        assert(chunk_name(kind@).take(i + 1) =~= chunk_name(kind@).take(i as int).push(
            kind@[i as int] as char,
        ));
        i = i + 1;
    }
    assert(chunk_name(kind@).take(4) =~= chunk_name(kind@));
}

impl PngFault {
    /// The description of the fault.
    pub open spec fn text(self) -> Seq<char> {
        match self {
            PngFault::BadSignature => "not a PNG file (bad signature)"@,
            PngFault::ChunkOverflow => "chunk length overflows"@,
            PngFault::NoHeader => "PNG has no IHDR chunk"@,
            PngFault::NoData => "PNG has no IDAT data"@,
            PngFault::HeaderTooShort => "IHDR is shorter than 13 bytes"@,
            PngFault::ZeroDimension => "PNG has a zero dimension"@,
            PngFault::PaletteDepth => "palette PNGs must be 8-bit"@,
            PngFault::InterlaceTruncated => "interlaced PNG is truncated"@,
            PngFault::StreamEnded => "compressed stream ended mid-symbol"@,
            PngFault::CodeLengthTooLarge => "Huffman code length exceeds 15"@,
            PngFault::InvalidCode => "invalid Huffman code in compressed stream"@,
            PngFault::ZlibTooShort => "zlib stream is too short"@,
            PngFault::ZlibChecksum => "zlib header checksum is wrong"@,
            PngFault::ZlibDictionary => "zlib streams with a preset dictionary are not supported"@,
            PngFault::StoredComplement => "stored block length does not match its complement"@,
            PngFault::BlockType => "invalid DEFLATE block type 3"@,
            PngFault::OutputTooLarge => "compressed stream expands beyond the 268435456 byte limit"@,
            PngFault::MatchTooLarge => "compressed stream expands beyond the limit"@,
            PngFault::RepeatAtStart => "repeat code at the start of the length table"@,
            PngFault::RepeatPastTable => "length repeat runs past the table"@,
            PngFault::ZeroRepeatPastTable => "zero repeat runs past the length table"@,
            PngFault::ColorType(n) => "unknown PNG colour type "@ + decimal(n as nat),
            PngFault::TooBig { width, height } => "PNG is "@ + decimal(width as nat) + "x"@ + decimal(height as nat) + ", beyond the 16384 limit"@,
            PngFault::Compression(n) => "unknown compression method "@ + decimal(n as nat),
            PngFault::FilterMethod(n) => "unknown filter method "@ + decimal(n as nat),
            PngFault::Interlace(n) => "unknown interlace method "@ + decimal(n as nat),
            PngFault::UnsupportedDepth(n) => decimal(n as nat) + "-bit PNG is not supported (only 8 and 16)"@,
            PngFault::InvalidDepth(n) => "invalid bit depth "@ + decimal(n as nat),
            PngFault::MissingFilter(n) => "scanline "@ + decimal(n as nat) + " is missing its filter byte"@,
            PngFault::TruncatedLine(n) => "scanline "@ + decimal(n as nat) + " is truncated"@,
            PngFault::UnknownFilter { line, filter } => "scanline "@ + decimal(line as nat) + " has unknown filter type "@ + decimal(filter as nat),
            PngFault::ZlibMethod(n) => "zlib compression method "@ + decimal(n as nat) + " is not DEFLATE"@,
            PngFault::CodeLengthSymbol(n) => "invalid code length symbol "@ + decimal(n as nat),
            PngFault::DistanceSymbol(n) => "invalid distance symbol "@ + decimal(n as nat),
            PngFault::BackReference { distance, decoded } => "back-reference distance "@ + decimal(distance as nat) + " exceeds the "@ + decimal(decoded as nat) + " bytes decoded"@,
            PngFault::LiteralSymbol(n) => "invalid literal/length symbol "@ + decimal(n as nat),
            PngFault::ChunkTruncated { kind, length, remaining } => "chunk "@ + quoted(
                lossy_text(kind@),
            ) + " claims "@ + decimal(length as nat) + " bytes but only "@ + decimal(
                remaining as nat,
            ) + " remain"@,
            PngFault::Animation(kind) => "chunk \""@ + chunk_name(kind@)
                + "\" is part of an APNG animation, which is not supported"@,
        }
    }

    /// Describe the fault.
    pub fn message(&self) -> (r: String)
        ensures
            r@ == self.text(),
    {
        match *self {
            PngFault::BadSignature => String::from_str("not a PNG file (bad signature)"),
            PngFault::ChunkOverflow => String::from_str("chunk length overflows"),
            PngFault::NoHeader => String::from_str("PNG has no IHDR chunk"),
            PngFault::NoData => String::from_str("PNG has no IDAT data"),
            PngFault::HeaderTooShort => String::from_str("IHDR is shorter than 13 bytes"),
            PngFault::ZeroDimension => String::from_str("PNG has a zero dimension"),
            PngFault::PaletteDepth => String::from_str("palette PNGs must be 8-bit"),
            PngFault::InterlaceTruncated => String::from_str("interlaced PNG is truncated"),
            PngFault::StreamEnded => String::from_str("compressed stream ended mid-symbol"),
            PngFault::CodeLengthTooLarge => String::from_str("Huffman code length exceeds 15"),
            PngFault::InvalidCode => String::from_str("invalid Huffman code in compressed stream"),
            PngFault::ZlibTooShort => String::from_str("zlib stream is too short"),
            PngFault::ZlibChecksum => String::from_str("zlib header checksum is wrong"),
            PngFault::ZlibDictionary => String::from_str("zlib streams with a preset dictionary are not supported"),
            PngFault::StoredComplement => String::from_str("stored block length does not match its complement"),
            PngFault::BlockType => String::from_str("invalid DEFLATE block type 3"),
            PngFault::OutputTooLarge => String::from_str("compressed stream expands beyond the 268435456 byte limit"),
            PngFault::MatchTooLarge => String::from_str("compressed stream expands beyond the limit"),
            PngFault::RepeatAtStart => String::from_str("repeat code at the start of the length table"),
            PngFault::RepeatPastTable => String::from_str("length repeat runs past the table"),
            PngFault::ZeroRepeatPastTable => String::from_str("zero repeat runs past the length table"),
            PngFault::ColorType(n) => {
                let mut s = String::from_str("unknown PNG colour type ");
                push_decimal(&mut s, n as u64);
                s
            },
            PngFault::TooBig { width, height } => {
                let mut s = String::from_str("PNG is ");
                push_decimal(&mut s, width as u64);
                s.append("x");
                push_decimal(&mut s, height as u64);
                s.append(", beyond the 16384 limit");
                s
            },
            PngFault::Compression(n) => {
                let mut s = String::from_str("unknown compression method ");
                push_decimal(&mut s, n as u64);
                s
            },
            PngFault::FilterMethod(n) => {
                let mut s = String::from_str("unknown filter method ");
                push_decimal(&mut s, n as u64);
                s
            },
            PngFault::Interlace(n) => {
                let mut s = String::from_str("unknown interlace method ");
                push_decimal(&mut s, n as u64);
                s
            },
            PngFault::UnsupportedDepth(n) => {
                let mut s = String::new();
                push_decimal(&mut s, n as u64);
                s.append("-bit PNG is not supported (only 8 and 16)");
                s
            },
            PngFault::InvalidDepth(n) => {
                let mut s = String::from_str("invalid bit depth ");
                push_decimal(&mut s, n as u64);
                s
            },
            PngFault::MissingFilter(n) => {
                let mut s = String::from_str("scanline ");
                push_decimal(&mut s, n as u64);
                s.append(" is missing its filter byte");
                s
            },
            PngFault::TruncatedLine(n) => {
                let mut s = String::from_str("scanline ");
                push_decimal(&mut s, n as u64);
                s.append(" is truncated");
                s
            },
            PngFault::UnknownFilter { line, filter } => {
                let mut s = String::from_str("scanline ");
                push_decimal(&mut s, line as u64);
                s.append(" has unknown filter type ");
                push_decimal(&mut s, filter as u64);
                s
            },
            PngFault::ZlibMethod(n) => {
                let mut s = String::from_str("zlib compression method ");
                push_decimal(&mut s, n as u64);
                s.append(" is not DEFLATE");
                s
            },
            PngFault::CodeLengthSymbol(n) => {
                let mut s = String::from_str("invalid code length symbol ");
                push_decimal(&mut s, n as u64);
                s
            },
            PngFault::DistanceSymbol(n) => {
                let mut s = String::from_str("invalid distance symbol ");
                push_decimal(&mut s, n as u64);
                s
            },
            PngFault::BackReference { distance, decoded } => {
                let mut s = String::from_str("back-reference distance ");
                push_decimal(&mut s, distance as u64);
                s.append(" exceeds the ");
                push_decimal(&mut s, decoded as u64);
                s.append(" bytes decoded");
                s
            },
            PngFault::LiteralSymbol(n) => {
                let mut s = String::from_str("invalid literal/length symbol ");
                push_decimal(&mut s, n as u64);
                s
            },
            PngFault::ChunkTruncated { kind, length, remaining } => {
                let mut s = String::from_str("chunk ");
                let name = decode_lossy(kind.as_slice());
                s.append(quote(name.as_str()).as_str());
                s.append(" claims ");
                push_decimal(&mut s, length as u64);
                s.append(" bytes but only ");
                push_decimal(&mut s, remaining as u64);
                s.append(" remain");
                s
            },
            PngFault::Animation(kind) => {
                let mut s = String::from_str("chunk \"");
                push_chunk_name(&mut s, &kind);
                s.append("\" is part of an APNG animation, which is not supported");
                s
            },
        }
    }
}

} // verus!
