//! What is wrong with a file, and how it is worded.

use astraglyph::assets::inflate::{inflate, inflate_zlib, Huffman};
use astraglyph::assets::{obj, png};
use astraglyph::audio::wav;
use astraglyph::engine::error::EngineError;
use astraglyph::engine::json;

// --- compressed streams ---

/// Writes bits, the lowest of a byte first.
#[derive(Default)]
struct Bits {
    bytes: Vec<u8>,
    used: usize,
}

impl Bits {
    /// The `count` low bits of a value, lowest first.
    fn put(mut self, value: u32, count: usize) -> Self {
        for i in 0..count {
            if self.used % 8 == 0 {
                self.bytes.push(0);
            }
            *self.bytes.last_mut().expect("a byte") |= (((value >> i) & 1) as u8) << (self.used % 8);
            self.used += 1;
        }
        self
    }

    /// A Huffman code, highest bit first.
    fn code(mut self, value: u32, count: usize) -> Self {
        for i in (0..count).rev() {
            self = self.put((value >> i) & 1, 1);
        }
        self
    }

    /// The start of a dynamic block with 257 literal codes and one distance
    /// code, whose code length code gives these lengths to 16, 17, 18 and 0.
    fn dynamic(lengths: [u32; 4]) -> Self {
        let mut bits = Bits::default().put(1, 1).put(2, 2).put(0, 5).put(0, 5).put(0, 4);
        for length in lengths {
            bits = bits.put(length, 3);
        }
        bits
    }

    /// The start of a block with the fixed codes.
    fn fixed() -> Self {
        Bits::default().put(1, 1).put(1, 2)
    }

    fn fault(self) -> String {
        inflate(&self.bytes).expect_err("a fault").message()
    }
}

#[test]
fn stream_faults_are_told_apart() {
    assert_eq!(inflate(&[]).unwrap_err().message(), "compressed stream ended mid-symbol");
    assert_eq!(inflate(&[7]).unwrap_err().message(), "invalid DEFLATE block type 3");
    assert_eq!(
        inflate(&[1, 5, 0, 0, 0]).unwrap_err().message(),
        "stored block length does not match its complement"
    );
    assert_eq!(
        Bits::fixed().code(1, 7).code(0, 5).fault(),
        "back-reference distance 1 exceeds the 0 bytes decoded"
    );
    assert_eq!(Bits::fixed().code(0xC6, 8).fault(), "invalid literal/length symbol 286");
    assert_eq!(
        Bits::fixed().code(0x30, 8).code(1, 7).code(30, 5).put(0, 16).fault(),
        "invalid Huffman code in compressed stream"
    );
    assert_eq!(Huffman::new(&[16]).err().expect("a fault").message(), "Huffman code length exceeds 15");
}

#[test]
fn length_table_faults_are_told_apart() {
    assert_eq!(
        Bits::dynamic([1, 0, 0, 1]).put(1, 1).put(0, 2).fault(),
        "repeat code at the start of the length table"
    );
    let mut bits = Bits::dynamic([1, 0, 0, 1]).put(0, 1);
    for _ in 0..43 {
        bits = bits.put(1, 1).put(3, 2);
    }
    assert_eq!(bits.fault(), "length repeat runs past the table");
    assert_eq!(
        Bits::dynamic([0, 0, 1, 1]).put(1, 1).put(127, 7).put(1, 1).put(127, 7).fault(),
        "zero repeat runs past the length table"
    );
    // 138 and 120 zeros fill the table: no code is left to read.
    assert_eq!(
        Bits::dynamic([0, 0, 1, 1])
            .put(1, 1)
            .put(127, 7)
            .put(1, 1)
            .put(109, 7)
            .put(0, 32)
            .fault(),
        "invalid Huffman code in compressed stream"
    );
}

#[test]
fn zlib_faults_are_told_apart() {
    let fault = |bytes: &[u8]| inflate_zlib(bytes).unwrap_err().message();
    assert_eq!(fault(&[0x78]), "zlib stream is too short");
    assert_eq!(fault(&[0x00, 0x00]), "zlib compression method 0 is not DEFLATE");
    assert_eq!(fault(&[0x78, 0x00]), "zlib header checksum is wrong");
    assert_eq!(
        fault(&[0x78, 0xBB]),
        "zlib streams with a preset dictionary are not supported"
    );
}

/// A stored block gives back what was stored.
#[test]
fn stored_bytes_come_back() {
    assert_eq!(inflate(&[1, 2, 0, 253, 255, b'o', b'k']).unwrap(), b"ok");
    assert_eq!(inflate_zlib(&[0x78, 0x01, 1, 2, 0, 253, 255, b'o', b'k']).unwrap(), b"ok");
    assert_eq!(inflate(&[0, 1, 0, 254, 255, b'a', 1, 1, 0, 254, 255, b'b']).unwrap(), b"ab");
}

/// A match longer than its distance repeats what it has just written.
#[test]
fn back_references_repeat_cyclically() {
    // Literals 'a' and 'b', then length 5 at distance 2, then the end.
    let bits = Bits::fixed()
        .code(0x30 + 97, 8)
        .code(0x30 + 98, 8)
        .code(259 - 256, 7)
        .code(1, 5)
        .code(0, 7);
    assert_eq!(inflate(&bits.bytes).unwrap(), b"abababa");
}

// --- PNG ---

fn chunk(kind: &[u8; 4], data: &[u8]) -> Vec<u8> {
    let mut out = (data.len() as u32).to_be_bytes().to_vec();
    out.extend_from_slice(kind);
    out.extend_from_slice(data);
    out.extend_from_slice(&[0; 4]);
    out
}

/// A file of the given header fields and stored scanline bytes.
fn picture(width: u32, height: u32, rest: [u8; 5], raw: &[u8]) -> Vec<u8> {
    let mut header = width.to_be_bytes().to_vec();
    header.extend_from_slice(&height.to_be_bytes());
    header.extend_from_slice(&rest);
    let mut data = vec![0x78, 0x01, 1];
    data.extend_from_slice(&(raw.len() as u16).to_le_bytes());
    data.extend_from_slice(&(!(raw.len() as u16)).to_le_bytes());
    data.extend_from_slice(raw);
    let mut out = png::SIGNATURE.to_vec();
    out.extend(chunk(b"IHDR", &header));
    out.extend(chunk(b"IDAT", &data));
    out.extend(chunk(b"IEND", &[]));
    out
}

fn png_fault(bytes: &[u8]) -> String {
    match png::decode(bytes) {
        Err(EngineError::InvalidState(text)) => text,
        other => panic!("expected a fault, got {other:?}"),
    }
}

#[test]
fn png_container_faults_are_told_apart() {
    assert_eq!(png_fault(b"GIF89a"), "not a PNG file (bad signature)");
    assert_eq!(png_fault(&png::SIGNATURE), "PNG has no IHDR chunk");
    let mut bytes = png::SIGNATURE.to_vec();
    bytes.extend_from_slice(&99u32.to_be_bytes());
    bytes.extend_from_slice(b"I\"\xFFR123");
    assert_eq!(
        png_fault(&bytes),
        "chunk \"I\\\"\u{FFFD}R\" claims 99 bytes but only 3 remain"
    );
    let mut short = png::SIGNATURE.to_vec();
    short.extend(chunk(b"IHDR", &[0; 12]));
    assert_eq!(png_fault(&short), "IHDR is shorter than 13 bytes");
    let full = picture(1, 1, [8, 0, 0, 0, 0], &[0, 0]);
    assert_eq!(png_fault(&full[..33]), "PNG has no IDAT data");
}

#[test]
fn png_header_faults_are_told_apart() {
    let fault = |w: u32, h: u32, rest: [u8; 5]| png_fault(&picture(w, h, rest, &[0, 0]));
    assert_eq!(fault(1, 1, [8, 7, 0, 0, 0]), "unknown PNG colour type 7");
    assert_eq!(fault(0, 1, [8, 0, 0, 0, 0]), "PNG has a zero dimension");
    assert_eq!(fault(16385, 2, [8, 0, 0, 0, 0]), "PNG is 16385x2, beyond the 16384 limit");
    assert_eq!(fault(1, 1, [8, 0, 1, 0, 0]), "unknown compression method 1");
    assert_eq!(fault(1, 1, [8, 0, 0, 2, 0]), "unknown filter method 2");
    assert_eq!(fault(1, 1, [8, 0, 0, 0, 3]), "unknown interlace method 3");
    assert_eq!(fault(1, 1, [4, 0, 0, 0, 0]), "4-bit PNG is not supported (only 8 and 16)");
    assert_eq!(fault(1, 1, [3, 0, 0, 0, 0]), "invalid bit depth 3");
    assert_eq!(fault(1, 1, [16, 3, 0, 0, 0]), "palette PNGs must be 8-bit");
}

#[test]
fn png_scanline_faults_are_told_apart() {
    let fault = |raw: &[u8], interlace: u8| png_fault(&picture(2, 2, [8, 0, 0, 0, interlace], raw));
    assert_eq!(fault(&[0, 1, 2], 0), "scanline 1 is missing its filter byte");
    assert_eq!(fault(&[0, 1, 2, 0, 3], 0), "scanline 1 is truncated");
    assert_eq!(fault(&[0, 1, 2, 5, 3, 4], 0), "scanline 1 has unknown filter type 5");
    assert_eq!(fault(&[0, 1], 1), "interlaced PNG is truncated");
}

/// Filtering a line and decoding it gives the line back, for each filter.
#[test]
fn every_filter_is_undone() {
    let (first, second) = ([10u8, 200, 30], [250u8, 7, 90]);
    for filter in 0..5u8 {
        let mut raw = vec![0];
        raw.extend_from_slice(&first);
        raw.push(filter);
        for i in 0..3 {
            let left = if i > 0 { second[i - 1] } else { 0 };
            let above = first[i];
            let corner = if i > 0 { first[i - 1] } else { 0 };
            let guess = match filter {
                0 => 0,
                1 => left,
                2 => above,
                3 => ((left as u16 + above as u16) / 2) as u8,
                _ => png::paeth(left, above, corner),
            };
            raw.push(second[i].wrapping_sub(guess));
        }
        let image = png::decode(&picture(3, 2, [8, 0, 0, 0, 0], &raw)).expect("a picture");
        for (x, value) in second.iter().enumerate() {
            assert_eq!(image.pixel(x as u32, 1), Some([*value, *value, *value, 255]));
        }
    }
}

// --- WAV ---

fn wav_fault(bytes: &[u8]) -> String {
    match wav::decode(bytes) {
        Err(EngineError::InvalidState(text)) => text,
        other => panic!("expected a fault, got {other:?}"),
    }
}

fn riff(format: Option<[u16; 4]>, data: Option<&[u8]>) -> Vec<u8> {
    let mut out = b"RIFF\0\0\0\0WAVE".to_vec();
    if let Some([tag, channels, rate, bits]) = format {
        out.extend_from_slice(b"fmt ");
        out.extend_from_slice(&16u32.to_le_bytes());
        out.extend_from_slice(&tag.to_le_bytes());
        out.extend_from_slice(&channels.to_le_bytes());
        out.extend_from_slice(&(rate as u32).to_le_bytes());
        out.extend_from_slice(&[0; 6]);
        out.extend_from_slice(&bits.to_le_bytes());
    }
    if let Some(data) = data {
        out.extend_from_slice(b"data");
        out.extend_from_slice(&(data.len() as u32).to_le_bytes());
        out.extend_from_slice(data);
    }
    out
}

#[test]
fn wav_faults_are_told_apart() {
    assert_eq!(
        wav_fault(b"RI"),
        "unexpected end of file: wanted 4 bytes at offset 0, 2 remain"
    );
    assert_eq!(wav_fault(b"RIFX\0\0\0\0WAVE"), "not a RIFF file (missing \"RIFF\" magic)");
    assert_eq!(
        wav_fault(b"RIFF\0\0\0\0AVI "),
        "RIFF file is not a WAVE (missing \"WAVE\" form type)"
    );
    let usual = Some([1, 1, 8000, 16]);
    assert_eq!(wav_fault(&riff(None, Some(&[0, 0]))), "WAVE file has no \"fmt \" chunk");
    assert_eq!(wav_fault(&riff(usual, None)), "WAVE file has no \"data\" chunk");
    let fault = |format: [u16; 4]| wav_fault(&riff(Some(format), Some(&[0, 0])));
    assert_eq!(fault([1, 0, 8000, 16]), "WAVE format declares 0 channels");
    assert_eq!(fault([1, 1, 0, 16]), "WAVE format declares a sample rate of 0");
    assert_eq!(
        fault([0x55, 1, 8000, 16]),
        "unsupported WAVE format tag 0x0055 (only PCM 0x0001 and IEEE float 0x0003 are decoded)"
    );
    assert_eq!(
        fault([3, 1, 8000, 16]),
        "unsupported sample width: 16 bits for format tag 0x0003"
    );
}

/// Other chunks are skipped, with their padding.
#[test]
fn other_wav_chunks_are_skipped() {
    let plain = riff(Some([1, 1, 8000, 8]), Some(&[0, 128, 255]));
    let mut padded = plain[..12].to_vec();
    padded.extend_from_slice(b"LIST\x03\0\0\0abc\0");
    padded.extend_from_slice(&plain[12..]);
    let (a, b) = (wav::decode(&plain).unwrap(), wav::decode(&padded).unwrap());
    assert_eq!(a.samples, b.samples);
    assert_eq!(a.samples[0], wav::Sample::Fraction { value: -128, scale: 128 });
    assert_eq!(a.samples[2], wav::Sample::Fraction { value: 127, scale: 128 });
}

#[test]
fn wide_samples_keep_their_values() {
    let samples = |tag: u16, bits: u16, data: &[u8]| {
        wav::decode(&riff(Some([tag, 1, 8000, bits]), Some(data))).unwrap().samples
    };
    assert_eq!(
        samples(1, 32, &i32::MIN.to_le_bytes()),
        [wav::Sample::Fraction { value: -2_147_483_648, scale: 2_147_483_648 }]
    );
    assert_eq!(
        samples(3, 64, &0.25f64.to_le_bytes()),
        [wav::Sample::Double(0.25f64.to_bits())]
    );
}

// --- OBJ ---

fn obj_fault(source: &str) -> String {
    match obj::parse(source) {
        Err(EngineError::InvalidState(text)) => text,
        other => panic!("expected a fault, got {other:?}"),
    }
}

#[test]
fn obj_faults_name_their_line() {
    assert!(obj_fault("v 1 2").contains("vertex needs at least three coordinates"));
    assert!(obj_fault("\nvn 1 2").contains("line 2"));
    assert!(obj_fault("vn 1 2").contains("normal needs three components"));
    assert!(obj_fault("vt").contains("texture coordinate needs at least one value"));
    assert!(obj_fault("v 1 \"x\\ 3").contains("expected a number, found \"\\\"x\\\\\""));
}

#[test]
fn face_indices_count_from_either_end() {
    assert_eq!(obj::resolve_index(1, 3), Some(0));
    assert_eq!(obj::resolve_index(3, 3), Some(2));
    assert_eq!(obj::resolve_index(-1, 3), Some(2));
    assert_eq!(obj::resolve_index(-3, 3), Some(0));
    for outside in [0, 4, -4, i64::MIN, i64::MAX] {
        assert_eq!(obj::resolve_index(outside, 3), None);
    }
}

#[test]
fn the_last_name_is_kept() {
    let model = obj::parse("o first\nv 0 0 0\nf 1 1 1\no last one\n").unwrap();
    assert_eq!(model.name.as_deref(), Some("last one"));
}

// --- JSON ---

fn json_fault(source: &str) -> String {
    match json::parse(source) {
        Err(EngineError::InvalidState(text)) => text,
        other => panic!("expected a fault, got {other:?}"),
    }
}

#[test]
fn json_faults_say_what_was_expected() {
    assert_eq!(
        json_fault("[1 2]"),
        "json parse error at byte offset 3: expected `,` or `]` in array, found `2`"
    );
    assert_eq!(
        json_fault("nul"),
        "json parse error at byte offset 0: expected the literal `null`, found `n`"
    );
    assert!(json_fault("\"\\ud800x\"").contains("a low surrogate escape completing the pair"));
    assert!(json_fault("[\u{e9}]").contains("byte 0xc3"));
    assert!(json_fault(&"[".repeat(json::MAX_DEPTH + 1)).contains("nesting depth exceeds"));
}

#[test]
fn error_kinds_are_named() {
    assert_eq!(EngineError::Graphics("lost".to_string()).message(), "graphics error: lost");
    assert_eq!(EngineError::Platform("gone".to_string()).message(), "platform error: gone");
    assert_eq!(EngineError::InvalidState("bad".to_string()).message(), "invalid state: bad");
    assert_eq!(EngineError::Io("shut".to_string()).message(), "io error: shut");
    assert_eq!(EngineError::Shader("line 3".to_string()).message(), "shader error: line 3");
}
