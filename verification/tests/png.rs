//! PNG decoding, from the container down to the compressed stream.

use astraglyph::assets::inflate::{fixed_tables, inflate, inflate_zlib, Huffman, MAX_INFLATED};
use astraglyph::assets::png::{decode, paeth, Image, SIGNATURE};

/// A 16x16 checkerboard of gradients, compressed with dynamic Huffman codes.
const BOARD: [u8; 484] = [
    0x89, 0x50, 0x4E, 0x47, 0x0D, 0x0A, 0x1A, 0x0A, 0x00, 0x00, 0x00, 0x0D, 0x49, 0x48, 0x44, 0x52,
    0x00, 0x00, 0x00, 0x10, 0x00, 0x00, 0x00, 0x10, 0x08, 0x06, 0x00, 0x00, 0x00, 0x1F, 0xF3, 0xFF,
    0x61, 0x00, 0x00, 0x01, 0xAB, 0x49, 0x44, 0x41, 0x54, 0x78, 0xDA, 0x1D, 0xD1, 0x31, 0xB5, 0xC5,
    0x20, 0x14, 0x45, 0xC1, 0x48, 0x88, 0x04, 0x24, 0x20, 0xE1, 0x49, 0x88, 0x04, 0x24, 0x20, 0x21,
    0x12, 0x22, 0x21, 0x12, 0x90, 0x40, 0xF9, 0x4B, 0x24, 0x20, 0x01, 0x07, 0xF7, 0x4F, 0x28, 0x76,
    0x73, 0x58, 0x99, 0xE2, 0xE6, 0x88, 0xE3, 0x88, 0x38, 0x95, 0x94, 0x8F, 0x38, 0xE2, 0xF7, 0x77,
    0xC4, 0xA5, 0xA2, 0xFA, 0x17, 0xB7, 0xFD, 0xD1, 0xAB, 0xF6, 0xBD, 0x77, 0xFB, 0xD0, 0xD4, 0xD2,
    0x71, 0x02, 0x94, 0x94, 0xCF, 0x38, 0x01, 0x27, 0xE0, 0x04, 0x9C, 0x1B, 0xB0, 0x3F, 0x7A, 0xD5,
    0xBE, 0xF7, 0x6E, 0x1F, 0x9A, 0xDA, 0x40, 0x02, 0x28, 0x29, 0xA7, 0x48, 0x80, 0x04, 0x48, 0x80,
    0xB4, 0x01, 0xFB, 0xA3, 0x57, 0xED, 0x7B, 0xEF, 0xF6, 0xA1, 0xA9, 0x0D, 0x64, 0x80, 0x92, 0x72,
    0x8E, 0x0C, 0xC8, 0x80, 0x0C, 0xC8, 0x1B, 0xB0, 0x3F, 0x7A, 0xD5, 0xBE, 0xF7, 0x6E, 0x1F, 0x9A,
    0x02, 0xFC, 0xE2, 0xF8, 0xFB, 0xC5, 0xA9, 0xA4, 0xFC, 0x17, 0xBF, 0x5F, 0xC4, 0xA5, 0xA2, 0xFA,
    0x8B, 0x5F, 0xDC, 0xF6, 0x47, 0xAF, 0xDA, 0x5F, 0x74, 0xFB, 0xD0, 0xD4, 0xF2, 0xF5, 0x05, 0xB8,
    0x00, 0x17, 0xE0, 0xDA, 0xC0, 0x05, 0x50, 0x51, 0xBD, 0xE2, 0x02, 0x5C, 0x80, 0x0B, 0x70, 0x6D,
    0xC0, 0x3E, 0x34, 0xB5, 0x7C, 0x5D, 0x00, 0x05, 0x50, 0x00, 0x65, 0x03, 0x05, 0xA0, 0xA2, 0x5A,
    0xA2, 0x00, 0x0A, 0xA0, 0x00, 0xCA, 0x06, 0xEC, 0x43, 0x53, 0xCB, 0xD7, 0x15, 0x50, 0x01, 0x15,
    0x50, 0x37, 0x50, 0x01, 0x2A, 0xAA, 0x35, 0x2A, 0xA0, 0x02, 0x2A, 0xA0, 0x6E, 0xC0, 0x3E, 0x34,
    0xB5, 0x7C, 0x1D, 0xC7, 0xED, 0x88, 0x4A, 0xCA, 0x77, 0xDC, 0x8E, 0x78, 0x3B, 0xE2, 0xED, 0x88,
    0xF7, 0x3E, 0xA2, 0xFD, 0xD1, 0xAB, 0xF6, 0xBD, 0x77, 0xFB, 0xD0, 0xD4, 0xFE, 0x0B, 0x0F, 0x40,
    0x49, 0xF9, 0x89, 0x07, 0xF0, 0x00, 0x1E, 0xC0, 0xB3, 0x01, 0xFB, 0xA3, 0x57, 0xED, 0x7B, 0xEF,
    0xF6, 0xA1, 0xA9, 0x0D, 0xBC, 0x00, 0x25, 0xE5, 0x37, 0x5E, 0xC0, 0x0B, 0x78, 0x01, 0xEF, 0x06,
    0xEC, 0x8F, 0x5E, 0xB5, 0xEF, 0xBD, 0xDB, 0x87, 0xA6, 0x36, 0xD0, 0x00, 0x4A, 0xCA, 0x2D, 0x1A,
    0xA0, 0x01, 0x1A, 0xA0, 0x6D, 0xC0, 0xFE, 0xE8, 0x55, 0xFB, 0xDE, 0xBB, 0x7D, 0x68, 0x0A, 0xD0,
    0x1D, 0xB1, 0x3B, 0x62, 0x77, 0xC4, 0xBE, 0x8F, 0xD8, 0x1D, 0x51, 0x45, 0xB5, 0x47, 0x77, 0xC4,
    0xEE, 0x88, 0xDD, 0x11, 0xFB, 0x3E, 0xA2, 0x7D, 0x68, 0x6A, 0xF9, 0x7A, 0x00, 0x06, 0x60, 0x00,
    0xC6, 0x06, 0x06, 0x40, 0x45, 0x75, 0xC4, 0x00, 0x0C, 0xC0, 0x00, 0x8C, 0x0D, 0xD8, 0x87, 0xA6,
    0x96, 0xAF, 0x27, 0x60, 0x02, 0x26, 0x60, 0x6E, 0x60, 0x02, 0x54, 0x54, 0x67, 0x4C, 0xC0, 0x04,
    0x4C, 0xC0, 0xDC, 0x80, 0x7D, 0x68, 0x6A, 0xF9, 0x7A, 0x01, 0x16, 0x60, 0x01, 0xD6, 0x06, 0x16,
    0x40, 0x45, 0x75, 0xC5, 0x02, 0x2C, 0xC0, 0x02, 0xAC, 0x0D, 0xD8, 0x87, 0xA6, 0xD6, 0x8A, 0x7F,
    0x2A, 0x70, 0xD2, 0x9F, 0xC6, 0x93, 0x76, 0x6C, 0x00, 0x00, 0x00, 0x00, 0x49, 0x45, 0x4E, 0x44,
    0xAE, 0x42, 0x60, 0x82,
];

/// Build a PNG with a stored (uncompressed) DEFLATE block, so the tests exercise
/// the container, filters and colour conversion without needing a compressor.
fn build_png(
    width: u32,
    height: u32,
    color_type: u8,
    bit_depth: u8,
    scanlines: &[Vec<u8>],
    extra_chunks: &[(&[u8; 4], Vec<u8>)],
) -> Vec<u8> {
    let mut raw = Vec::new();
    for line in scanlines {
        raw.extend_from_slice(line);
    }

    // zlib header, then one stored block.
    let mut zlib = vec![0x78, 0x01];
    zlib.push(0x01); // final, stored
    zlib.extend_from_slice(&(raw.len() as u16).to_le_bytes());
    zlib.extend_from_slice(&(!(raw.len() as u16)).to_le_bytes());
    zlib.extend_from_slice(&raw);
    // Adler-32, which the decoder does not verify but a real file has.
    zlib.extend_from_slice(&adler32(&raw).to_be_bytes());

    let mut out = Vec::new();
    out.extend_from_slice(&SIGNATURE);

    let mut ihdr = Vec::new();
    ihdr.extend_from_slice(&width.to_be_bytes());
    ihdr.extend_from_slice(&height.to_be_bytes());
    ihdr.push(bit_depth);
    ihdr.push(color_type);
    ihdr.extend_from_slice(&[0, 0, 0]); // compression, filter, interlace
    push_chunk(&mut out, b"IHDR", &ihdr);

    for (kind, data) in extra_chunks {
        push_chunk(&mut out, kind, data);
    }
    push_chunk(&mut out, b"IDAT", &zlib);
    push_chunk(&mut out, b"IEND", &[]);
    out
}

fn push_chunk(out: &mut Vec<u8>, kind: &[u8; 4], data: &[u8]) {
    out.extend_from_slice(&(data.len() as u32).to_be_bytes());
    out.extend_from_slice(kind);
    out.extend_from_slice(data);
    // A plausible CRC placeholder; the decoder does not verify it.
    out.extend_from_slice(&[0, 0, 0, 0]);
}

fn adler32(data: &[u8]) -> u32 {
    let mut a = 1u32;
    let mut b = 0u32;
    for byte in data {
        a = (a + *byte as u32) % 65521;
        b = (b + a) % 65521;
    }
    (b << 16) | a
}

// --- container ---

#[test]
fn decodes_a_two_by_two_rgba_image() {
    // Filter 0 (none) on each line.
    let scanlines = vec![
        vec![0, 255, 0, 0, 255, 0, 255, 0, 255],
        vec![0, 0, 0, 255, 255, 255, 255, 255, 255],
    ];
    let png = build_png(2, 2, 6, 8, &scanlines, &[]);
    let image = decode(&png).expect("should decode");
    assert_eq!((image.width, image.height), (2, 2));
    assert_eq!(image.pixel(0, 0), Some([255, 0, 0, 255]));
    assert_eq!(image.pixel(1, 0), Some([0, 255, 0, 255]));
    assert_eq!(image.pixel(0, 1), Some([0, 0, 255, 255]));
    assert_eq!(image.pixel(1, 1), Some([255, 255, 255, 255]));
}

#[test]
fn a_non_png_is_rejected() {
    assert!(decode(b"not a png").is_err());
    assert!(decode(&[]).is_err());
    // Right signature, nothing else.
    assert!(decode(&SIGNATURE).is_err());
}

#[test]
fn a_missing_ihdr_or_idat_is_an_error() {
    let mut no_ihdr = Vec::new();
    no_ihdr.extend_from_slice(&SIGNATURE);
    push_chunk(&mut no_ihdr, b"IEND", &[]);
    assert!(decode(&no_ihdr).is_err());

    // IHDR but no IDAT.
    let mut no_idat = Vec::new();
    no_idat.extend_from_slice(&SIGNATURE);
    let mut ihdr = Vec::new();
    ihdr.extend_from_slice(&1u32.to_be_bytes());
    ihdr.extend_from_slice(&1u32.to_be_bytes());
    ihdr.extend_from_slice(&[8, 6, 0, 0, 0]);
    push_chunk(&mut no_idat, b"IHDR", &ihdr);
    push_chunk(&mut no_idat, b"IEND", &[]);
    assert!(decode(&no_idat).is_err());
}

/// Unknown chunks must be skipped, not fatal — real files carry gAMA, sRGB,
/// pHYs, tEXt and more, and a decoder that choked on them would load almost
/// nothing.
#[test]
fn unknown_chunks_are_skipped() {
    let scanlines = vec![vec![0, 10, 20, 30, 255]];
    let png = build_png(
        1,
        1,
        6,
        8,
        &scanlines,
        &[
            (b"gAMA", vec![0, 1, 2, 3]),
            (b"tEXt", b"Comment\0made by a test".to_vec()),
        ],
    );
    let image = decode(&png).expect("unknown chunks must not be fatal");
    assert_eq!(image.pixel(0, 0), Some([10, 20, 30, 255]));
}

/// A malformed header must not be able to request a huge allocation.
#[test]
fn absurd_dimensions_are_rejected() {
    let scanlines = vec![vec![0, 0, 0, 0, 0]];
    let png = build_png(100_000, 100_000, 6, 8, &scanlines, &[]);
    assert!(decode(&png).is_err());
    let zero = build_png(0, 1, 6, 8, &scanlines, &[]);
    assert!(decode(&zero).is_err());
}

/// Sub-byte depths are rejected by name rather than decoded into noise.
#[test]
fn unsupported_bit_depths_say_so() {
    let scanlines = vec![vec![0, 0]];
    for depth in [1u8, 2, 4] {
        let png = build_png(1, 1, 0, depth, &scanlines, &[]);
        let e = decode(&png).unwrap_err();
        assert!(
            e.message().contains(&depth.to_string()),
            "the error should name the depth: {e:?}"
        );
    }
}

#[test]
fn an_unknown_colour_type_is_rejected() {
    let scanlines = vec![vec![0, 0]];
    let png = build_png(1, 1, 7, 8, &scanlines, &[]);
    assert!(decode(&png).is_err());
}

// --- colour types ---

#[test]
fn greyscale_expands_to_rgb() {
    let scanlines = vec![vec![0, 128]];
    let png = build_png(1, 1, 0, 8, &scanlines, &[]);
    assert_eq!(decode(&png).unwrap().pixel(0, 0), Some([128, 128, 128, 255]));
}

#[test]
fn greyscale_with_alpha_keeps_its_alpha() {
    let scanlines = vec![vec![0, 200, 64]];
    let png = build_png(1, 1, 4, 8, &scanlines, &[]);
    assert_eq!(decode(&png).unwrap().pixel(0, 0), Some([200, 200, 200, 64]));
}

#[test]
fn rgb_gets_an_opaque_alpha() {
    let scanlines = vec![vec![0, 1, 2, 3]];
    let png = build_png(1, 1, 2, 8, &scanlines, &[]);
    assert_eq!(decode(&png).unwrap().pixel(0, 0), Some([1, 2, 3, 255]));
}

#[test]
fn a_palette_image_looks_up_its_colours() {
    let palette = vec![255, 0, 0, 0, 255, 0, 0, 0, 255];
    let scanlines = vec![vec![0, 2, 0, 1]];
    let png = build_png(3, 1, 3, 8, &scanlines, &[(b"PLTE", palette)]);
    let image = decode(&png).unwrap();
    assert_eq!(image.pixel(0, 0), Some([0, 0, 255, 255]));
    assert_eq!(image.pixel(1, 0), Some([255, 0, 0, 255]));
    assert_eq!(image.pixel(2, 0), Some([0, 255, 0, 255]));
}

/// Ignoring tRNS makes every transparent pixel opaque — for a UI texture, the
/// difference between a sprite and a rectangle.
#[test]
fn a_palette_images_transparency_chunk_is_honoured() {
    let palette = vec![255, 0, 0, 0, 255, 0];
    let scanlines = vec![vec![0, 0, 1]];
    let png = build_png(
        2,
        1,
        3,
        8,
        &scanlines,
        &[(b"PLTE", palette), (b"tRNS", vec![0, 128])],
    );
    let image = decode(&png).unwrap();
    assert_eq!(image.pixel(0, 0), Some([255, 0, 0, 0]), "entry 0 is transparent");
    assert_eq!(image.pixel(1, 0), Some([0, 255, 0, 128]));
}

#[test]
fn palette_entries_beyond_the_trns_array_are_opaque() {
    let palette = vec![1, 2, 3, 4, 5, 6];
    let scanlines = vec![vec![0, 1]];
    let png = build_png(
        1,
        1,
        3,
        8,
        &scanlines,
        &[(b"PLTE", palette), (b"tRNS", vec![0])],
    );
    assert_eq!(decode(&png).unwrap().pixel(0, 0), Some([4, 5, 6, 255]));
}

/// 16-bit samples are reduced by taking the high byte. Reading the low byte gives
/// an image that looks like noise.
#[test]
fn sixteen_bit_samples_are_reduced_to_their_high_byte() {
    // One RGBA pixel at 16 bits per channel: 0x1122, 0x3344, 0x5566, 0xFFFF.
    let scanlines = vec![vec![
        0, 0x11, 0x22, 0x33, 0x44, 0x55, 0x66, 0xFF, 0xFF,
    ]];
    let png = build_png(1, 1, 6, 16, &scanlines, &[]);
    assert_eq!(
        decode(&png).unwrap().pixel(0, 0),
        Some([0x11, 0x33, 0x55, 0xFF])
    );
}

// --- filters ---

#[test]
fn filter_sub_adds_the_pixel_to_its_left() {
    // Two RGB pixels: the first raw, the second a delta from it.
    let scanlines = vec![vec![1, 10, 20, 30, 5, 5, 5]];
    let png = build_png(2, 1, 2, 8, &scanlines, &[]);
    let image = decode(&png).unwrap();
    assert_eq!(image.pixel(0, 0), Some([10, 20, 30, 255]));
    assert_eq!(
        image.pixel(1, 0),
        Some([15, 25, 35, 255]),
        "Sub must add the pixel one PIXEL to the left, not one byte"
    );
}

/// The distance is one *pixel*. One byte back would smear channels together, and
/// on a greyscale image the two are indistinguishable — hence RGB here.
#[test]
fn the_sub_filter_distance_is_one_pixel_not_one_byte() {
    let scanlines = vec![vec![1, 100, 0, 0, 1, 0, 0]];
    let png = build_png(2, 1, 2, 8, &scanlines, &[]);
    let image = decode(&png).unwrap();
    // Correct: R = 100 + 1 = 101, G = 0 + 0, B = 0 + 0.
    // Byte-distance would give R = 101, G = 101, B = 101.
    assert_eq!(image.pixel(1, 0), Some([101, 0, 0, 255]));
}

#[test]
fn filter_up_adds_the_pixel_above() {
    let scanlines = vec![
        vec![0, 10, 20, 30],
        vec![2, 5, 5, 5],
    ];
    let png = build_png(1, 2, 2, 8, &scanlines, &[]);
    let image = decode(&png).unwrap();
    assert_eq!(image.pixel(0, 0), Some([10, 20, 30, 255]));
    assert_eq!(image.pixel(0, 1), Some([15, 25, 35, 255]));
}

#[test]
fn filters_chain_through_reconstructed_rows_not_raw_ones() {
    // Each row is Up(+10) on the one above, over four rows. If the raw row were
    // used, every row after the first would read 10 rather than accumulating.
    let scanlines = vec![
        vec![0, 10, 10, 10],
        vec![2, 10, 10, 10],
        vec![2, 10, 10, 10],
        vec![2, 10, 10, 10],
    ];
    let png = build_png(1, 4, 2, 8, &scanlines, &[]);
    let image = decode(&png).unwrap();
    for y in 0..4u32 {
        let expected = 10 * (y as u8 + 1);
        assert_eq!(
            image.pixel(0, y),
            Some([expected, expected, expected, 255]),
            "row {y} should have accumulated to {expected}"
        );
    }
}

/// Average sums in 16 bits before halving. In u8 the sum would overflow and halve
/// the wrong number, which shows up only when a + b exceeds 255.
#[test]
fn filter_average_does_not_overflow() {
    let scanlines = vec![
        vec![0, 200, 200, 200],
        // Average of left (0, no left pixel) and above (200) is 100.
        vec![3, 0, 0, 0],
    ];
    let png = build_png(1, 2, 2, 8, &scanlines, &[]);
    let image = decode(&png).unwrap();
    assert_eq!(image.pixel(0, 1), Some([100, 100, 100, 255]));
}

#[test]
fn paeth_matches_its_specification() {
    // p = a + b - c; pick whichever of a, b, c is nearest, with a winning ties.
    assert_eq!(paeth(10, 20, 15), 15, "p = 15, exactly c");
    assert_eq!(paeth(0, 0, 0), 0);
    assert_eq!(paeth(255, 0, 0), 255, "p = 255, nearest is a");
    assert_eq!(paeth(0, 255, 0), 255, "p = 255, nearest is b");
    // Ties go to a, then b: a and b equidistant from p means a.
    assert_eq!(paeth(10, 20, 30), 10, "p = 0; |0-10| = 10, |0-20| = 20 -> a");
    // And the arithmetic must not wrap: a + b can exceed 255.
    let result = paeth(200, 200, 100);
    assert!(result == 200, "p = 300; nearest of a/b/c is a or b, got {result}");
}

#[test]
fn filter_paeth_round_trips_through_the_decoder() {
    let scanlines = vec![
        vec![0, 50, 50, 50],
        vec![4, 10, 10, 10],
    ];
    let png = build_png(1, 2, 2, 8, &scanlines, &[]);
    let image = decode(&png).unwrap();
    // Row 1: a = 0 (no left), b = 50, c = 0. p = 50, nearest is b -> 50.
    // 10 + 50 = 60.
    assert_eq!(image.pixel(0, 1), Some([60, 60, 60, 255]));
}

#[test]
fn an_unknown_filter_type_is_an_error() {
    let scanlines = vec![vec![9, 0, 0, 0]];
    let png = build_png(1, 1, 2, 8, &scanlines, &[]);
    let e = decode(&png).unwrap_err();
    assert!(e.message().contains("filter"), "{e:?}");
}

// --- DEFLATE ---

#[test]
fn a_stored_deflate_block_round_trips() {
    let payload = b"hello deflate";
    let mut stream = vec![0x01];
    stream.extend_from_slice(&(payload.len() as u16).to_le_bytes());
    stream.extend_from_slice(&(!(payload.len() as u16)).to_le_bytes());
    stream.extend_from_slice(payload);
    assert_eq!(inflate(&stream).unwrap(), payload);
}

#[test]
fn a_stored_block_with_a_bad_complement_is_rejected() {
    let mut stream = vec![0x01];
    stream.extend_from_slice(&5u16.to_le_bytes());
    stream.extend_from_slice(&999u16.to_le_bytes()); // wrong
    stream.extend_from_slice(b"hello");
    assert!(inflate(&stream).is_err());
}

#[test]
fn the_fixed_huffman_tables_build() {
    let (literal, distance) = fixed_tables().expect("fixed tables must be valid");
    // 288 literal symbols, 30 distance symbols.
    assert_eq!(literal.symbols.len(), 288);
    assert_eq!(distance.symbols.len(), 30);
}

/// The zlib wrapper is checked before the DEFLATE stream, so a non-DEFLATE or
/// corrupt header fails with a message about the wrapper rather than a confusing
/// Huffman error.
#[test]
fn a_bad_zlib_header_is_rejected() {
    assert!(inflate_zlib(&[]).is_err());
    assert!(inflate_zlib(&[0x00, 0x00]).is_err(), "method 0 is not DEFLATE");
    assert!(
        inflate_zlib(&[0x78, 0x00]).is_err(),
        "0x7800 is not a multiple of 31"
    );
    // Preset dictionary bit set.
    assert!(inflate_zlib(&[0x78, 0xBB]).is_err());
}

#[test]
fn an_invalid_block_type_is_rejected() {
    // Type 3 is reserved: bit 0 = final, bits 1-2 = 11.
    assert!(inflate(&[0b0000_0111]).is_err());
}

/// A crafted stream can expand almost without bound. This is a decoder for
/// untrusted files, so the output has to be capped.
#[test]
fn the_inflate_output_is_bounded() {
    assert!(
        MAX_INFLATED >= 16 * 1024 * 1024,
        "the cap must leave room for a real texture"
    );
    assert!(
        MAX_INFLATED <= 512 * 1024 * 1024,
        "the cap must be low enough to matter"
    );
}

/// Whatever a malformed file contains, the decoder must return rather than panic.
#[test]
fn png_malformed_input_never_panics() {
    let good = build_png(2, 2, 6, 8, &[vec![0; 9], vec![0; 9]], &[]);
    // Every truncation.
    for length in 0..good.len() {
        let _ = decode(&good[..length]);
    }
    // Every single-byte corruption in the header region.
    for index in 0..good.len().min(40) {
        let mut corrupt = good.clone();
        corrupt[index] = corrupt[index].wrapping_add(0x5A);
        let _ = decode(&corrupt);
    }
    // Random-looking garbage behind a valid signature.
    let mut garbage = SIGNATURE.to_vec();
    garbage.extend((0u8..250).cycle().take(500));
    let _ = decode(&garbage);
}

// --- interlacing ---

/// A decoder that ignored the interlace flag would produce a scrambled image
/// rather than an error, which is the worst outcome — so Adam7 is implemented and
/// tested rather than rejected.
#[test]
fn an_interlaced_image_reassembles() {
    // 8x8 greyscale, every pixel a distinct value, laid out by Adam7 pass.
    let width = 8u32;
    let height = 8u32;
    const PASSES: [(u32, u32, u32, u32); 7] = [
        (0, 0, 8, 8),
        (4, 0, 8, 8),
        (0, 4, 4, 8),
        (2, 0, 4, 4),
        (0, 2, 2, 4),
        (1, 0, 2, 2),
        (0, 1, 1, 2),
    ];
    // The value at (x, y) is y * 8 + x, so a scrambled result is obvious.
    let value = |x: u32, y: u32| (y * width + x) as u8;
    let mut raw: Vec<u8> = Vec::new();
    for (x_start, y_start, x_step, y_step) in PASSES {
        let pass_width = width.saturating_sub(x_start).div_ceil(x_step);
        let pass_height = height.saturating_sub(y_start).div_ceil(y_step);
        if pass_width == 0 || pass_height == 0 {
            continue;
        }
        for sy in 0..pass_height {
            raw.push(0); // filter: none
            for sx in 0..pass_width {
                raw.push(value(x_start + sx * x_step, y_start + sy * y_step));
            }
        }
    }

    // Build it by hand, with the interlace byte set.
    let mut zlib = vec![0x78, 0x01, 0x01];
    zlib.extend_from_slice(&(raw.len() as u16).to_le_bytes());
    zlib.extend_from_slice(&(!(raw.len() as u16)).to_le_bytes());
    zlib.extend_from_slice(&raw);
    zlib.extend_from_slice(&adler32(&raw).to_be_bytes());

    let mut png = SIGNATURE.to_vec();
    let mut ihdr = Vec::new();
    ihdr.extend_from_slice(&width.to_be_bytes());
    ihdr.extend_from_slice(&height.to_be_bytes());
    ihdr.extend_from_slice(&[8, 0, 0, 0, 1]); // 8-bit grey, interlaced
    push_chunk(&mut png, b"IHDR", &ihdr);
    push_chunk(&mut png, b"IDAT", &zlib);
    push_chunk(&mut png, b"IEND", &[]);

    let image = decode(&png).expect("interlaced PNG should decode");
    for y in 0..height {
        for x in 0..width {
            let expected = value(x, y);
            assert_eq!(
                image.pixel(x, y),
                Some([expected, expected, expected, 255]),
                "pixel ({x}, {y}) came back wrong, so the passes were misplaced"
            );
        }
    }
}

/// A small image leaves some Adam7 passes empty, and those must be skipped rather
/// than read as zero-length scanlines.
#[test]
fn an_interlaced_image_smaller_than_the_pass_grid_decodes() {
    let raw = vec![0u8, 42]; // one pass, one pixel
    let mut zlib = vec![0x78, 0x01, 0x01];
    zlib.extend_from_slice(&(raw.len() as u16).to_le_bytes());
    zlib.extend_from_slice(&(!(raw.len() as u16)).to_le_bytes());
    zlib.extend_from_slice(&raw);
    zlib.extend_from_slice(&adler32(&raw).to_be_bytes());

    let mut png = SIGNATURE.to_vec();
    let mut ihdr = Vec::new();
    ihdr.extend_from_slice(&1u32.to_be_bytes());
    ihdr.extend_from_slice(&1u32.to_be_bytes());
    ihdr.extend_from_slice(&[8, 0, 0, 0, 1]);
    push_chunk(&mut png, b"IHDR", &ihdr);
    push_chunk(&mut png, b"IDAT", &zlib);
    push_chunk(&mut png, b"IEND", &[]);

    let image = decode(&png).expect("a 1x1 interlaced PNG should decode");
    assert_eq!(image.pixel(0, 0), Some([42, 42, 42, 255]));
}

// --- Image helpers ---

#[test]
fn a_solid_image_is_uniform() {
    let image = Image::solid(4, 3, [1, 2, 3, 4]);
    assert_eq!(image.byte_size(), 4 * 3 * 4);
    for y in 0..3 {
        for x in 0..4 {
            assert_eq!(image.pixel(x, y), Some([1, 2, 3, 4]));
        }
    }
}

#[test]
fn out_of_range_pixel_reads_are_none() {
    let image = Image::solid(2, 2, [0, 0, 0, 255]);
    assert!(image.pixel(2, 0).is_none());
    assert!(image.pixel(0, 2).is_none());
    assert!(image.pixel(99, 99).is_none());
}

// --- a real, really-compressed file ---

#[test]
fn a_real_compressed_png_decodes_to_its_known_pattern() {
    let bytes = BOARD;

    // The stream must really be Huffman-compressed: find the IDAT payload and
    // read its first block type.
    let idat_at = bytes
        .windows(4)
        .position(|w| w == b"IDAT")
        .expect("the picture must have an IDAT chunk");
    // Skip the chunk type and the two zlib header bytes.
    let block_type = (bytes[idat_at + 4 + 2] >> 1) & 0b11;
    assert_eq!(
        block_type, 2,
        "the picture must use dynamic Huffman blocks, not stored ones"
    );

    let image = decode(&bytes).expect("a real PNG should decode");
    assert_eq!((image.width, image.height), (16, 16));

    for y in 0..16u32 {
        for x in 0..16u32 {
            let expected = if (x / 4 + y / 4) % 2 == 0 {
                [255, (x * 16) as u8, (y * 16) as u8, 255]
            } else {
                [(y * 16) as u8, 255, (x * 16) as u8, 200]
            };
            assert_eq!(
                image.pixel(x, y),
                Some(expected),
                "pixel ({x}, {y}) decoded wrongly"
            );
        }
    }
}

#[test]
fn an_overlapping_back_reference_repeats_correctly() {
    // Fixed block: literal 'A' (code 0x41 -> 8 bits), then length code 257
    // (length 3), distance code 0 (distance 1), then end-of-block 256.
    let mut bits: Vec<u8> = Vec::new();
    let mut accumulator = 0u32;
    let mut count = 0u32;
    let push_bits = |value: u32, width: u32, bits: &mut Vec<u8>, acc: &mut u32, n: &mut u32| {
        for i in 0..width {
            let bit = (value >> i) & 1;
            *acc |= bit << *n;
            *n += 1;
            if *n == 8 {
                bits.push(*acc as u8);
                *acc = 0;
                *n = 0;
            }
        }
    };
    // Header: BFINAL = 1, BTYPE = 01 (fixed).
    push_bits(1, 1, &mut bits, &mut accumulator, &mut count);
    push_bits(1, 2, &mut bits, &mut accumulator, &mut count);
    // Literal 'A' (0x41 = 65): fixed code for 0..143 is 8 bits, value 0x30 + 65,
    // written MSB-first.
    let literal_code = 0x30u32 + 65;
    for i in (0..8).rev() {
        push_bits((literal_code >> i) & 1, 1, &mut bits, &mut accumulator, &mut count);
    }
    // Length symbol 257: fixed code for 256..279 is 7 bits, value symbol - 256.
    let length_code = 257u32 - 256;
    for i in (0..7).rev() {
        push_bits((length_code >> i) & 1, 1, &mut bits, &mut accumulator, &mut count);
    }
    // Distance symbol 0: five zero bits.
    for _ in 0..5 {
        push_bits(0, 1, &mut bits, &mut accumulator, &mut count);
    }
    // End of block, symbol 256: 7 bits of zero.
    for _ in 0..7 {
        push_bits(0, 1, &mut bits, &mut accumulator, &mut count);
    }
    if count > 0 {
        bits.push(accumulator as u8);
    }

    let out = inflate(&bits).expect("the hand-built stream should inflate");
    assert_eq!(
        out, b"AAAA",
        "a distance-1 length-3 match must repeat the literal, giving AAAA"
    );
}

/// IDAT may be split across chunks, and the compressed stream runs across the
/// boundaries — so they have to be concatenated before inflating. Inflating each
/// separately fails on the second one.
#[test]
fn idat_split_across_chunks_is_concatenated() {
    let raw = vec![0u8, 7, 8, 9];
    let mut zlib = vec![0x78, 0x01, 0x01];
    zlib.extend_from_slice(&(raw.len() as u16).to_le_bytes());
    zlib.extend_from_slice(&(!(raw.len() as u16)).to_le_bytes());
    zlib.extend_from_slice(&raw);
    zlib.extend_from_slice(&adler32(&raw).to_be_bytes());

    let mut png = SIGNATURE.to_vec();
    let mut ihdr = Vec::new();
    ihdr.extend_from_slice(&1u32.to_be_bytes());
    ihdr.extend_from_slice(&1u32.to_be_bytes());
    ihdr.extend_from_slice(&[8, 2, 0, 0, 0]);
    push_chunk(&mut png, b"IHDR", &ihdr);
    // Split the stream mid-way.
    let split = zlib.len() / 2;
    push_chunk(&mut png, b"IDAT", &zlib[..split]);
    push_chunk(&mut png, b"IDAT", &zlib[split..]);
    push_chunk(&mut png, b"IEND", &[]);

    let image = decode(&png).expect("split IDAT must be concatenated");
    assert_eq!(image.pixel(0, 0), Some([7, 8, 9, 255]));
}

/// An animated image is refused by the name of the chunk that says so, rather
/// than shown as its first frame. Chunks whose names merely look alike are not.
#[test]
fn animation_chunks_are_refused_by_name() {
    let scanlines = vec![vec![0, 10, 20, 30, 255]];
    for (kind, name) in [(b"acTL", "acTL"), (b"fcTL", "fcTL"), (b"fdAT", "fdAT")] {
        let png = build_png(1, 1, 6, 8, &scanlines, &[(kind, vec![0; 8])]);
        let fault = decode(&png).expect_err("an animation").message();
        assert_eq!(
            fault,
            format!(
                "invalid state: chunk \"{name}\" is part of an APNG animation, which is not \
                 supported"
            )
        );
    }
    let png = build_png(1, 1, 6, 8, &scanlines, &[(b"acTl", vec![0; 8]), (b"fdat", vec![])]);
    assert_eq!(decode(&png).expect("other chunks").pixel(0, 0), Some([10, 20, 30, 255]));
}

/// Slots of a table that no code uses hold 0.
#[test]
fn unused_huffman_slots_are_zero() {
    let table = Huffman::new(&[0, 2, 0, 1, 2]).expect("valid lengths");
    assert_eq!(table.symbols, [3, 1, 4, 0, 0]);
    assert_eq!(table.counts[..3], [0, 1, 2]);
}

/// Where the chunks of a file start, and where it ends.
fn chunk_starts(file: &[u8]) -> Vec<usize> {
    let mut starts = vec![8];
    while let Some(length) = file.get(starts[starts.len() - 1]..starts[starts.len() - 1] + 4) {
        let length = u32::from_be_bytes([length[0], length[1], length[2], length[3]]) as usize;
        starts.push(starts[starts.len() - 1] + 12 + length);
    }
    starts
}

/// Wherever an unknown chunk is put in, and wherever the image data is split,
/// the file decodes as it did.
#[test]
fn a_file_decodes_the_same_however_it_is_cut_into_chunks() {
    let scanlines = vec![vec![0, 10, 20, 30, 255, 1, 2, 3, 4], vec![1, 5, 6, 7, 8, 9, 10, 11, 12]];
    let file = build_png(2, 2, 6, 8, &scanlines, &[(b"gAMA", vec![0, 1, 2, 3])]);
    let image = decode(&file).expect("a plain file");
    let starts = chunk_starts(&file);
    assert_eq!(starts[starts.len() - 1], file.len());
    for start in &starts {
        let mut more = file[..*start].to_vec();
        push_chunk(&mut more, b"tEXt", b"anything");
        more.extend_from_slice(&file[*start..]);
        assert_eq!(decode(&more).expect("one chunk more"), image);
    }
    let at = *starts.iter().find(|at| &file[**at + 4..**at + 8] == b"IDAT").expect("image data");
    let length = u32::from_be_bytes([file[at], file[at + 1], file[at + 2], file[at + 3]]) as usize;
    let data = &file[at + 8..at + 8 + length];
    for k in 0..=length {
        let mut split = file[..at].to_vec();
        push_chunk(&mut split, b"IDAT", &data[..k]);
        push_chunk(&mut split, b"IDAT", &data[k..]);
        split.extend_from_slice(&file[at + 12 + length..]);
        assert_eq!(decode(&split).expect("split data"), image, "split at {k}");
    }
}
