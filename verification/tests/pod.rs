//! Plain values as bytes.

use astraglyph::engine::pod::{cast_bytes, cast_slice, cast_slice_in, order_told, ByteOrder};

#[test]
fn cast_slice_f32() {
    let data = [1.0f32, 2.0, 3.0].map(f32::to_bits);
    let bytes = cast_slice(&data);
    assert_eq!(bytes.len(), 12);
    assert_eq!(bytes[..4], 1.0f32.to_ne_bytes());
}

#[test]
fn cast_bytes_single() {
    let val = 42u32;
    let bytes = cast_bytes(&val);
    assert_eq!(bytes.len(), 4);
    assert_eq!(bytes, 42u32.to_ne_bytes());
}

/// Numbers are laid out as the machine stores them.
#[test]
fn every_width_is_in_the_machines_order() {
    assert_eq!(cast_bytes(&0xABu8), [0xAB]);
    assert_eq!(cast_bytes(&0x1234u16), 0x1234u16.to_ne_bytes());
    assert_eq!(cast_bytes(&0x1234_5678u32), 0x1234_5678u32.to_ne_bytes());
    assert_eq!(cast_bytes(&-2i32), (-2i32).to_ne_bytes());
    let words: Vec<u8> = [1u16, 0x0203].iter().flat_map(|n| n.to_ne_bytes()).collect();
    assert_eq!(cast_slice(&[1u16, 0x0203]), words);
    assert_eq!(cast_slice::<u32>(&[]), []);
}

#[test]
fn either_order_can_be_asked_for() {
    assert_eq!(cast_slice_in(&[0x1234u16, 5], ByteOrder::Little), [0x34, 0x12, 5, 0]);
    assert_eq!(cast_slice_in(&[0x1234u16, 5], ByteOrder::Big), [0x12, 0x34, 0, 5]);
    assert_eq!(cast_slice_in(&[0x1234_5678u32], ByteOrder::Little), [0x78, 0x56, 0x34, 0x12]);
    assert_eq!(cast_slice_in(&[0x1234_5678u32], ByteOrder::Big), [0x12, 0x34, 0x56, 0x78]);
    assert_eq!(cast_slice_in(&[-2i32], ByteOrder::Big), (-2i32).to_be_bytes());
    assert_eq!(cast_slice_in(&[1u8, 2], ByteOrder::Big), [1, 2]);
    assert_eq!(order_told([1, 0]), ByteOrder::Little);
    assert_eq!(order_told([0, 1]), ByteOrder::Big);
}

/// The bytes of a joined slice are the joined bytes.
#[test]
fn bytes_concatenate() {
    let mut joined = cast_slice(&[1u32, 2]);
    joined.extend(cast_slice(&[3u32]));
    assert_eq!(cast_slice(&[1u32, 2, 3]), joined);
}
