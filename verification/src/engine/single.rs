//! Comparison of single-precision numbers held as bit patterns.

use vstd::prelude::*;

verus! {

/// The bit pattern of positive infinity.
pub const INFINITY: u32 = 0x7f80_0000;

/// The magnitude bits: everything but the sign.
pub open spec fn magnitude(bits: u32) -> int {
    bits as int % 0x8000_0000
}

/// The pattern stands for no number.
pub open spec fn is_nan(bits: u32) -> bool {
    magnitude(bits) > INFINITY
}

/// The pattern stands for a number, and not for an infinity.
pub open spec fn is_finite(bits: u32) -> bool {
    magnitude(bits) < INFINITY
}

/// An integer that orders the numbers as they are ordered: magnitudes grow with
/// their bits, and both zeros are zero.
pub open spec fn rank(bits: u32) -> int {
    if bits < 0x8000_0000 {
        magnitude(bits)
    } else {
        -magnitude(bits)
    }
}

/// `a < b`, which is false where either is not a number.
pub open spec fn below(a: u32, b: u32) -> bool {
    !is_nan(a) && !is_nan(b) && rank(a) < rank(b)
}

fn rank_of(bits: u32) -> (r: i64)
    ensures
        r == rank(bits),
{
    if bits < 0x8000_0000 {
        bits as i64
    } else {
        -((bits - 0x8000_0000) as i64)
    }
}

/// Whether a pattern stands for no number.
pub fn not_a_number(bits: u32) -> (r: bool)
    ensures
        r == is_nan(bits),
{
    bits % 0x8000_0000 > INFINITY
}

/// Whether a pattern stands for a finite number.
pub fn finite(bits: u32) -> (r: bool)
    ensures
        r == is_finite(bits),
{
    bits % 0x8000_0000 < INFINITY
}

/// Whether `a < b`.
pub fn is_less(a: u32, b: u32) -> (r: bool)
    ensures
        r == below(a, b),
{
    !not_a_number(a) && !not_a_number(b) && rank_of(a) < rank_of(b)
}

/// The larger of a number and a floor that is a number; the floor where the
/// first is no number.
pub open spec fn at_least(bits: u32, floor: u32) -> u32 {
    if below(floor, bits) {
        bits
    } else {
        floor
    }
}

/// The larger of a number and a floor.
pub fn raise_to(bits: u32, floor: u32) -> (r: u32)
    ensures
        r == at_least(bits, floor),
{
    if is_less(floor, bits) {
        bits
    } else {
        floor
    }
}

} // verus!
