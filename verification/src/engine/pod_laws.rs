//! The bytes of numbers, one by one.

use vstd::prelude::*;
use crate::engine::pod::{little_endian, ordered, ByteOrder, Pod};

verus! {

/// Four bytes of a number, the lowest first.
proof fn lemma_four(n: nat)
    ensures
        little_endian(n, 4) == seq![
            (n % 256) as u8,
            (n / 256 % 256) as u8,
            (n / 256 / 256 % 256) as u8,
            (n / 256 / 256 / 256 % 256) as u8,
        ],
        little_endian(n, 2) == seq![(n % 256) as u8, (n / 256 % 256) as u8],
{
    reveal_with_fuel(little_endian, 5);
    assert(little_endian(n, 4) =~= seq![
        (n % 256) as u8,
        (n / 256 % 256) as u8,
        (n / 256 / 256 % 256) as u8,
        (n / 256 / 256 / 256 % 256) as u8,
    ]);
    assert(little_endian(n, 2) =~= seq![(n % 256) as u8, (n / 256 % 256) as u8]);
}

/// A number of four bytes: the bytes stand for it, the lowest at the front in one order and
/// at the back in the other.
pub proof fn law_word_bytes(n: u32)
    ensures
        ({
            let a = n.bytes(ByteOrder::Little);
            let b = n.bytes(ByteOrder::Big);
            &&& a.len() == 4 && b.len() == 4
            &&& n == a[0] + 256 * a[1] + 65536 * a[2] + 16777216 * a[3]
            &&& n == b[3] + 256 * b[2] + 65536 * b[1] + 16777216 * b[0]
        }),
{
    lemma_four(n as nat);
}

/// The same with two bytes.
pub proof fn law_short_bytes(n: u16)
    ensures
        ({
            let a = n.bytes(ByteOrder::Little);
            let b = n.bytes(ByteOrder::Big);
            &&& a.len() == 2 && b.len() == 2
            &&& n == a[0] + 256 * a[1]
            &&& n == b[1] + 256 * b[0]
        }),
{
    lemma_four(n as nat);
}

/// A byte is itself in either order.
pub proof fn law_single_bytes(n: u8, order: ByteOrder)
    ensures
        n.bytes(order) == seq![n],
{
}

/// A negative number has the bytes of its two's complement.
pub proof fn law_signed_bytes(n: i32, order: ByteOrder)
    ensures
        n >= 0 ==> n.bytes(order) == (n as u32).bytes(order),
        n < 0 ==> n.bytes(order) == ((n + 0x1_0000_0000) as u32).bytes(order),
{
}

/// The two orders are each other's reverse.
pub proof fn law_orders_mirror(n: nat, count: nat)
    ensures
        ordered(n, count, ByteOrder::Big) == ordered(n, count, ByteOrder::Little).reverse(),
{
}

} // verus!
