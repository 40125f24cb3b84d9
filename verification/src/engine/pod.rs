//! Plain data as bytes, for buffers that are handed to the graphics device.
//! Numbers are laid out as the machine stores them.

use vstd::prelude::*;

verus! {

/// In which order the bytes of a number are stored.
#[derive(Clone, Copy, Debug, PartialEq, Eq, Structural)]
pub enum ByteOrder {
    /// The lowest byte first.
    Little,
    /// The highest byte first.
    Big,
}

/// Data that is its bytes.
pub trait Pod: Copy {
    /// The bytes of a value.
    spec fn bytes(self, order: ByteOrder) -> Seq<u8>;

    /// Append the bytes of a value.
    fn append_bytes(&self, order: ByteOrder, out: &mut Vec<u8>)
        ensures
            final(out)@ == old(out)@ + self.bytes(order),
    ;
}

/// The `count` lowest bytes of a number, the lowest first.
pub open spec fn little_endian(n: nat, count: nat) -> Seq<u8>
    decreases count,
{
    if count == 0 {
        seq![]
    } else {
        seq![(n % 256) as u8] + little_endian(n / 256, (count - 1) as nat)
    }
}

/// The `count` lowest bytes of a number.
pub open spec fn ordered(n: nat, count: nat, order: ByteOrder) -> Seq<u8> {
    match order {
        ByteOrder::Little => little_endian(n, count),
        ByteOrder::Big => little_endian(n, count).reverse(),
    }
}

impl Pod for u8 {
    open spec fn bytes(self, order: ByteOrder) -> Seq<u8> {
        seq![self]
    }

    fn append_bytes(&self, order: ByteOrder, out: &mut Vec<u8>) {
        let ghost before = out@;
        out.push(*self);
        assert(out@ =~= before + seq![*self]);
    }
}

impl Pod for u16 {
    open spec fn bytes(self, order: ByteOrder) -> Seq<u8> {
        ordered(self as nat, 2, order)
    }

    fn append_bytes(&self, order: ByteOrder, out: &mut Vec<u8>) {
        let ghost before = out@;
        let low: u8 = (*self % 256) as u8;
        let high: u8 = (*self / 256) as u8;
        reveal_with_fuel(little_endian, 3);
        assert(little_endian(*self as nat, 2) =~= seq![low, high]);
        match order {
            ByteOrder::Little => {
                out.push(low);
                out.push(high);
            },
            ByteOrder::Big => {
                out.push(high);
                out.push(low);
            },
        }
        assert(out@ =~= before + self.bytes(order));
    }
}

impl Pod for u32 {
    open spec fn bytes(self, order: ByteOrder) -> Seq<u8> {
        ordered(self as nat, 4, order)
    }

    fn append_bytes(&self, order: ByteOrder, out: &mut Vec<u8>) {
        let ghost before = out@;
        let b: [u8; 4] = [
            (*self % 256) as u8,
            (*self / 256 % 256) as u8,
            (*self / 65536 % 256) as u8,
            (*self / 16777216) as u8,
        ];
        reveal_with_fuel(little_endian, 5);
        assert(*self as nat / 256 / 256 == *self as nat / 65536);
        assert(*self as nat / 65536 / 256 == *self as nat / 16777216);
        assert(little_endian(*self as nat, 4) =~= b@);
        match order {
            ByteOrder::Little => {
                out.push(b[0]);
                out.push(b[1]);
                out.push(b[2]);
                out.push(b[3]);
            },
            ByteOrder::Big => {
                out.push(b[3]);
                out.push(b[2]);
                out.push(b[1]);
                out.push(b[0]);
            },
        }
        assert(out@ =~= before + self.bytes(order));
    }
}

impl Pod for i32 {
    open spec fn bytes(self, order: ByteOrder) -> Seq<u8> {
        ordered(
            if self >= 0 {
                self as nat
            } else {
                (self + 0x1_0000_0000) as nat
            },
            4,
            order,
        )
    }

    fn append_bytes(&self, order: ByteOrder, out: &mut Vec<u8>) {
        let wide: i64 = if *self >= 0 {
            *self as i64
        } else {
            *self as i64 + 0x1_0000_0000
        };
        let pattern: u32 = wide as u32;
        pattern.append_bytes(order, out);
    }
}

/// The bytes of a list of values, one after another.
pub open spec fn bytes_of<T: Pod>(data: Seq<T>, order: ByteOrder) -> Seq<u8>
    decreases data.len(),
{
    if data.len() == 0 {
        seq![]
    } else {
        bytes_of(data.drop_last(), order) + data.last().bytes(order)
    }
}

/// The bytes of a slice of values, in the given order.
pub fn cast_slice_in<T: Pod>(data: &[T], order: ByteOrder) -> (r: Vec<u8>)
    ensures
        r@ == bytes_of(data@, order),
{
    let mut out: Vec<u8> = Vec::new();
    let mut i: usize = 0;
    assert(data.len() == data@.len());
    assert(out@ =~= bytes_of(data@.take(0), order));
    while i < data.len()
        invariant
            i <= data@.len() <= usize::MAX,
            out@ == bytes_of(data@.take(i as int), order),
        decreases data@.len() - i,
    {
        assert(data@.take(i + 1).drop_last() =~= data@.take(i as int));
        data[i].append_bytes(order, &mut out);
        i += 1;
    }
    assert(data@.take(i as int) =~= data@);
    out
}

/// `u16::to_ne_bytes`: the two bytes of a number as the machine stores them.
/// They come in one of the two orders; which of them is up to the machine.
#[verifier::external_body]
fn stored_bytes(n: u16) -> (r: [u8; 2])
    ensures
        r@ == ordered(n as nat, 2, ByteOrder::Little) || r@ == ordered(
            n as nat,
            2,
            ByteOrder::Big,
        ),
{
    n.to_ne_bytes()
}

/// The order that the stored bytes of the number one tell.
pub fn order_told(one: [u8; 2]) -> (r: ByteOrder)
    ensures
        r == (if one@[0] == 1 {
            ByteOrder::Little
        } else {
            ByteOrder::Big
        }),
        one@ == ordered(1, 2, ByteOrder::Little) ==> r == ByteOrder::Little,
        one@ == ordered(1, 2, ByteOrder::Big) ==> r == ByteOrder::Big,
{
    reveal_with_fuel(little_endian, 3);
    assert(ordered(1, 2, ByteOrder::Little) =~= seq![1u8, 0u8]);
    assert(ordered(1, 2, ByteOrder::Big) =~= seq![0u8, 1u8]);
    if one[0] == 1 {
        ByteOrder::Little
    } else {
        ByteOrder::Big
    }
}

/// The bytes of a slice of values as the machine stores them: all of them in
/// one order, which is the machine's.
pub fn cast_slice<T: Pod>(data: &[T]) -> (r: Vec<u8>)
    ensures
        r@ == bytes_of(data@, ByteOrder::Little) || r@ == bytes_of(data@, ByteOrder::Big),
{
    cast_slice_in(data, order_told(stored_bytes(1)))
}

/// The bytes of a single value as the machine stores them.
pub fn cast_bytes<T: Pod>(data: &T) -> (r: Vec<u8>)
    ensures
        r@ == data.bytes(ByteOrder::Little) || r@ == data.bytes(ByteOrder::Big),
{
    let order: ByteOrder = order_told(stored_bytes(1));
    let mut out: Vec<u8> = Vec::new();
    data.append_bytes(order, &mut out);
    assert(seq![] + data.bytes(order) =~= data.bytes(order));
    out
}

/// A number has as many bytes as were asked for.
pub proof fn lemma_ordered_len(n: nat, count: nat, order: ByteOrder)
    ensures
        little_endian(n, count).len() == count,
        ordered(n, count, order).len() == count,
    decreases count,
{
    if count > 0 {
        lemma_ordered_len(n / 256, (count - 1) as nat, order);
    }
}

/// The bytes of two lists, one behind the other, are the bytes of both.
pub proof fn law_bytes_concatenate<T: Pod>(a: Seq<T>, b: Seq<T>, order: ByteOrder)
    ensures
        bytes_of(a + b, order) == bytes_of(a, order) + bytes_of(b, order),
    decreases b.len(),
{
    if b.len() == 0 {
        assert(a + b =~= a);
        assert(bytes_of(a, order) + bytes_of(b, order) =~= bytes_of(a, order));
    } else {
        law_bytes_concatenate(a, b.drop_last(), order);
        assert((a + b).drop_last() =~= a + b.drop_last());
        assert(bytes_of(a + b, order) =~= bytes_of(a, order) + bytes_of(b, order));
    }
}

/// Four bytes for each 32-bit number, in whichever order.
pub proof fn law_words_take_four_bytes(data: Seq<u32>, order: ByteOrder)
    ensures
        bytes_of(data, order).len() == 4 * data.len(),
    decreases data.len(),
{
    if data.len() > 0 {
        law_words_take_four_bytes(data.drop_last(), order);
        lemma_ordered_len(data.last() as nat, 4, order);
    }
}

} // verus!
