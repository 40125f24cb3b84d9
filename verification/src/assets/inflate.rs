//! DEFLATE decompression and its zlib wrapper.
//!
//! A stream is read as bits, least significant bit of each byte first. The
//! spec functions name a place in the stream by its bit position.

use vstd::prelude::*;
use vstd::arithmetic::power2::pow2;
use vstd::arithmetic::power2::lemma_pow2_unfold;
use vstd::arithmetic::power2::lemma2_to64;
use vstd::arithmetic::power2::lemma_pow2_strictly_increases;
use vstd::bits::lemma_u8_shr_is_div;
use crate::assets::fault::PngFault;

verus! {

// --- bits ------------------------------------------------------------------

/// Bit `i` of a stream.
pub open spec fn bit_at(s: Seq<u8>, i: int) -> nat {
    ((s[i / 8] as nat) / pow2((i % 8) as nat)) % 2
}

/// The integer written in `count` bits from `pos`, least significant bit first.
pub open spec fn bits_value(s: Seq<u8>, pos: int, count: nat) -> nat
    decreases count,
{
    if count == 0 {
        0
    } else {
        bit_at(s, pos) + 2 * bits_value(s, pos + 1, (count - 1) as nat)
    }
}

/// Number of bits in a stream.
pub open spec fn bit_len(s: Seq<u8>) -> int {
    8 * s.len() as int
}

/// Read `count` bits at `pos`: the value and the position after it.
pub open spec fn take_bits(s: Seq<u8>, pos: int, count: nat) -> Result<(nat, int), PngFault> {
    if pos + count <= bit_len(s) {
        Ok((bits_value(s, pos, count), pos + count))
    } else {
        Err(PngFault::StreamEnded)
    }
}

/// The next multiple of eight at or after `pos`.
pub open spec fn aligned(pos: int) -> int {
    (pos + 7) / 8 * 8
}

proof fn lemma_bits_value_bound(s: Seq<u8>, pos: int, count: nat)
    ensures
        bits_value(s, pos, count) < pow2(count),
    decreases count,
{
    lemma2_to64();
    if count > 0 {
        lemma_bits_value_bound(s, pos + 1, (count - 1) as nat);
        lemma_pow2_unfold(count);
    }
}

proof fn lemma_bits_value_extend(s: Seq<u8>, pos: int, count: nat)
    ensures
        bits_value(s, pos, count + 1) == bits_value(s, pos, count) + bit_at(s, pos + count) * pow2(
            count,
        ),
    decreases count,
{
    lemma2_to64();
    reveal_with_fuel(bits_value, 2);
    if count > 0 {
        lemma_bits_value_extend(s, pos + 1, (count - 1) as nat);
        lemma_pow2_unfold(count);
        let b = bit_at(s, pos + count);
        let p = pow2((count - 1) as nat);
        assert(pos + 1 + (count - 1) == pos + count);
        assert(bits_value(s, pos, count + 1) == bit_at(s, pos) + 2 * bits_value(s, pos + 1, count));
        assert(bits_value(s, pos, count) == bit_at(s, pos) + 2 * bits_value(
            s,
            pos + 1,
            (count - 1) as nat,
        ));
        assert(2 * (b * p) == b * (2 * p)) by (nonlinear_arith);
        assert(bits_value(s, pos, count + 1) == bits_value(s, pos, count) + b * pow2(count));
    } else {
        assert(bits_value(s, pos + 1, 0) == 0);
        assert(bits_value(s, pos, 1) == bit_at(s, pos));
        assert(bit_at(s, pos) * 1 == bit_at(s, pos));
    }
}

/// A reader of bits, least significant first.
pub struct BitReader<'a> {
    bytes: &'a [u8],
    /// Byte position.
    position: usize,
    /// Bits already consumed from the current byte.
    bit: u32,
}

impl<'a> BitReader<'a> {
    /// The bytes being read.
    pub closed spec fn stream(&self) -> Seq<u8> {
        self.bytes@
    }

    /// Bits consumed so far.
    pub closed spec fn pos(&self) -> int {
        self.position * 8 + self.bit
    }

    /// The position lies in the stream.
    pub closed spec fn wf(&self) -> bool {
        &&& self.bit < 8
        &&& self.position <= self.bytes@.len()
        &&& self.position == self.bytes@.len() ==> self.bit == 0
    }

    proof fn lemma_pos_in_stream(&self)
        requires
            self.wf(),
        ensures
            0 <= self.pos() <= bit_len(self.stream()),
    {
    }

    /// Start at the first bit of `bytes`.
    pub fn new(bytes: &'a [u8]) -> (r: Self)
        ensures
            r.wf(),
            r.stream() == bytes@,
            r.pos() == 0,
    {
        BitReader { bytes, position: 0, bit: 0 }
    }

    /// Read `count` bits, least significant first.
    pub fn bits(&mut self, count: u32) -> (r: Result<u32, PngFault>)
        requires
            old(self).wf(),
            count <= 16,
        ensures
            final(self).wf(),
            final(self).stream() == old(self).stream(),
            match take_bits(old(self).stream(), old(self).pos(), count as nat) {
                Ok((value, next)) => r == Ok::<u32, PngFault>(value as u32) && value < pow2(
                    count as nat,
                ) && final(self).pos() == next,
                Err(fault) => r == Err::<u32, PngFault>(fault),
            },
    {
        let ghost start = self.pos();
        let ghost s = self.stream();
        let mut value: u32 = 0;
        let mut weight: u32 = 1;
        let mut i: u32 = 0;
        proof {
            lemma2_to64();
        }
        while i < count
            invariant
                self.wf(),
                self.stream() == s,
                s == old(self).stream(),
                start == old(self).pos(),
                self.pos() == start + i,
                i <= count <= 16,
                value == bits_value(s, start, i as nat),
                weight == pow2(i as nat),
            decreases count - i,
        {
            if self.position >= self.bytes.len() {
                return Err(PngFault::StreamEnded);
            }
            let byte: u8 = self.bytes[self.position];
            let shift: u8 = self.bit as u8;
            let bit: u8 = (byte >> shift) & 1;
            proof {
                lemma_u8_shr_is_div(byte, shift);
                let shifted: u8 = byte >> shift;
                assert(shifted & 1 == shifted % 2) by (bit_vector);
                assert(bit == bit_at(s, start + i));
                lemma_bits_value_extend(s, start, i as nat);
                lemma_bits_value_bound(s, start, (i + 1) as nat);
                lemma_pow2_unfold((i + 1) as nat);
                lemma2_to64();
                if i + 1 < 16 {
                    lemma_pow2_strictly_increases((i + 1) as nat, 16);
                }
                assert(bit as int * weight as int == if bit == 1 { weight as int } else { 0 })
                    by (nonlinear_arith)
                    requires
                        bit == 0 || bit == 1,
                ;
            }
            if bit == 1 {
                value = value + weight;
            }
            weight = weight * 2;
            self.bit = self.bit + 1;
            if self.bit == 8 {
                self.bit = 0;
                self.position = self.position + 1;
            }
            i = i + 1;
        }
        proof {
            lemma_bits_value_bound(s, start, count as nat);
            self.lemma_pos_in_stream();
        }
        Ok(value)
    }

    /// Discard the rest of the current byte.
    pub fn align(&mut self)
        requires
            old(self).wf(),
        ensures
            final(self).wf(),
            final(self).stream() == old(self).stream(),
            final(self).pos() == aligned(old(self).pos()),
    {
        if self.bit != 0 {
            assert(self.position < self.bytes.len());
            self.bit = 0;
            self.position = self.position + 1;
        }
    }
}

// --- Huffman codes -----------------------------------------------------------

/// The symbols whose code has length `l`, in increasing order.
pub open spec fn symbols_of_length(lengths: Seq<u8>, l: nat) -> Seq<int>
    decreases lengths.len(),
{
    if lengths.len() == 0 {
        seq![]
    } else {
        let before = symbols_of_length(lengths.drop_last(), l);
        if lengths.last() == l {
            before.push(lengths.len() - 1)
        } else {
            before
        }
    }
}

/// How many codes have length `l`. Length 0 marks an unused symbol, not a code.
pub open spec fn code_count(lengths: Seq<u8>, l: nat) -> nat {
    if l == 0 {
        0
    } else {
        symbols_of_length(lengths, l).len()
    }
}

/// How many codes are shorter than `l`.
pub open spec fn shorter_codes(lengths: Seq<u8>, l: nat) -> nat
    decreases l,
{
    if l == 0 {
        0
    } else {
        shorter_codes(lengths, (l - 1) as nat) + code_count(lengths, (l - 1) as nat)
    }
}

/// The first canonical code of length `l`: codes of one length are consecutive
/// and follow, one bit longer, the last code of the previous length.
pub open spec fn first_code(lengths: Seq<u8>, l: nat) -> nat
    decreases l,
{
    if l == 0 {
        0
    } else {
        2 * (first_code(lengths, (l - 1) as nat) + code_count(lengths, (l - 1) as nat))
    }
}

/// The code written in `l` bits from `pos`, most significant bit first.
pub open spec fn code_value(s: Seq<u8>, pos: int, l: nat) -> nat
    decreases l,
{
    if l == 0 {
        0
    } else {
        2 * code_value(s, pos, (l - 1) as nat) + bit_at(s, pos + l - 1)
    }
}

/// Decode one symbol whose code has at least `l` bits.
pub open spec fn decode_from(lengths: Seq<u8>, s: Seq<u8>, pos: int, l: nat) -> Result<
    (int, int),
    PngFault,
>
    decreases 16 - l,
{
    let rank = code_value(s, pos, l) - first_code(lengths, l);
    if l >= 16 {
        Err(PngFault::InvalidCode)
    } else if pos + l > bit_len(s) {
        Err(PngFault::StreamEnded)
    } else if rank < code_count(lengths, l) {
        Ok((symbols_of_length(lengths, l)[rank], pos + l))
    } else {
        decode_from(lengths, s, pos, l + 1)
    }
}

/// Decode the symbol at `pos` with the canonical code of these lengths: the
/// symbol and the position after its code.
pub open spec fn decode_symbol(lengths: Seq<u8>, s: Seq<u8>, pos: int) -> Result<
    (int, int),
    PngFault,
> {
    decode_from(lengths, s, pos, 1)
}

/// No code is longer than fifteen bits.
pub open spec fn lengths_valid(lengths: Seq<u8>) -> bool {
    forall|i: int| 0 <= i < lengths.len() ==> lengths[i] < 16
}

proof fn lemma_symbols_of_length(lengths: Seq<u8>, l: nat)
    ensures
        symbols_of_length(lengths, l).len() <= lengths.len(),
        forall|k: int|
            0 <= k < symbols_of_length(lengths, l).len() ==> 0 <= #[trigger] symbols_of_length(
                lengths,
                l,
            )[k] < lengths.len(),
    decreases lengths.len(),
{
    if lengths.len() > 0 {
        lemma_symbols_of_length(lengths.drop_last(), l);
    }
}

proof fn lemma_prefix_symbols(lengths: Seq<u8>, n: int, l: nat)
    requires
        0 <= n <= lengths.len(),
    ensures
        symbols_of_length(lengths.take(n), l).len() <= symbols_of_length(lengths, l).len(),
        n < lengths.len() && lengths[n] == l ==> symbols_of_length(lengths.take(n), l).len()
            < symbols_of_length(lengths, l).len(),
    decreases lengths.len(),
{
    if n == lengths.len() {
        assert(lengths.take(n) =~= lengths);
    } else {
        assert(lengths.drop_last().take(n) =~= lengths.take(n));
        lemma_prefix_symbols(lengths.drop_last(), n, l);
    }
}

proof fn lemma_take_one_more(lengths: Seq<u8>, n: int, l: nat)
    requires
        0 <= n < lengths.len(),
    ensures
        symbols_of_length(lengths.take(n + 1), l) == (if lengths[n] == l {
            symbols_of_length(lengths.take(n), l).push(n)
        } else {
            symbols_of_length(lengths.take(n), l)
        }),
{
    let t = lengths.take(n + 1);
    assert(t.drop_last() =~= lengths.take(n));
}

/// Every unused symbol adds no code and every used one adds exactly one.
proof fn lemma_shorter_push(lengths: Seq<u8>, l: nat)
    requires
        lengths.len() > 0,
    ensures
        shorter_codes(lengths, l) == shorter_codes(lengths.drop_last(), l) + (if 0 < lengths.last()
            < l {
            1int
        } else {
            0
        }),
    decreases l,
{
    if l > 0 {
        lemma_shorter_push(lengths, (l - 1) as nat);
    }
}

proof fn lemma_shorter_bound(lengths: Seq<u8>, l: nat)
    ensures
        shorter_codes(lengths, l) <= lengths.len(),
    decreases lengths.len(),
{
    if lengths.len() > 0 {
        lemma_shorter_bound(lengths.drop_last(), l);
        lemma_shorter_push(lengths, l);
    } else {
        assert(lengths =~= seq![]);
        lemma_no_codes(l);
    }
}

proof fn lemma_no_codes(l: nat)
    ensures
        shorter_codes(seq![], l) == 0,
    decreases l,
{
    if l > 0 {
        lemma_no_codes((l - 1) as nat);
    }
}

proof fn lemma_shorter_monotone(lengths: Seq<u8>, l: nat, m: nat)
    requires
        l < m,
    ensures
        shorter_codes(lengths, l) + code_count(lengths, l) <= shorter_codes(lengths, m),
    decreases m,
{
    if l + 1 < m {
        lemma_shorter_monotone(lengths, l, (m - 1) as nat);
    }
}

/// A canonical Huffman decoder built from code lengths.
pub struct Huffman {
    /// `counts[l]` is how many codes have length `l`.
    pub counts: [u16; 16],
    /// Symbols in canonical order: by code length, then by value.
    pub symbols: Vec<u16>,
}

impl Huffman {
    /// This table is the canonical code of `lengths`. Slots that no code uses
    /// hold 0.
    pub open spec fn decodes(&self, lengths: Seq<u8>) -> bool {
        &&& self.symbols@.len() == lengths.len() <= u16::MAX
        &&& forall|l: int|
            0 <= l < 16 ==> #[trigger] self.counts@[l] == code_count(lengths, l as nat)
        &&& forall|l: int, k: int|
            #![trigger symbols_of_length(lengths, l as nat)[k]]
            1 <= l < 16 && 0 <= k < symbols_of_length(lengths, l as nat).len()
                ==> self.symbols@[shorter_codes(lengths, l as nat) + k] == symbols_of_length(
                lengths,
                l as nat,
            )[k]
        &&& forall|k: int|
            shorter_codes(lengths, 16) <= k < self.symbols@.len() ==> #[trigger] self.symbols@[k]
                == 0
    }

    /// Build the canonical code of `lengths`.
    pub fn new(lengths: &[u8]) -> (r: Result<Self, PngFault>)
        requires
            lengths@.len() <= u16::MAX,
        ensures
            match r {
                Ok(table) => lengths_valid(lengths@) && table.decodes(lengths@),
                Err(fault) => !lengths_valid(lengths@) && fault == PngFault::CodeLengthTooLarge,
            },
    {
        let mut counts: [u16; 16] = [0; 16];
        let mut i: usize = 0;
        assert(lengths@.take(0) =~= seq![]);
        while i < lengths.len()
            invariant
                i <= lengths@.len() <= u16::MAX,
                forall|j: int| 0 <= j < i ==> lengths@[j] < 16,
                forall|l: int|
                    1 <= l < 16 ==> #[trigger] counts@[l] == symbols_of_length(
                        lengths@.take(i as int),
                        l as nat,
                    ).len(),
                counts@[0] <= i,
            decreases lengths.len() - i,
        {
            let length: usize = lengths[i] as usize;
            if length >= 16 {
                return Err(PngFault::CodeLengthTooLarge);
            }
            proof {
                lemma_symbols_of_length(lengths@.take(i as int), length as nat);
                assert forall|l: nat| true implies #[trigger] symbols_of_length(
                    lengths@.take(i + 1),
                    l,
                ) == (if lengths@[i as int] == l {
                    symbols_of_length(lengths@.take(i as int), l).push(i as int)
                } else {
                    symbols_of_length(lengths@.take(i as int), l)
                }) by {
                    lemma_take_one_more(lengths@, i as int, l);
                }
            }
            counts[length] = counts[length] + 1;
            i = i + 1;
        }
        assert(lengths@.take(i as int) =~= lengths@);
        // Length 0 means "unused", not a zero-length code.
        counts[0] = 0;

        let mut offsets: [u16; 16] = [0; 16];
        let mut l: usize = 1;
        while l < 16
            invariant
                1 <= l <= 16,
                lengths@.len() <= u16::MAX,
                forall|j: int|
                    0 <= j < 16 ==> #[trigger] counts@[j] == code_count(lengths@, j as nat),
                forall|j: int|
                    0 <= j < l ==> #[trigger] offsets@[j] == shorter_codes(lengths@, j as nat),
            decreases 16 - l,
        {
            proof {
                lemma_shorter_bound(lengths@, l as nat);
                assert(shorter_codes(lengths@, l as nat) == offsets@[l - 1] + counts@[l - 1]);
            }
            offsets[l] = offsets[l - 1] + counts[l - 1];
            l = l + 1;
        }

        let mut symbols: Vec<u16> = vec![0; lengths.len()];
        let mut symbol: usize = 0;
        assert(lengths@.take(0) =~= seq![]);
        while symbol < lengths.len()
            invariant
                symbol <= lengths@.len() <= u16::MAX,
                lengths_valid(lengths@),
                symbols@.len() == lengths@.len(),
                forall|j: int|
                    1 <= j < 16 ==> #[trigger] offsets@[j] == shorter_codes(lengths@, j as nat)
                        + symbols_of_length(lengths@.take(symbol as int), j as nat).len(),
                forall|j: int, k: int|
                    #![trigger symbols_of_length(lengths@.take(symbol as int), j as nat)[k]]
                    1 <= j < 16 && 0 <= k < symbols_of_length(
                        lengths@.take(symbol as int),
                        j as nat,
                    ).len() ==> symbols@[shorter_codes(lengths@, j as nat) + k]
                        == symbols_of_length(lengths@.take(symbol as int), j as nat)[k],
                forall|k: int|
                    shorter_codes(lengths@, 16) <= k < symbols@.len() ==> #[trigger] symbols@[k]
                        == 0,
            decreases lengths.len() - symbol,
        {
            let length: usize = lengths[symbol] as usize;
            let ghost before = lengths@.take(symbol as int);
            let ghost after = lengths@.take(symbol + 1);
            proof {
                assert forall|l: nat| true implies #[trigger] symbols_of_length(after, l) == (
                if lengths@[symbol as int] == l {
                    symbols_of_length(before, l).push(symbol as int)
                } else {
                    symbols_of_length(before, l)
                }) by {
                    lemma_take_one_more(lengths@, symbol as int, l);
                }
                lemma_prefix_symbols(lengths@, symbol as int, length as nat);
                lemma_shorter_bound(lengths@, (length + 1) as nat);
            }
            if length != 0 {
                let ghost at = offsets@[length as int] as int;
                let ghost filled = symbols@;
                assert(at == shorter_codes(lengths@, length as nat) + symbols_of_length(
                    before,
                    length as nat,
                ).len());
                assert(shorter_codes(lengths@, (length + 1) as nat) == shorter_codes(
                    lengths@,
                    length as nat,
                ) + code_count(lengths@, length as nat));
                assert(at < shorter_codes(lengths@, 16)) by {
                    lemma_shorter_monotone(lengths@, length as nat, 16);
                }
                let slot: usize = offsets[length] as usize;
                symbols[slot] = symbol as u16;
                offsets[length] = offsets[length] + 1;
                proof {
                    assert forall|j: int, k: int|
                        #![trigger symbols_of_length(after, j as nat)[k]]
                        1 <= j < 16 && 0 <= k < symbols_of_length(after, j as nat).len() implies symbols@[shorter_codes(
                        lengths@,
                        j as nat,
                    ) + k] == symbols_of_length(after, j as nat)[k] by {
                        if j == length {
                            if k < symbols_of_length(before, j as nat).len() {
                                assert(symbols_of_length(before, j as nat)[k] == symbols_of_length(
                                    after,
                                    j as nat,
                                )[k]);
                            }
                        } else {
                            assert(symbols_of_length(before, j as nat)[k] == symbols_of_length(
                                after,
                                j as nat,
                            )[k]);
                            lemma_prefix_symbols(lengths@, symbol as int, j as nat);
                            lemma_shorter_bound(lengths@, (j + 1) as nat);
                            assert(shorter_codes(lengths@, (j + 1) as nat) == shorter_codes(
                                lengths@,
                                j as nat,
                            ) + code_count(lengths@, j as nat));
                            if j < length {
                                lemma_shorter_monotone(lengths@, j as nat, length as nat);
                            } else {
                                lemma_shorter_monotone(lengths@, length as nat, j as nat);
                            }
                        }
                    }
                }
            } else {
                assert forall|j: int, k: int|
                    #![trigger symbols_of_length(after, j as nat)[k]]
                    1 <= j < 16 && 0 <= k < symbols_of_length(after, j as nat).len() implies symbols@[shorter_codes(
                    lengths@,
                    j as nat,
                ) + k] == symbols_of_length(after, j as nat)[k] by {
                    assert(symbols_of_length(before, j as nat)[k] == symbols_of_length(
                        after,
                        j as nat,
                    )[k]);
                }
            }
            symbol = symbol + 1;
        }
        assert(lengths@.take(symbol as int) =~= lengths@);
        Ok(Huffman { counts, symbols })
    }

    /// Decode one symbol. Codes are packed most significant bit first even
    /// though the stream's integers are least significant first.
    fn decode(&self, reader: &mut BitReader<'_>, Ghost(lengths): Ghost<Seq<u8>>) -> (r: Result<
        u16,
        PngFault,
    >)
        requires
            old(reader).wf(),
            self.decodes(lengths),
        ensures
            final(reader).wf(),
            final(reader).stream() == old(reader).stream(),
            match decode_symbol(lengths, old(reader).stream(), old(reader).pos()) {
                Ok((symbol, next)) => r == Ok::<u16, PngFault>(symbol as u16) && 0 <= symbol
                    < lengths.len() && old(reader).pos() < next == final(reader).pos(),
                Err(fault) => r == Err::<u16, PngFault>(fault),
            },
    {
        let ghost s = reader.stream();
        let ghost start = reader.pos();
        let mut code: u32 = 0;
        let mut first: u32 = 0;
        let mut index: u32 = 0;
        let mut length: usize = 1;
        proof {
            lemma2_to64();
        }
        assert(first_code(lengths, 1) == 0) by {
            reveal_with_fuel(first_code, 2);
        }
        assert(shorter_codes(lengths, 1) == 0) by {
            reveal_with_fuel(shorter_codes, 2);
        }
        while length < 16
            invariant
                1 <= length <= 16,
                reader.wf(),
                self.decodes(lengths),
                s == old(reader).stream(),
                start == old(reader).pos(),
                reader.stream() == s,
                reader.pos() == start + length - 1,
                code == 2 * code_value(s, start, (length - 1) as nat),
                code + 2 <= pow2(length as nat),
                first == first_code(lengths, length as nat),
                first <= code,
                index == shorter_codes(lengths, length as nat),
                decode_symbol(lengths, s, start) == decode_from(lengths, s, start, length as nat),
            decreases 16 - length,
        {
            proof {
                lemma2_to64();
            }
            let bit: u32 = match reader.bits(1) {
                Ok(bit) => bit,
                Err(fault) => {
                    return Err(fault);
                },
            };
            proof {
                reveal_with_fuel(bits_value, 2);
                lemma2_to64();
                lemma_pow2_unfold((length + 1) as nat);
                if length < 16 {
                    lemma_pow2_strictly_increases(length as nat, 16);
                }
                lemma_shorter_bound(lengths, length as nat);
                lemma_shorter_bound(lengths, (length + 1) as nat);
                lemma_symbols_of_length(lengths, length as nat);
            }
            code = code + bit;
            assert(code == code_value(s, start, length as nat));
            let count: u32 = self.counts[length] as u32;
            assert(count == code_count(lengths, length as nat));
            if code - first < count {
                let slot: usize = (index + (code - first)) as usize;
                assert(symbols_of_length(lengths, length as nat)[code - first] == self.symbols@[slot as int]);
                return Ok(self.symbols[slot]);
            }
            index = index + count;
            first = (first + count) * 2;
            code = code * 2;
            length = length + 1;
        }
        Err(PngFault::InvalidCode)
    }
}

// --- block tables ------------------------------------------------------------

/// Base length of length codes 257 to 285.
pub const LENGTH_BASE: [u16; 29] = [
    3, 4, 5, 6, 7, 8, 9, 10, 11, 13, 15, 17, 19, 23, 27, 31, 35, 43, 51, 59, 67, 83, 99, 115, 131,
    163, 195, 227, 258,
];

/// Extra bits of length codes 257 to 285.
pub const LENGTH_EXTRA: [u8; 29] = [
    0, 0, 0, 0, 0, 0, 0, 0, 1, 1, 1, 1, 2, 2, 2, 2, 3, 3, 3, 3, 4, 4, 4, 4, 5, 5, 5, 5, 0,
];

/// Base distance of distance codes 0 to 29.
pub const DISTANCE_BASE: [u16; 30] = [
    1, 2, 3, 4, 5, 7, 9, 13, 17, 25, 33, 49, 65, 97, 129, 193, 257, 385, 513, 769, 1025, 1537, 2049,
    3073, 4097, 6145, 8193, 12289, 16385, 24577,
];

/// Extra bits of distance codes 0 to 29.
pub const DISTANCE_EXTRA: [u8; 30] = [
    0, 0, 0, 0, 1, 1, 2, 2, 3, 3, 4, 4, 5, 5, 6, 6, 7, 7, 8, 8, 9, 9, 10, 10, 11, 11, 12, 12, 13, 13,
];

/// Transmission order of the code-length code's own lengths.
pub const CODE_LENGTH_ORDER: [usize; 19] = [
    16, 17, 18, 0, 8, 7, 9, 6, 10, 5, 11, 4, 12, 3, 13, 2, 14, 1, 15,
];

/// Largest output an inflate call will produce: far above any real texture,
/// far below what a crafted stream could otherwise expand to.
pub const MAX_INFLATED: usize = 268_435_456;

/// Code lengths of the fixed literal/length alphabet.
pub open spec fn fixed_literal_lengths() -> Seq<u8> {
    Seq::new(
        288,
        |i: int|
            if i < 144 {
                8u8
            } else if i < 256 {
                9u8
            } else if i < 280 {
                7u8
            } else {
                8u8
            },
    )
}

/// Code lengths of the fixed distance alphabet.
pub open spec fn fixed_distance_lengths() -> Seq<u8> {
    Seq::new(30, |i: int| 5u8)
}

/// The two Huffman tables of a fixed block.
pub fn fixed_tables() -> (r: Result<(Huffman, Huffman), PngFault>)
    ensures
        match r {
            Ok((literal, distance)) => literal.decodes(fixed_literal_lengths())
                && distance.decodes(fixed_distance_lengths()),
            Err(_) => false,
        },
{
    let mut literal_lengths: [u8; 288] = [8; 288];
    let mut symbol: usize = 0;
    while symbol < 288
        invariant
            symbol <= 288,
            forall|i: int|
                0 <= i < symbol ==> #[trigger] literal_lengths@[i] == fixed_literal_lengths()[i],
        decreases 288 - symbol,
    {
        literal_lengths[symbol] = if symbol < 144 {
            8
        } else if symbol < 256 {
            9
        } else if symbol < 280 {
            7
        } else {
            8
        };
        symbol = symbol + 1;
    }
    assert(literal_lengths@ =~= fixed_literal_lengths());
    let distance_lengths: [u8; 30] = [5; 30];
    assert(distance_lengths@ =~= fixed_distance_lengths());
    let literal = match Huffman::new(literal_lengths.as_slice()) {
        Ok(table) => table,
        Err(fault) => {
            return Err(fault);
        },
    };
    let distance = match Huffman::new(distance_lengths.as_slice()) {
        Ok(table) => table,
        Err(fault) => {
            return Err(fault);
        },
    };
    Ok((literal, distance))
}

/// Lengths of the code-length code after its first `n` transmitted entries,
/// three bits each from `pos`.
pub open spec fn code_length_lengths(s: Seq<u8>, pos: int, n: nat) -> Seq<u8>
    decreases n,
{
    if n == 0 {
        Seq::new(19, |i: int| 0u8)
    } else {
        code_length_lengths(s, pos, (n - 1) as nat).update(
            CODE_LENGTH_ORDER[n - 1] as int,
            bits_value(s, pos + 3 * (n - 1), 3) as u8,
        )
    }
}

/// Decode run-length coded code lengths from `pos` until there are `total`,
/// continuing after those already decoded.
pub open spec fn expand_lengths(
    codes: Seq<u8>,
    s: Seq<u8>,
    pos: int,
    total: nat,
    lengths: Seq<u8>,
) -> Result<(Seq<u8>, int), PngFault>
    decreases total - lengths.len(),
{
    if lengths.len() >= total {
        Ok((lengths, pos))
    } else {
        match decode_symbol(codes, s, pos) {
            Err(fault) => Err(fault),
            Ok((symbol, next)) => if symbol <= 15 {
                expand_lengths(codes, s, next, total, lengths.push(symbol as u8))
            } else if symbol == 16 {
                if lengths.len() == 0 {
                    Err(PngFault::RepeatAtStart)
                } else {
                    match take_bits(s, next, 2) {
                        Err(fault) => Err(fault),
                        Ok((extra, after)) => if lengths.len() + 3 + extra > total {
                            Err(PngFault::RepeatPastTable)
                        } else {
                            expand_lengths(
                                codes,
                                s,
                                after,
                                total,
                                lengths + Seq::new(3 + extra, |k: int| lengths.last()),
                            )
                        },
                    }
                }
            } else if symbol <= 18 {
                let width: nat = if symbol == 17 {
                    3
                } else {
                    7
                };
                let base: nat = if symbol == 17 {
                    3
                } else {
                    11
                };
                match take_bits(s, next, width) {
                    Err(fault) => Err(fault),
                    Ok((extra, after)) => if lengths.len() + base + extra > total {
                        Err(PngFault::ZeroRepeatPastTable)
                    } else {
                        expand_lengths(
                            codes,
                            s,
                            after,
                            total,
                            lengths + Seq::new(base + extra, |k: int| 0u8),
                        )
                    },
                }
            } else {
                Err(PngFault::CodeLengthSymbol(symbol as u16))
            },
        }
    }
}

/// Code lengths of a dynamic block's literal and distance alphabets, and the
/// position after them.
pub open spec fn dynamic_lengths(s: Seq<u8>, pos: int) -> Result<
    (Seq<u8>, Seq<u8>, int),
    PngFault,
> {
    let literal_count = bits_value(s, pos, 5) + 257;
    let distance_count = bits_value(s, pos + 5, 5) + 1;
    let code_length_count = bits_value(s, pos + 10, 4) + 4;
    let codes_end = pos + 14 + 3 * code_length_count;
    if pos + 14 > bit_len(s) || codes_end > bit_len(s) {
        Err(PngFault::StreamEnded)
    } else {
        let codes = code_length_lengths(s, pos + 14, code_length_count);
        match expand_lengths(codes, s, codes_end, literal_count + distance_count, seq![]) {
            Err(fault) => Err(fault),
            Ok((lengths, next)) => Ok(
                (
                    lengths.subrange(0, literal_count as int),
                    lengths.subrange(literal_count as int, lengths.len() as int),
                    next,
                ),
            ),
        }
    }
}

proof fn lemma_decode_from_advances(lengths: Seq<u8>, s: Seq<u8>, pos: int, l: nat)
    requires
        l >= 1,
        pos >= 0,
    ensures
        decode_from(lengths, s, pos, l) matches Ok((_, next)) ==> pos < next <= bit_len(s),
    decreases 16 - l,
{
    if l < 16 {
        lemma_decode_from_advances(lengths, s, pos, l + 1);
    }
}

/// Decoding a symbol moves forward and stays inside the stream.
pub proof fn lemma_decode_advances(lengths: Seq<u8>, s: Seq<u8>, pos: int)
    requires
        pos >= 0,
    ensures
        decode_symbol(lengths, s, pos) matches Ok((_, next)) ==> pos < next <= bit_len(s),
{
    lemma_decode_from_advances(lengths, s, pos, 1);
}

/// Append `count` copies of `value`.
fn push_repeated(lengths: &mut Vec<u8>, value: u8, count: usize)
    ensures
        final(lengths)@ == old(lengths)@ + Seq::new(count as nat, |k: int| value),
{
    let mut k: usize = 0;
    while k < count
        invariant
            k <= count,
            lengths@ == old(lengths)@ + Seq::new(k as nat, |j: int| value),
        decreases count - k,
    {
        lengths.push(value);
        k = k + 1;
    }
}

/// Read the lengths of the code-length code.
fn read_code_lengths(reader: &mut BitReader<'_>, count: usize) -> (r: Result<[u8; 19], PngFault>)
    requires
        old(reader).wf(),
        count <= 19,
    ensures
        final(reader).wf(),
        final(reader).stream() == old(reader).stream(),
        match r {
            Ok(lengths) => old(reader).pos() + 3 * count <= bit_len(old(reader).stream())
                && lengths@ == code_length_lengths(
                old(reader).stream(),
                old(reader).pos(),
                count as nat,
            ) && lengths_valid(lengths@) && final(reader).pos() == old(reader).pos() + 3 * count,
            Err(fault) => old(reader).pos() + 3 * count > bit_len(old(reader).stream()) && fault
                == PngFault::StreamEnded,
        },
{
    let ghost s = reader.stream();
    let ghost start = reader.pos();
    let mut code_lengths: [u8; 19] = [0; 19];
    let mut i: usize = 0;
    assert(code_lengths@ =~= code_length_lengths(s, start, 0));
    while i < count
        invariant
            i <= count <= 19,
            reader.wf(),
            s == old(reader).stream(),
            start == old(reader).pos(),
            reader.stream() == s,
            reader.pos() == start + 3 * i,
            code_lengths@ == code_length_lengths(s, start, i as nat),
            lengths_valid(code_lengths@),
            start + 3 * i <= bit_len(s),
        decreases count - i,
    {
        let length: u32 = match reader.bits(3) {
            Ok(length) => length,
            Err(fault) => {
                return Err(fault);
            },
        };
        proof {
            lemma2_to64();
        }
        code_lengths[CODE_LENGTH_ORDER[i]] = length as u8;
        i = i + 1;
    }
    Ok(code_lengths)
}

/// Read a dynamic block's Huffman tables.
///
/// The code lengths are themselves Huffman coded, and runs may span the
/// boundary between the two alphabets, so both are expanded together.
fn dynamic_tables(reader: &mut BitReader<'_>) -> (r: Result<(Huffman, Huffman), PngFault>)
    requires
        old(reader).wf(),
    ensures
        final(reader).wf(),
        final(reader).stream() == old(reader).stream(),
        match dynamic_lengths(old(reader).stream(), old(reader).pos()) {
            Ok((literal, distance, next)) => r matches Ok((literal_table, distance_table))
                && literal_table.decodes(literal) && distance_table.decodes(distance)
                && final(reader).pos() == next,
            Err(fault) => r matches Err(f) && f == fault,
        },
{
    let ghost s = reader.stream();
    let ghost start = reader.pos();
    proof {
        lemma2_to64();
    }
    let literal_count: usize = match reader.bits(5) {
        Ok(value) => value as usize + 257,
        Err(fault) => {
            return Err(fault);
        },
    };
    let distance_count: usize = match reader.bits(5) {
        Ok(value) => value as usize + 1,
        Err(fault) => {
            return Err(fault);
        },
    };
    let code_length_count: usize = match reader.bits(4) {
        Ok(value) => value as usize + 4,
        Err(fault) => {
            return Err(fault);
        },
    };
    let code_lengths = match read_code_lengths(reader, code_length_count) {
        Ok(lengths) => lengths,
        Err(fault) => {
            return Err(fault);
        },
    };
    let table = match Huffman::new(code_lengths.as_slice()) {
        Ok(table) => table,
        Err(fault) => {
            return Err(fault);
        },
    };
    let ghost codes = code_lengths@;
    let ghost codes_end = reader.pos();

    let total: usize = literal_count + distance_count;
    let mut lengths: Vec<u8> = Vec::new();
    assert(lengths@ =~= seq![]);
    while lengths.len() < total
        invariant
            reader.wf(),
            s == old(reader).stream(),
            reader.stream() == s,
            table.decodes(codes),
            codes.len() == 19,
            lengths@.len() <= total <= 320,
            lengths_valid(lengths@),
            expand_lengths(codes, s, codes_end, total as nat, seq![]) == expand_lengths(
                codes,
                s,
                reader.pos(),
                total as nat,
                lengths@,
            ),
            expand_lengths(codes, s, codes_end, total as nat, seq![]) matches Err(fault)
                ==> dynamic_lengths(s, start) == Err::<(Seq<u8>, Seq<u8>, int), PngFault>(fault),
            start == old(reader).pos(),
        decreases total - lengths.len(),
    {
        proof {
            lemma2_to64();
        }
        let symbol: u16 = match table.decode(reader, Ghost(codes)) {
            Ok(symbol) => symbol,
            Err(fault) => {
                return Err(fault);
            },
        };
        if symbol <= 15 {
            lengths.push(symbol as u8);
        } else if symbol == 16 {
            // Repeat the previous length 3 to 6 times.
            if lengths.len() == 0 {
                return Err(PngFault::RepeatAtStart);
            }
            let previous: u8 = lengths[lengths.len() - 1];
            let repeat: usize = match reader.bits(2) {
                Ok(extra) => 3 + extra as usize,
                Err(fault) => {
                    return Err(fault);
                },
            };
            if lengths.len() + repeat > total {
                return Err(PngFault::RepeatPastTable);
            }
            assert(Seq::new(repeat as nat, |k: int| previous) =~= Seq::new(
                repeat as nat,
                |k: int| lengths@.last(),
            ));
            push_repeated(&mut lengths, previous, repeat);
        } else {
            // 17 repeats zero 3 to 10 times, 18 repeats it 11 to 138 times.
            let width: u32 = if symbol == 17 {
                3
            } else {
                7
            };
            let base: usize = if symbol == 17 {
                3
            } else {
                11
            };
            let repeat: usize = match reader.bits(width) {
                Ok(extra) => base + extra as usize,
                Err(fault) => {
                    return Err(fault);
                },
            };
            if lengths.len() + repeat > total {
                return Err(PngFault::ZeroRepeatPastTable);
            }
            push_repeated(&mut lengths, 0, repeat);
        }
    }
    let literal = match Huffman::new(vstd::slice::slice_subrange(lengths.as_slice(), 0, literal_count)) {
        Ok(table) => table,
        Err(fault) => {
            return Err(fault);
        },
    };
    let distance = match Huffman::new(
        vstd::slice::slice_subrange(lengths.as_slice(), literal_count, lengths.len()),
    ) {
        Ok(table) => table,
        Err(fault) => {
            return Err(fault);
        },
    };
    Ok((literal, distance))
}

// --- blocks ------------------------------------------------------------------

/// Append `length` bytes, each a copy of the byte `distance` before it. The
/// source may overlap what is being written.
pub open spec fn copy_back(out: Seq<u8>, distance: int, length: nat) -> Seq<u8>
    decreases length,
{
    if length == 0 {
        out
    } else {
        let before = copy_back(out, distance, (length - 1) as nat);
        before.push(before[before.len() - distance])
    }
}

/// The match announced by length code `index + 257`: its length, its distance
/// and the position after it.
pub open spec fn match_at(distances: Seq<u8>, s: Seq<u8>, pos: int, index: int) -> Result<
    (nat, nat, int),
    PngFault,
> {
    match take_bits(s, pos, LENGTH_EXTRA[index] as nat) {
        Err(fault) => Err(fault),
        Ok((extra, p1)) => match decode_symbol(distances, s, p1) {
            Err(fault) => Err(fault),
            Ok((symbol, p2)) => if symbol >= 30 {
                Err(PngFault::DistanceSymbol(symbol as u16))
            } else {
                match take_bits(s, p2, DISTANCE_EXTRA[symbol] as nat) {
                    Err(fault) => Err(fault),
                    Ok((far, p3)) => Ok(
                        (LENGTH_BASE[index] as nat + extra, DISTANCE_BASE[symbol] as nat + far, p3),
                    ),
                }
            },
        },
    }
}

/// Reading a match moves forward and stays inside the stream.
pub proof fn lemma_match_advances(distances: Seq<u8>, s: Seq<u8>, pos: int, index: int)
    requires
        pos >= 0,
    ensures
        match_at(distances, s, pos, index) matches Ok((_, _, next)) ==> pos < next <= bit_len(s),
{
    let extra = LENGTH_EXTRA[index] as nat;
    lemma_decode_advances(distances, s, pos + extra);
}

/// Decode the symbols of one block from `pos` onto `out`, up to and including
/// its end marker: the output and the position after the block.
pub open spec fn block_symbols(
    literals: Seq<u8>,
    distances: Seq<u8>,
    s: Seq<u8>,
    pos: int,
    out: Seq<u8>,
) -> Result<(Seq<u8>, int), PngFault>
    decreases bit_len(s) - pos,
    when pos >= 0
{
    proof {
        lemma_decode_advances(literals, s, pos);
    }
    match decode_symbol(literals, s, pos) {
        Err(fault) => Err(fault),
        Ok((symbol, next)) => if symbol <= 255 {
            block_symbols(literals, distances, s, next, out.push(symbol as u8))
        } else if symbol == 256 {
            Ok((out, next))
        } else if symbol <= 285 {
            proof {
                lemma_match_advances(distances, s, next, symbol - 257);
            }
            match match_at(distances, s, next, symbol - 257) {
                Err(fault) => Err(fault),
                Ok((length, distance, after)) => if distance > out.len() {
                    Err(
                        PngFault::BackReference {
                            distance: distance as usize,
                            decoded: out.len() as usize,
                        },
                    )
                } else {
                    let longer = copy_back(out, distance as int, length);
                    if longer.len() > MAX_INFLATED {
                        Err(PngFault::MatchTooLarge)
                    } else {
                        block_symbols(literals, distances, s, after, longer)
                    }
                },
            }
        } else {
            Err(PngFault::LiteralSymbol(symbol as u16))
        },
    }
}

/// A stored block: from the next byte boundary a length, its complement, then
/// that many raw bytes.
pub open spec fn stored_block(s: Seq<u8>, pos: int, out: Seq<u8>) -> Result<
    (Seq<u8>, int),
    PngFault,
> {
    let start = aligned(pos);
    let length = bits_value(s, start, 16);
    let complement = bits_value(s, start + 16, 16);
    let first = (start + 32) / 8;
    if start + 32 > bit_len(s) {
        Err(PngFault::StreamEnded)
    } else if length + complement != 0xFFFF {
        Err(PngFault::StoredComplement)
    } else if first + length > s.len() {
        Err(PngFault::StreamEnded)
    } else {
        Ok((out + s.subrange(first, first + length), start + 32 + 8 * length))
    }
}

/// The body of a block of the given kind.
pub open spec fn block_body(s: Seq<u8>, pos: int, kind: nat, out: Seq<u8>) -> Result<
    (Seq<u8>, int),
    PngFault,
> {
    if kind == 0 {
        stored_block(s, pos, out)
    } else if kind == 1 {
        block_symbols(fixed_literal_lengths(), fixed_distance_lengths(), s, pos, out)
    } else if kind == 2 {
        match dynamic_lengths(s, pos) {
            Err(fault) => Err(fault),
            Ok((literals, distances, next)) => block_symbols(literals, distances, s, next, out),
        }
    } else {
        Err(PngFault::BlockType)
    }
}

/// Inflate the blocks from `pos` onto `out`, up to and including the last one.
pub open spec fn inflate_from(s: Seq<u8>, pos: int, out: Seq<u8>) -> Result<Seq<u8>, PngFault>
    decreases bit_len(s) - pos,
    when pos >= 0
{
    let last = bits_value(s, pos, 1);
    let kind = bits_value(s, pos + 1, 2);
    if pos + 3 > bit_len(s) {
        Err(PngFault::StreamEnded)
    } else {
        proof {
            lemma_body_advances(s, pos + 3, kind, out);
        }
        match block_body(s, pos + 3, kind, out) {
            Err(fault) => Err(fault),
            Ok((longer, next)) => if longer.len() > MAX_INFLATED {
                Err(PngFault::OutputTooLarge)
            } else if last == 1 {
                Ok(longer)
            } else {
                inflate_from(s, next, longer)
            },
        }
    }
}

/// What a raw DEFLATE stream inflates to.
pub open spec fn inflated(s: Seq<u8>) -> Result<Seq<u8>, PngFault> {
    inflate_from(s, 0, seq![])
}

/// What a zlib stream inflates to. Its trailing checksum is not looked at.
pub open spec fn zlib_inflated(s: Seq<u8>) -> Result<Seq<u8>, PngFault> {
    if s.len() < 2 {
        Err(PngFault::ZlibTooShort)
    } else if s[0] % 16 != 8 {
        Err(PngFault::ZlibMethod(s[0] % 16))
    } else if (s[0] * 256 + s[1]) % 31 != 0 {
        Err(PngFault::ZlibChecksum)
    } else if s[1] / 32 % 2 != 0 {
        Err(PngFault::ZlibDictionary)
    } else {
        inflated(s.subrange(2, s.len() as int))
    }
}

proof fn lemma_expand_advances(
    codes: Seq<u8>,
    s: Seq<u8>,
    pos: int,
    total: nat,
    lengths: Seq<u8>,
)
    requires
        0 <= pos <= bit_len(s),
    ensures
        expand_lengths(codes, s, pos, total, lengths) matches Ok((_, next)) ==> pos <= next
            <= bit_len(s),
    decreases total - lengths.len(),
{
    if lengths.len() < total {
        lemma_decode_advances(codes, s, pos);
        if let Ok((symbol, next)) = decode_symbol(codes, s, pos) {
            if symbol <= 15 {
                lemma_expand_advances(codes, s, next, total, lengths.push(symbol as u8));
            } else if symbol == 16 {
                if let Ok((extra, after)) = take_bits(s, next, 2) {
                    if lengths.len() + 3 + extra <= total {
                        lemma_expand_advances(
                            codes,
                            s,
                            after,
                            total,
                            lengths + Seq::new(3 + extra, |k: int| lengths.last()),
                        );
                    }
                }
            } else if symbol <= 18 {
                let width: nat = if symbol == 17 {
                    3
                } else {
                    7
                };
                let base: nat = if symbol == 17 {
                    3
                } else {
                    11
                };
                if let Ok((extra, after)) = take_bits(s, next, width) {
                    if lengths.len() + base + extra <= total {
                        lemma_expand_advances(
                            codes,
                            s,
                            after,
                            total,
                            lengths + Seq::new(base + extra, |k: int| 0u8),
                        );
                    }
                }
            }
        }
    }
}

proof fn lemma_block_advances(
    literals: Seq<u8>,
    distances: Seq<u8>,
    s: Seq<u8>,
    pos: int,
    out: Seq<u8>,
)
    requires
        0 <= pos,
    ensures
        block_symbols(literals, distances, s, pos, out) matches Ok((_, next)) ==> pos <= next
            <= bit_len(s),
    decreases bit_len(s) - pos,
{
    lemma_decode_advances(literals, s, pos);
    if let Ok((symbol, next)) = decode_symbol(literals, s, pos) {
        if symbol <= 255 {
            lemma_block_advances(literals, distances, s, next, out.push(symbol as u8));
        } else if 257 <= symbol <= 285 {
            lemma_match_advances(distances, s, next, symbol - 257);
            if let Ok((length, distance, after)) = match_at(distances, s, next, symbol - 257) {
                lemma_block_advances(
                    literals,
                    distances,
                    s,
                    after,
                    copy_back(out, distance as int, length),
                );
            }
        }
    }
}

proof fn lemma_dynamic_advances(s: Seq<u8>, pos: int)
    requires
        0 <= pos <= bit_len(s),
    ensures
        dynamic_lengths(s, pos) matches Ok((_, _, next)) ==> pos <= next <= bit_len(s),
{
    let count = bits_value(s, pos + 10, 4) + 4;
    let total = bits_value(s, pos, 5) + 257 + (bits_value(s, pos + 5, 5) + 1);
    let codes = code_length_lengths(s, pos + 14, count);
    if pos + 14 + 3 * count <= bit_len(s) {
        lemma_expand_advances(codes, s, pos + 14 + 3 * count, total, seq![]);
    }
}

proof fn lemma_stored_advances(s: Seq<u8>, pos: int, out: Seq<u8>)
    requires
        0 <= pos <= bit_len(s),
    ensures
        stored_block(s, pos, out) matches Ok((_, next)) ==> pos <= next <= bit_len(s),
{
    let start = aligned(pos);
    assert(pos <= start && start % 8 == 0);
}

/// A block never ends before it starts, nor outside the stream.
pub proof fn lemma_body_advances(s: Seq<u8>, pos: int, kind: nat, out: Seq<u8>)
    requires
        0 <= pos <= bit_len(s),
    ensures
        block_body(s, pos, kind, out) matches Ok((_, next)) ==> pos <= next <= bit_len(s),
{
    if kind == 0 {
        lemma_stored_advances(s, pos, out);
    } else if kind == 1 {
        lemma_block_advances(fixed_literal_lengths(), fixed_distance_lengths(), s, pos, out);
    } else if kind == 2 {
        lemma_dynamic_advances(s, pos);
        if let Ok((literals, distances, next)) = dynamic_lengths(s, pos) {
            lemma_block_advances(literals, distances, s, next, out);
        }
    }
}

/// Eight bits from a byte boundary are that byte.
pub proof fn lemma_aligned_byte(s: Seq<u8>, k: int)
    requires
        0 <= k < s.len(),
    ensures
        bits_value(s, 8 * k, 8) == s[k],
{
    lemma2_to64();
    let b = s[k];
    let p = 8 * k;
    assert(bit_at(s, p) == b / 1 % 2);
    assert(bit_at(s, p + 1) == b / 2 % 2);
    assert(bit_at(s, p + 2) == b / 4 % 2);
    assert(bit_at(s, p + 3) == b / 8 % 2);
    assert(bit_at(s, p + 4) == b / 16 % 2);
    assert(bit_at(s, p + 5) == b / 32 % 2);
    assert(bit_at(s, p + 6) == b / 64 % 2);
    assert(bit_at(s, p + 7) == b / 128 % 2);
    assert(bits_value(s, p + 8, 0) == 0);
    assert(bits_value(s, p + 7, 1) == bit_at(s, p + 7) + 2 * bits_value(s, p + 8, 0));
    assert(bits_value(s, p + 6, 2) == bit_at(s, p + 6) + 2 * bits_value(s, p + 7, 1));
    assert(bits_value(s, p + 5, 3) == bit_at(s, p + 5) + 2 * bits_value(s, p + 6, 2));
    assert(bits_value(s, p + 4, 4) == bit_at(s, p + 4) + 2 * bits_value(s, p + 5, 3));
    assert(bits_value(s, p + 3, 5) == bit_at(s, p + 3) + 2 * bits_value(s, p + 4, 4));
    assert(bits_value(s, p + 2, 6) == bit_at(s, p + 2) + 2 * bits_value(s, p + 3, 5));
    assert(bits_value(s, p + 1, 7) == bit_at(s, p + 1) + 2 * bits_value(s, p + 2, 6));
    assert(bits_value(s, p, 8) == bit_at(s, p) + 2 * bits_value(s, p + 1, 7));
    assert(b == b / 1 % 2 + 2 * (b / 2 % 2 + 2 * (b / 4 % 2 + 2 * (b / 8 % 2 + 2 * (b / 16 % 2 + 2 * (b
        / 32 % 2 + 2 * (b / 64 % 2 + 2 * (b / 128 % 2)))))))) by (bit_vector);
}

/// Append a stored block's bytes.
fn inflate_stored(reader: &mut BitReader<'_>, out: &mut Vec<u8>) -> (r: Result<(), PngFault>)
    requires
        old(reader).wf(),
    ensures
        final(reader).wf(),
        final(reader).stream() == old(reader).stream(),
        match stored_block(old(reader).stream(), old(reader).pos(), old(out)@) {
            Ok((bytes, next)) => r is Ok && final(out)@ == bytes && final(reader).pos() == next,
            Err(fault) => r == Err::<(), PngFault>(fault),
        },
{
    proof {
        lemma2_to64();
        reader.lemma_pos_in_stream();
    }
    reader.align();
    let ghost s = reader.stream();
    let ghost start = reader.pos();
    let length: u32 = match reader.bits(16) {
        Ok(value) => value,
        Err(fault) => {
            return Err(fault);
        },
    };
    let complement: u32 = match reader.bits(16) {
        Ok(value) => value,
        Err(fault) => {
            return Err(fault);
        },
    };
    if 0xFFFF - length != complement {
        return Err(PngFault::StoredComplement);
    }
    let ghost first = (start + 32) / 8;
    let mut k: u32 = 0;
    while k < length
        invariant
            k <= length <= 0xFFFF,
            reader.wf(),
            reader.stream() == s,
            s == old(reader).stream(),
            first * 8 == start + 32,
            first >= 0,
            first + k <= s.len(),
            reader.pos() == 8 * (first + k),
            start == aligned(old(reader).pos()),
            start + 32 <= bit_len(s),
            length == bits_value(s, start, 16),
            length + bits_value(s, start + 16, 16) == 0xFFFF,
            out@ == old(out)@ + s.subrange(first, first + k),
        decreases length - k,
    {
        proof {
            if first + k < s.len() {
                lemma_aligned_byte(s, first + k);
            }
        }
        let byte: u8 = match reader.bits(8) {
            Ok(value) => value as u8,
            Err(fault) => {
                return Err(fault);
            },
        };
        out.push(byte);
        k = k + 1;
        assert(out@ =~= old(out)@ + s.subrange(first, first + k));
    }
    Ok(())
}

/// Inflate one block's symbols.
fn inflate_block(
    reader: &mut BitReader<'_>,
    out: &mut Vec<u8>,
    literal: &Huffman,
    distance_table: &Huffman,
    Ghost(literals): Ghost<Seq<u8>>,
    Ghost(distances): Ghost<Seq<u8>>,
) -> (r: Result<(), PngFault>)
    requires
        old(reader).wf(),
        literal.decodes(literals),
        distance_table.decodes(distances),
    ensures
        final(reader).wf(),
        final(reader).stream() == old(reader).stream(),
        match block_symbols(
            literals,
            distances,
            old(reader).stream(),
            old(reader).pos(),
            old(out)@,
        ) {
            Ok((bytes, next)) => r is Ok && final(out)@ == bytes && final(reader).pos() == next,
            Err(fault) => r == Err::<(), PngFault>(fault),
        },
{
    let ghost s = reader.stream();
    let ghost whole = block_symbols(literals, distances, s, reader.pos(), out@);
    loop
        invariant
            reader.wf(),
            reader.stream() == s,
            s == old(reader).stream(),
            literal.decodes(literals),
            distance_table.decodes(distances),
            whole == block_symbols(
                literals,
                distances,
                old(reader).stream(),
                old(reader).pos(),
                old(out)@,
            ),
            whole == block_symbols(literals, distances, s, reader.pos(), out@),
        decreases bit_len(s) - reader.pos(),
    {
        proof {
            lemma2_to64();
            reader.lemma_pos_in_stream();
            lemma_decode_advances(literals, s, reader.pos());
        }
        let symbol: u16 = match literal.decode(reader, Ghost(literals)) {
            Ok(symbol) => symbol,
            Err(fault) => {
                return Err(fault);
            },
        };
        if symbol <= 255 {
            out.push(symbol as u8);
        } else if symbol == 256 {
            return Ok(());
        } else if symbol <= 285 {
            let index: usize = (symbol - 257) as usize;
            let ghost after_symbol = reader.pos();
            proof {
                lemma_match_advances(distances, s, after_symbol, index as int);
            }
            assert(LENGTH_EXTRA[index as int] <= 5 && LENGTH_BASE[index as int] <= 258);
            let length: usize = match reader.bits(LENGTH_EXTRA[index] as u32) {
                Ok(extra) => LENGTH_BASE[index] as usize + extra as usize,
                Err(fault) => {
                    return Err(fault);
                },
            };
            let distance_symbol: u16 = match distance_table.decode(reader, Ghost(distances)) {
                Ok(symbol) => symbol,
                Err(fault) => {
                    return Err(fault);
                },
            };
            if distance_symbol >= 30 {
                return Err(PngFault::DistanceSymbol(distance_symbol));
            }
            let slot: usize = distance_symbol as usize;
            assert(DISTANCE_EXTRA[slot as int] <= 13 && 1 <= DISTANCE_BASE[slot as int] <= 24577);
            let distance: usize = match reader.bits(DISTANCE_EXTRA[slot] as u32) {
                Ok(far) => DISTANCE_BASE[slot] as usize + far as usize,
                Err(fault) => {
                    return Err(fault);
                },
            };
            if distance > out.len() {
                return Err(PngFault::BackReference { distance, decoded: out.len() });
            }
            let ghost before = out@;
            let start: usize = out.len() - distance;
            let mut k: usize = 0;
            while k < length
                invariant
                    k <= length,
                    1 <= distance <= before.len(),
                    start == before.len() - distance,
                    out@.len() == before.len() + k,
                    out@ == copy_back(before, distance as int, k as nat),
                decreases length - k,
            {
                assert(start + k < out.len());
                let byte: u8 = out[start + k];
                out.push(byte);
                k = k + 1;
            }
            if out.len() > MAX_INFLATED {
                return Err(PngFault::MatchTooLarge);
            }
        } else {
            return Err(PngFault::LiteralSymbol(symbol));
        }
    }
}

/// Inflate the body of a block of the given kind.
fn inflate_body(reader: &mut BitReader<'_>, out: &mut Vec<u8>, kind: u32) -> (r: Result<
    (),
    PngFault,
>)
    requires
        old(reader).wf(),
    ensures
        final(reader).wf(),
        final(reader).stream() == old(reader).stream(),
        match block_body(old(reader).stream(), old(reader).pos(), kind as nat, old(out)@) {
            Ok((bytes, next)) => r is Ok && final(out)@ == bytes && final(reader).pos() == next,
            Err(fault) => r == Err::<(), PngFault>(fault),
        },
{
    if kind == 0 {
        inflate_stored(reader, out)
    } else if kind == 1 {
        let (literal, distance) = match fixed_tables() {
            Ok(tables) => tables,
            Err(fault) => {
                return Err(fault);
            },
        };
        inflate_block(
            reader,
            out,
            &literal,
            &distance,
            Ghost(fixed_literal_lengths()),
            Ghost(fixed_distance_lengths()),
        )
    } else if kind == 2 {
        let ghost lengths = dynamic_lengths(reader.stream(), reader.pos());
        let (literal, distance) = match dynamic_tables(reader) {
            Ok(tables) => tables,
            Err(fault) => {
                return Err(fault);
            },
        };
        inflate_block(
            reader,
            out,
            &literal,
            &distance,
            Ghost((lengths->Ok_0).0),
            Ghost((lengths->Ok_0).1),
        )
    } else {
        Err(PngFault::BlockType)
    }
}

/// Inflate a raw DEFLATE stream.
pub fn inflate(bytes: &[u8]) -> (r: Result<Vec<u8>, PngFault>)
    ensures
        match inflated(bytes@) {
            Ok(out) => r matches Ok(v) && v@ == out,
            Err(fault) => r matches Err(f) && f == fault,
        },
{
    let mut reader = BitReader::new(bytes);
    let mut out: Vec<u8> = Vec::new();
    let ghost s = bytes@;
    assert(out@ =~= seq![]);
    loop
        invariant
            reader.wf(),
            reader.stream() == s,
            s == bytes@,
            inflated(s) == inflate_from(s, reader.pos(), out@),
        decreases bit_len(s) - reader.pos(),
    {
        let ghost before = reader.pos();
        proof {
            lemma2_to64();
            reader.lemma_pos_in_stream();
            if before + 3 <= bit_len(s) {
                lemma_body_advances(s, before + 3, bits_value(s, before + 1, 2), out@);
            }
        }
        let last: bool = match reader.bits(1) {
            Ok(value) => value == 1,
            Err(fault) => {
                return Err(fault);
            },
        };
        let kind: u32 = match reader.bits(2) {
            Ok(value) => value,
            Err(fault) => {
                return Err(fault);
            },
        };
        match inflate_body(&mut reader, &mut out, kind) {
            Ok(()) => {},
            Err(fault) => {
                return Err(fault);
            },
        }
        if out.len() > MAX_INFLATED {
            return Err(PngFault::OutputTooLarge);
        }
        if last {
            return Ok(out);
        }
    }
}

/// Inflate a zlib stream.
pub fn inflate_zlib(bytes: &[u8]) -> (r: Result<Vec<u8>, PngFault>)
    ensures
        match zlib_inflated(bytes@) {
            Ok(out) => r matches Ok(v) && v@ == out,
            Err(fault) => r matches Err(f) && f == fault,
        },
{
    if bytes.len() < 2 {
        return Err(PngFault::ZlibTooShort);
    }
    let cmf: u8 = bytes[0];
    let flg: u8 = bytes[1];
    if cmf % 16 != 8 {
        return Err(PngFault::ZlibMethod(cmf % 16));
    }
    // The header is a 16-bit big-endian value that must be a multiple of 31.
    if (cmf as u16 * 256 + flg as u16) % 31 != 0 {
        return Err(PngFault::ZlibChecksum);
    }
    if flg / 32 % 2 != 0 {
        return Err(PngFault::ZlibDictionary);
    }
    inflate(vstd::slice::slice_subrange(bytes, 2, bytes.len()))
}

// --- laws --------------------------------------------------------------------

proof fn lemma_bits_split(s: Seq<u8>, pos: int, a: nat, b: nat)
    ensures
        bits_value(s, pos, a + b) == bits_value(s, pos, a) + pow2(a) * bits_value(s, pos + a, b),
    decreases a,
{
    lemma2_to64();
    if a > 0 {
        lemma_bits_split(s, pos + 1, (a - 1) as nat, b);
        lemma_pow2_unfold(a);
        let p = pow2((a - 1) as nat);
        let v = bits_value(s, pos + a, b);
        assert(pos + 1 + (a - 1) == pos + a);
        assert((a - 1) + b == a + b - 1);
        assert(2 * (p * v) == (2 * p) * v) by (nonlinear_arith);
    } else {
        assert(1 * bits_value(s, pos, b) == bits_value(s, pos, b));
    }
}

/// Sixteen bits from a byte boundary are a little-endian integer.
pub proof fn lemma_aligned_u16(s: Seq<u8>, k: int)
    requires
        0 <= k < s.len() - 1,
    ensures
        bits_value(s, 8 * k, 16) == s[k] + 256 * s[k + 1],
{
    lemma2_to64();
    lemma_aligned_byte(s, k);
    lemma_aligned_byte(s, k + 1);
    lemma_bits_split(s, 8 * k, 8, 8);
}

/// A final stored block holding `payload`, as an encoder writes it.
pub open spec fn stored_stream(payload: Seq<u8>) -> Seq<u8> {
    let n = payload.len() as int;
    seq![
        1u8,
        (n % 256) as u8,
        (n / 256) as u8,
        (255 - n % 256) as u8,
        (255 - n / 256) as u8,
    ] + payload
}

/// A stored block gives back exactly the bytes that were stored, whatever
/// follows it in the stream.
pub proof fn law_stored_block_round_trip(payload: Seq<u8>, trailer: Seq<u8>)
    requires
        payload.len() <= 0xFFFF,
    ensures
        inflated(stored_stream(payload) + trailer) == Ok::<Seq<u8>, PngFault>(payload),
{
    let s = stored_stream(payload) + trailer;
    let n = payload.len() as int;
    lemma2_to64();
    assert(s[0] == 1);
    assert(bits_value(s, 0, 1) == 1 && bits_value(s, 1, 2) == 0) by {
        reveal_with_fuel(bits_value, 3);
        assert(bit_at(s, 0) == 1u8 / 1 % 2);
        assert(bit_at(s, 1) == 1u8 / 2 % 2);
        assert(bit_at(s, 2) == 1u8 / 4 % 2);
    }
    lemma_aligned_u16(s, 1);
    lemma_aligned_u16(s, 3);
    assert(aligned(3) == 8);
    assert(s.subrange(5, 5 + n) =~= payload);
    assert(stored_block(s, 3, seq![]) == Ok::<(Seq<u8>, int), PngFault>(
        (seq![] + payload, 40 + 8 * n),
    ));
    assert(seq![] + payload =~= payload);
}

/// A zlib stream around a stored block gives back the stored bytes.
pub proof fn law_zlib_stored_round_trip(payload: Seq<u8>, trailer: Seq<u8>)
    requires
        payload.len() <= 0xFFFF,
    ensures
        zlib_inflated(seq![0x78u8, 0x01u8] + stored_stream(payload) + trailer) == Ok::<
            Seq<u8>,
            PngFault,
        >(payload),
{
    let s = seq![0x78u8, 0x01u8] + stored_stream(payload) + trailer;
    assert(s.subrange(2, s.len() as int) =~= stored_stream(payload) + trailer);
    law_stored_block_round_trip(payload, trailer);
}

/// A back-reference repeats the last `distance` bytes cyclically, so distance 1
/// repeats one byte and an overlapping match never reads past what is written.
pub proof fn law_back_reference_is_cyclic(out: Seq<u8>, distance: int, length: nat, i: int)
    requires
        1 <= distance <= out.len(),
        0 <= i < out.len() + length,
    ensures
        copy_back(out, distance, length).len() == out.len() + length,
        copy_back(out, distance, length)[i] == if i < out.len() {
            out[i]
        } else {
            out[out.len() - distance + (i - out.len()) % distance]
        },
    decreases length,
{
    if length == 0 {
    } else {
        let shorter = (length - 1) as nat;
        law_back_reference_is_cyclic(out, distance, shorter, 0);
        if i < out.len() + shorter {
            law_back_reference_is_cyclic(out, distance, shorter, i);
        } else {
            let from = out.len() + shorter - distance;
            law_back_reference_is_cyclic(out, distance, shorter, from);
            let k = i - out.len();
            if from < out.len() {
                vstd::arithmetic::div_mod::lemma_small_mod(k as nat, distance as nat);
            } else {
                assert(from - out.len() == k - distance);
                vstd::arithmetic::div_mod::lemma_mod_sub_multiples_vanish(k, distance);
                assert((k - distance) % distance == k % distance);
            }
        }
    }
}

proof fn lemma_output_is_bounded(s: Seq<u8>, pos: int, out: Seq<u8>)
    requires
        pos >= 0,
    ensures
        inflate_from(s, pos, out) matches Ok(all) ==> all.len() <= MAX_INFLATED,
    decreases bit_len(s) - pos,
{
    if pos + 3 <= bit_len(s) {
        let kind = bits_value(s, pos + 1, 2);
        lemma_body_advances(s, pos + 3, kind, out);
        if let Ok((longer, next)) = block_body(s, pos + 3, kind, out) {
            if longer.len() <= MAX_INFLATED && bits_value(s, pos, 1) != 1 {
                lemma_output_is_bounded(s, next, longer);
            }
        }
    }
}

/// However a stream was crafted, what it inflates to is no longer than the
/// limit.
pub proof fn law_output_is_bounded(s: Seq<u8>)
    ensures
        inflated(s) matches Ok(out) ==> out.len() <= MAX_INFLATED,
        zlib_inflated(s) matches Ok(out) ==> out.len() <= MAX_INFLATED,
{
    lemma_output_is_bounded(s, 0, seq![]);
    if s.len() >= 2 {
        lemma_output_is_bounded(s.subrange(2, s.len() as int), 0, seq![]);
    }
}

} // verus!
