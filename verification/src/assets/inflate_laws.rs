//! What compressed data stand for, said of codes, lengths and distances
//! directly.

use vstd::prelude::*;
use vstd::arithmetic::power2::pow2;
use crate::assets::fault::PngFault;
use crate::assets::inflate::{
    bit_at, bit_len, bits_value, code_count, code_value, decode_from, decode_symbol,
    expand_lengths, first_code, fixed_distance_lengths, fixed_literal_lengths, inflated,
    lemma_aligned_byte, symbols_of_length, zlib_inflated, CODE_LENGTH_ORDER, DISTANCE_BASE, DISTANCE_EXTRA,
    LENGTH_BASE, LENGTH_EXTRA,
};

verus! {

// --- numbers -----------------------------------------------------------------

/// Fields are read from the lowest bit of each byte up, their lowest bit first;
/// codes are read in the same order, their highest bit first.
pub proof fn law_bit_order(s: Seq<u8>, pos: int, count: nat)
    requires
        0 <= pos,
    ensures
        bit_at(s, pos) < 2,
        bits_value(s, pos, 0) == 0,
        bits_value(s, pos, count + 1) == bit_at(s, pos) + 2 * bits_value(s, pos + 1, count),
        code_value(s, pos, 0) == 0,
        code_value(s, pos, count + 1) == 2 * code_value(s, pos, count) + bit_at(
            s,
            pos + count as int,
        ),
{
}

/// Byte `i` holds the eight bits from `8 * i` on.
pub proof fn law_bytes_hold_their_bits(s: Seq<u8>, i: int)
    requires
        0 <= i < s.len(),
    ensures
        bits_value(s, 8 * i, 8) == s[i],
        bit_len(s) == 8 * s.len(),
{
    lemma_aligned_byte(s, i);
}

// --- tables ------------------------------------------------------------------

/// Every match length from 3 to 258 has a code: each code goes on where the one
/// before it ends, the first eight stand for one length each and the extra bits
/// grow by one with every four codes; the last stands for 258 alone.
pub proof fn law_length_codes(i: int)
    requires
        0 <= i < 29,
    ensures
        LENGTH_BASE[0] == 3,
        i < 28 ==> LENGTH_EXTRA[i] == (if i < 8 {
            0int
        } else {
            i / 4 - 1
        }),
        i < 27 ==> LENGTH_BASE[i + 1] == LENGTH_BASE[i] + pow2(LENGTH_EXTRA[i] as nat),
        LENGTH_BASE[28] == 258 && LENGTH_EXTRA[28] == 0,
{
    vstd::arithmetic::power2::lemma2_to64();
    assert(i == 0 || i == 1 || i == 2 || i == 3 || i == 4 || i == 5 || i == 6 || i == 7 || i == 8
        || i == 9 || i == 10 || i == 11 || i == 12 || i == 13 || i == 14 || i == 15 || i == 16 || i
        == 17 || i == 18 || i == 19 || i == 20 || i == 21 || i == 22 || i == 23 || i == 24 || i
        == 25 || i == 26 || i == 27 || i == 28);
}

/// Every distance from 1 on has a code: each code goes on where the one before
/// it ends, the first four stand for one distance each and the extra bits grow
/// by one with every two codes.
pub proof fn law_distance_codes(i: int)
    requires
        0 <= i < 30,
    ensures
        DISTANCE_BASE[0] == 1,
        DISTANCE_EXTRA[i] == (if i < 4 {
            0int
        } else {
            i / 2 - 1
        }),
        i < 29 ==> DISTANCE_BASE[i + 1] == DISTANCE_BASE[i] + pow2(DISTANCE_EXTRA[i] as nat),
{
    vstd::arithmetic::power2::lemma2_to64();
    assert(i == 0 || i == 1 || i == 2 || i == 3 || i == 4 || i == 5 || i == 6 || i == 7 || i == 8
        || i == 9 || i == 10 || i == 11 || i == 12 || i == 13 || i == 14 || i == 15 || i == 16 || i
        == 17 || i == 18 || i == 19 || i == 20 || i == 21 || i == 22 || i == 23 || i == 24 || i
        == 25 || i == 26 || i == 27 || i == 28 || i == 29);
}

/// The lengths of the code length code come with the repeats first, then no
/// length, then outwards from 8, the higher one first.
pub proof fn law_code_length_order(k: int)
    requires
        0 <= k < 8,
    ensures
        CODE_LENGTH_ORDER[0] == 16 && CODE_LENGTH_ORDER[1] == 17 && CODE_LENGTH_ORDER[2] == 18,
        CODE_LENGTH_ORDER[3] == 0,
        CODE_LENGTH_ORDER[4 + 2 * k] == 8 + k,
        k < 7 ==> CODE_LENGTH_ORDER[5 + 2 * k] == 7 - k,
{
    assert(k == 0 || k == 1 || k == 2 || k == 3 || k == 4 || k == 5 || k == 6 || k == 7);
}

/// The code lengths of blocks that bring none of their own.
pub proof fn law_fixed_codes(i: int)
    ensures
        fixed_literal_lengths().len() == 288 && fixed_distance_lengths().len() == 30,
        0 <= i < 144 || 280 <= i < 288 ==> fixed_literal_lengths()[i] == 8,
        144 <= i < 256 ==> fixed_literal_lengths()[i] == 9,
        256 <= i < 280 ==> fixed_literal_lengths()[i] == 7,
        0 <= i < 30 ==> fixed_distance_lengths()[i] == 5,
{
}

// --- canonical codes ---------------------------------------------------------

/// The codes of length `l` that shorter codes rule out, each of them all that
/// start with it.
pub open spec fn ruled_out(lengths: Seq<u8>, l: nat) -> nat
    decreases lengths.len(),
{
    if lengths.len() == 0 {
        0
    } else {
        ruled_out(lengths.drop_last(), l) + (if 0 < lengths.last() < l {
            pow2((l - lengths.last()) as nat)
        } else {
            0
        })
    }
}

/// How many of the lengths are `l`.
pub open spec fn equally_long(lengths: Seq<u8>, l: nat) -> nat
    decreases lengths.len(),
{
    if lengths.len() == 0 {
        0
    } else {
        equally_long(lengths.drop_last(), l) + (if lengths.last() == l {
            1nat
        } else {
            0nat
        })
    }
}

proof fn lemma_count_step(lengths: Seq<u8>, l: nat)
    requires
        lengths.len() > 0,
    ensures
        code_count(lengths, l) == code_count(lengths.drop_last(), l) + (if l > 0 && lengths.last()
            == l {
            1nat
        } else {
            0nat
        }),
{
}

proof fn lemma_first_code_step(lengths: Seq<u8>, l: nat)
    requires
        lengths.len() > 0,
    ensures
        first_code(lengths, l) == first_code(lengths.drop_last(), l) + (if 0 < lengths.last() < l {
            pow2((l - lengths.last()) as nat)
        } else {
            0
        }),
    decreases l,
{
    if l > 0 {
        let m = (l - 1) as nat;
        lemma_first_code_step(lengths, m);
        lemma_count_step(lengths, m);
        let x = lengths.last() as nat;
        if 0 < x < m {
            vstd::arithmetic::power2::lemma_pow2_unfold((l - x) as nat);
        } else if 0 < x == m {
            vstd::arithmetic::power2::lemma2_to64();
        }
    }
}

proof fn lemma_first_code(lengths: Seq<u8>, l: nat)
    ensures
        first_code(lengths, l) == ruled_out(lengths, l),
    decreases lengths.len(),
{
    if lengths.len() == 0 {
        lemma_no_codes(lengths, l);
    } else {
        lemma_first_code_step(lengths, l);
        lemma_first_code(lengths.drop_last(), l);
    }
}

proof fn lemma_no_codes(lengths: Seq<u8>, l: nat)
    requires
        lengths.len() == 0,
    ensures
        first_code(lengths, l) == 0,
    decreases l,
{
    if l > 0 {
        lemma_no_codes(lengths, (l - 1) as nat);
    }
}

proof fn lemma_rank(lengths: Seq<u8>, symbol: int, l: nat)
    requires
        0 <= symbol < lengths.len(),
        lengths[symbol] == l,
    ensures
        equally_long(lengths.take(symbol), l) < symbols_of_length(lengths, l).len(),
        symbols_of_length(lengths, l)[equally_long(lengths.take(symbol), l) as int] == symbol,
        symbols_of_length(lengths, l).len() == equally_long(lengths, l),
    decreases lengths.len(),
{
    let rest = lengths.drop_last();
    lemma_equally_long(rest, l);
    if symbol == lengths.len() - 1 {
        assert(lengths.take(symbol) =~= rest);
    } else {
        assert(lengths.take(symbol) =~= rest.take(symbol));
        lemma_rank(rest, symbol, l);
    }
}

proof fn lemma_equally_long(lengths: Seq<u8>, l: nat)
    ensures
        symbols_of_length(lengths, l).len() == equally_long(lengths, l),
    decreases lengths.len(),
{
    if lengths.len() > 0 {
        lemma_equally_long(lengths.drop_last(), l);
    }
}

/// Bits that do not start with a shorter code are not taken for one.
proof fn lemma_not_shorter(lengths: Seq<u8>, s: Seq<u8>, pos: int, l: nat, m: nat)
    requires
        1 <= m <= l <= 15,
        0 <= pos,
        pos + l <= bit_len(s),
        code_value(s, pos, l) >= first_code(lengths, l),
    ensures
        code_value(s, pos, m) >= first_code(lengths, m),
        m < l ==> code_value(s, pos, m) >= first_code(lengths, m) + code_count(lengths, m),
        decode_from(lengths, s, pos, m) == decode_from(lengths, s, pos, l),
    decreases l - m,
{
    if m < l {
        lemma_not_shorter(lengths, s, pos, l, m + 1);
        assert(bit_at(s, pos + m as int) < 2);
        assert(code_value(s, pos, m + 1) == 2 * code_value(s, pos, m) + bit_at(s, pos + m as int));
        assert(first_code(lengths, m + 1) == 2 * (first_code(lengths, m) + code_count(lengths, m)));
    }
}

/// A symbol is read back from its code. The code of a symbol is that of the
/// canonical scheme: as many codes of its length come before it as shorter codes
/// rule out, and as there are symbols before it whose codes are as long.
pub proof fn law_symbols_are_read_from_their_codes(
    lengths: Seq<u8>,
    symbol: int,
    s: Seq<u8>,
    pos: int,
)
    requires
        0 <= symbol < lengths.len(),
        1 <= lengths[symbol] <= 15,
        0 <= pos,
        pos + lengths[symbol] <= bit_len(s),
        code_value(s, pos, lengths[symbol] as nat) == ruled_out(lengths, lengths[symbol] as nat)
            + equally_long(lengths.take(symbol), lengths[symbol] as nat),
    ensures
        decode_symbol(lengths, s, pos) == Ok::<(int, int), PngFault>(
            (symbol, pos + lengths[symbol]),
        ),
{
    let l = lengths[symbol] as nat;
    lemma_first_code(lengths, l);
    lemma_rank(lengths, symbol, l);
    lemma_not_shorter(lengths, s, pos, l, 1);
}

// --- length tables and headers -----------------------------------------------

/// Codes up to 15 are lengths; 16 repeats the last length three to six times, 17
/// stands for three to ten unused symbols and 18 for eleven to 138.
pub proof fn law_length_repeats(
    codes: Seq<u8>,
    s: Seq<u8>,
    pos: int,
    total: nat,
    lengths: Seq<u8>,
    symbol: int,
    next: int,
)
    requires
        lengths.len() < total,
        decode_symbol(codes, s, pos) == Ok::<(int, int), PngFault>((symbol, next)),
        0 <= symbol,
    ensures
        symbol < 16 ==> expand_lengths(codes, s, pos, total, lengths) == expand_lengths(
            codes,
            s,
            next,
            total,
            lengths.push(symbol as u8),
        ),
        symbol == 16 && lengths.len() > 0 && next + 2 <= 8 * s.len() && lengths.len() + bits_value(
            s,
            next,
            2,
        ) + 3 <= total ==> expand_lengths(codes, s, pos, total, lengths) == expand_lengths(
            codes,
            s,
            next + 2,
            total,
            lengths + Seq::new(bits_value(s, next, 2) + 3, |k: int| lengths[lengths.len() - 1]),
        ),
        symbol == 17 && next + 3 <= 8 * s.len() && lengths.len() + bits_value(s, next, 3) + 3
            <= total ==> expand_lengths(codes, s, pos, total, lengths) == expand_lengths(
            codes,
            s,
            next + 3,
            total,
            lengths + Seq::new(bits_value(s, next, 3) + 3, |k: int| 0u8),
        ),
        symbol == 18 && next + 7 <= 8 * s.len() && lengths.len() + bits_value(s, next, 7) + 11
            <= total ==> expand_lengths(codes, s, pos, total, lengths) == expand_lengths(
            codes,
            s,
            next + 7,
            total,
            lengths + Seq::new(bits_value(s, next, 7) + 11, |k: int| 0u8),
        ),
{
    if symbol == 16 && lengths.len() > 0 {
        let extra = bits_value(s, next, 2);
        assert(Seq::new(3 + extra, |k: int| lengths.last()) =~= Seq::new(
            extra + 3,
            |k: int| lengths[lengths.len() - 1],
        ));
    } else if symbol == 17 {
        let extra = bits_value(s, next, 3);
        assert(Seq::new(3 + extra, |k: int| 0u8) =~= Seq::new(extra + 3, |k: int| 0u8));
    } else if symbol == 18 {
        let extra = bits_value(s, next, 7);
        assert(Seq::new(11 + extra, |k: int| 0u8) =~= Seq::new(extra + 11, |k: int| 0u8));
    }
}

/// The wrapper is two bytes, which say that what follows is compressed in the one
/// known way, without a dictionary, and which together are a multiple of 31. What
/// follows it is all that is inflated.
pub proof fn law_wrappers(s: Seq<u8>)
    ensures
        s.len() >= 2 && s[0] % 16 == 8 && (256 * s[0] + s[1]) % 31 == 0 && s[1] % 64 < 32
            ==> zlib_inflated(s) == inflated(s.skip(2)),
        zlib_inflated(s) is Ok ==> s.len() >= 2 && s[0] % 16 == 8 && (256 * s[0] + s[1]) % 31 == 0
            && s[1] % 64 < 32,
{
    if s.len() >= 2 {
        assert(s.subrange(2, s.len() as int) =~= s.skip(2));
        assert(s[1] / 32 % 2 == 0 <==> s[1] % 64 < 32);
    }
}

} // verus!
