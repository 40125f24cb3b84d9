//! What the blocks of compressed data add to the output.

use vstd::prelude::*;
use crate::assets::fault::PngFault;
use crate::assets::inflate::{
    aligned, bits_value, block_body, block_symbols, code_length_lengths, copy_back, decode_symbol,
    dynamic_lengths, expand_lengths, fixed_distance_lengths, fixed_literal_lengths, inflate_from,
    lemma_body_advances, lemma_decode_advances, lemma_match_advances, stored_block, CODE_LENGTH_ORDER, DISTANCE_BASE,
    DISTANCE_EXTRA, LENGTH_BASE, LENGTH_EXTRA,
};

verus! {

/// Symbols below 256 are bytes of the output, and 256 ends the block.
pub proof fn law_literals(
    literals: Seq<u8>,
    distances: Seq<u8>,
    s: Seq<u8>,
    pos: int,
    out: Seq<u8>,
    symbol: int,
    next: int,
)
    requires
        0 <= pos,
        0 <= symbol,
        decode_symbol(literals, s, pos) == Ok::<(int, int), PngFault>((symbol, next)),
    ensures
        symbol < 256 ==> block_symbols(literals, distances, s, pos, out) == block_symbols(
            literals,
            distances,
            s,
            next,
            out + seq![symbol as u8],
        ),
        symbol == 256 ==> block_symbols(literals, distances, s, pos, out) == Ok::<
            (Seq<u8>, int),
            PngFault,
        >((out, next)),
        symbol > 285 ==> block_symbols(literals, distances, s, pos, out) is Err,
{
    lemma_decode_advances(literals, s, pos);
    assert(out + seq![symbol as u8] =~= out.push(symbol as u8));
}

/// The other symbols are copies: of as many bytes as their length and its extra bits say,
/// from as far back as the distance behind it and its extra bits say. Nothing is copied
/// from before the output.
pub proof fn law_copies(
    literals: Seq<u8>,
    distances: Seq<u8>,
    s: Seq<u8>,
    pos: int,
    out: Seq<u8>,
    symbol: int,
    p0: int,
    code: int,
    p2: int,
)
    requires
        0 <= pos,
        257 <= symbol <= 285,
        0 <= code < 30,
        decode_symbol(literals, s, pos) == Ok::<(int, int), PngFault>((symbol, p0)),
        p0 + LENGTH_EXTRA[symbol - 257] <= 8 * s.len(),
        decode_symbol(distances, s, p0 + LENGTH_EXTRA[symbol - 257]) == Ok::<
            (int, int),
            PngFault,
        >((code, p2)),
        p2 + DISTANCE_EXTRA[code] <= 8 * s.len(),
    ensures
        ({
            let length = (LENGTH_BASE[symbol - 257] + bits_value(
                s,
                p0,
                LENGTH_EXTRA[symbol - 257] as nat,
            )) as nat;
            let distance = DISTANCE_BASE[code] + bits_value(s, p2, DISTANCE_EXTRA[code] as nat);
            let r = block_symbols(literals, distances, s, pos, out);
            &&& distance > out.len() ==> r is Err
            &&& distance <= out.len() && copy_back(out, distance, length).len() <= 256 * 1024 * 1024
                ==> r == block_symbols(
                literals,
                distances,
                s,
                p2 + DISTANCE_EXTRA[code],
                copy_back(out, distance, length),
            )
        }),
{
    lemma_decode_advances(literals, s, pos);
    lemma_match_advances(distances, s, p0, symbol - 257);
}

/// A copy grows the output by its length and leaves what is there; each new byte is the
/// one `distance` before it.
pub proof fn law_copied_bytes(out: Seq<u8>, distance: int, length: nat, i: int)
    requires
        0 < distance <= out.len(),
        0 <= i < out.len() + length,
    ensures
        copy_back(out, distance, length).len() == out.len() + length,
        i < out.len() ==> copy_back(out, distance, length)[i] == out[i],
        i >= out.len() ==> copy_back(out, distance, length)[i] == copy_back(
            out,
            distance,
            length,
        )[i - distance],
    decreases length,
{
    if length > 0 {
        let before = copy_back(out, distance, (length - 1) as nat);
        law_copied_bytes(out, distance, (length - 1) as nat, 0);
        if i < out.len() + length - 1 {
            law_copied_bytes(out, distance, (length - 1) as nat, i);
        }
    }
}

/// A block tells with its first bit whether it is the last, and with the next two its
/// kind; the output of one is what the next one starts with.
pub proof fn law_blocks(s: Seq<u8>, pos: int, out: Seq<u8>, longer: Seq<u8>, next: int)
    requires
        0 <= pos,
        pos + 3 <= 8 * s.len(),
        block_body(s, pos + 3, bits_value(s, pos + 1, 2), out) == Ok::<(Seq<u8>, int), PngFault>(
            (longer, next),
        ),
        longer.len() <= 256 * 1024 * 1024,
    ensures
        bits_value(s, pos, 1) == 1 ==> inflate_from(s, pos, out) == Ok::<Seq<u8>, PngFault>(longer),
        bits_value(s, pos, 1) != 1 ==> inflate_from(s, pos, out) == inflate_from(s, next, longer),
{
    lemma_body_advances(s, pos + 3, bits_value(s, pos + 1, 2), out);
}

/// The kinds of blocks: stored, with the fixed codes and with codes of their own.
pub proof fn law_block_kinds(s: Seq<u8>, pos: int, out: Seq<u8>)
    ensures
        block_body(s, pos, 0, out) == stored_block(s, pos, out),
        block_body(s, pos, 1, out) == block_symbols(
            fixed_literal_lengths(),
            fixed_distance_lengths(),
            s,
            pos,
            out,
        ),
        dynamic_lengths(s, pos) matches Ok((literals, distances, next)) ==> block_body(
            s,
            pos,
            2,
            out,
        ) == block_symbols(literals, distances, s, next, out),
        dynamic_lengths(s, pos) is Err ==> block_body(s, pos, 2, out) is Err,
        block_body(s, pos, 3, out) is Err,
{
}

/// A stored block starts at the next whole byte, with its length and the complement of it
/// in two bytes each, the lower byte first, and its bytes behind them.
pub proof fn law_stored_blocks(s: Seq<u8>, pos: int, out: Seq<u8>, start: int, length: int)
    requires
        0 <= pos,
        8 * start - 8 < pos <= 8 * start,
        start + 4 <= s.len(),
        length == bits_value(s, 8 * start, 16),
    ensures
        length + bits_value(s, 8 * start + 16, 16) == 0xFFFF && start + 4 + length <= s.len()
            ==> stored_block(s, pos, out) == Ok::<(Seq<u8>, int), PngFault>(
            (out + s.subrange(start + 4, start + 4 + length), 8 * (start + 4 + length)),
        ),
        length + bits_value(s, 8 * start + 16, 16) != 0xFFFF ==> stored_block(s, pos, out) is Err,
        start + 4 + length > s.len() ==> stored_block(s, pos, out) is Err,
{
    assert(aligned(pos) == 8 * start);
}

/// Every code length belongs to one place of the order.
proof fn lemma_order_is_one_to_one(a: int, b: int)
    requires
        0 <= a < 19,
        0 <= b < 19,
        CODE_LENGTH_ORDER[a] == CODE_LENGTH_ORDER[b],
    ensures
        a == b,
        CODE_LENGTH_ORDER[a] < 19,
{
    assert(a == 0 || a == 1 || a == 2 || a == 3 || a == 4 || a == 5 || a == 6 || a == 7 || a == 8
        || a == 9 || a == 10 || a == 11 || a == 12 || a == 13 || a == 14 || a == 15 || a == 16 || a
        == 17 || a == 18);
    assert(b == 0 || b == 1 || b == 2 || b == 3 || b == 4 || b == 5 || b == 6 || b == 7 || b == 8
        || b == 9 || b == 10 || b == 11 || b == 12 || b == 13 || b == 14 || b == 15 || b == 16 || b
        == 17 || b == 18);
}

/// The lengths of the codes for code lengths come in three bits each, in their order;
/// those that do not come are zero.
pub proof fn law_code_length_lengths(s: Seq<u8>, pos: int, n: nat, k: int)
    requires
        n <= 19,
        0 <= k < 19,
    ensures
        code_length_lengths(s, pos, n).len() == 19,
        code_length_lengths(s, pos, n)[CODE_LENGTH_ORDER[k] as int] == (if k < n {
            bits_value(s, pos + 3 * k, 3) as u8
        } else {
            0u8
        }),
    decreases n,
{
    lemma_order_is_one_to_one(k, k);
    if n > 0 {
        law_code_length_lengths(s, pos, (n - 1) as nat, k);
        lemma_order_is_one_to_one(n - 1, n - 1);
        if CODE_LENGTH_ORDER[k] == CODE_LENGTH_ORDER[n - 1] {
            lemma_order_is_one_to_one(k, n - 1);
        }
    }
}

/// As many lengths are read as were asked for.
proof fn lemma_expanded(codes: Seq<u8>, s: Seq<u8>, pos: int, total: nat, lengths: Seq<u8>)
    requires
        lengths.len() <= total,
    ensures
        expand_lengths(codes, s, pos, total, lengths) matches Ok((all, _)) ==> all.len() == total,
    decreases total - lengths.len(),
{
    if lengths.len() < total {
        if let Ok((symbol, next)) = decode_symbol(codes, s, pos) {
            if symbol <= 15 {
                lemma_expanded(codes, s, next, total, lengths.push(symbol as u8));
            } else if symbol == 16 {
                let extra = bits_value(s, next, 2);
                if lengths.len() > 0 && lengths.len() + 3 + extra <= total {
                    lemma_expanded(
                        codes,
                        s,
                        next + 2,
                        total,
                        lengths + Seq::new(3 + extra, |k: int| lengths.last()),
                    );
                }
            } else if symbol == 17 {
                let extra = bits_value(s, next, 3);
                if lengths.len() + 3 + extra <= total {
                    lemma_expanded(
                        codes,
                        s,
                        next + 3,
                        total,
                        lengths + Seq::new(3 + extra, |k: int| 0u8),
                    );
                }
            } else if symbol == 18 {
                let extra = bits_value(s, next, 7);
                if lengths.len() + 11 + extra <= total {
                    lemma_expanded(
                        codes,
                        s,
                        next + 7,
                        total,
                        lengths + Seq::new(11 + extra, |k: int| 0u8),
                    );
                }
            }
        }
    }
}

/// A block with codes of its own tells how many there are: 257 literals and more, one
/// distance and more, four code lengths and more. The lengths of both codes come in one
/// list, those of the literals first.
pub proof fn law_own_codes(s: Seq<u8>, pos: int)
    requires
        0 <= pos,
    ensures
        dynamic_lengths(s, pos) matches Ok((literals, distances, next)) ==> {
            let count = (4 + bits_value(s, pos + 10, 4)) as nat;
            &&& literals.len() == 257 + bits_value(s, pos, 5)
            &&& distances.len() == 1 + bits_value(s, pos + 5, 5)
            &&& expand_lengths(
                code_length_lengths(s, pos + 14, count),
                s,
                pos + 14 + 3 * count,
                literals.len() + distances.len(),
                seq![],
            ) == Ok::<(Seq<u8>, int), PngFault>((literals + distances, next))
        },
{
    let literal_count = bits_value(s, pos, 5) + 257;
    let distance_count = bits_value(s, pos + 5, 5) + 1;
    let count = bits_value(s, pos + 10, 4) + 4;
    let codes = code_length_lengths(s, pos + 14, count);
    let from = pos + 14 + 3 * count;
    lemma_expanded(codes, s, from, literal_count + distance_count, seq![]);
    if let Ok((lengths, next)) = expand_lengths(
        codes,
        s,
        from,
        literal_count + distance_count,
        seq![],
    ) {
        assert(lengths.subrange(0, literal_count as int) + lengths.subrange(
            literal_count as int,
            lengths.len() as int,
        ) =~= lengths);
    }
}

} // verus!
