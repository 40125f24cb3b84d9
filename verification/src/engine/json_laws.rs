//! What holds of every document that the JSON parser accepts.

use vstd::prelude::*;
use vstd::utf8::encode_utf8;
use vstd::utf8::is_ascii_chars;
use vstd::utf8::is_ascii_chars_encode_utf8;
use crate::engine::json::{JsonFault, JsonTree, MAX_DEPTH};
use crate::engine::json::{ascii_text, byte_at, decimal_at, digit_at, digit_values, document};
use crate::engine::json::{exponent_part, exponent_value, fraction_part, integer_part};
use crate::engine::json::{is_digit_byte, is_finite_text, items_from, number_at, number_ends};
use crate::engine::json::{number_text, pairs_from, skip_blank, skip_digit_bytes, skip_sign_byte};
use crate::engine::json::{string_at, value_at, word_at};

verus! {

/// Arrays and objects nest at most `depth` deep, and every number stays finite
/// in single precision.
pub open spec fn is_sound(tree: JsonTree, depth: int) -> bool
    decreases depth,
{
    match tree {
        JsonTree::Number(text) => is_finite_text(text),
        JsonTree::Array(items) => depth > 0 && forall|i: int|
            0 <= i < items.len() ==> is_sound(#[trigger] items[i], depth - 1),
        JsonTree::Object(pairs) => depth > 0 && forall|i: int|
            0 <= i < pairs.len() ==> is_sound((#[trigger] pairs[i]).1, depth - 1),
        _ => true,
    }
}

proof fn lemma_skip_digits(s: Seq<u8>, pos: int)
    requires
        0 <= pos <= s.len(),
    ensures
        pos <= skip_digit_bytes(s, pos) <= s.len(),
        digit_at(s, pos) ==> pos < skip_digit_bytes(s, pos),
        forall|i: int| pos <= i < skip_digit_bytes(s, pos) ==> is_digit_byte(#[trigger] s[i]),
    decreases s.len() - pos,
{
    if pos < s.len() && is_digit_byte(s[pos]) {
        lemma_skip_digits(s, pos + 1);
    }
}

/// Within a part of the input that ends no earlier, digits end at the same
/// place.
proof fn lemma_skip_within(s: Seq<u8>, start: int, end: int, pos: int)
    requires
        0 <= start <= pos <= end <= s.len(),
        skip_digit_bytes(s, pos) <= end,
    ensures
        skip_digit_bytes(s.subrange(start, end), pos - start) == skip_digit_bytes(s, pos) - start,
    decreases end - pos,
{
    let part = s.subrange(start, end);
    lemma_skip_digits(s, pos);
    if pos < end && is_digit_byte(s[pos]) {
        assert(part[pos - start] == s[pos]);
        lemma_skip_within(s, start, end, pos + 1);
    } else if pos < end {
        assert(part[pos - start] == s[pos]);
    }
}

/// The parts of a number lie in order within the input.
proof fn lemma_number_order(s: Seq<u8>, start: int)
    requires
        0 <= start < s.len(),
    ensures
        number_ends(s, start) matches Ok((whole, fraction, end)) ==> start < whole <= fraction
            <= end <= s.len() && whole > start + (if s[start] == 0x2D {
            1int
        } else {
            0
        }),
{
    let first = if s[start] == 0x2D {
        start + 1
    } else {
        start
    };
    if let Ok((whole, fraction, end)) = number_ends(s, start) {
        if digit_at(s, first) && s[first] != 0x30 {
            lemma_skip_digits(s, first + 1);
        }
        if byte_at(s, whole) == Some(0x2Eu8) {
            lemma_skip_digits(s, whole + 1);
        }
        let digits = skip_sign_byte(s, fraction + 1);
        if digit_at(s, digits) {
            lemma_skip_digits(s, digits);
        }
    }
}

/// A number is the same number in its own text.
proof fn lemma_number_alone(s: Seq<u8>, start: int)
    requires
        0 <= start < s.len(),
        number_ends(s, start) is Ok,
    ensures
        ({
            let (whole, fraction, end) = number_ends(s, start)->Ok_0;
            let part = s.subrange(start, end);
            &&& number_ends(part, 0) == Ok::<(int, int, int), JsonFault>(
                (whole - start, fraction - start, end - start),
            )
            &&& decimal_at(part, 0, whole - start, fraction - start, end - start) == decimal_at(
                s,
                start,
                whole,
                fraction,
                end,
            )
        }),
{
    let (whole, fraction, end) = number_ends(s, start)->Ok_0;
    let part = s.subrange(start, end);
    lemma_number_order(s, start);
    assert(part[0] == s[start]);
    let first = if s[start] == 0x2D {
        start + 1
    } else {
        start
    };
    assert(part[first - start] == s[first]);
    lemma_integer_alone(s, start, end, first);
    lemma_fraction_alone(s, start, end, whole);
    lemma_exponent_alone(s, start, end, fraction);
    lemma_decimal_alone(s, start, whole, fraction, end);
}

proof fn lemma_integer_alone(s: Seq<u8>, start: int, end: int, first: int)
    requires
        0 <= start <= first < end <= s.len(),
        integer_part(s, first) is Ok,
        integer_part(s, first)->Ok_0 <= end,
    ensures
        integer_part(s.subrange(start, end), first - start) == Ok::<
            int,
            JsonFault,
        >(integer_part(s, first)->Ok_0 - start),
{
    let part = s.subrange(start, end);
    assert(part[first - start] == s[first]);
    if s[first] == 0x30 {
        if first + 1 < end {
            assert(part[first + 1 - start] == s[first + 1]);
        }
    } else {
        lemma_skip_within(s, start, end, first + 1);
    }
}

proof fn lemma_fraction_alone(s: Seq<u8>, start: int, end: int, whole: int)
    requires
        0 <= start <= whole <= end <= s.len(),
        fraction_part(s, whole) is Ok,
        fraction_part(s, whole)->Ok_0 <= end,
    ensures
        fraction_part(s.subrange(start, end), whole - start) == Ok::<
            int,
            JsonFault,
        >(fraction_part(s, whole)->Ok_0 - start),
{
    let part = s.subrange(start, end);
    if whole < end {
        assert(part[whole - start] == s[whole]);
    }
    if byte_at(s, whole) == Some(0x2Eu8) {
        lemma_skip_digits(s, whole + 1);
        assert(digit_at(s, whole + 1));
        assert(skip_digit_bytes(s, whole + 1) > whole + 1);
        assert(part[whole + 1 - start] == s[whole + 1]);
        lemma_skip_within(s, start, end, whole + 1);
    }
}

proof fn lemma_exponent_alone(s: Seq<u8>, start: int, end: int, fraction: int)
    requires
        0 <= start <= fraction <= end <= s.len(),
        exponent_part(s, fraction) == Ok::<int, JsonFault>(end),
    ensures
        exponent_part(s.subrange(start, end), fraction - start) == Ok::<
            int,
            JsonFault,
        >(end - start),
        fraction < end ==> skip_sign_byte(s.subrange(start, end), fraction + 1 - start)
            == skip_sign_byte(s, fraction + 1) - start && skip_sign_byte(s, fraction + 1) < end,
{
    let part = s.subrange(start, end);
    let digits = skip_sign_byte(s, fraction + 1);
    if fraction < end {
        assert(part[fraction - start] == s[fraction]);
        assert(digit_at(s, digits));
        lemma_skip_digits(s, digits);
        assert(skip_digit_bytes(s, digits) > digits);
        assert(part[digits - start] == s[digits]);
        assert(part[fraction + 1 - start] == s[fraction + 1]);
        lemma_skip_within(s, start, end, digits);
    }
}

proof fn lemma_digit_values_alone(s: Seq<u8>, start: int, end: int, from: int, to: int)
    requires
        0 <= start <= from <= to <= end <= s.len(),
    ensures
        digit_values(s.subrange(start, end), from - start, to - start) == digit_values(s, from, to),
{
    let part = s.subrange(start, end);
    assert(digit_values(part, from - start, to - start) =~= digit_values(s, from, to));
}

proof fn lemma_decimal_alone(s: Seq<u8>, start: int, whole: int, fraction: int, end: int)
    requires
        0 <= start < s.len(),
        number_ends(s, start) == Ok::<(int, int, int), JsonFault>(
            (whole, fraction, end),
        ),
    ensures
        decimal_at(s.subrange(start, end), 0, whole - start, fraction - start, end - start)
            == decimal_at(s, start, whole, fraction, end),
{
    let part = s.subrange(start, end);
    lemma_number_order(s, start);
    assert(part[0] == s[start]);
    let first = if s[start] == 0x2D {
        start + 1
    } else {
        start
    };
    let places: int = if fraction > whole {
        fraction - whole - 1
    } else {
        0
    };
    lemma_digit_values_alone(s, start, end, first, whole);
    lemma_digit_values_alone(s, start, end, fraction - places, fraction);
    if fraction < end {
        lemma_exponent_alone(s, start, end, fraction);
        let digits = skip_sign_byte(s, fraction + 1);
        lemma_digit_values_alone(s, start, end, digits, end);
        assert(part[fraction + 1 - start] == s[fraction + 1]);
    }
    assert(exponent_value(part, fraction - start, end - start) == exponent_value(s, fraction, end));
}

/// The bytes of a number are ASCII.
proof fn lemma_number_is_ascii(s: Seq<u8>, start: int, i: int)
    requires
        0 <= start < s.len(),
        number_ends(s, start) is Ok,
        start <= i < (number_ends(s, start)->Ok_0).2,
    ensures
        s[i] < 128,
{
    let (whole, fraction, end) = number_ends(s, start)->Ok_0;
    lemma_number_order(s, start);
    let first = if s[start] == 0x2D {
        start + 1
    } else {
        start
    };
    if i < whole {
        if s[first] != 0x30 {
            lemma_skip_digits(s, first + 1);
        }
        if i > first {
            assert(is_digit_byte(s[i]));
        }
    } else if i < fraction {
        lemma_skip_digits(s, whole + 1);
        if i > whole {
            assert(is_digit_byte(s[i]));
        }
    } else {
        let digits = skip_sign_byte(s, fraction + 1);
        lemma_skip_digits(s, digits);
        if i >= digits {
            assert(is_digit_byte(s[i]));
        }
    }
}

/// A number that is accepted stays finite in single precision, read from its
/// own text.
pub proof fn law_accepted_numbers_are_finite(s: Seq<u8>, start: int)
    requires
        0 <= start < s.len(),
        number_at(s, start) is Ok,
    ensures
        (number_at(s, start)->Ok_0).0 matches JsonTree::Number(text) && is_finite_text(text),
{
    let (whole, fraction, end) = number_ends(s, start)->Ok_0;
    let text = ascii_text(s, start, end);
    let part = s.subrange(start, end);
    lemma_number_order(s, start);
    assert forall|i: int| 0 <= i < text.len() implies '\0' <= #[trigger] text[i]
        <= '\u{7f}' by {
        lemma_number_is_ascii(s, start, start + i);
    }
    assert(is_ascii_chars(text));
    is_ascii_chars_encode_utf8(text);
    assert forall|i: int| 0 <= i < part.len() implies encode_utf8(text)[i] == part[i] by {
        lemma_number_is_ascii(s, start, start + i);
        assert(text[i] == s[start + i] as char);
    }
    assert(encode_utf8(text) =~= part);
    lemma_number_alone(s, start);
    assert(number_text(part) == Some(decimal_at(s, start, whole, fraction, end)));
}

proof fn lemma_value(s: Seq<u8>, pos: int, depth: int)
    requires
        0 <= depth <= MAX_DEPTH,
    ensures
        value_at(s, pos, depth) matches Ok((tree, _)) ==> is_sound(tree, MAX_DEPTH - depth),
    decreases MAX_DEPTH - depth, 0int, 0int,
{
    if let Some(b) = byte_at(s, pos) {
        if b == 0x5B && depth < MAX_DEPTH {
            let first = skip_blank(s, pos + 1);
            lemma_items(s, first, depth + 1, seq![]);
        } else if b == 0x7B && depth < MAX_DEPTH {
            let first = skip_blank(s, pos + 1);
            lemma_pairs(s, first, depth + 1, seq![]);
        } else if b == 0x2D || is_digit_byte(b) {
            if number_at(s, pos) is Ok {
                law_accepted_numbers_are_finite(s, pos);
            }
        }
    }
}

proof fn lemma_items(s: Seq<u8>, pos: int, depth: int, items: Seq<JsonTree>)
    requires
        1 <= depth <= MAX_DEPTH,
        forall|i: int|
            0 <= i < items.len() ==> is_sound(#[trigger] items[i], MAX_DEPTH - depth),
    ensures
        items_from(s, pos, depth, items) matches Ok((tree, _)) ==> is_sound(
            tree,
            MAX_DEPTH - depth + 1,
        ),
    decreases MAX_DEPTH - depth, 1int, s.len() - pos,
{
    let start = skip_blank(s, pos);
    lemma_value(s, start, depth);
    if let Ok((item, end)) = value_at(s, start, depth) {
        let next = skip_blank(s, end);
        let longer = items.push(item);
        if byte_at(s, next) == Some(0x2Cu8) && next >= pos {
            lemma_items(s, next + 1, depth, longer);
        }
    }
}

proof fn lemma_pairs(s: Seq<u8>, pos: int, depth: int, pairs: Seq<(Seq<char>, JsonTree)>)
    requires
        1 <= depth <= MAX_DEPTH,
        forall|i: int|
            0 <= i < pairs.len() ==> is_sound((#[trigger] pairs[i]).1, MAX_DEPTH - depth),
    ensures
        pairs_from(s, pos, depth, pairs) matches Ok((tree, _)) ==> is_sound(
            tree,
            MAX_DEPTH - depth + 1,
        ),
    decreases MAX_DEPTH - depth, 1int, s.len() - pos,
{
    let open = skip_blank(s, pos);
    if let Ok((key, key_end)) = string_at(s, open) {
        let colon = skip_blank(s, key_end);
        let at = skip_blank(s, colon + 1);
        lemma_value(s, at, depth);
        if let Ok((value, end)) = value_at(s, at, depth) {
            let next = skip_blank(s, end);
            let longer = pairs.push((key, value));
            if byte_at(s, next) == Some(0x2Cu8) && next >= pos {
                lemma_pairs(s, next + 1, depth, longer);
            }
        }
    }
}

/// Every document that is accepted nests no deeper than the limit, and every
/// number in it stays finite in single precision, so that reading one as such
/// never fails.
pub proof fn law_accepted_documents_are_sound(s: Seq<u8>)
    ensures
        document(s) matches Ok(tree) ==> is_sound(tree, MAX_DEPTH as int),
{
    let bom: int = if word_at(s, 0, seq![0xEFu8, 0xBBu8, 0xBFu8]) {
        3
    } else {
        0
    };
    lemma_value(s, skip_blank(s, bom), 0);
}

} // verus!
