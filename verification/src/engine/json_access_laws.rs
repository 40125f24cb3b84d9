//! What is taken out of a JSON value: members, numbers and lists of numbers.

use vstd::prelude::*;
use vstd::arithmetic::power2::{
    lemma2_to64, lemma_pow2_adds, lemma_pow2_pos, lemma_pow2_strictly_increases, lemma_pow2_unfold, pow2,
};
use crate::engine::json::{finite_number, first_pair, is_finite_text, member, number_array, JsonValue};
use crate::engine::number::{lower_bits, pow10, rounds_to, top_bit, upper_bits, F32_LIMIT};

verus! {

/// A member is the value beside the first mention of its key; what has no such key, or is
/// no object, has no such member.
pub proof fn law_members(pairs: Vec<(String, JsonValue)>, key: Seq<char>, i: int)
    requires
        0 <= i <= pairs@.len(),
        forall|j: int| 0 <= j < i ==> (#[trigger] pairs@[j]).0@ != key,
        i < pairs@.len() ==> pairs@[i].0@ == key,
    ensures
        i < pairs@.len() ==> member(JsonValue::Object(pairs), key) == Some(pairs@[i].1),
        i == pairs@.len() ==> member(JsonValue::Object(pairs), key) is None,
{
    lemma_first_pair(pairs@, key, 0, i);
}

proof fn lemma_first_pair(pairs: Seq<(String, JsonValue)>, key: Seq<char>, from: int, i: int)
    requires
        0 <= from <= i <= pairs.len(),
        forall|j: int| 0 <= j < i ==> (#[trigger] pairs[j]).0@ != key,
        i < pairs.len() ==> pairs[i].0@ == key,
    ensures
        first_pair(pairs, key, from) == (if i < pairs.len() {
            Some(i)
        } else {
            None
        }),
    decreases i - from,
{
    if from < i {
        assert(pairs[from].0@ != key);
        lemma_first_pair(pairs, key, from + 1, i);
    }
}

/// Only objects have members.
pub proof fn law_only_objects_have_members(value: JsonValue, key: Seq<char>)
    requires
        !(value is Object),
    ensures
        member(value, key) is None,
{
}

/// A list of numbers is an array of that length that holds numbers only, in their order.
pub proof fn law_number_arrays(items: Vec<JsonValue>, n: nat, i: int)
    requires
        0 <= i < items@.len(),
    ensures
        items@.len() != n ==> number_array(JsonValue::Array(items), n) is None,
        !(items@[i] is Number) ==> number_array(JsonValue::Array(items), n) is None,
        number_array(JsonValue::Array(items), n) matches Some(texts) ==> {
            &&& texts.len() == items@.len()
            &&& (items@[i] matches JsonValue::Number(text) && texts[i] == text@ && is_finite_text(
                text@,
            ))
        },
{
    let item = items@[i];
    if number_array(JsonValue::Array(items), n) is Some {
        assert(finite_number(item) is Some);
    }
}

/// The highest bit of a 32-bit number is at most the 31st.
proof fn lemma_top_bit(n: nat, k: nat)
    requires
        n < pow2(k),
        k > 0,
    ensures
        top_bit(n) < k,
    decreases k,
{
    if n > 1 {
        lemma_pow2_unfold(k);
        if k == 1 {
            lemma2_to64();
        } else {
            lemma_top_bit(n / 2, (k - 1) as nat);
        }
    }
}

/// Bounds of the numbers with which a rounding is decided.
proof fn lemma_bits(n: nat)
    requires
        n <= u32::MAX,
    ensures
        upper_bits(n) >= 22,
        lower_bits(n) >= 22,
        pow2(upper_bits(n)) >= 1000,
        pow2(lower_bits(n)) >= 1000,
{
    lemma2_to64();
    assert(n < pow2(32));
    lemma_top_bit(n, 32);
    if upper_bits(n) > 22 {
        lemma_pow2_strictly_increases(22, upper_bits(n));
    }
    if lower_bits(n) > 22 {
        lemma_pow2_strictly_increases(22, lower_bits(n));
    }
}

/// A whole number is itself and no other.
pub proof fn law_whole_numbers_are_exact(d: nat, n: nat)
    requires
        n <= u32::MAX,
    ensures
        rounds_to(d, 0, n) <==> d == n,
{
    lemma_bits(n);
    let one = pow10(0);
    let u = pow2(upper_bits(n)) as int;
    let l = pow2(lower_bits(n)) as int;
    assert(one == 1);
    assert(d * one == d) by (nonlinear_arith)
        requires
            one == 1,
    ;
    assert(d * u <= n * u + 1 <==> d <= n) by (nonlinear_arith)
        requires
            u >= 1000,
    ;
    assert(d * l >= n * l - 1 <==> d >= n) by (nonlinear_arith)
        requires
            l >= 1000,
    ;
}

/// A number with one decimal place that is not zero is no whole number.
pub proof fn law_tenths_are_not_whole(d: nat, n: nat)
    requires
        n <= u32::MAX,
    ensures
        rounds_to(d, -1, n) <==> d == 10 * n,
{
    lemma_bits(n);
    reveal_with_fuel(pow10, 3);
    let ten = pow10(1);
    assert(ten == 10);
    let u = pow2(upper_bits(n)) as int;
    let l = pow2(lower_bits(n)) as int;
    assert((n * u + 1) * ten == 10 * n * u + 10) by (nonlinear_arith)
        requires
            ten == 10,
    ;
    assert((n * l - 1) * ten == 10 * n * l - 10) by (nonlinear_arith)
        requires
            ten == 10,
    ;
    assert(d * u <= 10 * n * u + 10 <==> d <= 10 * n) by (nonlinear_arith)
        requires
            u >= 1000,
    ;
    assert(d * l >= 10 * n * l - 10 <==> d >= 10 * n) by (nonlinear_arith)
        requires
            l >= 1000,
    ;
}

/// A power of ten is as good as a zero at the end.
pub proof fn law_powers_are_zeros(d: nat, exp: nat, n: nat)
    ensures
        rounds_to(d, exp as int + 1, n) <==> rounds_to(10 * d, exp as int, n),
{
    let p = pow10(exp);
    let q = pow10(exp + 1);
    assert(q == 10 * p);
    assert(d * q == 10 * d * p) by (nonlinear_arith)
        requires
            q == 10 * p,
    ;
    let u = pow2(upper_bits(n));
    let l = pow2(lower_bits(n));
    assert(d * q * u == 10 * d * p * u) by (nonlinear_arith)
        requires
            d * q == 10 * d * p,
    ;
    assert(d * q * l == 10 * d * p * l) by (nonlinear_arith)
        requires
            d * q == 10 * d * p,
    ;
}

/// The place of the highest bit.
proof fn lemma_top_bit_is(n: nat, t: nat)
    requires
        pow2(t) <= n < pow2(t + 1),
    ensures
        top_bit(n) == t,
    decreases t,
{
    lemma2_to64();
    lemma_pow2_unfold(t + 1);
    if t > 0 {
        lemma_pow2_unfold(t);
        if t > 1 {
            lemma_pow2_strictly_increases(0, (t - 1) as nat);
        }
        lemma_top_bit_is(n / 2, (t - 1) as nat);
    }
}

/// A decimal fraction is a whole number if double precision cannot tell it from one: with
/// 53 bits from the highest one on, it lies no more than half a unit of the last bit off,
/// and below a power of two half as much.
pub proof fn law_rounding(d: nat, places: nat, n: nat, t: nat)
    requires
        places > 0,
        t <= 52,
        pow2(t) <= n < pow2(t + 1),
    ensures
        rounds_to(d, -(places as int), n) <==> ({
            let p = pow10(places) as int;
            let below = if n == pow2(t) {
                pow2((54 - t) as nat)
            } else {
                pow2((53 - t) as nat)
            };
            &&& (d - n * p) * pow2((53 - t) as nat) <= p
            &&& (n * p - d) * below <= p
        }),
{
    lemma_top_bit_is(n, t);
    lemma_pow2_pos(t);
    let p = pow10(places) as int;
    let u = pow2(upper_bits(n)) as int;
    let l = pow2(lower_bits(n)) as int;
    assert(d * u <= (n * u + 1) * p <==> (d - n * p) * u <= p) by (nonlinear_arith);
    assert(d * l >= (n * l - 1) * p <==> (n * p - d) * l <= p) by (nonlinear_arith);
}

/// Numbers are finite in single precision below the middle between the largest single and
/// the next power of two, less half a unit of double precision.
pub proof fn law_single_limit()
    ensures
        F32_LIMIT as int == (pow2(25) - 1) * pow2(103) - pow2(74),
{
    lemma2_to64();
    lemma_pow2_adds(32, 7);
    lemma_pow2_adds(64, 39);
    lemma_pow2_adds(64, 10);
    let a = pow2(64) as int;
    let b = pow2(39) as int;
    let c = pow2(10) as int;
    let d = pow2(103) as int;
    assert(b == 0x80_0000_0000);
    assert(a * b == 0x1_0000_0000_0000_0000 * 0x80_0000_0000) by (nonlinear_arith)
        requires
            a == 0x1_0000_0000_0000_0000,
            b == 0x80_0000_0000,
    ;
    assert(a * c == 0x1_0000_0000_0000_0000 * 0x400) by (nonlinear_arith)
        requires
            a == 0x1_0000_0000_0000_0000,
            c == 0x400,
    ;
    assert((pow2(25) - 1) * d == 0x1ff_ffff * d) by (nonlinear_arith)
        requires
            pow2(25) == 0x200_0000,
    ;
}

} // verus!
