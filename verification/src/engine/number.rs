//! Decisions about decimal numbers of any length, made exactly: whether one
//! stays finite in single precision, and which 32-bit integer it denotes once
//! rounded to double precision.
//!
//! A number is a sequence of decimal digits and a power of ten.

use vstd::prelude::*;
use vstd::arithmetic::mul::lemma_mul_inequality;
use vstd::arithmetic::mul::lemma_mul_is_associative;
use vstd::arithmetic::mul::lemma_mul_strict_inequality;
use vstd::arithmetic::power2::lemma2_to64;
use vstd::arithmetic::power2::lemma_pow2_adds;
use vstd::arithmetic::power2::lemma_pow2_pos;
use vstd::arithmetic::power2::lemma_pow2_unfold;
use vstd::arithmetic::power2::pow2;

verus! {

/// Powers of ten.
pub open spec fn pow10(n: nat) -> nat
    decreases n,
{
    if n == 0 {
        1
    } else {
        10 * pow10((n - 1) as nat)
    }
}

/// Every element is a decimal digit.
pub open spec fn digits_ok(ds: Seq<u8>) -> bool {
    forall|i: int| 0 <= i < ds.len() ==> #[trigger] ds[i] <= 9
}

/// The number a sequence of digits stands for.
pub open spec fn digits_nat(ds: Seq<u8>) -> nat
    decreases ds.len(),
{
    if ds.len() == 0 {
        0
    } else {
        10 * digits_nat(ds.drop_last()) + ds.last() as nat
    }
}

/// `d * 10^exp` is below `limit`.
pub open spec fn is_below(d: nat, exp: int, limit: nat) -> bool {
    if exp >= 0 {
        d * pow10(exp as nat) < limit
    } else {
        d < limit * pow10((-exp) as nat)
    }
}

/// Decimal numbers below this round to a finite single-precision number when
/// rounded to double precision first: it is the largest double below half a
/// unit past the largest single, less half a unit of double precision.
pub const F32_LIMIT: u128 = 340282356779733642748073463979561713664;

proof fn lemma_pow10_pos(n: nat)
    ensures
        pow10(n) >= 1,
    decreases n,
{
    if n > 0 {
        lemma_pow10_pos((n - 1) as nat);
    }
}

proof fn lemma_pow10_adds(a: nat, b: nat)
    ensures
        pow10(a + b) == pow10(a) * pow10(b),
    decreases a,
{
    if a == 0 {
        assert(1 * pow10(b) == pow10(b));
    } else {
        lemma_pow10_adds((a - 1) as nat, b);
        assert((a - 1) + b == a + b - 1);
        lemma_mul_is_associative(10, pow10((a - 1) as nat) as int, pow10(b) as int);
    }
}

proof fn lemma_pow10_monotone(a: nat, b: nat)
    requires
        a <= b,
    ensures
        pow10(a) <= pow10(b),
    decreases b,
{
    if a < b {
        lemma_pow10_monotone(a, (b - 1) as nat);
    }
}

proof fn lemma_limit_between()
    ensures
        pow10(38) < F32_LIMIT < pow10(39),
{
    assert(pow10(10) == 10000000000) by {
        reveal_with_fuel(pow10, 11);
    }
    lemma_pow10_adds(10, 10);
    assert(pow10(20) == 100000000000000000000);
    lemma_pow10_adds(20, 10);
    assert(pow10(30) == 1000000000000000000000000000000);
    assert(pow10(8) == 100000000) by {
        reveal_with_fuel(pow10, 9);
    }
    lemma_pow10_adds(30, 8);
    assert(pow10(38) == 100000000000000000000000000000000000000);
    assert(pow10(39) == 10 * pow10(38));
}

proof fn lemma_digits_bound(ds: Seq<u8>)
    requires
        digits_ok(ds),
    ensures
        digits_nat(ds) < pow10(ds.len()),
        ds.len() > 0 && ds[0] > 0 ==> digits_nat(ds) >= pow10((ds.len() - 1) as nat),
    decreases ds.len(),
{
    if ds.len() > 0 {
        let rest = ds.drop_last();
        assert forall|i: int| 0 <= i < rest.len() implies #[trigger] rest[i] <= 9 by {
            assert(ds[i] <= 9);
        }
        lemma_digits_bound(rest);
        assert(ds[ds.len() - 1] <= 9);
        if ds.len() == 1 {
            assert(rest =~= seq![]);
            assert(digits_nat(rest) == 0);
            assert(pow10(0) == 1);
        }
    }
}

proof fn lemma_digits_concat(a: Seq<u8>, b: Seq<u8>)
    ensures
        digits_nat(a + b) == digits_nat(a) * pow10(b.len()) + digits_nat(b),
    decreases b.len(),
{
    if b.len() == 0 {
        assert(a + b =~= a);
        assert(digits_nat(a) * 1 == digits_nat(a));
    } else {
        assert((a + b).drop_last() =~= a + b.drop_last());
        lemma_digits_concat(a, b.drop_last());
        let p = pow10((b.len() - 1) as nat);
        let v = digits_nat(a);
        assert(10 * (v * p) == v * (10 * p)) by (nonlinear_arith);
    }
}

proof fn lemma_leading_zeros(ds: Seq<u8>, z: int)
    requires
        0 <= z <= ds.len(),
        forall|i: int| 0 <= i < z ==> ds[i] == 0,
    ensures
        digits_nat(ds) == digits_nat(ds.skip(z)),
{
    let zeros = ds.take(z);
    lemma_zeros(zeros);
    assert(zeros + ds.skip(z) =~= ds);
    lemma_digits_concat(zeros, ds.skip(z));
    assert(0 * pow10(ds.skip(z).len()) == 0);
}

proof fn lemma_zeros(ds: Seq<u8>)
    requires
        forall|i: int| 0 <= i < ds.len() ==> ds[i] == 0,
    ensures
        digits_nat(ds) == 0,
    decreases ds.len(),
{
    if ds.len() > 0 {
        lemma_zeros(ds.drop_last());
    }
}

/// Exponents beyond this are all alike: no text is long enough to undo them.
pub const EXPONENT_CAP: i128 = 1267650600228229401496703205376;

/// An exponent held to the range that matters.
pub open spec fn clamped(x: int) -> int {
    if x > EXPONENT_CAP {
        EXPONENT_CAP as int
    } else if x < -EXPONENT_CAP {
        -EXPONENT_CAP
    } else {
        x
    }
}

/// The number of leading zeros.
fn leading_zeros(ds: &[u8]) -> (z: usize)
    ensures
        z <= ds@.len(),
        forall|i: int| 0 <= i < z ==> ds@[i] == 0,
        z < ds@.len() ==> ds@[z as int] != 0,
{
    let mut z: usize = 0;
    while z < ds.len() && ds[z] == 0
        invariant
            z <= ds@.len(),
            forall|i: int| 0 <= i < z ==> ds@[i] == 0,
        decreases ds.len() - z,
    {
        z = z + 1;
    }
    z
}

proof fn lemma_scaled_bound(sig: Seq<u8>, exp: int, e: nat, limit: nat)
    requires
        digits_ok(sig),
        sig.len() + exp <= e,
        pow10(e) <= limit,
    ensures
        is_below(digits_nat(sig), exp, limit),
{
    lemma_digits_bound(sig);
    let d = digits_nat(sig);
    let m = sig.len();
    if exp >= 0 {
        let x = exp as nat;
        lemma_pow10_pos(x);
        lemma_mul_strict_inequality(d as int, pow10(m) as int, pow10(x) as int);
        lemma_pow10_adds(m, x);
        lemma_pow10_monotone(m + x, e);
    } else {
        let x = (-exp) as nat;
        lemma_pow10_pos(x);
        lemma_pow10_monotone(m, e + x);
        lemma_pow10_adds(e, x);
        lemma_mul_inequality(pow10(e) as int, limit as int, pow10(x) as int);
    }
}

proof fn lemma_scaled_at_least(sig: Seq<u8>, exp: int, e: nat, limit: nat)
    requires
        digits_ok(sig),
        sig.len() > 0,
        sig[0] > 0,
        sig.len() + exp > e,
        limit <= pow10(e),
    ensures
        !is_below(digits_nat(sig), exp, limit),
{
    lemma_digits_bound(sig);
    let d = digits_nat(sig);
    let m = sig.len();
    if exp >= 0 {
        let x = exp as nat;
        lemma_mul_inequality(pow10((m - 1) as nat) as int, d as int, pow10(x) as int);
        lemma_pow10_adds((m - 1) as nat, x);
        lemma_pow10_monotone(e, (m - 1 + x) as nat);
    } else {
        let x = (-exp) as nat;
        lemma_pow10_monotone(e + x, (m - 1) as nat);
        lemma_pow10_adds(e, x);
        lemma_mul_inequality(limit as int, pow10(e) as int, pow10(x) as int);
    }
}

/// The first `n` digits, padded with zeros, are below the limit.
fn leading_below(sig: &[u8], n: usize) -> (r: bool)
    requires
        digits_ok(sig@),
        sig@.len() > 0,
        n <= 39,
    ensures
        r == (if sig@.len() <= n {
            digits_nat(sig@) * pow10((n - sig@.len()) as nat) < F32_LIMIT
        } else {
            digits_nat(sig@.take(n as int)) < F32_LIMIT
        }),
{
    let mut p: u128 = 0;
    let mut i: usize = 0;
    let ghost padded = sig@ + Seq::new(39, |j: int| 0u8);
    let ghost whole = digits_nat(padded.take(n as int));
    assert(padded.take(0) =~= seq![]);
    proof {
        if sig@.len() <= n {
            let zeros = Seq::new((n - sig@.len()) as nat, |j: int| 0u8);
            assert(padded.take(n as int) =~= sig@ + zeros);
            lemma_zeros(zeros);
            lemma_digits_concat(sig@, zeros);
        } else {
            assert(padded.take(n as int) =~= sig@.take(n as int));
        }
    }
    while i < n
        invariant
            i <= n <= 39,
            digits_ok(sig@),
            padded == sig@ + Seq::new(39, |j: int| 0u8),
            whole == digits_nat(padded.take(n as int)),
            whole == if sig@.len() <= n {
                digits_nat(sig@) * pow10((n - sig@.len()) as nat)
            } else {
                digits_nat(sig@.take(n as int))
            },
            p == digits_nat(padded.take(i as int)),
            p < F32_LIMIT,
        decreases n - i,
    {
        let d: u8 = if i < sig.len() {
            sig[i]
        } else {
            0
        };
        let ghost next = padded.take(i + 1);
        proof {
            assert(next.drop_last() =~= padded.take(i as int));
            assert(next.last() == d);
            if i < sig@.len() {
                assert(sig@[i as int] <= 9);
            }
            lemma_prefix_grows(padded.take(n as int), i + 1);
            assert(padded.take(n as int).take(i + 1) =~= next);
        }
        if p > (F32_LIMIT - 1 - d as u128) / 10 {
            return false;
        }
        p = p * 10 + d as u128;
        i = i + 1;
    }
    true
}

/// A prefix of a digit sequence stands for no larger a number.
pub proof fn lemma_prefix_grows(ds: Seq<u8>, n: int)
    requires
        0 <= n <= ds.len(),
    ensures
        digits_nat(ds.take(n)) <= digits_nat(ds),
    decreases ds.len(),
{
    if n == ds.len() {
        assert(ds.take(n) =~= ds);
    } else {
        assert(ds.drop_last().take(n) =~= ds.take(n));
        lemma_prefix_grows(ds.drop_last(), n);
    }
}

/// Whether the number with these digits, scaled by a power of ten, stays
/// finite in single precision.
pub fn fits_f32(ds: &[u8], exp: i128, Ghost(true_exp): Ghost<int>) -> (r: bool)
    requires
        digits_ok(ds@),
        exp == clamped(true_exp),
    ensures
        r == is_below(digits_nat(ds@), true_exp, F32_LIMIT as nat),
{
    let z: usize = leading_zeros(ds);
    let sig = vstd::slice::slice_subrange(ds, z, ds.len());
    proof {
        lemma_leading_zeros(ds@, z as int);
        assert(ds@.skip(z as int) =~= sig@);
        lemma_limit_between();
    }
    if sig.len() == 0 {
        proof {
            assert(digits_nat(sig@) == 0);
            lemma_scaled_zero(true_exp, F32_LIMIT as nat);
        }
        return true;
    }
    let m: i128 = sig.len() as i128;
    if m + exp < 39 {
        proof {
            lemma_scaled_bound(sig@, true_exp, 38, F32_LIMIT as nat);
        }
        true
    } else if m + exp > 39 {
        proof {
            lemma_scaled_at_least(sig@, true_exp, 39, F32_LIMIT as nat);
        }
        false
    } else {
        proof {
            if sig@.len() > 39 {
                let head = sig@.take(39);
                let tail = sig@.skip(39);
                assert(head + tail =~= sig@);
                lemma_digits_concat(head, tail);
                assert forall|i: int| 0 <= i < tail.len() implies #[trigger] tail[i] <= 9 by {
                    assert(sig@[i + 39] <= 9);
                }
                lemma_digits_bound(tail);
                let p = digits_nat(head) as int;
                let rest = digits_nat(tail) as int;
                let scale = pow10(tail.len()) as int;
                let limit = F32_LIMIT as int;
                assert(p * scale + rest < limit * scale <==> p < limit) by (nonlinear_arith)
                    requires
                        0 <= rest < scale,
                ;
            }
        }
        leading_below(sig, 39)
    }
}

proof fn lemma_scaled_zero(exp: int, limit: nat)
    requires
        limit > 0,
    ensures
        is_below(0, exp, limit),
{
    if exp >= 0 {
        assert(0 * pow10(exp as nat) == 0);
    } else {
        let p = pow10((-exp) as nat);
        lemma_pow10_pos((-exp) as nat);
        assert(0 < limit * p) by (nonlinear_arith)
            requires
                limit > 0,
                p >= 1,
        ;
    }
}

// --- rounding to double precision ----------------------------------------------

/// The position of the highest bit of `n`.
pub open spec fn top_bit(n: nat) -> nat
    decreases n,
{
    if n <= 1 {
        0
    } else {
        1 + top_bit(n / 2)
    }
}

/// `d * 10^exp * 2^bits` is at most `limit`.
pub open spec fn scaled_at_most(d: nat, exp: int, bits: nat, limit: int) -> bool {
    if exp >= 0 {
        d * pow10(exp as nat) * pow2(bits) <= limit
    } else {
        d * pow2(bits) <= limit * pow10((-exp) as nat)
    }
}

/// `d * 10^exp * 2^bits` is at least `limit`.
pub open spec fn scaled_at_least(d: nat, exp: int, bits: nat, limit: int) -> bool {
    if exp >= 0 {
        d * pow10(exp as nat) * pow2(bits) >= limit
    } else {
        d * pow2(bits) >= limit * pow10((-exp) as nat)
    }
}

/// Half the gap above the integer `n` in double precision is `2^-upper_bits`.
/// Zero's is half the smallest positive double.
pub open spec fn upper_bits(n: nat) -> nat {
    if n == 0 {
        1075
    } else {
        (53 - top_bit(n)) as nat
    }
}

/// Half the gap below the positive integer `n` in double precision is
/// `2^-lower_bits`: the gap is halved at a power of two.
pub open spec fn lower_bits(n: nat) -> nat {
    if n == pow2(top_bit(n)) {
        upper_bits(n) + 1
    } else {
        upper_bits(n)
    }
}

/// The double nearest to `d * 10^exp` is the integer `n`, for `n` below 2^32.
/// Such an integer has an even significand, so it wins both ties.
pub open spec fn rounds_to(d: nat, exp: int, n: nat) -> bool {
    &&& scaled_at_most(d, exp, upper_bits(n), n * pow2(upper_bits(n)) as int + 1)
    &&& n > 0 ==> scaled_at_least(d, exp, lower_bits(n), n * pow2(lower_bits(n)) - 1)
}

/// `d * 10^exp` is `whole + part / 10^places`, a whole number and a fraction.
spec fn splits(d: nat, exp: int, whole: nat, part: nat, places: nat) -> bool {
    &&& part < pow10(places)
    &&& if exp >= 0 {
        places == 0 && whole == d * pow10(exp as nat)
    } else {
        places == -exp && d == whole * pow10(places) + part
    }
}

/// Comparing with `n + k / 2^bits` is comparing the parts.
proof fn lemma_compare(
    d: nat,
    exp: int,
    whole: nat,
    part: nat,
    places: nat,
    bits: nat,
    n: nat,
    k: int,
)
    requires
        splits(d, exp, whole, part, places),
    ensures
        scaled_at_most(d, exp, bits, n * pow2(bits) + k) <==> (whole - n) * (pow2(bits) * pow10(
            places,
        )) + part * pow2(bits) <= k * pow10(places),
        scaled_at_least(d, exp, bits, n * pow2(bits) + k) <==> (whole - n) * (pow2(bits) * pow10(
            places,
        )) + part * pow2(bits) >= k * pow10(places),
{
    let b = pow2(bits) as int;
    let t = pow10(places) as int;
    let w = whole as int;
    let f = part as int;
    let m = n as int;
    if exp >= 0 {
        assert(t == 1);
        assert(f == 0);
        assert((w - m) * (b * 1) + 0 * b == w * b - m * b) by (nonlinear_arith);
        assert(k * 1 == k);
    } else {
        assert((w * t + f) * b == (w - m) * (b * t) + f * b + m * b * t) by (nonlinear_arith);
        assert((m * b + k) * t == m * b * t + k * t) by (nonlinear_arith);
    }
}

/// Only the whole part or its successor can be the nearest integer.
proof fn lemma_candidates(d: nat, exp: int, whole: nat, part: nat, places: nat, n: nat)
    requires
        splits(d, exp, whole, part, places),
        rounds_to(d, exp, n),
        n <= u32::MAX,
    ensures
        n == whole || (n == whole + 1 && part > 0),
{
    lemma_top_bit(n);
    let u = upper_bits(n);
    let l = lower_bits(n);
    lemma2_to64();
    lemma_pow2_at_least(u, 2);
    lemma_pow2_at_least(l, 2);
    lemma_pow10_pos(places);
    let t = pow10(places) as int;
    let bu = pow2(u) as int;
    let bl = pow2(l) as int;
    let f = part as int;
    let gap = whole - n;
    lemma_compare(d, exp, whole, part, places, u, n, 1);
    if gap >= 1 {
        assert(gap * (bu * t) + f * bu > 1 * t) by (nonlinear_arith)
            requires
                gap >= 1,
                bu >= 4,
                t >= 1,
                f >= 0,
        ;
    }
    if n > 0 {
        lemma_compare(d, exp, whole, part, places, l, n, -1);
        if gap <= -2 {
            assert(gap * (bl * t) + f * bl < -1 * t) by (nonlinear_arith)
                requires
                    gap <= -2,
                    bl >= 4,
                    t >= 1,
                    f < t,
            ;
        }
        if gap == -1 && part == 0 {
            assert(-1 * (bl * t) + 0 * bl < -1 * t) by (nonlinear_arith)
                requires
                    bl >= 4,
                    t >= 1,
            ;
        }
    }
}

proof fn lemma_top_bit(n: nat)
    requires
        n <= u32::MAX,
    ensures
        top_bit(n) <= 31,
        n > 0 ==> pow2(top_bit(n)) <= n < 2 * pow2(top_bit(n)),
{
    lemma2_to64();
    lemma_top_bit_bound(n, 32);
}

proof fn lemma_top_bit_bound(n: nat, bits: nat)
    requires
        bits >= 1,
        n < pow2(bits),
    ensures
        top_bit(n) < bits,
        n > 0 ==> pow2(top_bit(n)) <= n < 2 * pow2(top_bit(n)),
    decreases n,
{
    lemma2_to64();
    if n > 1 {
        if bits == 1 {
            assert(false);
        }
        lemma_pow2_unfold(bits);
        lemma_top_bit_bound(n / 2, (bits - 1) as nat);
        lemma_pow2_unfold(top_bit(n));
    }
}

proof fn lemma_pow2_at_least(bits: nat, least: nat)
    requires
        least <= bits,
    ensures
        pow2(least) <= pow2(bits),
    decreases bits,
{
    if least < bits {
        lemma_pow2_at_least((bits - 1) as nat, least);
        lemma_pow2_unfold(bits);
    }
}

/// Double a decimal fraction; the result says whether it reached one.
fn double_fraction(f: &mut Vec<u8>) -> (carry: bool)
    requires
        digits_ok(old(f)@),
    ensures
        digits_ok(final(f)@),
        final(f)@.len() == old(f)@.len(),
        digits_nat(final(f)@) + (if carry {
            pow10(old(f)@.len())
        } else {
            0
        }) == 2 * digits_nat(old(f)@),
{
    let n: usize = f.len();
    let mut i: usize = n;
    let mut carry: u8 = 0;
    let ghost before = f@;
    assert(before.skip(n as int) =~= seq![]);
    assert(digits_nat(seq![]) == 0);
    assert(carry * pow10(0) == 0);
    while i > 0
        invariant
            i <= n,
            n == f@.len(),
            n == before.len(),
            carry <= 1,
            digits_ok(f@),
            digits_ok(before),
            forall|j: int| 0 <= j < i ==> f@[j] == before[j],
            digits_nat(f@.skip(i as int)) + carry * pow10((n - i) as nat) == 2 * digits_nat(
                before.skip(i as int),
            ),
        decreases i,
    {
        let ghost tail = f@.skip(i as int);
        i = i - 1;
        assert(before[i as int] <= 9);
        let d: u8 = f[i] * 2 + carry;
        let digit: u8 = if d >= 10 {
            d - 10
        } else {
            d
        };
        let ghost carried = carry;
        carry = if d >= 10 {
            1
        } else {
            0
        };
        f.set(i, digit);
        proof {
            let p = pow10((n - i - 1) as nat);
            let old_digit = before[i as int];
            assert(f@.skip(i as int) =~= seq![digit] + tail);
            assert(before.skip(i as int) =~= seq![old_digit] + before.skip(i + 1));
            lemma_digits_concat(seq![digit], tail);
            lemma_digits_concat(seq![old_digit], before.skip(i + 1));
            lemma_one_digit(digit);
            lemma_one_digit(old_digit);
            assert(pow10((n - i) as nat) == 10 * p);
            assert(digit * p + carry * (10 * p) == 2 * (old_digit * p) + carried * p)
                by (nonlinear_arith)
                requires
                    digit + 10 * carry == 2 * old_digit + carried,
            ;
        }
    }
    assert(f@.skip(0) =~= f@);
    assert(before.skip(0) =~= before);
    assert(1 * pow10(n as nat) == pow10(n as nat));
    assert(0 * pow10(n as nat) == 0);
    carry == 1
}

proof fn lemma_one_digit(d: u8)
    ensures
        digits_nat(seq![d]) == d,
{
    assert(seq![d].drop_last() =~= seq![]);
    assert(digits_nat(seq![]) == 0);
}

fn all_zero(f: &Vec<u8>) -> (r: bool)
    requires
        digits_ok(f@),
    ensures
        r == (digits_nat(f@) == 0),
{
    let z: usize = leading_zeros(f.as_slice());
    proof {
        lemma_leading_zeros(f@, z as int);
        let rest = f@.skip(z as int);
        assert forall|i: int| 0 <= i < rest.len() implies #[trigger] rest[i] <= 9 by {
            assert(f@[i + z] <= 9);
        }
        if z < f@.len() {
            lemma_digits_bound(rest);
            lemma_pow10_pos((rest.len() - 1) as nat);
        } else {
            assert(rest =~= seq![]);
        }
    }
    z == f.len()
}

/// Whether a decimal fraction is at most `2^-bits`.
fn fraction_at_most(f: &Vec<u8>, bits: u32) -> (r: bool)
    requires
        digits_ok(f@),
    ensures
        r == (digits_nat(f@) * pow2(bits as nat) <= pow10(f@.len())),
{
    let mut g: Vec<u8> = vstd::slice::slice_to_vec(f.as_slice());
    let ghost value = digits_nat(f@);
    let ghost one = pow10(f@.len());
    let mut i: u32 = 0;
    proof {
        lemma2_to64();
        assert(value * 1 == value);
    }
    while i < bits
        invariant
            i <= bits,
            digits_ok(g@),
            g@.len() == f@.len(),
            value == digits_nat(f@),
            one == pow10(f@.len()),
            digits_nat(g@) == value * pow2(i as nat),
        decreases bits - i,
    {
        let carry: bool = double_fraction(&mut g);
        let ghost p = pow2(i as nat);
        proof {
            lemma_pow2_unfold((i + 1) as nat);
            assert(2 * (value * p) == value * (2 * p)) by (nonlinear_arith);
        }
        i = i + 1;
        if carry {
            let zero: bool = all_zero(&g);
            proof {
                let rest = (bits - i) as nat;
                lemma_pow2_adds(i as nat, rest);
                lemma_pow2_pos(rest);
                let a = value * pow2(i as nat);
                let q = pow2(rest);
                assert(value * (pow2(i as nat) * q) == a * q) by (nonlinear_arith)
                    requires
                        a == value * pow2(i as nat),
                ;
                lemma_pow10_pos(f@.len());
                if rest == 0 {
                    lemma2_to64();
                    assert(a * 1 == a);
                } else {
                    lemma_pow2_at_least(rest, 1);
                    lemma2_to64();
                    assert(a * q > one) by (nonlinear_arith)
                        requires
                            a >= one,
                            one >= 1,
                            q >= 2,
                    ;
                }
            }
            return i == bits && zero;
        }
    }
    proof {
        lemma_digits_bound(g@);
    }
    true
}

/// Whether a decimal fraction is at least `1 - 2^-bits`.
fn fraction_at_least(f: &Vec<u8>, bits: u32) -> (r: bool)
    requires
        digits_ok(f@),
    ensures
        r == (digits_nat(f@) * pow2(bits as nat) >= (pow2(bits as nat) - 1) * pow10(f@.len())),
{
    let mut g: Vec<u8> = vstd::slice::slice_to_vec(f.as_slice());
    let ghost value = digits_nat(f@) as int;
    let ghost one = pow10(f@.len()) as int;
    let mut i: u32 = 0;
    proof {
        lemma2_to64();
        assert(value * 1 == value);
        assert(0 * one == 0);
        lemma_pow10_pos(f@.len());
    }
    while i < bits
        invariant
            i <= bits,
            digits_ok(g@),
            g@.len() == f@.len(),
            value == digits_nat(f@),
            one == pow10(f@.len()),
            one >= 1,
            digits_nat(g@) == value * pow2(i as nat) - (pow2(i as nat) - 1) * one,
        decreases bits - i,
    {
        let ghost p = pow2(i as nat) as int;
        let carry: bool = double_fraction(&mut g);
        i = i + 1;
        proof {
            lemma_digits_bound(g@);
            lemma_pow2_unfold(i as nat);
            assert(2 * (value * p - (p - 1) * one) == value * (2 * p) - (2 * p - 1) * one + one)
                by (nonlinear_arith);
        }
        if !carry {
            proof {
                let rest = (bits - i) as nat;
                lemma_pow2_adds(i as nat, rest);
                lemma_pow2_pos(rest);
                let p2 = pow2(i as nat) as int;
                let q = pow2(rest) as int;
                assert(value * (p2 * q) < (p2 * q - 1) * one) by (nonlinear_arith)
                    requires
                        value * p2 < (p2 - 1) * one,
                        q >= 1,
                        one >= 1,
                ;
            }
            return false;
        }
    }
    true
}

fn top_bit_of(n: u64) -> (r: u32)
    requires
        n <= 0x1_0000_0000,
    ensures
        r == top_bit(n as nat),
        r <= 32,
    decreases n,
{
    if n <= 1 {
        0
    } else {
        proof {
            lemma2_to64();
            lemma_top_bit_bound((n / 2) as nat, 32);
        }
        1 + top_bit_of(n / 2)
    }
}

fn power_of_two(bit: u32) -> (r: u64)
    requires
        bit <= 32,
    ensures
        r == pow2(bit as nat),
    decreases bit,
{
    proof {
        lemma2_to64();
        if bit > 0 {
            lemma_pow2_unfold(bit as nat);
            lemma_pow2_at_least(32, bit as nat);
        }
    }
    if bit == 0 {
        1
    } else {
        power_of_two(bit - 1) * 2
    }
}

/// The value of at most ten digits followed by `zeros` zeros, eleven in all at
/// most.
fn small_value(ds: &[u8], zeros: usize) -> (r: u64)
    requires
        digits_ok(ds@),
        ds@.len() + zeros <= 10,
    ensures
        r == digits_nat(ds@) * pow10(zeros as nat),
        r < 10_000_000_000,
{
    let mut v: u64 = 0;
    let mut i: usize = 0;
    assert(ds@.take(0) =~= seq![]);
    proof {
        lemma_small_powers();
    }
    while i < ds.len()
        invariant
            i <= ds@.len() <= 10,
            digits_ok(ds@),
            v == digits_nat(ds@.take(i as int)),
            v < pow10(i as nat),
            pow10(10) == 10_000_000_000,
        decreases ds.len() - i,
    {
        proof {
            let next = ds@.take(i + 1);
            assert(next.drop_last() =~= ds@.take(i as int));
            assert(next.last() == ds@[i as int]);
            assert(ds@[i as int] <= 9);
            lemma_pow10_monotone((i + 1) as nat, 10);
            assert(pow10((i + 1) as nat) == 10 * pow10(i as nat));
        }
        v = v * 10 + ds[i] as u64;
        i = i + 1;
    }
    assert(ds@.take(ds@.len() as int) =~= ds@);
    let ghost start = v;
    let mut k: usize = 0;
    assert(start * 1 == start);
    while k < zeros
        invariant
            k <= zeros,
            ds@.len() + zeros <= 10,
            v == start * pow10(k as nat),
            v < pow10((ds@.len() + k) as nat),
            pow10(10) == 10_000_000_000,
        decreases zeros - k,
    {
        proof {
            lemma_pow10_monotone((ds@.len() + k + 1) as nat, 10);
            assert(pow10((ds@.len() + k + 1) as nat) == 10 * pow10((ds@.len() + k) as nat));
            let p = pow10(k as nat);
            assert(pow10((k + 1) as nat) == 10 * p);
            assert((start * p) * 10 == start * (10 * p)) by (nonlinear_arith);
        }
        v = v * 10;
        k = k + 1;
    }
    proof {
        lemma_pow10_monotone((ds@.len() + zeros) as nat, 10);
    }
    v
}

proof fn lemma_small_powers()
    ensures
        pow10(10) == 10_000_000_000,
{
    reveal_with_fuel(pow10, 11);
}

/// A number of a magnitude of 10^10 or more rounds to no 32-bit integer.
proof fn lemma_too_large(sig: Seq<u8>, exp: int, n: nat)
    requires
        digits_ok(sig),
        sig.len() > 0,
        sig[0] > 0,
        sig.len() + exp > 10,
        n <= u32::MAX,
    ensures
        !rounds_to(digits_nat(sig), exp, n),
{
    let d = digits_nat(sig);
    lemma_small_powers();
    lemma_scaled_at_least(sig, exp, 10, 10_000_000_000);
    let u = upper_bits(n);
    lemma_pow2_pos(u);
    let b = pow2(u) as int;
    let m = n as int;
    if exp >= 0 {
        let v = (d * pow10(exp as nat)) as int;
        assert(v * b > m * b + 1) by (nonlinear_arith)
            requires
                v >= 10_000_000_000,
                b >= 1,
                m <= 0xFFFF_FFFF,
        ;
    } else {
        let t = pow10((-exp) as nat) as int;
        let v = d as int;
        lemma_pow10_pos((-exp) as nat);
        assert(v * b > (m * b + 1) * t) by (nonlinear_arith)
            requires
                v >= 10_000_000_000 * t,
                t >= 1,
                b >= 1,
                m <= 0xFFFF_FFFF,
        ;
    }
}

proof fn lemma_powers_of_two_and_ten(q: nat)
    ensures
        pow2(3 * q) <= pow10(q),
    decreases q,
{
    lemma2_to64();
    if q > 0 {
        lemma_powers_of_two_and_ten((q - 1) as nat);
        lemma_pow2_adds(3, (3 * (q - 1)) as nat);
    }
}

/// A number below 10^-400 rounds to zero.
proof fn lemma_too_small(sig: Seq<u8>, exp: int)
    requires
        digits_ok(sig),
        sig.len() + exp < -400,
    ensures
        rounds_to(digits_nat(sig), exp, 0),
{
    let d = digits_nat(sig);
    let x = (-exp) as nat;
    lemma_digits_bound(sig);
    lemma_powers_of_two_and_ten(400);
    lemma_pow2_at_least(1200, 1075);
    let b = pow2(1075) as int;
    lemma_pow10_adds(sig.len(), 400);
    lemma_pow10_monotone(sig.len() + 400, x);
    let p = pow10(sig.len()) as int;
    let q = pow10(400) as int;
    let v = d as int;
    assert(v * b <= p * q) by (nonlinear_arith)
        requires
            0 <= v <= p,
            0 <= b <= q,
    ;
    assert(0 * b == 0);
    assert(1 * pow10(x) == pow10(x));
}

/// The 32-bit unsigned integer that a decimal number denotes once rounded to
/// double precision, if it denotes one. A negative number denotes one only when
/// it rounds to zero.
pub fn nearest_u32(negative: bool, ds: &[u8], exp: i128, Ghost(true_exp): Ghost<int>) -> (r: Option<
    u32,
>)
    requires
        digits_ok(ds@),
        exp == clamped(true_exp),
    ensures
        match r {
            Some(n) => rounds_to(digits_nat(ds@), true_exp, n as nat) && (negative ==> n == 0),
            None => forall|n: nat|
                n <= u32::MAX && #[trigger] rounds_to(digits_nat(ds@), true_exp, n) ==> negative
                    && n > 0,
        },
{
    let z: usize = leading_zeros(ds);
    let sig = vstd::slice::slice_subrange(ds, z, ds.len());
    let ghost d = digits_nat(ds@);
    proof {
        lemma_leading_zeros(ds@, z as int);
        assert(ds@.skip(z as int) =~= sig@);
    }
    if sig.len() == 0 {
        proof {
            assert(digits_nat(sig@) == 0);
            let b = pow2(1075);
            if true_exp >= 0 {
                let t = pow10(true_exp as nat);
                assert(0 * t * b == 0) by (nonlinear_arith);
            } else {
                lemma_pow10_pos((-true_exp) as nat);
                assert(0 * b == 0);
                assert(1 * pow10((-true_exp) as nat) >= 0);
            }
            assert(0 * b == 0);
        }
        return Some(0);
    }
    let m: i128 = sig.len() as i128;
    if m + exp > 10 {
        proof {
            assert forall|n: nat| n <= u32::MAX && #[trigger] rounds_to(
                d,
                true_exp,
                n,
            ) implies negative && n > 0 by {
                lemma_too_large(sig@, true_exp, n);
            }
        }
        return None;
    }
    if m + exp < -400 {
        proof {
            lemma_too_small(sig@, true_exp);
        }
        return Some(0);
    }
    assert(exp == true_exp);
    let mut fraction: Vec<u8> = Vec::new();
    let mut whole: u64 = 0;
    if exp >= 0 {
        whole = small_value(sig, exp as usize);
        assert(digits_nat(fraction@) == 0);
        assert(pow10(0) == 1);
    } else {
        let places: i128 = -exp;
        if m > places {
            let point: usize = (m - places) as usize;
            let head = vstd::slice::slice_subrange(sig, 0, point);
            whole = small_value(head, 0);
            fraction = vstd::slice::slice_to_vec(
                vstd::slice::slice_subrange(sig, point, sig.len()),
            );
            proof {
                assert(head@ + fraction@ =~= sig@);
                lemma_digits_concat(head@, fraction@);
                assert(digits_nat(head@) * 1 == digits_nat(head@));
            }
        } else {
            let zeros: i128 = places - m;
            let mut k: i128 = 0;
            while k < zeros
                invariant
                    0 <= k <= zeros <= 400,
                    fraction@ == Seq::new(k as nat, |j: int| 0u8),
                decreases zeros - k,
            {
                fraction.push(0);
                k = k + 1;
                assert(fraction@ =~= Seq::new(k as nat, |j: int| 0u8));
            }
            let ghost padding = fraction@;
            fraction.extend_from_slice(sig);
            proof {
                assert(fraction@ =~= padding + sig@);
                lemma_zeros(padding);
                lemma_digits_concat(padding, sig@);
                assert(0 * pow10(sig@.len()) == 0);
                assert(0 * pow10(places as nat) == 0);
            }
        }
    }
    let ghost part = digits_nat(fraction@);
    let ghost places = fraction@.len();
    proof {
        lemma_digits_bound(fraction@);
        lemma_small_powers();
    }
    assert(splits(d, true_exp, whole as nat, part, places));
    nearest_of(negative, whole, &fraction, Ghost(d), Ghost(true_exp))
}

/// The nearest integer of a whole number and a fraction.
fn nearest_of(
    negative: bool,
    whole: u64,
    fraction: &Vec<u8>,
    Ghost(d): Ghost<nat>,
    Ghost(exp): Ghost<int>,
) -> (r: Option<u32>)
    requires
        digits_ok(fraction@),
        whole < 10_000_000_000,
        splits(d, exp, whole as nat, digits_nat(fraction@), fraction@.len()),
    ensures
        match r {
            Some(n) => rounds_to(d, exp, n as nat) && (negative ==> n == 0),
            None => forall|n: nat|
                n <= u32::MAX && #[trigger] rounds_to(d, exp, n) ==> negative && n > 0,
        },
{
    let ghost part = digits_nat(fraction@);
    let ghost places = fraction@.len();
    let ghost one = pow10(places) as int;
    proof {
        assert forall|n: nat| n <= u32::MAX && #[trigger] rounds_to(d, exp, n) implies n == whole
            || (n == whole + 1 && part > 0) by {
            lemma_candidates(d, exp, whole as nat, part, places, n);
        }
    }
    if whole > 0xFFFF_FFFF {
        return None;
    }
    let up: u32 = if whole == 0 {
        1075
    } else {
        proof {
            lemma_top_bit(whole as nat);
        }
        53 - top_bit_of(whole)
    };
    proof {
        lemma_compare(d, exp, whole as nat, part, places, up as nat, whole as nat, 1);
        assert(0 * (pow2(up as nat) * pow10(places)) == 0);
        assert(1 * pow10(places) == pow10(places));
        if whole > 0 {
            let l = lower_bits(whole as nat);
            lemma_compare(d, exp, whole as nat, part, places, l, whole as nat, -1);
            assert(0 * (pow2(l) * pow10(places)) == 0);
            assert(part * pow2(l) >= -1 * pow10(places)) by (nonlinear_arith)
                requires
                    part >= 0,
                    pow2(l) >= 0,
                    pow10(places) >= 0,
            ;
        }
    }
    if fraction_at_most(fraction, up) {
        if negative && whole > 0 {
            proof {
                assert forall|n: nat| n <= u32::MAX && #[trigger] rounds_to(
                    d,
                    exp,
                    n,
                ) implies negative && n > 0 by {}
            }
            return None;
        }
        return Some(whole as u32);
    }
    let next: u64 = whole + 1;
    if next > 0xFFFF_FFFF {
        return None;
    }
    let bit: u32 = top_bit_of(next);
    proof {
        lemma_top_bit(next as nat);
    }
    let down: u32 = if next == power_of_two(bit) {
        54 - bit
    } else {
        53 - bit
    };
    proof {
        let u = upper_bits(next as nat);
        let b = pow2(down as nat) as int;
        let f = part as int;
        let bu = pow2(u) as int;
        lemma_pow2_pos(u);
        lemma_compare(d, exp, whole as nat, part, places, down as nat, next as nat, -1);
        lemma_compare(d, exp, whole as nat, part, places, u, next as nat, 1);
        assert(-1 * (b * one) + f * b >= -1 * one <==> f * b >= (b - 1) * one)
            by (nonlinear_arith);
        assert(-1 * (bu * one) + f * bu <= 1 * one) by (nonlinear_arith)
            requires
                0 <= f < one,
                bu >= 1,
        ;
    }
    if fraction_at_least(fraction, down) && !negative {
        Some(next as u32)
    } else {
        None
    }
}

} // verus!
