//! How single tokens of a JSON text are read.

use vstd::prelude::*;
use crate::engine::json::{
    digit_at, digit_values, escape_at, exponent_part, found_at, fraction_part,
    hex_char, hex_digits, integer_part, is_blank, is_digit_byte, number_ends, number_text,
    skip_blank, skip_digit_bytes, skip_sign_byte, unicode_at, unit_at, JsonFault,
};
use crate::engine::number::{digits_nat, is_below, pow10};

verus! {

/// The byte of a hexadecimal digit, in lower or upper case.
pub open spec fn hex_byte(d: int, upper: bool) -> int {
    if d < 10 {
        '0' as int + d
    } else if upper {
        'A' as int + d - 10
    } else {
        'a' as int + d - 10
    }
}

/// The letter escapes stand for their characters, quotes and slashes for themselves.
pub proof fn law_escapes(s: Seq<u8>, at: int)
    requires
        0 <= at < s.len(),
    ensures
        s[at] == '"' as int ==> escape_at(s, at) == Ok::<(nat, int), JsonFault>((34, at + 1)),
        s[at] == '\\' as int ==> escape_at(s, at) == Ok::<(nat, int), JsonFault>((92, at + 1)),
        s[at] == '/' as int ==> escape_at(s, at) == Ok::<(nat, int), JsonFault>((47, at + 1)),
        s[at] == 'b' as int ==> escape_at(s, at) == Ok::<(nat, int), JsonFault>((8, at + 1)),
        s[at] == 'f' as int ==> escape_at(s, at) == Ok::<(nat, int), JsonFault>((12, at + 1)),
        s[at] == 'n' as int ==> escape_at(s, at) == Ok::<(nat, int), JsonFault>((10, at + 1)),
        s[at] == 'r' as int ==> escape_at(s, at) == Ok::<(nat, int), JsonFault>((13, at + 1)),
        s[at] == 't' as int ==> escape_at(s, at) == Ok::<(nat, int), JsonFault>((9, at + 1)),
        s[at] == 'u' as int ==> escape_at(s, at) == unicode_at(s, at),
        s[at] != '"' as int && s[at] != '\\' as int && s[at] != '/' as int && s[at] != 'b' as int
            && s[at] != 'f' as int && s[at] != 'n' as int && s[at] != 'r' as int && s[at]
            != 't' as int && s[at] != 'u' as int ==> escape_at(s, at) is Err,
{
}

/// Four hexadecimal digits are a number, the first of them the highest.
pub proof fn law_hex_digits(
    s: Seq<u8>,
    start: int,
    a: int,
    b: int,
    c: int,
    d: int,
    upper: bool,
)
    requires
        0 <= start,
        start + 4 <= s.len(),
        0 <= a < 16,
        0 <= b < 16,
        0 <= c < 16,
        0 <= d < 16,
        s[start] == hex_byte(a, upper),
        s[start + 1] == hex_byte(b, upper),
        s[start + 2] == hex_byte(c, upper),
        s[start + 3] == hex_byte(d, upper),
    ensures
        unit_at(s, start) == Ok::<nat, JsonFault>((4096 * a + 256 * b + 16 * c + d) as nat),
{
    reveal_with_fuel(hex_digits, 5);
}

/// A text holds four hexadecimal digits that stand for a code unit.
pub open spec fn holds_unit(s: Seq<u8>, start: int, unit: int) -> bool {
    unit_at(s, start) == Ok::<nat, JsonFault>(unit as nat)
}

/// A code unit outside the surrogates is a character by itself.
pub proof fn law_plain_units(s: Seq<u8>, at: int, unit: int)
    requires
        holds_unit(s, at + 1, unit),
        0 <= unit < 0xD800 || 0xE000 <= unit < 0x1_0000,
    ensures
        unicode_at(s, at) == Ok::<(nat, int), JsonFault>((unit as nat, at + 5)),
{
}

/// A character beyond the first 65536 is written as two code units: its distance from
/// there, the upper ten bits in the first, the lower ten in the second.
pub proof fn law_surrogate_pairs(s: Seq<u8>, at: int, scalar: int)
    requires
        0 <= at,
        at + 11 <= s.len(),
        0x1_0000 <= scalar < 0x11_0000,
        holds_unit(s, at + 1, 0xD800 + (scalar - 0x1_0000) / 1024),
        s[at + 5] == '\\' as int,
        s[at + 6] == 'u' as int,
        holds_unit(s, at + 7, 0xDC00 + (scalar - 0x1_0000) % 1024),
    ensures
        unicode_at(s, at) == Ok::<(nat, int), JsonFault>((scalar as nat, at + 11)),
{
    let rest = scalar - 0x1_0000;
    assert(rest / 1024 * 1024 + rest % 1024 == rest);
}

/// A surrogate without its partner is refused.
pub proof fn law_lone_surrogates(s: Seq<u8>, at: int, unit: int)
    requires
        0 <= at,
        holds_unit(s, at + 1, unit),
    ensures
        0xDC00 <= unit < 0xE000 ==> unicode_at(s, at) is Err,
        0xD800 <= unit < 0xDC00 && (at + 6 >= s.len() || s[at + 5] != '\\' as int || s[at + 6]
            != 'u' as int) ==> unicode_at(s, at) is Err,
        0xD800 <= unit < 0xDC00 ==> forall|low: int|
            0 <= low < 0x1_0000 && !(0xDC00 <= low < 0xE000) && #[trigger] holds_unit(
                s,
                at + 7,
                low,
            ) ==> unicode_at(s, at) is Err,
{
}

/// Four bytes are skipped between tokens: the blank, the tabulator and the line ends.
pub proof fn law_blanks(s: Seq<u8>, from: int, to: int)
    requires
        0 <= from <= to <= s.len(),
        forall|i: int|
            from <= i < to ==> #[trigger] s[i] == ' ' as int || s[i] == '\t' as int || s[i]
                == '\n' as int || s[i] == '\r' as int,
        to < s.len() ==> s[to] != ' ' as int && s[to] != '\t' as int && s[to] != '\n' as int
            && s[to] != '\r' as int,
    ensures
        skip_blank(s, from) == to,
    decreases to - from,
{
    if from < to {
        assert(is_blank(s[from]));
        law_blanks(s, from + 1, to);
    } else if to < s.len() {
        assert(!is_blank(s[to]));
    }
}

/// Digits between two places of a text.
pub open spec fn digits_between(s: Seq<u8>, from: int, to: int) -> bool {
    &&& 0 <= from <= to <= s.len()
    &&& forall|i: int| from <= i < to ==> '0' as int <= #[trigger] s[i] <= '9' as int
    &&& to < s.len() ==> !('0' as int <= s[to] <= '9' as int)
}

pub proof fn lemma_digits_between(s: Seq<u8>, from: int, to: int)
    requires
        digits_between(s, from, to),
    ensures
        skip_digit_bytes(s, from) == to,
        from < to ==> skip_digit_bytes(s, from + 1) == to && digit_at(s, from),
        from == to ==> !digit_at(s, from),
    decreases to - from,
{
    if from < to {
        assert(is_digit_byte(s[from]));
        lemma_digits_between(s, from + 1, to);
    }
}

/// A number is a whole part, a fraction behind a point and an exponent behind its mark
/// and sign. Its digits are those of the first two, its power of ten the exponent less
/// the length of the fraction.
pub proof fn law_number_values(
    s: Seq<u8>,
    negative: bool,
    first: int,
    whole: int,
    fraction: int,
    mark: bool,
    below_one: bool,
    exponent: int,
)
    requires
        s.len() > 0,
        first == (if negative {
            1int
        } else {
            0
        }),
        negative ==> s[0] == '-' as int,
        first < whole,
        digits_between(s, first, whole),
        s[first] != '0' as int || whole == first + 1,
        if whole < s.len() && s[whole] == '.' as int {
            whole + 1 < fraction && digits_between(s, whole + 1, fraction)
        } else {
            fraction == whole
        },
        mark ==> fraction < s.len() && (s[fraction] == 'e' as int || s[fraction] == 'E' as int),
        !mark ==> fraction == s.len(),
        mark ==> fraction < exponent < s.len() && digits_between(s, exponent, s.len() as int),
        mark && below_one ==> exponent == fraction + 2 && s[fraction + 1] == '-' as int,
        mark && !below_one ==> exponent == fraction + 1 || (exponent == fraction + 2 && s[fraction
            + 1] == '+' as int),
    ensures
        number_text(s) matches Some(number) && {
            let places: int = if fraction > whole {
                fraction - whole - 1
            } else {
                0
            };
            let power = digits_nat(digit_values(s, exponent, s.len() as int)) as int;
            &&& number.negative == negative
            &&& number.digits == digit_values(s, first, whole) + digit_values(
                s,
                fraction - places,
                fraction,
            )
            &&& number.exp == (if !mark {
                0
            } else if below_one {
                -power
            } else {
                power
            }) - places
        },
{
    assert('0' as int <= s[first] <= '9' as int);
    lemma_digits_between(s, first, whole);
    assert(integer_part(s, first) == Ok::<int, JsonFault>(whole)) by {
        if s[first] == '0' as int {
            if first + 1 < s.len() {
                assert(!digit_at(s, first + 1));
            }
        }
    }
    if whole < s.len() && s[whole] == '.' as int {
        lemma_digits_between(s, whole + 1, fraction);
    }
    assert(fraction_part(s, whole) == Ok::<int, JsonFault>(fraction));
    if mark {
        lemma_digits_between(s, exponent, s.len() as int);
        assert('0' as int <= s[exponent] <= '9' as int);
        assert(skip_sign_byte(s, fraction + 1) == exponent);
    }
    assert(exponent_part(s, fraction) == Ok::<int, JsonFault>(s.len() as int));
    assert(number_ends(s, 0) == Ok::<(int, int, int), JsonFault>(
        (whole, fraction, s.len() as int),
    ));
}

/// The digits of a number stand for it, the first of them the highest.
pub proof fn law_digit_values(a: Seq<u8>, d: u8)
    ensures
        digits_nat(Seq::<u8>::empty()) == 0,
        digits_nat(a.push(d)) == 10 * digits_nat(a) + d,
        forall|s: Seq<u8>, from: int, to: int, i: int|
            0 <= i < to - from && '0' as int <= s[from + i] ==> #[trigger] digit_values(
                s,
                from,
                to,
            )[i] == s[from + i] - '0' as int,
{
    assert(a.push(d).drop_last() =~= a);
}

/// A number lies below a limit, with its power of ten counted in.
pub proof fn law_limits(d: nat, limit: nat)
    ensures
        is_below(d, 0, limit) <==> d < limit,
        is_below(d, 1, limit) <==> 10 * d < limit,
        is_below(d, 2, limit) <==> 100 * d < limit,
        is_below(d, -1, limit) <==> d < 10 * limit,
        is_below(d, -2, limit) <==> d < 100 * limit,
        forall|n: nat| #[trigger] pow10(n + 1) == 10 * pow10(n),
{
    reveal_with_fuel(pow10, 4);
    let ten = pow10(1);
    let hundred = pow10(2);
    let one = pow10(0);
    assert(ten == 10 && hundred == 100 && one == 1);
    assert(d * one == d && limit * one == limit) by (nonlinear_arith)
        requires
            one == 1,
    ;
    assert(d * ten == 10 * d && limit * ten == 10 * limit) by (nonlinear_arith)
        requires
            ten == 10,
    ;
    assert(d * hundred == 100 * d && limit * hundred == 100 * limit) by (nonlinear_arith)
        requires
            hundred == 100,
    ;
}

/// What stands where something else was expected: the end, a visible character in quotes
/// or the number of a byte in two digits.
pub proof fn law_found(s: Seq<u8>, at: int)
    requires
        0 <= at,
    ensures
        at >= s.len() ==> found_at(s, at) == "end of input"@,
        at < s.len() && '!' as int <= s[at] <= '~' as int ==> found_at(s, at).len() == 3
            && found_at(s, at)[0] == '`' && found_at(s, at)[1] as int == s[at] && found_at(s, at)[2]
            == '`',
        at < s.len() && !('!' as int <= s[at] <= '~' as int) ==> found_at(s, at) == "byte 0x"@
            + seq![hex_char(s[at] as int / 16), hex_char(s[at] as int % 16)],
        forall|d: int| 0 <= d < 16 ==> #[trigger] hex_char(d) as int == hex_byte(d, false),
{
}

} // verus!
