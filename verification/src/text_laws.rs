//! Numbers, words and white space: what is read back of what was written.

use vstd::prelude::*;
use crate::text::{
    all_digits, before_space, decimal, digits_value, ends_or_exponent, integer_of,
    is_control_char, is_decimal_from, is_digit_char, is_number_text, is_sign, is_space, lemma_skip_space,
    lemma_skip_word, skip_digits, skip_sign, skip_space, skip_word, trimmed, unsigned_of, words,
    words_from,
};

verus! {

/// A number is written in decimal digits without leading zeros, and the digits stand for
/// the number.
pub proof fn law_decimal(n: nat)
    ensures
        decimal(n).len() > 0,
        all_digits(decimal(n)),
        digits_value(decimal(n)) == n,
        n > 0 ==> decimal(n)[0] != '0',
        n < 10 ==> decimal(n).len() == 1,
    decreases n,
{
    let s = decimal(n);
    if n < 10 {
        assert(s.drop_last() =~= Seq::<char>::empty());
        assert(s.last() as int == 48 + n);
        assert(digits_value(s.drop_last()) == 0);
    } else {
        law_decimal(n / 10);
        let front = decimal(n / 10);
        assert(s.drop_last() =~= front);
        assert(s.last() as int == 48 + n % 10);
        assert(all_digits(s)) by {
            assert forall|i: int| 0 <= i < s.len() implies is_digit_char(#[trigger] s[i]) by {
                if i < front.len() {
                    assert(s[i] == front[i]);
                }
            }
        }
        assert(s[0] == front[0]);
    }
}

/// A number is read back from its digits, with or without a sign.
pub proof fn law_integers(n: nat)
    ensures
        integer_of(decimal(n)) == Some(n as int),
        integer_of(seq!['+'] + decimal(n)) == Some(n as int),
        integer_of(seq!['-'] + decimal(n)) == Some(-(n as int)),
        n <= u32::MAX ==> unsigned_of(decimal(n)) == Some(n as u32),
        n <= u32::MAX ==> unsigned_of(seq!['+'] + decimal(n)) == Some(n as u32),
        n > u32::MAX ==> unsigned_of(decimal(n)) is None,
        unsigned_of(seq!['-'] + decimal(n)) is None,
{
    let d = decimal(n);
    law_decimal(n);
    assert(is_digit_char(d[0]));
    assert(d.subrange(0, d.len() as int) =~= d);
    let p = seq!['+'] + d;
    let m = seq!['-'] + d;
    assert(p[0] == '+' && m[0] == '-');
    assert(p.subrange(1, p.len() as int) =~= d);
    assert(m.subrange(1, m.len() as int) =~= d);
}

/// No number is read from a text without digits, or with anything but digits behind the
/// first character.
pub proof fn law_other_texts_are_no_integers(s: Seq<char>, i: int)
    requires
        s.len() == 0 || (s.len() == 1 && !is_digit_char(s[0])) || (0 < i < s.len()
            && !is_digit_char(s[i])) || (s.len() > 0 && !is_digit_char(s[0]) && s[0] != '+' && s[0]
            != '-'),
    ensures
        integer_of(s) is None,
        unsigned_of(s) is None,
{
    let start: int = if s.len() > 0 && is_sign(s[0]) {
        1
    } else {
        0
    };
    let digits = s.subrange(start, s.len() as int);
    if digits.len() > 0 {
        if 0 < i < s.len() && !is_digit_char(s[i]) {
            assert(digits[i - start] == s[i]);
        } else {
            assert(digits[0] == s[start]);
        }
    }
}

/// Of the first 128 characters, the blank, the tabulators and the line ends are white
/// space.
pub proof fn law_white_space(c: char)
    requires
        (c as int) < 128,
    ensures
        is_space(c) <==> c == ' ' || 9 <= c as int <= 13,
{
}

/// The control characters: the first 32, the last of the first 128 and the 32 behind it.
pub proof fn law_control_characters(c: char)
    ensures
        is_control_char(c) <==> (c as int) < 32 || 127 <= (c as int) < 160,
{
}

/// A text of white space only.
pub open spec fn all_space(s: Seq<char>) -> bool {
    forall|i: int| 0 <= i < s.len() ==> is_space(#[trigger] s[i])
}

/// A text without white space.
pub open spec fn no_space(s: Seq<char>) -> bool {
    forall|i: int| 0 <= i < s.len() ==> !is_space(#[trigger] s[i])
}

/// White space up to `to` is skipped whole.
proof fn lemma_spaces(s: Seq<char>, from: int, to: int)
    requires
        0 <= from <= to <= s.len(),
        forall|i: int| from <= i < to ==> is_space(#[trigger] s[i]),
        to < s.len() ==> !is_space(s[to]),
    ensures
        skip_space(s, from) == to,
    decreases to - from,
{
    if from < to {
        lemma_spaces(s, from + 1, to);
    }
}

/// A word up to `to` is skipped whole.
proof fn lemma_word(s: Seq<char>, from: int, to: int)
    requires
        0 <= from <= to <= s.len(),
        forall|i: int| from <= i < to ==> !is_space(#[trigger] s[i]),
        to < s.len() ==> is_space(s[to]),
    ensures
        skip_word(s, from) == to,
    decreases to - from,
{
    if from < to {
        lemma_word(s, from + 1, to);
    }
}

/// White space behind `to` is skipped whole from the end.
proof fn lemma_spaces_back(s: Seq<char>, from: int, to: int)
    requires
        0 <= to <= from <= s.len(),
        forall|i: int| to <= i < from ==> is_space(#[trigger] s[i]),
        to > 0 ==> !is_space(s[to - 1]),
    ensures
        before_space(s, from) == to,
    decreases from - to,
{
    if to < from {
        lemma_spaces_back(s, from - 1, to);
    }
}

/// White space around a text is taken off, and nothing of the text.
pub proof fn law_trimmed(a: Seq<char>, t: Seq<char>, b: Seq<char>)
    requires
        all_space(a),
        all_space(b),
        t.len() > 0 ==> !is_space(t[0]) && !is_space(t.last()),
    ensures
        trimmed(a + t + b) == t,
{
    let s = a + t + b;
    if t.len() > 0 {
        assert(s[a.len() as int] == t[0]);
        assert(s[a.len() + t.len() - 1] == t.last());
        assert forall|i: int| 0 <= i < a.len() implies is_space(#[trigger] s[i]) by {
            assert(s[i] == a[i]);
        }
        assert forall|i: int| a.len() + t.len() <= i < s.len() implies is_space(#[trigger] s[i]) by {
            assert(s[i] == b[i - a.len() - t.len()]);
        }
        lemma_spaces(s, 0, a.len() as int);
        lemma_spaces_back(s, s.len() as int, (a.len() + t.len()) as int);
        assert(s.subrange(a.len() as int, (a.len() + t.len()) as int) =~= t);
    } else {
        assert forall|i: int| 0 <= i < s.len() implies is_space(#[trigger] s[i]) by {
            if i < a.len() {
                assert(s[i] == a[i]);
            } else {
                assert(s[i] == b[i - a.len()]);
            }
        }
        lemma_spaces(s, 0, s.len() as int);
        lemma_spaces_back(s, s.len() as int, 0);
        assert(t =~= seq![]);
    }
}

/// What is skipped does not depend on what stands before it.
proof fn lemma_shifted(p: Seq<char>, s: Seq<char>, i: int)
    requires
        0 <= i <= s.len(),
    ensures
        skip_space(p + s, p.len() + i) == p.len() + skip_space(s, i),
        skip_word(p + s, p.len() + i) == p.len() + skip_word(s, i),
    decreases s.len() - i,
{
    if i < s.len() {
        assert((p + s)[p.len() + i] == s[i]);
        lemma_shifted(p, s, i + 1);
    }
}

/// Nor do the words.
proof fn lemma_shifted_words(p: Seq<char>, s: Seq<char>, i: int)
    requires
        0 <= i <= s.len(),
    ensures
        words_from(p + s, p.len() + i) == words_from(s, i),
    decreases s.len() - i,
{
    let a = skip_space(s, i);
    let b = skip_word(s, a);
    lemma_skip_space(s, i);
    lemma_skip_word(s, a);
    lemma_shifted(p, s, i);
    lemma_shifted(p, s, a);
    if a < s.len() {
        lemma_shifted_words(p, s, b);
        assert((p + s).subrange(p.len() + a, p.len() + b) =~= s.subrange(a, b));
    }
}

/// A word is what stands between white space, or up to an end of the text; white space
/// alone holds none.
pub proof fn law_words(a: Seq<char>, w: Seq<char>, rest: Seq<char>)
    requires
        all_space(a),
        no_space(w),
        rest.len() > 0 ==> is_space(rest[0]),
    ensures
        w.len() > 0 ==> words(a + w + rest) == seq![w] + words(rest),
        words(a).len() == 0,
{
    lemma_spaces(a, 0, a.len() as int);
    if w.len() > 0 {
        let s = a + w + rest;
        let end = a.len() + w.len();
        assert forall|i: int| 0 <= i < a.len() implies is_space(#[trigger] s[i]) by {
            assert(s[i] == a[i]);
        }
        assert forall|i: int| a.len() <= i < end implies !is_space(#[trigger] s[i]) by {
            assert(s[i] == w[i - a.len()]);
        }
        assert(s[a.len() as int] == w[0]);
        if rest.len() > 0 {
            assert(s[end as int] == rest[0]);
        }
        lemma_spaces(s, 0, a.len() as int);
        lemma_word(s, a.len() as int, end as int);
        assert(s.subrange(a.len() as int, end as int) =~= w);
        lemma_shifted_words(a + w, rest, 0);
        assert(words_from(s, end as int) == words(rest));
    }
}

/// Digits up to `to` are skipped whole.
proof fn lemma_digits(s: Seq<char>, from: int, to: int)
    requires
        0 <= from <= to <= s.len(),
        forall|i: int| from <= i < to ==> is_digit_char(#[trigger] s[i]),
        to < s.len() ==> !is_digit_char(s[to]),
    ensures
        skip_digits(s, from) == to,
    decreases to - from,
{
    if from < to {
        lemma_digits(s, from + 1, to);
    }
}

/// Where digits stand between two places of a text.
proof fn lemma_part(s: Seq<char>, at: int, d: Seq<char>)
    requires
        0 <= at,
        at + d.len() <= s.len(),
        s.subrange(at, at + d.len()) == d,
        all_digits(d),
        at + d.len() < s.len() ==> !is_digit_char(s[at + d.len()]),
    ensures
        skip_digits(s, at) == at + d.len(),
{
    assert forall|i: int| at <= i < at + d.len() implies is_digit_char(#[trigger] s[i]) by {
        assert(s[i] == s.subrange(at, at + d.len())[i - at]);
    }
    lemma_digits(s, at, at + d.len());
}

/// Digits are a number, with or without a point before, between or behind them, and with
/// an exponent after them.
pub proof fn law_number_texts(w: Seq<char>, f: Seq<char>, e: Seq<char>)
    requires
        all_digits(w),
        all_digits(f),
        all_digits(e),
        e.len() > 0,
        w.len() + f.len() > 0,
    ensures
        is_number_text(w + seq!['.'] + f),
        is_number_text(w + seq!['.'] + f + seq!['e'] + e),
        w.len() > 0 ==> is_number_text(w),
        w.len() > 0 ==> is_number_text(seq!['-'] + w),
        w.len() > 0 ==> is_number_text(w + seq!['E', '-'] + e),
{
    if w.len() > 0 {
        assert(is_digit_char(w[0]));
    }
    let s = w + seq!['.'] + f;
    if w.len() > 0 {
        assert(s[0] == w[0]);
    } else {
        assert(s[0] == '.');
    }
    assert(s.subrange(0, w.len() as int) =~= w);
    assert(s[w.len() as int] == '.');
    assert(s.subrange((w.len() + 1) as int, s.len() as int) =~= f);
    lemma_part(s, 0, w);
    lemma_part(s, (w.len() + 1) as int, f);
    assert(is_decimal_from(s, 0));
    let t = s + seq!['e'] + e;
    assert(t[0] == s[0]);
    assert(t.subrange(0, w.len() as int) =~= w);
    assert(t[w.len() as int] == '.');
    assert(t.subrange((w.len() + 1) as int, s.len() as int) =~= f);
    assert(t[s.len() as int] == 'e');
    assert(t.subrange((s.len() + 1) as int, t.len() as int) =~= e);
    assert(is_digit_char(e[0]));
    assert(t[(s.len() + 1) as int] == e[0]);
    lemma_part(t, 0, w);
    lemma_part(t, (w.len() + 1) as int, f);
    lemma_part(t, (s.len() + 1) as int, e);
    assert(is_decimal_from(t, 0));
    if w.len() > 0 {
        assert(w.subrange(0, w.len() as int) =~= w);
        lemma_part(w, 0, w);
        assert(is_decimal_from(w, 0));
        let m = seq!['-'] + w;
        assert(m[0] == '-');
        assert(m.subrange(1, m.len() as int) =~= w);
        lemma_part(m, 1, w);
        assert(is_decimal_from(m, 1));
        let x = w + seq!['E', '-'] + e;
        assert(x[0] == w[0]);
        assert(x.subrange(0, w.len() as int) =~= w);
        assert(x[w.len() as int] == 'E');
        assert(x[(w.len() + 1) as int] == '-');
        assert(x.subrange((w.len() + 2) as int, x.len() as int) =~= e);
        lemma_part(x, 0, w);
        lemma_part(x, (w.len() + 2) as int, e);
        assert(is_decimal_from(x, 0));
    }
}

/// A character that may stand in a number.
pub open spec fn numeric(c: char) -> bool {
    is_digit_char(c) || c == '.' || c == 'e' || c == 'E' || c == '+' || c == '-'
}

/// What is skipped are digits.
proof fn lemma_skipped(s: Seq<char>, from: int)
    requires
        0 <= from <= s.len(),
    ensures
        from <= skip_digits(s, from) <= s.len(),
        forall|i: int| from <= i < skip_digits(s, from) ==> is_digit_char(#[trigger] s[i]),
    decreases s.len() - from,
{
    if from < s.len() && is_digit_char(s[from]) {
        lemma_skipped(s, from + 1);
    }
}

/// Numbers hold digits, signs, points and exponent marks only, and at least one digit.
pub proof fn law_decimals_hold_no_other_characters(s: Seq<char>, i: int)
    requires
        is_decimal_from(s, skip_sign(s, 0)),
        0 <= i < s.len(),
    ensures
        numeric(s[i]),
        exists|k: int| 0 <= k < s.len() && is_digit_char(#[trigger] s[k]),
{
    let start = skip_sign(s, 0);
    let point = skip_digits(s, start);
    lemma_skipped(s, start);
    if point < s.len() && s[point] == '.' {
        let end = skip_digits(s, point + 1);
        lemma_skipped(s, point + 1);
        lemma_tail(s, end);
        if point > start {
            assert(is_digit_char(s[start]));
        } else {
            assert(is_digit_char(s[point + 1]));
        }
    } else {
        lemma_tail(s, point);
        assert(is_digit_char(s[start]));
    }
}

/// The end of a number holds an exponent or nothing.
proof fn lemma_tail(s: Seq<char>, from: int)
    requires
        0 <= from <= s.len(),
        ends_or_exponent(s, from),
    ensures
        forall|i: int| from <= i < s.len() ==> numeric(#[trigger] s[i]),
{
    if from < s.len() {
        let digits = skip_sign(s, from + 1);
        lemma_skipped(s, digits);
    }
}

} // verus!
