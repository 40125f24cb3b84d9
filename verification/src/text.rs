//! Text building blocks: decimal rendering and string assembly.

use vstd::prelude::*;

verus! {

/// `String::push` appends one character.
pub assume_specification[ std::string::String::push ](s: &mut std::string::String, c: char)
    ensures
        final(s)@ == old(s)@.push(c),
;

/// The character of one decimal digit.
pub open spec fn digit_char(d: nat) -> char {
    (48 + d) as char
}

/// Decimal digits of a natural number, most significant first, no leading zero.
pub open spec fn decimal(n: nat) -> Seq<char>
    decreases n,
{
    if n < 10 {
        seq![digit_char(n)]
    } else {
        decimal(n / 10).push(digit_char(n % 10))
    }
}

/// Append the decimal digits of `n`.
pub fn push_decimal(s: &mut String, n: u64)
    ensures
        final(s)@ == old(s)@ + decimal(n as nat),
    decreases n,
{
    if n >= 10 {
        push_decimal(s, n / 10);
    }
    let d: u8 = (n % 10) as u8;
    let c: char = (48 + d) as char;
    s.push(c);
    assert(s@ =~= old(s)@ + decimal(n as nat));
}

/// What `String::from_utf8_lossy` makes of a byte string.
pub uninterp spec fn lossy_text(bytes: Seq<u8>) -> Seq<char>;

/// What formatting a string with `{:?}` makes of it.
pub uninterp spec fn quoted(text: Seq<char>) -> Seq<char>;

/// `String::from_utf8_lossy`: decodes bytes as UTF-8, with replacement
/// characters for what is malformed. The result is a function of the bytes, and
/// bytes that are UTF-8 already are decoded as they are.
#[verifier::external_body]
pub(crate) fn decode_lossy(bytes: &[u8]) -> (r: String)
    ensures
        r@ == lossy_text(bytes@),
        vstd::utf8::valid_utf8(bytes@) ==> vstd::utf8::encode_utf8(r@) == bytes@,
{
    String::from_utf8_lossy(bytes).into_owned()
}

/// `str`'s `Debug` format: quotes and escapes a string. The result is a
/// function of the string.
#[verifier::external_body]
pub(crate) fn quote(text: &str) -> (r: String)
    ensures
        r@ == quoted(text@),
{
    format!("{:?}", text)
}

// --- characters --------------------------------------------------------------

/// Unicode white space.
pub open spec fn is_space(c: char) -> bool {
    let n = c as u32;
    ||| 0x09 <= n <= 0x0D
    ||| n == 0x20
    ||| n == 0x85
    ||| n == 0xA0
    ||| n == 0x1680
    ||| 0x2000 <= n <= 0x200A
    ||| n == 0x2028
    ||| n == 0x2029
    ||| n == 0x202F
    ||| n == 0x205F
    ||| n == 0x3000
}

/// Whether a character is white space.
pub fn is_whitespace(c: char) -> (r: bool)
    ensures
        r == is_space(c),
{
    let n: u32 = c as u32;
    (0x09 <= n && n <= 0x0D) || n == 0x20 || n == 0x85 || n == 0xA0 || n == 0x1680 || (0x2000 <= n
        && n <= 0x200A) || n == 0x2028 || n == 0x2029 || n == 0x202F || n == 0x205F || n == 0x3000
}

/// Control characters: C0, delete and C1.
pub open spec fn is_control_char(c: char) -> bool {
    let n = c as u32;
    n <= 0x1F || 0x7F <= n <= 0x9F
}

/// Whether a character is a control character.
pub fn is_control(c: char) -> (r: bool)
    ensures
        r == is_control_char(c),
{
    let n: u32 = c as u32;
    n <= 0x1F || (0x7F <= n && n <= 0x9F)
}

/// ASCII decimal digits.
pub open spec fn is_digit_char(c: char) -> bool {
    '0' <= c <= '9'
}

/// Whether a character is an ASCII decimal digit.
pub fn is_digit(c: char) -> (r: bool)
    ensures
        r == is_digit_char(c),
{
    '0' <= c && c <= '9'
}

/// The characters of a string.
pub fn chars_of(s: &str) -> (r: Vec<char>)
    ensures
        r@ == s@,
{
    let mut v: Vec<char> = Vec::new();
    for c in it: s.chars()
        invariant
            v@ == s@.take(it.index() as int),
            it.seq() == s@,
    {
        v.push(c);
        assert(v@ =~= s@.take(it.index() + 1));
    }
    assert(s@.take(s@.len() as int) =~= s@);
    v
}

/// The string of a run of characters.
pub fn string_of(v: &[char]) -> (r: String)
    ensures
        r@ == v@,
{
    let mut s = String::new();
    let mut i: usize = 0;
    while i < v.len()
        invariant
            i <= v@.len(),
            s@ == v@.take(i as int),
        decreases v.len() - i,
    {
        s.push(v[i]);
        i = i + 1;
        assert(s@ =~= v@.take(i as int));
    }
    assert(v@.take(v@.len() as int) =~= v@);
    s
}

/// Whether two runs of characters are the same.
pub fn same_chars(a: &[char], b: &[char]) -> (r: bool)
    ensures
        r == (a@ == b@),
{
    if a.len() != b.len() {
        return false;
    }
    let mut i: usize = 0;
    while i < a.len()
        invariant
            i <= a@.len() == b@.len(),
            forall|j: int| 0 <= j < i ==> a@[j] == b@[j],
        decreases a.len() - i,
    {
        if a[i] != b[i] {
            return false;
        }
        i = i + 1;
    }
    assert(a@ =~= b@);
    true
}

/// Whether two texts are the same.
pub fn same_text(a: &str, b: &str) -> (r: bool)
    ensures
        r == (a@ == b@),
{
    same_chars(chars_of(a).as_slice(), chars_of(b).as_slice())
}

/// Whether a run of characters spells `text`.
pub fn spells(a: &[char], text: &str) -> (r: bool)
    ensures
        r == (a@ == text@),
{
    same_chars(a, chars_of(text).as_slice())
}

// --- words -------------------------------------------------------------------

/// The first position at or after `i` that is not white space.
pub open spec fn skip_space(s: Seq<char>, i: int) -> int
    decreases s.len() - i,
{
    if 0 <= i < s.len() && is_space(s[i]) {
        skip_space(s, i + 1)
    } else {
        i
    }
}

/// The first position at or after `i` that is white space or the end.
pub open spec fn skip_word(s: Seq<char>, i: int) -> int
    decreases s.len() - i,
{
    if 0 <= i < s.len() && !is_space(s[i]) {
        skip_word(s, i + 1)
    } else {
        i
    }
}

/// `skip_space` moves forward within the text, over white space only.
pub proof fn lemma_skip_space(s: Seq<char>, i: int)
    requires
        0 <= i <= s.len(),
    ensures
        i <= skip_space(s, i) <= s.len(),
        skip_space(s, i) < s.len() ==> !is_space(s[skip_space(s, i)]),
    decreases s.len() - i,
{
    if i < s.len() && is_space(s[i]) {
        lemma_skip_space(s, i + 1);
    }
}

/// `skip_word` moves forward within the text, over no white space.
pub proof fn lemma_skip_word(s: Seq<char>, i: int)
    requires
        0 <= i <= s.len(),
    ensures
        i <= skip_word(s, i) <= s.len(),
        i < s.len() && !is_space(s[i]) ==> i < skip_word(s, i),
    decreases s.len() - i,
{
    if i < s.len() && !is_space(s[i]) {
        lemma_skip_word(s, i + 1);
    }
}

/// The end of the first `n` characters without the white space they end in.
pub open spec fn before_space(s: Seq<char>, n: int) -> int
    decreases n,
{
    if 0 < n <= s.len() && is_space(s[n - 1]) {
        before_space(s, n - 1)
    } else {
        n
    }
}

/// A text without the white space around it.
pub open spec fn trimmed(s: Seq<char>) -> Seq<char> {
    let from = skip_space(s, 0);
    let to = before_space(s, s.len() as int);
    if from < to {
        s.subrange(from, to)
    } else {
        seq![]
    }
}

/// The text without the white space around it.
pub fn trim(s: &[char]) -> (r: &[char])
    ensures
        r@ == trimmed(s@),
{
    let mut from: usize = 0;
    assert(s.len() == s@.len());
    while from < s.len() && is_whitespace(s[from])
        invariant
            from <= s@.len() == s.len(),
            skip_space(s@, 0) == skip_space(s@, from as int),
        decreases s@.len() - from,
    {
        from = from + 1;
    }
    let mut to: usize = s.len();
    while to > from && is_whitespace(s[to - 1])
        invariant
            from <= to <= s@.len() == s.len(),
            before_space(s@, s@.len() as int) == before_space(s@, to as int),
        decreases to,
    {
        to = to - 1;
    }
    proof {
        lemma_before_space(s@, to as int);
    }
    let r = vstd::slice::slice_subrange(s, from, to);
    assert(from == to ==> r@ =~= seq![]);
    r
}

proof fn lemma_before_space(s: Seq<char>, n: int)
    requires
        0 <= n <= s.len(),
    ensures
        0 <= before_space(s, n) <= n,
    decreases n,
{
    if 0 < n && is_space(s[n - 1]) {
        lemma_before_space(s, n - 1);
    }
}

/// The words from position `i` on: maximal runs without white space.
pub open spec fn words_from(s: Seq<char>, i: int) -> Seq<Seq<char>>
    decreases s.len() - i,
    when 0 <= i <= s.len()
{
    let a = skip_space(s, i);
    let b = skip_word(s, a);
    proof {
        lemma_skip_space(s, i);
        lemma_skip_word(s, a);
    }
    if a >= s.len() {
        seq![]
    } else {
        seq![s.subrange(a, b)] + words_from(s, b)
    }
}

/// The words of a text.
pub open spec fn words(s: Seq<char>) -> Seq<Seq<char>> {
    words_from(s, 0)
}

/// A text has no more words than characters.
pub proof fn lemma_words_len(s: Seq<char>, i: int)
    requires
        0 <= i <= s.len(),
    ensures
        words_from(s, i).len() <= s.len() - i,
    decreases s.len() - i,
{
    let a = skip_space(s, i);
    lemma_skip_space(s, i);
    lemma_skip_word(s, a);
    if a < s.len() {
        lemma_words_len(s, skip_word(s, a));
    }
}

/// A vector of words as sequences.
pub open spec fn word_views(v: Seq<Vec<char>>) -> Seq<Seq<char>> {
    Seq::new(v.len(), |i: int| v[i]@)
}

/// A vector of texts as sequences.
pub open spec fn texts_of(list: Seq<String>) -> Seq<Seq<char>> {
    list.map_values(|t: String| t@)
}

/// Copy part of a run of characters.
pub fn copy_range(v: &[char], from: usize, to: usize) -> (r: Vec<char>)
    requires
        from <= to <= v@.len(),
    ensures
        r@ == v@.subrange(from as int, to as int),
{
    vstd::slice::slice_to_vec(vstd::slice::slice_subrange(v, from, to))
}

/// Split a text into words.
pub fn split_words(s: &[char]) -> (r: Vec<Vec<char>>)
    ensures
        word_views(r@) == words(s@),
{
    let mut out: Vec<Vec<char>> = Vec::new();
    let mut i: usize = 0;
    assert(word_views(out@) =~= seq![]);
    assert(word_views(out@) + words_from(s@, 0) =~= words(s@));
    loop
        invariant
            i <= s@.len(),
            word_views(out@) + words_from(s@, i as int) == words(s@),
        decreases s@.len() - i,
    {
        let ghost start = i as int;
        proof {
            lemma_skip_space(s@, start);
        }
        let mut a: usize = i;
        while a < s.len() && is_whitespace(s[a])
            invariant
                start <= a <= s@.len(),
                skip_space(s@, start) == skip_space(s@, a as int),
            decreases s.len() - a,
        {
            a = a + 1;
        }
        if a >= s.len() {
            assert(word_views(out@) + seq![] =~= word_views(out@));
            return out;
        }
        proof {
            lemma_skip_word(s@, a as int);
        }
        let mut b: usize = a;
        while b < s.len() && !is_whitespace(s[b])
            invariant
                a <= b <= s@.len(),
                skip_word(s@, a as int) == skip_word(s@, b as int),
            decreases s.len() - b,
        {
            b = b + 1;
        }
        let ghost before = word_views(out@);
        let word = copy_range(s, a, b);
        out.push(word);
        proof {
            assert(word_views(out@) =~= before.push(s@.subrange(a as int, b as int)));
            assert(before.push(s@.subrange(a as int, b as int)) + words_from(s@, b as int) =~= before
                + (seq![s@.subrange(a as int, b as int)] + words_from(s@, b as int)));
        }
        i = b;
    }
}

/// The position of the first `target` at or after `i`, or the end.
pub open spec fn find_char(s: Seq<char>, i: int, target: char) -> int
    decreases s.len() - i,
{
    if 0 <= i < s.len() && s[i] != target {
        find_char(s, i + 1, target)
    } else {
        i
    }
}

/// Searching moves forward and finds a place where the character stands.
pub proof fn lemma_find_char(s: Seq<char>, i: int, target: char)
    requires
        0 <= i,
    ensures
        i <= find_char(s, i, target),
        i <= s.len() ==> find_char(s, i, target) <= s.len(),
        find_char(s, i, target) < s.len() ==> s[find_char(s, i, target)] == target,
    decreases s.len() - i,
{
    if i < s.len() && s[i] != target {
        lemma_find_char(s, i + 1, target);
    }
}

// --- numbers -----------------------------------------------------------------

/// The number a run of decimal digits stands for.
pub open spec fn digits_value(s: Seq<char>) -> nat
    decreases s.len(),
{
    if s.len() == 0 {
        0
    } else {
        10 * digits_value(s.drop_last()) + ((s.last() as int) - 48) as nat
    }
}

/// Whether every character is a decimal digit.
pub open spec fn all_digits(s: Seq<char>) -> bool {
    forall|i: int| 0 <= i < s.len() ==> is_digit_char(#[trigger] s[i])
}

proof fn lemma_digits_grow(s: Seq<char>, i: int)
    requires
        0 <= i <= s.len(),
        all_digits(s),
    ensures
        digits_value(s.take(i)) <= digits_value(s),
    decreases s.len(),
{
    if i == s.len() {
        assert(s.take(i) =~= s);
    } else {
        assert(s.drop_last().take(i) =~= s.take(i));
        assert forall|j: int| 0 <= j < s.drop_last().len() implies is_digit_char(
            #[trigger] s.drop_last()[j],
        ) by {
            assert(is_digit_char(s[j]));
        }
        lemma_digits_grow(s.drop_last(), i);
        assert(is_digit_char(s[s.len() - 1]));
    }
}

/// Whether a character is a sign.
pub open spec fn is_sign(c: char) -> bool {
    c == '+' || c == '-'
}

/// The integer a text spells: an optional sign, then one or more digits.
pub open spec fn integer_of(s: Seq<char>) -> Option<int> {
    let start: int = if s.len() > 0 && is_sign(s[0]) {
        1
    } else {
        0
    };
    let digits = s.subrange(start, s.len() as int);
    if digits.len() == 0 || !all_digits(digits) {
        None
    } else if s[0] == '-' {
        Some(-(digits_value(digits) as int))
    } else {
        Some(digits_value(digits) as int)
    }
}

/// The value of a digit run, unless it is empty, not all digits, or above `limit`.
fn read_digits(s: &[char], from: usize, limit: u64) -> (r: Option<u64>)
    requires
        from <= s@.len(),
        limit <= 0x8000_0000_0000_0000,
    ensures
        ({
            let digits = s@.subrange(from as int, s@.len() as int);
            match r {
                Some(value) => digits.len() > 0 && all_digits(digits) && value == digits_value(
                    digits,
                ) && value <= limit,
                None => digits.len() == 0 || !all_digits(digits) || digits_value(digits) > limit,
            }
        }),
{
    let ghost digits = s@.subrange(from as int, s@.len() as int);
    if from == s.len() {
        return None;
    }
    let mut value: u64 = 0;
    let mut i: usize = from;
    assert(digits.take(0) =~= seq![]);
    while i < s.len()
        invariant
            from <= i <= s@.len(),
            limit <= 0x8000_0000_0000_0000,
            digits == s@.subrange(from as int, s@.len() as int),
            forall|j: int| 0 <= j < i - from ==> is_digit_char(#[trigger] digits[j]),
            value == digits_value(digits.take(i - from)),
            value <= limit,
        decreases s.len() - i,
    {
        let c: char = s[i];
        assert(digits[i - from] == c);
        if !is_digit(c) {
            return None;
        }
        let digit: u64 = (c as u32 - 48) as u64;
        let ghost next = digits.take(i - from + 1);
        proof {
            assert(next.drop_last() =~= digits.take(i - from));
            assert(next.last() == c);
            assert(digits_value(next) == 10 * value + digit);
            if all_digits(digits) {
                lemma_digits_grow(digits, i - from + 1);
            }
        }
        if digit > limit || value > (limit - digit) / 10 {
            return None;
        }
        value = value * 10 + digit;
        i = i + 1;
    }
    assert(digits.take(digits.len() as int) =~= digits);
    Some(value)
}

/// The signed 64-bit integer a text spells, if it spells one in range.
pub fn parse_i64(s: &[char]) -> (r: Option<i64>)
    ensures
        match integer_of(s@) {
            Some(n) if i64::MIN <= n <= i64::MAX => r == Some(n as i64),
            _ => r is None,
        },
{
    if s.len() > 0 && s[0] == '-' {
        match read_digits(s, 1, 0x8000_0000_0000_0000) {
            Some(magnitude) => {
                if magnitude == 0x8000_0000_0000_0000 {
                    Some(i64::MIN)
                } else {
                    Some(-(magnitude as i64))
                }
            },
            None => None,
        }
    } else {
        let start: usize = if s.len() > 0 && s[0] == '+' {
            1
        } else {
            0
        };
        match read_digits(s, start, 0x7FFF_FFFF_FFFF_FFFF) {
            Some(magnitude) => Some(magnitude as i64),
            None => None,
        }
    }
}

/// The unsigned 32-bit integer a text spells. A minus sign spells none.
pub open spec fn unsigned_of(s: Seq<char>) -> Option<u32> {
    match integer_of(s) {
        Some(n) if s[0] != '-' && n <= u32::MAX => Some(n as u32),
        _ => None,
    }
}

/// The unsigned 32-bit integer a text spells, if it spells one in range.
pub fn parse_u32(s: &[char]) -> (r: Option<u32>)
    ensures
        r == unsigned_of(s@),
{
    if s.len() > 0 && s[0] == '-' {
        return None;
    }
    let start: usize = if s.len() > 0 && s[0] == '+' {
        1
    } else {
        0
    };
    match read_digits(s, start, 0xFFFF_FFFF) {
        Some(value) => Some(value as u32),
        None => None,
    }
}

/// The first position at or after `i` that is not a digit.
pub open spec fn skip_digits(s: Seq<char>, i: int) -> int
    decreases s.len() - i,
{
    if 0 <= i < s.len() && is_digit_char(s[i]) {
        skip_digits(s, i + 1)
    } else {
        i
    }
}

fn after_digits(s: &[char], i: usize) -> (r: usize)
    requires
        i <= s@.len(),
    ensures
        r == skip_digits(s@, i as int),
        i <= r <= s@.len(),
{
    let mut k: usize = i;
    while k < s.len() && is_digit(s[k])
        invariant
            i <= k <= s@.len(),
            skip_digits(s@, i as int) == skip_digits(s@, k as int),
        decreases s.len() - k,
    {
        k = k + 1;
    }
    k
}

/// Position after an optional sign.
pub open spec fn skip_sign(s: Seq<char>, i: int) -> int {
    if 0 <= i < s.len() && is_sign(s[i]) {
        i + 1
    } else {
        i
    }
}

/// From `i` the text ends, or holds exactly an exponent: `e` or `E`, an
/// optional sign, and one or more digits.
pub open spec fn ends_or_exponent(s: Seq<char>, i: int) -> bool {
    let digits = skip_sign(s, i + 1);
    ||| i == s.len()
    ||| i < s.len() && (s[i] == 'e' || s[i] == 'E') && skip_digits(s, digits) > digits
        && skip_digits(s, digits) == s.len()
}

/// From `i` the text is a decimal number: digits with at most one point among
/// or beside them, at least one digit in all, then an optional exponent.
pub open spec fn is_decimal_from(s: Seq<char>, i: int) -> bool {
    let point = skip_digits(s, i);
    if point < s.len() && s[point] == '.' {
        let end = skip_digits(s, point + 1);
        end - i > 1 && ends_or_exponent(s, end)
    } else {
        point > i && ends_or_exponent(s, point)
    }
}

/// The lower case of an ASCII letter; other characters stand for themselves.
pub open spec fn lower(c: char) -> char {
    if 'A' <= c <= 'Z' {
        (c as u32 + 32) as char
    } else {
        c
    }
}

/// The lower case of a text, ASCII letters only.
pub open spec fn lowered(s: Seq<char>) -> Seq<char> {
    Seq::new(s.len(), |i: int| lower(s[i]))
}

/// A floating-point number in text: an optional sign, then `inf`, `infinity`
/// or `nan` in either case, or a decimal number.
pub open spec fn is_number_text(s: Seq<char>) -> bool {
    let start = skip_sign(s, 0);
    let name = lowered(s.subrange(start, s.len() as int));
    name == "inf"@ || name == "infinity"@ || name == "nan"@ || is_decimal_from(s, start)
}

fn to_lower(c: char) -> (r: char)
    ensures
        r == lower(c),
{
    if 'A' <= c && c <= 'Z' {
        let n: u8 = c as u8;
        (n + 32) as char
    } else {
        c
    }
}

fn after_sign(s: &[char], i: usize) -> (r: usize)
    requires
        i <= s@.len(),
    ensures
        r == skip_sign(s@, i as int),
        i <= r <= s@.len(),
{
    if i < s.len() && (s[i] == '+' || s[i] == '-') {
        i + 1
    } else {
        i
    }
}

fn at_end_or_exponent(s: &[char], i: usize) -> (r: bool)
    requires
        i <= s@.len(),
    ensures
        r == ends_or_exponent(s@, i as int),
{
    if i == s.len() {
        return true;
    }
    if s[i] != 'e' && s[i] != 'E' {
        return false;
    }
    let digits: usize = after_sign(s, i + 1);
    let end: usize = after_digits(s, digits);
    end > digits && end == s.len()
}

/// Whether a text is a floating-point number.
pub fn is_number(s: &[char]) -> (r: bool)
    ensures
        r == is_number_text(s@),
{
    let start: usize = after_sign(s, 0);
    let mut name: Vec<char> = Vec::new();
    let mut i: usize = start;
    while i < s.len()
        invariant
            start <= i <= s@.len(),
            name@ == lowered(s@.subrange(start as int, i as int)),
        decreases s.len() - i,
    {
        name.push(to_lower(s[i]));
        i = i + 1;
        assert(name@ =~= lowered(s@.subrange(start as int, i as int)));
    }
    if spells(name.as_slice(), "inf") || spells(name.as_slice(), "infinity") || spells(
        name.as_slice(),
        "nan",
    ) {
        return true;
    }
    let point: usize = after_digits(s, start);
    if point < s.len() && s[point] == '.' {
        let end: usize = after_digits(s, point + 1);
        end - start > 1 && at_end_or_exponent(s, end)
    } else {
        point > start && at_end_or_exponent(s, point)
    }
}

} // verus!
