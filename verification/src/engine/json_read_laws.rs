//! What is written as JSON is read back.

use vstd::prelude::*;
use vstd::utf8::{
    decode_utf8, encode_scalar, encode_utf8, encode_utf8_decode_utf8, encode_utf8_valid_utf8, is_ascii_chars,
    is_ascii_chars_encode_utf8, valid_utf8,
};
use crate::engine::json::{
    ascii_text, decimal_at, digit_values, document, escape_at, exponent_part, fraction_part,
    integer_part, is_blank, is_digit_byte, items_from, number_at, number_ends, pairs_from,
    skip_blank, string_at, string_from, value_at, word_at, JsonFault, JsonTree,
};
use crate::engine::json_token_laws::{digits_between, law_blanks, lemma_digits_between};
use crate::engine::number::{digits_nat, is_below, pow10, F32_LIMIT};
use crate::text::{all_digits, digits_value, is_digit_char};

verus! {

/// A text that a string holds as it is: visible characters without quotes and
/// backslashes.
pub open spec fn plain_text(text: Seq<char>) -> bool {
    forall|i: int|
        0 <= i < text.len() ==> ' ' <= #[trigger] text[i] <= '~' && text[i] != '"' && text[i]
            != '\\'
}

/// A whole number in decimal digits.
pub open spec fn whole_number(text: Seq<char>) -> bool {
    &&& text.len() > 0
    &&& all_digits(text)
    &&& text[0] != '0' || text.len() == 1
    &&& digits_value(text) <= u64::MAX
}

/// A tree of plain texts and whole numbers, at most `depth` deep.
pub open spec fn writable(tree: JsonTree, depth: nat) -> bool
    decreases depth,
{
    match tree {
        JsonTree::Null => true,
        JsonTree::Bool(b) => true,
        JsonTree::Number(text) => whole_number(text),
        JsonTree::Str(text) => plain_text(text),
        JsonTree::Array(items) => depth > 0 && forall|i: int|
            0 <= i < items.len() ==> writable(#[trigger] items[i], (depth - 1) as nat),
        JsonTree::Object(pairs) => depth > 0 && forall|i: int|
            0 <= i < pairs.len() ==> plain_text((#[trigger] pairs[i]).0) && writable(
                pairs[i].1,
                (depth - 1) as nat,
            ),
    }
}

/// A text in quotes.
pub open spec fn quoted(text: Seq<char>) -> Seq<u8> {
    seq![0x22u8] + encode_utf8(text) + seq![0x22u8]
}

/// A tree as JSON, with a gap between any two tokens.
pub open spec fn written(tree: JsonTree, depth: nat, gap: Seq<u8>) -> Seq<u8>
    decreases depth, 0int,
{
    match tree {
        JsonTree::Null => encode_utf8("null"@),
        JsonTree::Bool(true) => encode_utf8("true"@),
        JsonTree::Bool(false) => encode_utf8("false"@),
        JsonTree::Number(text) => encode_utf8(text),
        JsonTree::Str(text) => quoted(text),
        JsonTree::Array(items) => if depth == 0 {
            seq![]
        } else {
            seq![0x5Bu8] + gap + written_items(items, (depth - 1) as nat, gap, 0) + seq![0x5Du8]
        },
        JsonTree::Object(pairs) => if depth == 0 {
            seq![]
        } else {
            seq![0x7Bu8] + gap + written_pairs(pairs, (depth - 1) as nat, gap, 0) + seq![0x7Du8]
        },
    }
}

/// The items of an array from the `k`-th on, with commas between them.
pub open spec fn written_items(items: Seq<JsonTree>, depth: nat, gap: Seq<u8>, k: int) -> Seq<u8>
    decreases depth, items.len() - k,
{
    if k < 0 || k >= items.len() {
        seq![]
    } else if k + 1 == items.len() {
        written(items[k], depth, gap) + gap
    } else {
        written(items[k], depth, gap) + gap + seq![0x2Cu8] + gap + written_items(
            items,
            depth,
            gap,
            k + 1,
        )
    }
}

/// The members of an object from the `k`-th on, with commas between them.
pub open spec fn written_pairs(
    pairs: Seq<(Seq<char>, JsonTree)>,
    depth: nat,
    gap: Seq<u8>,
    k: int,
) -> Seq<u8>
    decreases depth, pairs.len() - k,
{
    if k < 0 || k >= pairs.len() {
        seq![]
    } else {
        let member = quoted(pairs[k].0) + gap + seq![0x3Au8] + gap + written(
            pairs[k].1,
            depth,
            gap,
        ) + gap;
        if k + 1 == pairs.len() {
            member
        } else {
            member + seq![0x2Cu8] + gap + written_pairs(pairs, depth, gap, k + 1)
        }
    }
}

/// Blanks, tabulators and line ends only.
pub open spec fn all_blank(gap: Seq<u8>) -> bool {
    forall|i: int|
        0 <= i < gap.len() ==> #[trigger] gap[i] == ' ' as int || gap[i] == '\t' as int || gap[i]
            == '\n' as int || gap[i] == '\r' as int
}

/// A part of a text.
pub open spec fn stands_at(s: Seq<u8>, pos: int, part: Seq<u8>) -> bool {
    0 <= pos && pos + part.len() <= s.len() && s.subrange(pos, pos + part.len()) == part
}

/// Nothing that could continue a number follows.
pub open spec fn stops(s: Seq<u8>, pos: int) -> bool {
    pos >= s.len() || s[pos] == 0x2C || s[pos] == 0x5D || s[pos] == 0x7D || is_blank(s[pos])
}

proof fn lemma_part_byte(s: Seq<u8>, pos: int, part: Seq<u8>, i: int)
    requires
        stands_at(s, pos, part),
        0 <= i < part.len(),
    ensures
        s[pos + i] == part[i],
{
    assert(s.subrange(pos, pos + part.len())[i] == s[pos + i]);
}

proof fn lemma_parts(s: Seq<u8>, pos: int, a: Seq<u8>, b: Seq<u8>)
    requires
        stands_at(s, pos, a + b),
    ensures
        stands_at(s, pos, a),
        stands_at(s, pos + a.len(), b),
{
    let whole = s.subrange(pos, pos + (a + b).len());
    assert(s.subrange(pos, pos + a.len()) =~= a) by {
        assert forall|i: int| 0 <= i < a.len() implies s[pos + i] == a[i] by {
            assert(whole[i] == (a + b)[i]);
        }
    }
    assert(s.subrange(pos + a.len(), pos + a.len() + b.len()) =~= b) by {
        assert forall|i: int| 0 <= i < b.len() implies s[pos + a.len() + i] == b[i] by {
            assert(whole[a.len() + i] == (a + b)[a.len() + i]);
        }
    }
}

/// A gap is skipped whole.
proof fn lemma_gap(s: Seq<u8>, pos: int, gap: Seq<u8>)
    requires
        all_blank(gap),
        stands_at(s, pos, gap),
        pos + gap.len() < s.len() ==> !is_blank(s[pos + gap.len()]),
    ensures
        skip_blank(s, pos) == pos + gap.len(),
{
    assert forall|i: int| pos <= i < pos + gap.len() implies #[trigger] s[i] == ' ' as int || s[i]
        == '\t' as int || s[i] == '\n' as int || s[i] == '\r' as int by {
        lemma_part_byte(s, pos, gap, i - pos);
        assert(gap[i - pos] == s[i]);
    }
    law_blanks(s, pos, pos + gap.len());
}

/// A gap or what comes behind it cannot continue a number.
proof fn lemma_gap_stops(s: Seq<u8>, pos: int, gap: Seq<u8>)
    requires
        all_blank(gap),
        stands_at(s, pos, gap),
        stops(s, pos + gap.len()),
    ensures
        stops(s, pos),
{
    if gap.len() > 0 {
        lemma_part_byte(s, pos, gap, 0);
        assert(gap[0] == s[pos]);
    }
}

/// The bytes of plain texts.
proof fn lemma_plain_bytes(text: Seq<char>)
    requires
        plain_text(text),
    ensures
        encode_utf8(text).len() == text.len(),
        forall|i: int|
            0 <= i < text.len() ==> 0x20 <= #[trigger] encode_utf8(text)[i] <= 0x7E && encode_utf8(
                text,
            )[i] != 0x22 && encode_utf8(text)[i] != 0x5C,
        valid_utf8(encode_utf8(text)),
        decode_utf8(encode_utf8(text)) == text,
{
    assert(is_ascii_chars(text));
    is_ascii_chars_encode_utf8(text);
    encode_utf8_valid_utf8(text);
    encode_utf8_decode_utf8(text);
    assert forall|i: int| 0 <= i < text.len() implies 0x20 <= #[trigger] encode_utf8(text)[i]
        <= 0x7E && encode_utf8(text)[i] != 0x22 && encode_utf8(text)[i] != 0x5C by {
        let c = text[i];
        assert(c as u8 == encode_utf8(text)[i]);
    }
}

/// A string reads its bytes up to the closing quote.
proof fn lemma_string_bytes(s: Seq<u8>, open: int, pos: int, end: int, out: Seq<u8>)
    requires
        0 <= pos <= end < s.len(),
        forall|i: int| pos <= i < end ==> #[trigger] s[i] > 0x1F && s[i] != 0x22 && s[i] != 0x5C,
        s[end] == 0x22,
    ensures
        string_from(s, open, pos, out) == Ok::<(Seq<u8>, int), JsonFault>(
            (out + s.subrange(pos, end), end + 1),
        ),
    decreases end - pos,
{
    if pos < end {
        lemma_string_bytes(s, open, pos + 1, end, out.push(s[pos]));
        assert(out.push(s[pos]) + s.subrange(pos + 1, end) =~= out + s.subrange(pos, end));
    } else {
        assert(out + s.subrange(pos, end) =~= out);
    }
}

/// A text in quotes is read back.
pub proof fn law_plain_strings(s: Seq<u8>, pos: int, text: Seq<char>)
    requires
        plain_text(text),
        stands_at(s, pos, quoted(text)),
    ensures
        string_at(s, pos) == Ok::<(Seq<char>, int), JsonFault>((text, pos + quoted(text).len())),
        s[pos] == 0x22,
{
    let bytes = encode_utf8(text);
    lemma_plain_bytes(text);
    lemma_parts(s, pos, seq![0x22u8] + bytes, seq![0x22u8]);
    lemma_parts(s, pos, seq![0x22u8], bytes);
    let end = pos + 1 + bytes.len();
    lemma_part_byte(s, end, seq![0x22u8], 0);
    lemma_part_byte(s, pos, seq![0x22u8], 0);
    assert forall|i: int| pos + 1 <= i < end implies #[trigger] s[i] > 0x1F && s[i] != 0x22 && s[i]
        != 0x5C by {
        lemma_part_byte(s, pos + 1, bytes, i - pos - 1);
        assert(bytes[i - pos - 1] == s[i]);
    }
    lemma_string_bytes(s, pos, pos + 1, end, seq![]);
    assert(Seq::<u8>::empty() + s.subrange(pos + 1, end) =~= bytes);
}

/// Digits as bytes and as characters are one number.
proof fn lemma_same_number(s: Seq<u8>, pos: int, text: Seq<char>)
    requires
        0 <= pos,
        pos + text.len() <= s.len(),
        all_digits(text),
        forall|i: int| 0 <= i < text.len() ==> s[pos + i] as int == #[trigger] text[i] as int,
    ensures
        digits_nat(digit_values(s, pos, pos + text.len())) == digits_value(text),
    decreases text.len(),
{
    let values = digit_values(s, pos, pos + text.len());
    if text.len() > 0 {
        let front = text.drop_last();
        assert(all_digits(front)) by {
            assert forall|i: int| 0 <= i < front.len() implies is_digit_char(#[trigger] front[i]) by {
                assert(front[i] == text[i]);
            }
        }
        assert forall|i: int| 0 <= i < front.len() implies s[pos + i] as int
            == #[trigger] front[i] as int by {
            assert(front[i] == text[i]);
        }
        lemma_same_number(s, pos, front);
        assert(values.drop_last() =~= digit_values(s, pos, pos + front.len()));
        assert(is_digit_char(text[text.len() - 1]));
        assert(s[pos + text.len() - 1] as int == text[text.len() - 1] as int);
    }
}

/// A whole number is read back.
pub proof fn law_whole_numbers(s: Seq<u8>, pos: int, text: Seq<char>)
    requires
        whole_number(text),
        stands_at(s, pos, encode_utf8(text)),
        stops(s, pos + encode_utf8(text).len()),
    ensures
        number_at(s, pos) == Ok::<(JsonTree, int), JsonFault>(
            (JsonTree::Number(text), pos + encode_utf8(text).len()),
        ),
        is_digit_byte(s[pos]),
{
    let bytes = encode_utf8(text);
    assert(is_ascii_chars(text)) by {
        assert forall|i: int| 0 <= i < text.len() implies '\0' <= #[trigger] text[i] <= '\u{7f}' by {
            assert(is_digit_char(text[i]));
        }
    }
    is_ascii_chars_encode_utf8(text);
    let end = pos + bytes.len();
    assert forall|i: int| 0 <= i < text.len() implies s[pos + i] as int == #[trigger] text[i] as int
        && is_digit_char(text[i]) by {
        lemma_part_byte(s, pos, bytes, i);
        let c = text[i];
        assert(c as u8 == bytes[i]);
        assert(is_digit_char(c));
    }
    assert(is_digit_char(text[0]) && s[pos + 0] as int == text[0] as int);
    assert(digits_between(s, pos, end)) by {
        assert forall|i: int| pos <= i < end implies '0' as int <= #[trigger] s[i] <= '9' as int by {
            assert(s[pos + (i - pos)] as int == text[i - pos] as int);
        }
    }
    lemma_digits_between(s, pos, end);
    if s[pos] == 0x30 {
        assert(text.len() == 1);
    }
    assert(integer_part(s, pos) == Ok::<int, JsonFault>(end));
    assert(fraction_part(s, end) == Ok::<int, JsonFault>(end));
    assert(exponent_part(s, end) == Ok::<int, JsonFault>(end));
    assert(number_ends(s, pos) == Ok::<(int, int, int), JsonFault>((end, end, end)));
    let number = decimal_at(s, pos, end, end, end);
    assert(number.digits =~= digit_values(s, pos, end));
    assert(number.exp == 0);
    lemma_same_number(s, pos, text);
    reveal_with_fuel(pow10, 2);
    assert(is_below(digits_nat(number.digits), 0, F32_LIMIT as nat)) by {
        let d = digits_nat(number.digits);
        assert(d * pow10(0) == d) by (nonlinear_arith)
            requires
                pow10(0) == 1,
        ;
    }
    assert(ascii_text(s, pos, end) =~= text) by {
        assert forall|i: int| 0 <= i < text.len() implies ascii_text(s, pos, end)[i] == text[i] by {
            assert(s[pos + i] as int == text[i] as int);
        }
    }
}

/// The bytes of the literals.
proof fn lemma_words()
    ensures
        encode_utf8("null"@) == seq![0x6Eu8, 0x75u8, 0x6Cu8, 0x6Cu8],
        encode_utf8("true"@) == seq![0x74u8, 0x72u8, 0x75u8, 0x65u8],
        encode_utf8("false"@) == seq![0x66u8, 0x61u8, 0x6Cu8, 0x73u8, 0x65u8],
{
    reveal_strlit("null");
    reveal_strlit("true");
    reveal_strlit("false");
    let a = "null"@;
    let b = "true"@;
    let c = "false"@;
    assert(is_ascii_chars(a) && is_ascii_chars(b) && is_ascii_chars(c));
    is_ascii_chars_encode_utf8(a);
    is_ascii_chars_encode_utf8(b);
    is_ascii_chars_encode_utf8(c);
    assert(a[0] == 'n' && a[1] == 'u' && a[2] == 'l' && a[3] == 'l');
    assert(b[0] == 't' && b[1] == 'r' && b[2] == 'u' && b[3] == 'e');
    assert(c[0] == 'f' && c[1] == 'a' && c[2] == 'l' && c[3] == 's' && c[4] == 'e');
    assert(encode_utf8(a) =~= seq![0x6Eu8, 0x75u8, 0x6Cu8, 0x6Cu8]);
    assert(encode_utf8(b) =~= seq![0x74u8, 0x72u8, 0x75u8, 0x65u8]);
    assert(encode_utf8(c) =~= seq![0x66u8, 0x61u8, 0x6Cu8, 0x73u8, 0x65u8]);
}

/// A written tree begins with no blank, no closing bracket and no byte order mark.
proof fn lemma_first_byte(tree: JsonTree, depth: nat, gap: Seq<u8>)
    requires
        writable(tree, depth),
    ensures
        written(tree, depth, gap).len() > 0,
        !is_blank(written(tree, depth, gap)[0]),
        written(tree, depth, gap)[0] != 0x5D,
        written(tree, depth, gap)[0] != 0xEF,
{
    match tree {
        JsonTree::Null => {
            lemma_words();
        },
        JsonTree::Bool(b) => {
            lemma_words();
        },
        JsonTree::Number(text) => {
            assert(is_ascii_chars(text)) by {
                assert forall|i: int| 0 <= i < text.len() implies '\0' <= #[trigger] text[i]
                    <= '\u{7f}' by {
                    assert(is_digit_char(text[i]));
                }
            }
            is_ascii_chars_encode_utf8(text);
            let c = text[0];
            assert(is_digit_char(c));
            assert(c as u8 == encode_utf8(text)[0]);
        },
        _ => {},
    }
}

/// A written tree is read back as it was, up to where it ends.
proof fn lemma_value(
    tree: JsonTree,
    depth: nat,
    gap: Seq<u8>,
    s: Seq<u8>,
    pos: int,
    level: int,
)
    requires
        all_blank(gap),
        writable(tree, depth),
        0 <= level,
        level + depth <= 128,
        stands_at(s, pos, written(tree, depth, gap)),
        stops(s, pos + written(tree, depth, gap).len()),
    ensures
        value_at(s, pos, level) == Ok::<(JsonTree, int), JsonFault>(
            (tree, pos + written(tree, depth, gap).len()),
        ),
    decreases depth, 1int,
{
    let w = written(tree, depth, gap);
    lemma_first_byte(tree, depth, gap);
    lemma_part_byte(s, pos, w, 0);
    lemma_words();
    match tree {
        JsonTree::Null => {
            assert(word_at(s, pos, w));
        },
        JsonTree::Bool(b) => {
            assert(word_at(s, pos, w));
        },
        JsonTree::Number(text) => {
            law_whole_numbers(s, pos, text);
        },
        JsonTree::Str(text) => {
            law_plain_strings(s, pos, text);
        },
        JsonTree::Array(items) => {
            lemma_array(items, depth, gap, s, pos, level);
        },
        JsonTree::Object(pairs) => {
            lemma_object(pairs, depth, gap, s, pos, level);
        },
    }
}

/// A written array is read back.
proof fn lemma_array(
    items: Seq<JsonTree>,
    depth: nat,
    gap: Seq<u8>,
    s: Seq<u8>,
    pos: int,
    level: int,
)
    requires
        all_blank(gap),
        writable(JsonTree::Array(items), depth),
        0 <= level,
        level + depth <= 128,
        stands_at(s, pos, written(JsonTree::Array(items), depth, gap)),
    ensures
        value_at(s, pos, level) == Ok::<(JsonTree, int), JsonFault>(
            (JsonTree::Array(items), pos + written(JsonTree::Array(items), depth, gap).len()),
        ),
    decreases depth, 0int,
{
    let less = (depth - 1) as nat;
    let inner = written_items(items, less, gap, 0);
    lemma_parts(s, pos, seq![0x5Bu8] + gap + inner, seq![0x5Du8]);
    lemma_parts(s, pos, seq![0x5Bu8] + gap, inner);
    lemma_parts(s, pos, seq![0x5Bu8], gap);
    let first = pos + 1 + gap.len();
    let end = first + inner.len();
    lemma_part_byte(s, end, seq![0x5Du8], 0);
    lemma_part_byte(s, pos, seq![0x5Bu8], 0);
    if items.len() == 0 {
        lemma_gap(s, pos + 1, gap);
        assert(items =~= seq![]);
    } else {
        lemma_first_byte(items[0], less, gap);
        assert(inner[0] == written(items[0], less, gap)[0]);
        lemma_part_byte(s, first, inner, 0);
        lemma_gap(s, pos + 1, gap);
        lemma_items(items, less, gap, 0, s, first, first, level + 1);
        assert(items.take(0) =~= seq![]);
    }
}

/// A written object is read back.
proof fn lemma_object(
    pairs: Seq<(Seq<char>, JsonTree)>,
    depth: nat,
    gap: Seq<u8>,
    s: Seq<u8>,
    pos: int,
    level: int,
)
    requires
        all_blank(gap),
        writable(JsonTree::Object(pairs), depth),
        0 <= level,
        level + depth <= 128,
        stands_at(s, pos, written(JsonTree::Object(pairs), depth, gap)),
    ensures
        value_at(s, pos, level) == Ok::<(JsonTree, int), JsonFault>(
            (JsonTree::Object(pairs), pos + written(JsonTree::Object(pairs), depth, gap).len()),
        ),
    decreases depth, 0int,
{
    let less = (depth - 1) as nat;
    let inner = written_pairs(pairs, less, gap, 0);
    lemma_parts(s, pos, seq![0x7Bu8] + gap + inner, seq![0x7Du8]);
    lemma_parts(s, pos, seq![0x7Bu8] + gap, inner);
    lemma_parts(s, pos, seq![0x7Bu8], gap);
    let first = pos + 1 + gap.len();
    let end = first + inner.len();
    lemma_part_byte(s, end, seq![0x7Du8], 0);
    lemma_part_byte(s, pos, seq![0x7Bu8], 0);
    if pairs.len() == 0 {
        lemma_gap(s, pos + 1, gap);
        assert(pairs =~= seq![]);
    } else {
        assert(inner[0] == 0x22);
        lemma_part_byte(s, first, inner, 0);
        lemma_gap(s, pos + 1, gap);
        lemma_pairs(pairs, less, gap, 0, s, first, first, level + 1);
        assert(pairs.take(0) =~= seq![]);
    }
}

/// The items of an array are read one after the other.
proof fn lemma_items(
    items: Seq<JsonTree>,
    depth: nat,
    gap: Seq<u8>,
    k: int,
    s: Seq<u8>,
    from: int,
    pos: int,
    level: int,
)
    requires
        all_blank(gap),
        0 <= k < items.len(),
        forall|i: int| 0 <= i < items.len() ==> writable(#[trigger] items[i], depth),
        0 <= level,
        level + depth <= 128,
        0 <= from <= pos,
        skip_blank(s, from) == pos,
        stands_at(s, pos, written_items(items, depth, gap, k)),
        pos + written_items(items, depth, gap, k).len() < s.len(),
        s[pos + written_items(items, depth, gap, k).len()] == 0x5D,
    ensures
        items_from(s, from, level, items.take(k)) == Ok::<(JsonTree, int), JsonFault>(
            (JsonTree::Array(items), pos + written_items(items, depth, gap, k).len() + 1),
        ),
    decreases depth, items.len() - k + 1,
{
    let w = written(items[k], depth, gap);
    let end = pos + w.len();
    let next = end + gap.len();
    assert(writable(items[k], depth));
    lemma_first_byte(items[k], depth, gap);
    assert(items.take(k).push(items[k]) =~= items.take(k + 1));
    if k + 1 == items.len() {
        lemma_parts(s, pos, w, gap);
        lemma_gap_stops(s, end, gap);
        lemma_value(items[k], depth, gap, s, pos, level);
        lemma_gap(s, end, gap);
        assert(items.take(k + 1) =~= items);
    } else {
        let rest = written_items(items, depth, gap, k + 1);
        lemma_parts(s, pos, w + gap + seq![0x2Cu8] + gap, rest);
        lemma_parts(s, pos, w + gap + seq![0x2Cu8], gap);
        lemma_parts(s, pos, w + gap, seq![0x2Cu8]);
        lemma_parts(s, pos, w, gap);
        lemma_part_byte(s, next, seq![0x2Cu8], 0);
        lemma_gap_stops(s, end, gap);
        lemma_value(items[k], depth, gap, s, pos, level);
        lemma_gap(s, end, gap);
        let later = next + 1 + gap.len();
        assert(writable(items[k + 1], depth));
        lemma_first_byte(items[k + 1], depth, gap);
        assert(rest[0] == written(items[k + 1], depth, gap)[0]);
        lemma_part_byte(s, later, rest, 0);
        lemma_gap(s, next + 1, gap);
        lemma_items(items, depth, gap, k + 1, s, next + 1, later, level);
    }
}

/// The members of an object are read one after the other.
proof fn lemma_pairs(
    pairs: Seq<(Seq<char>, JsonTree)>,
    depth: nat,
    gap: Seq<u8>,
    k: int,
    s: Seq<u8>,
    from: int,
    pos: int,
    level: int,
)
    requires
        all_blank(gap),
        0 <= k < pairs.len(),
        forall|i: int|
            0 <= i < pairs.len() ==> plain_text((#[trigger] pairs[i]).0) && writable(
                pairs[i].1,
                depth,
            ),
        0 <= level,
        level + depth <= 128,
        0 <= from <= pos,
        skip_blank(s, from) == pos,
        stands_at(s, pos, written_pairs(pairs, depth, gap, k)),
        pos + written_pairs(pairs, depth, gap, k).len() < s.len(),
        s[pos + written_pairs(pairs, depth, gap, k).len()] == 0x7D,
    ensures
        pairs_from(s, from, level, pairs.take(k)) == Ok::<(JsonTree, int), JsonFault>(
            (JsonTree::Object(pairs), pos + written_pairs(pairs, depth, gap, k).len() + 1),
        ),
    decreases depth, pairs.len() - k + 1,
{
    let key = pairs[k].0;
    let value = pairs[k].1;
    let q = quoted(key);
    let w = written(value, depth, gap);
    let member = q + gap + seq![0x3Au8] + gap + w + gap;
    let colon = pos + q.len() + gap.len();
    let start = colon + 1 + gap.len();
    let end = start + w.len();
    let next = end + gap.len();
    assert(plain_text(key) && writable(value, depth));
    lemma_first_byte(value, depth, gap);
    assert(pairs.take(k).push(pairs[k]) =~= pairs.take(k + 1));
    if k + 1 < pairs.len() {
        let rest = written_pairs(pairs, depth, gap, k + 1);
        lemma_parts(s, pos, member + seq![0x2Cu8] + gap, rest);
        lemma_parts(s, pos, member + seq![0x2Cu8], gap);
        lemma_parts(s, pos, member, seq![0x2Cu8]);
        lemma_part_byte(s, next, seq![0x2Cu8], 0);
    } else {
        assert(pairs.take(k + 1) =~= pairs);
    }
    lemma_parts(s, pos, q + gap + seq![0x3Au8] + gap + w, gap);
    lemma_parts(s, pos, q + gap + seq![0x3Au8] + gap, w);
    lemma_parts(s, pos, q + gap + seq![0x3Au8], gap);
    lemma_parts(s, pos, q + gap, seq![0x3Au8]);
    lemma_parts(s, pos, q, gap);
    lemma_part_byte(s, colon, seq![0x3Au8], 0);
    lemma_part_byte(s, start, w, 0);
    law_plain_strings(s, pos, key);
    lemma_gap(s, pos + q.len(), gap);
    lemma_gap(s, colon + 1, gap);
    lemma_gap_stops(s, end, gap);
    lemma_value(value, depth, gap, s, start, level);
    lemma_gap(s, end, gap);
    if k + 1 < pairs.len() {
        let rest = written_pairs(pairs, depth, gap, k + 1);
        let later = next + 1 + gap.len();
        assert(rest[0] == 0x22);
        lemma_part_byte(s, later, rest, 0);
        lemma_gap(s, next + 1, gap);
        lemma_pairs(pairs, depth, gap, k + 1, s, next + 1, later, level);
    }
}

/// Any tree of literals, plain texts and whole numbers, nested up to 128 deep, is read
/// back from its text, whatever blanks stand between its tokens and around it: members
/// and items in their order, each with its own value.
pub proof fn law_written_documents_are_read_back(tree: JsonTree, depth: nat, gap: Seq<u8>)
    requires
        writable(tree, depth),
        depth <= 128,
        all_blank(gap),
    ensures
        document(gap + written(tree, depth, gap) + gap) == Ok::<JsonTree, JsonFault>(tree),
{
    let w = written(tree, depth, gap);
    let s = gap + w + gap;
    lemma_document_parts(tree, depth, gap, s);
    lemma_no_mark(s);
}

/// The tokens of a document.
proof fn lemma_document_parts(tree: JsonTree, depth: nat, gap: Seq<u8>, s: Seq<u8>)
    requires
        writable(tree, depth),
        depth <= 128,
        all_blank(gap),
        s == gap + written(tree, depth, gap) + gap,
    ensures
        skip_blank(s, 0) == gap.len(),
        value_at(s, gap.len() as int, 0) == Ok::<(JsonTree, int), JsonFault>(
            (tree, (gap.len() + written(tree, depth, gap).len()) as int),
        ),
        skip_blank(s, (gap.len() + written(tree, depth, gap).len()) as int) == s.len(),
        s.len() > 0 && s[0] != 0xEF,
{
    let w = written(tree, depth, gap);
    let pos = gap.len() as int;
    assert(s.subrange(0, s.len() as int) =~= s);
    lemma_parts(s, 0, gap + w, gap);
    lemma_parts(s, 0, gap, w);
    lemma_first_byte(tree, depth, gap);
    lemma_part_byte(s, pos, w, 0);
    lemma_gap(s, 0, gap);
    lemma_gap_stops(s, pos + w.len(), gap);
    lemma_value(tree, depth, gap, s, pos, 0);
    lemma_gap(s, pos + w.len(), gap);
    if gap.len() > 0 {
        lemma_part_byte(s, 0, gap, 0);
        assert(gap[0] == s[0]);
    }
}

/// A text that begins with another byte begins with no byte order mark.
proof fn lemma_no_mark(s: Seq<u8>)
    requires
        s.len() > 0,
        s[0] != 0xEF,
    ensures
        !word_at(s, 0, seq![0xEFu8, 0xBBu8, 0xBFu8]),
{
    let mark = seq![0xEFu8, 0xBBu8, 0xBFu8];
    if word_at(s, 0, mark) {
        assert(s.subrange(0, 3)[0] == mark[0]);
    }
}

/// An escape adds its character to a string, and the string goes on behind it; a raw
/// control character, or an end without a quote, refuses it.
pub proof fn law_escaped_strings(s: Seq<u8>, open: int, pos: int, out: Seq<u8>)
    requires
        0 <= pos,
    ensures
        pos < s.len() && s[pos] == '\\' as int ==> match escape_at(s, pos + 1) {
            Ok((scalar, next)) => string_from(s, open, pos, out) == string_from(
                s,
                open,
                next,
                out + encode_scalar(scalar as u32),
            ),
            Err(fault) => string_from(s, open, pos, out) == Err::<(Seq<u8>, int), JsonFault>(fault),
        },
        pos < s.len() && s[pos] < 0x20 ==> string_from(s, open, pos, out) is Err,
        pos >= s.len() ==> string_from(s, open, pos, out) is Err,
        pos < s.len() && s[pos] == '"' as int ==> string_from(s, open, pos, out) == Ok::<
            (Seq<u8>, int),
            JsonFault,
        >((out, pos + 1)),
{
}

} // verus!
