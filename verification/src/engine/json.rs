//! A strict JSON parser.
//!
//! Errors carry the byte offset, what was expected there and what was found.
//! Nesting is capped, so arbitrary input cannot exhaust the stack. Numbers keep
//! the text of the document.

use vstd::prelude::*;
use vstd::utf8::decode_utf8;
use vstd::utf8::encode_scalar;
use vstd::utf8::encode_utf8;
use vstd::utf8::encode_utf8_decode_utf8;
use vstd::utf8::is_scalar;
use vstd::utf8::valid_utf8;
use crate::engine::error::EngineError;
use crate::engine::number::clamped;
use crate::engine::number::digits_nat;
use crate::engine::number::digits_ok;
use crate::engine::number::fits_f32;
use crate::engine::number::is_below;
use crate::engine::number::nearest_u32;
use crate::engine::number::rounds_to;
use crate::engine::number::EXPONENT_CAP;
use crate::engine::number::F32_LIMIT;
use crate::text::decimal;
use crate::text::push_decimal;

verus! {

/// Maximum nesting depth of arrays and objects.
pub const MAX_DEPTH: usize = 128;

/// A parsed JSON value.
///
/// `Object` keeps its pairs in document order; duplicate keys are preserved and
/// lookups return the first match.
#[derive(Debug, PartialEq)]
pub enum JsonValue {
    /// `null`
    Null,
    /// `true` or `false`
    Bool(bool),
    /// Any JSON number, as its text in the document.
    Number(String),
    /// A string with all escapes already decoded.
    String(String),
    /// `[...]`
    Array(Vec<JsonValue>),
    /// `{...}` as ordered key/value pairs.
    Object(Vec<(String, JsonValue)>),
}

/// The mathematical content of a JSON value.
pub enum JsonTree {
    Null,
    Bool(bool),
    Number(Seq<char>),
    Str(Seq<char>),
    Array(Seq<JsonTree>),
    Object(Seq<(Seq<char>, JsonTree)>),
}

impl JsonValue {
    /// The content of this value.
    pub open spec fn tree(self) -> JsonTree
        decreases self,
    {
        match self {
            JsonValue::Null => JsonTree::Null,
            JsonValue::Bool(b) => JsonTree::Bool(b),
            JsonValue::Number(text) => JsonTree::Number(text@),
            JsonValue::String(s) => JsonTree::Str(s@),
            JsonValue::Array(items) => JsonTree::Array(
                Seq::new(
                    items@.len(),
                    |i: int|
                        if 0 <= i < items@.len() {
                            items@[i].tree()
                        } else {
                            JsonTree::Null
                        },
                ),
            ),
            JsonValue::Object(pairs) => JsonTree::Object(
                Seq::new(
                    pairs@.len(),
                    |i: int|
                        if 0 <= i < pairs@.len() {
                            (pairs@[i].0@, pairs@[i].1.tree())
                        } else {
                            (seq![], JsonTree::Null)
                        },
                ),
            ),
        }
    }
}

impl Clone for JsonValue {
    /// A copy with the same content.
    fn clone(&self) -> (r: Self)
        ensures
            r.tree() == self.tree(),
        decreases *self,
    {
        match self {
            JsonValue::Null => JsonValue::Null,
            JsonValue::Bool(b) => JsonValue::Bool(*b),
            JsonValue::Number(text) => JsonValue::Number(text.clone()),
            JsonValue::String(text) => JsonValue::String(text.clone()),
            JsonValue::Array(items) => {
                let mut copies: Vec<JsonValue> = Vec::new();
                let mut i: usize = 0;
                while i < items.len()
                    invariant
                        *self == JsonValue::Array(*items),
                        i <= items@.len(),
                        copies@.len() == i,
                        forall|k: int|
                            0 <= k < i ==> (#[trigger] copies@[k]).tree() == items@[k].tree(),
                    decreases items@.len() - i,
                {
                    assert(decreases_to!(*self => self->Array_0));
                    assert(decreases_to!(*items => items@));
                    assert(decreases_to!(items@ => items@[i as int]));
                    let copy: JsonValue = items[i].clone();
                    copies.push(copy);
                    i += 1;
                }
                let r = JsonValue::Array(copies);
                assert(r.tree()->Array_0 =~= self.tree()->Array_0);
                r
            },
            JsonValue::Object(pairs) => {
                let mut copies: Vec<(String, JsonValue)> = Vec::new();
                let mut i: usize = 0;
                while i < pairs.len()
                    invariant
                        *self == JsonValue::Object(*pairs),
                        i <= pairs@.len(),
                        copies@.len() == i,
                        forall|k: int|
                            0 <= k < i ==> (#[trigger] copies@[k]).0@ == pairs@[k].0@
                                && copies@[k].1.tree() == pairs@[k].1.tree(),
                    decreases pairs@.len() - i,
                {
                    assert(decreases_to!(*self => self->Object_0));
                    assert(decreases_to!(*pairs => pairs@));
                    assert(decreases_to!(pairs@ => pairs@[i as int]));
                    assert(decreases_to!(pairs@[i as int] => pairs@[i as int].1));
                    let key: String = pairs[i].0.clone();
                    let value: JsonValue = pairs[i].1.clone();
                    copies.push((key, value));
                    i += 1;
                }
                let r = JsonValue::Object(copies);
                assert(r.tree()->Object_0 =~= self.tree()->Object_0);
                r
            },
        }
    }
}

// --- errors ------------------------------------------------------------------

/// Why a document is rejected.
pub enum JsonFault {
    /// Something else was expected at a byte offset.
    Expected { offset: int, expected: Seq<char>, found: Seq<char> },
    /// Containers nest too deeply.
    Depth { offset: int },
    /// A string literal decoded to bytes that are not text.
    InvalidText { offset: int },
}

impl JsonFault {
    /// The description of the fault.
    pub open spec fn text(self) -> Seq<char> {
        match self {
            JsonFault::Expected { offset, expected, found } => "json parse error at byte offset "@
                + decimal(offset as nat) + ": expected "@ + expected + ", found "@ + found,
            JsonFault::Depth { offset } => "json parse error at byte offset "@ + decimal(
                offset as nat,
            ) + ": nesting depth exceeds the limit of "@ + decimal(MAX_DEPTH as nat),
            JsonFault::InvalidText { offset } => "json parse error at byte offset "@ + decimal(
                offset as nat,
            ) + ": string decoded to invalid UTF-8"@,
        }
    }
}

/// A hexadecimal digit in lower case.
pub open spec fn hex_char(d: int) -> char {
    if d < 10 {
        (48 + d) as char
    } else {
        (87 + d) as char
    }
}

/// What stands at an offset: a visible character in backquotes, any other byte
/// in hexadecimal, or the end of the input.
pub open spec fn found_at(s: Seq<u8>, offset: int) -> Seq<char> {
    if offset >= s.len() {
        "end of input"@
    } else if 0x21 <= s[offset] <= 0x7E {
        seq!['`', s[offset] as char, '`']
    } else {
        "byte 0x"@ + seq![hex_char(s[offset] as int / 16), hex_char(s[offset] as int % 16)]
    }
}

/// The fault of not finding what was expected at an offset.
pub open spec fn expected_at(s: Seq<u8>, offset: int, expected: Seq<char>) -> JsonFault {
    JsonFault::Expected { offset, expected, found: found_at(s, offset) }
}

// --- grammar -----------------------------------------------------------------

/// The byte at `pos`, or nothing at the end.
pub open spec fn byte_at(s: Seq<u8>, pos: int) -> Option<u8> {
    if 0 <= pos < s.len() {
        Some(s[pos])
    } else {
        None
    }
}

/// JSON white space is exactly space, tab, line feed and carriage return.
pub open spec fn is_blank(b: u8) -> bool {
    b == 0x20 || b == 0x09 || b == 0x0A || b == 0x0D
}

/// The first position at or after `pos` that is not white space.
pub open spec fn skip_blank(s: Seq<u8>, pos: int) -> int
    decreases s.len() - pos,
{
    if 0 <= pos < s.len() && is_blank(s[pos]) {
        skip_blank(s, pos + 1)
    } else {
        pos
    }
}

pub open spec fn is_digit_byte(b: u8) -> bool {
    0x30 <= b <= 0x39
}

/// The first position at or after `pos` that is not a digit.
pub open spec fn skip_digit_bytes(s: Seq<u8>, pos: int) -> int
    decreases s.len() - pos,
{
    if 0 <= pos < s.len() && is_digit_byte(s[pos]) {
        skip_digit_bytes(s, pos + 1)
    } else {
        pos
    }
}

/// Whether a digit stands at `pos`.
pub open spec fn digit_at(s: Seq<u8>, pos: int) -> bool {
    0 <= pos < s.len() && is_digit_byte(s[pos])
}

/// The value of a hexadecimal digit.
pub open spec fn hex_value(b: u8) -> Option<nat> {
    if 0x30 <= b <= 0x39 {
        Some((b - 0x30) as nat)
    } else if 0x61 <= b <= 0x66 {
        Some((b - 0x57) as nat)
    } else if 0x41 <= b <= 0x46 {
        Some((b - 0x37) as nat)
    } else {
        None
    }
}

/// The number in the first `n` hexadecimal digits from `start`, or the offset
/// of the first byte that is no such digit.
pub open spec fn hex_digits(s: Seq<u8>, start: int, n: nat) -> Result<nat, int>
    decreases n,
{
    if n == 0 {
        Ok(0)
    } else {
        match hex_digits(s, start, (n - 1) as nat) {
            Err(offset) => Err(offset),
            Ok(value) => match hex_value(s[start + n - 1]) {
                None => Err(start + n - 1),
                Some(digit) => Ok(16 * value + digit),
            },
        }
    }
}

/// The four hexadecimal digits of a unicode escape.
pub open spec fn unit_at(s: Seq<u8>, start: int) -> Result<nat, JsonFault> {
    if start + 4 > s.len() {
        Err(
            JsonFault::Expected {
                offset: start,
                expected: "4 hexadecimal digits in a unicode escape"@,
                found: "end of input"@,
            },
        )
    } else {
        match hex_digits(s, start, 4) {
            Err(offset) => Err(
                expected_at(s, offset, "a hexadecimal digit in a unicode escape"@),
            ),
            Ok(value) => Ok(value),
        }
    }
}

/// The scalar value of a unicode escape whose `u` stands at `at`, and the
/// position after it. Surrogates come in pairs, high before low.
pub open spec fn unicode_at(s: Seq<u8>, at: int) -> Result<(nat, int), JsonFault> {
    match unit_at(s, at + 1) {
        Err(fault) => Err(fault),
        Ok(unit) => if 0xD800 <= unit < 0xDC00 {
            if byte_at(s, at + 5) != Some(0x5Cu8) || byte_at(s, at + 6) != Some(0x75u8) {
                Err(expected_at(s, at + 5, "a low surrogate escape completing the pair"@))
            } else {
                match unit_at(s, at + 7) {
                    Err(fault) => Err(fault),
                    Ok(low) => if 0xDC00 <= low < 0xE000 {
                        Ok(
                            (
                                (0x1_0000 + (unit - 0xD800) * 0x400 + (low - 0xDC00)) as nat,
                                at + 11,
                            ),
                        )
                    } else {
                        Err(expected_at(s, at + 5, "a low surrogate in the range DC00-DFFF"@))
                    },
                }
            }
        } else if 0xDC00 <= unit < 0xE000 {
            Err(expected_at(s, at, "a Unicode escape that is not a lone low surrogate"@))
        } else {
            Ok((unit, at + 5))
        },
    }
}

/// The scalar value of the escape whose letter stands at `at`, and the position
/// after it.
pub open spec fn escape_at(s: Seq<u8>, at: int) -> Result<(nat, int), JsonFault> {
    match byte_at(s, at) {
        None => Err(
            JsonFault::Expected {
                offset: at,
                expected: "an escape character after `\\`"@,
                found: "end of input"@,
            },
        ),
        Some(b) => if b == 0x22 || b == 0x5C || b == 0x2F {
            Ok((b as nat, at + 1))
        } else if b == 0x62 {
            Ok((0x08, at + 1))
        } else if b == 0x66 {
            Ok((0x0C, at + 1))
        } else if b == 0x6E {
            Ok((0x0A, at + 1))
        } else if b == 0x72 {
            Ok((0x0D, at + 1))
        } else if b == 0x74 {
            Ok((0x09, at + 1))
        } else if b == 0x75 {
            unicode_at(s, at)
        } else {
            Err(
                expected_at(
                    s,
                    at,
                    "one of `\"` `\\` `/` `b` `f` `n` `r` `t` `u` after `\\`"@,
                ),
            )
        },
    }
}

/// The decoded bytes of a string literal opened at `open`, from `pos` on, and
/// the position after its closing quote.
pub open spec fn string_from(s: Seq<u8>, open: int, pos: int, out: Seq<u8>) -> Result<
    (Seq<u8>, int),
    JsonFault,
>
    decreases s.len() - pos,
    when pos >= 0
{
    match byte_at(s, pos) {
        None => Err(
            JsonFault::Expected {
                offset: open,
                expected: "a closing `\"` for the string starting here"@,
                found: "end of input"@,
            },
        ),
        Some(b) => if b == 0x22 {
            Ok((out, pos + 1))
        } else if b == 0x5C {
            match escape_at(s, pos + 1) {
                Err(fault) => Err(fault),
                Ok((scalar, next)) => string_from(
                    s,
                    open,
                    next,
                    out + encode_scalar(scalar as u32),
                ),
            }
        } else if b <= 0x1F {
            Err(expected_at(s, pos, "an escape sequence instead of a raw control character"@))
        } else {
            string_from(s, open, pos + 1, out.push(b))
        },
    }
}

/// The string literal whose opening quote stands at `open`, and the position
/// after it.
pub open spec fn string_at(s: Seq<u8>, open: int) -> Result<(Seq<char>, int), JsonFault> {
    match string_from(s, open, open + 1, seq![]) {
        Err(fault) => Err(fault),
        Ok((bytes, next)) => if valid_utf8(bytes) {
            Ok((decode_utf8(bytes), next))
        } else {
            Err(JsonFault::InvalidText { offset: open })
        },
    }
}

/// The position after the integer part of a number: a single zero, or digits
/// that do not start with zero.
pub open spec fn integer_part(s: Seq<u8>, pos: int) -> Result<int, JsonFault> {
    if byte_at(s, pos) == Some(0x30u8) {
        if digit_at(s, pos + 1) {
            Err(expected_at(s, pos + 1, "no further digits after a leading zero"@))
        } else {
            Ok(pos + 1)
        }
    } else if digit_at(s, pos) {
        Ok(skip_digit_bytes(s, pos + 1))
    } else {
        Err(expected_at(s, pos, "a digit in a number"@))
    }
}

/// The position after an optional fraction.
pub open spec fn fraction_part(s: Seq<u8>, pos: int) -> Result<int, JsonFault> {
    if byte_at(s, pos) != Some(0x2Eu8) {
        Ok(pos)
    } else if digit_at(s, pos + 1) {
        Ok(skip_digit_bytes(s, pos + 1))
    } else {
        Err(expected_at(s, pos + 1, "at least one digit after `.`"@))
    }
}

/// The position after an optional sign.
pub open spec fn skip_sign_byte(s: Seq<u8>, pos: int) -> int {
    if byte_at(s, pos) == Some(0x2Bu8) || byte_at(s, pos) == Some(0x2Du8) {
        pos + 1
    } else {
        pos
    }
}

/// The position after an optional exponent.
pub open spec fn exponent_part(s: Seq<u8>, pos: int) -> Result<int, JsonFault> {
    let digits = skip_sign_byte(s, pos + 1);
    if byte_at(s, pos) != Some(0x65u8) && byte_at(s, pos) != Some(0x45u8) {
        Ok(pos)
    } else if digit_at(s, digits) {
        Ok(skip_digit_bytes(s, digits))
    } else {
        Err(expected_at(s, digits, "at least one digit in the exponent"@))
    }
}

/// Where the parts of a number end: its integer part, its fraction and the
/// whole.
pub open spec fn number_ends(s: Seq<u8>, start: int) -> Result<(int, int, int), JsonFault> {
    let first = if byte_at(s, start) == Some(0x2Du8) {
        start + 1
    } else {
        start
    };
    match integer_part(s, first) {
        Err(fault) => Err(fault),
        Ok(whole) => match fraction_part(s, whole) {
            Err(fault) => Err(fault),
            Ok(fraction) => match exponent_part(s, fraction) {
                Err(fault) => Err(fault),
                Ok(end) => Ok((whole, fraction, end)),
            },
        },
    }
}

// --- numbers -----------------------------------------------------------------

/// The digits from `from` up to `to`, as numbers.
pub open spec fn digit_values(s: Seq<u8>, from: int, to: int) -> Seq<u8> {
    Seq::new((to - from) as nat, |i: int| (s[from + i] - 0x30) as u8)
}

/// The decimal number in the text of a number: all its digits, and the power of
/// ten they are scaled by.
pub struct Decimal {
    pub negative: bool,
    pub digits: Seq<u8>,
    pub exp: int,
}

/// The exponent written from `fraction` to `end`: 0 if there is none.
pub open spec fn exponent_value(s: Seq<u8>, fraction: int, end: int) -> int {
    let digits = skip_sign_byte(s, fraction + 1);
    let value = digits_nat(digit_values(s, digits, end)) as int;
    if end == fraction {
        0
    } else if s[fraction + 1] == 0x2D {
        -value
    } else {
        value
    }
}

/// The decimal number whose parts end at the given positions.
pub open spec fn decimal_at(s: Seq<u8>, start: int, whole: int, fraction: int, end: int) -> Decimal {
    let negative = s[start] == 0x2D;
    let first = if negative {
        start + 1
    } else {
        start
    };
    let places: int = if fraction > whole {
        fraction - whole - 1
    } else {
        0
    };
    Decimal {
        negative,
        digits: digit_values(s, first, whole) + digit_values(s, fraction - places, fraction),
        exp: exponent_value(s, fraction, end) - places,
    }
}

/// The text of a number.
pub open spec fn ascii_text(s: Seq<u8>, from: int, to: int) -> Seq<char> {
    Seq::new((to - from) as nat, |i: int| s[from + i] as char)
}

/// The number at `start` and the position after it. It has to stay finite in
/// single precision.
pub open spec fn number_at(s: Seq<u8>, start: int) -> Result<(JsonTree, int), JsonFault> {
    match number_ends(s, start) {
        Err(fault) => Err(fault),
        Ok((whole, fraction, end)) => {
            let number = decimal_at(s, start, whole, fraction, end);
            if is_below(digits_nat(number.digits), number.exp, F32_LIMIT as nat) {
                Ok((JsonTree::Number(ascii_text(s, start, end)), end))
            } else {
                Err(expected_at(s, start, "a number representable as a finite f32"@))
            }
        },
    }
}

/// Whether `word` stands at `pos`.
pub open spec fn word_at(s: Seq<u8>, pos: int, word: Seq<u8>) -> bool {
    pos + word.len() <= s.len() && s.subrange(pos, pos + word.len()) == word
}

/// The literal `name`, whose bytes are `word`.
pub open spec fn literal_at(
    s: Seq<u8>,
    pos: int,
    word: Seq<u8>,
    name: Seq<char>,
    value: JsonTree,
) -> Result<(JsonTree, int), JsonFault> {
    if word_at(s, pos, word) {
        Ok((value, pos + word.len()))
    } else {
        Err(expected_at(s, pos, "the literal `"@ + name + "`"@))
    }
}

/// The value that starts at `pos` inside `depth` containers, and the position
/// after it.
pub open spec fn value_at(s: Seq<u8>, pos: int, depth: int) -> Result<(JsonTree, int), JsonFault>
    decreases MAX_DEPTH - depth, 0int, 0int,
{
    match byte_at(s, pos) {
        None => Err(expected_at(s, pos, "a JSON value"@)),
        Some(b) => if b == 0x6E {
            literal_at(s, pos, seq![0x6Eu8, 0x75u8, 0x6Cu8, 0x6Cu8], "null"@, JsonTree::Null)
        } else if b == 0x74 {
            literal_at(s, pos, seq![0x74u8, 0x72u8, 0x75u8, 0x65u8], "true"@, JsonTree::Bool(true))
        } else if b == 0x66 {
            literal_at(
                s,
                pos,
                seq![0x66u8, 0x61u8, 0x6Cu8, 0x73u8, 0x65u8],
                "false"@,
                JsonTree::Bool(false),
            )
        } else if b == 0x22 {
            match string_at(s, pos) {
                Err(fault) => Err(fault),
                Ok((text, next)) => Ok((JsonTree::Str(text), next)),
            }
        } else if b == 0x5B {
            if depth >= MAX_DEPTH {
                Err(JsonFault::Depth { offset: pos })
            } else {
                let first = skip_blank(s, pos + 1);
                if byte_at(s, first) == Some(0x5Du8) {
                    Ok((JsonTree::Array(seq![]), first + 1))
                } else {
                    items_from(s, first, depth + 1, seq![])
                }
            }
        } else if b == 0x7B {
            if depth >= MAX_DEPTH {
                Err(JsonFault::Depth { offset: pos })
            } else {
                let first = skip_blank(s, pos + 1);
                if byte_at(s, first) == Some(0x7Du8) {
                    Ok((JsonTree::Object(seq![]), first + 1))
                } else {
                    pairs_from(s, first, depth + 1, seq![])
                }
            }
        } else if b == 0x2D || is_digit_byte(b) {
            number_at(s, pos)
        } else {
            Err(expected_at(s, pos, "a JSON value"@))
        },
    }
}

/// The remaining items of an array, the first of which starts at or after
/// `pos`, and the position after the closing bracket. Every value moves
/// forward.
pub open spec fn items_from(s: Seq<u8>, pos: int, depth: int, items: Seq<JsonTree>) -> Result<
    (JsonTree, int),
    JsonFault,
>
    decreases MAX_DEPTH - depth, 1int, s.len() - pos,
{
    let start = skip_blank(s, pos);
    match value_at(s, start, depth) {
        Err(fault) => Err(fault),
        Ok((item, end)) => {
            let next = skip_blank(s, end);
            let longer = items.push(item);
            if byte_at(s, next) == Some(0x2Cu8) && next >= pos {
                items_from(s, next + 1, depth, longer)
            } else if byte_at(s, next) == Some(0x5Du8) {
                Ok((JsonTree::Array(longer), next + 1))
            } else {
                Err(expected_at(s, next, "`,` or `]` in array"@))
            }
        },
    }
}

/// The remaining pairs of an object, the first of which starts at or after
/// `pos`, and the position after the closing brace. Every value moves forward.
pub open spec fn pairs_from(
    s: Seq<u8>,
    pos: int,
    depth: int,
    pairs: Seq<(Seq<char>, JsonTree)>,
) -> Result<(JsonTree, int), JsonFault>
    decreases MAX_DEPTH - depth, 1int, s.len() - pos,
{
    let open = skip_blank(s, pos);
    if byte_at(s, open) != Some(0x22u8) {
        Err(expected_at(s, open, "`\"` starting an object key"@))
    } else {
        match string_at(s, open) {
            Err(fault) => Err(fault),
            Ok((key, key_end)) => {
                let colon = skip_blank(s, key_end);
                if byte_at(s, colon) != Some(0x3Au8) {
                    Err(expected_at(s, colon, "`:` after an object key"@))
                } else {
                    match value_at(s, skip_blank(s, colon + 1), depth) {
                        Err(fault) => Err(fault),
                        Ok((value, end)) => {
                            let next = skip_blank(s, end);
                            let longer = pairs.push((key, value));
                            if byte_at(s, next) == Some(0x2Cu8) && next >= pos {
                                pairs_from(s, next + 1, depth, longer)
                            } else if byte_at(s, next) == Some(0x7Du8) {
                                Ok((JsonTree::Object(longer), next + 1))
                            } else {
                                Err(expected_at(s, next, "`,` or `}` in object"@))
                            }
                        },
                    }
                }
            },
        }
    }
}

/// What a document of these bytes holds. One leading byte-order mark is
/// ignored, and nothing but white space may follow the value.
pub open spec fn document(s: Seq<u8>) -> Result<JsonTree, JsonFault> {
    let bom: int = if word_at(s, 0, seq![0xEFu8, 0xBBu8, 0xBFu8]) {
        3
    } else {
        0
    };
    match value_at(s, skip_blank(s, bom), 0) {
        Err(fault) => Err(fault),
        Ok((value, end)) => {
            let rest = skip_blank(s, end);
            if rest < s.len() {
                Err(expected_at(s, rest, "end of input after the top-level value"@))
            } else {
                Ok(value)
            }
        },
    }
}

// --- parser ------------------------------------------------------------------

fn fault_error(offset: usize, expected: &str, found: &str) -> (r: EngineError)
    ensures
        r.is_invalid_state(
            (JsonFault::Expected { offset: offset as int, expected: expected@, found: found@ }).text(),
        ),
{
    let mut s = String::from_str("json parse error at byte offset ");
    push_decimal(&mut s, offset as u64);
    s.append(": expected ");
    s.append(expected);
    s.append(", found ");
    s.append(found);
    EngineError::InvalidState(s)
}

fn hex_digit(d: u8) -> (r: char)
    requires
        d < 16,
    ensures
        r == hex_char(d as int),
{
    if d < 10 {
        (48 + d) as char
    } else {
        (87 + d) as char
    }
}

fn describe(bytes: &[u8], offset: usize) -> (r: String)
    ensures
        r@ == found_at(bytes@, offset as int),
{
    if offset >= bytes.len() {
        return String::from_str("end of input");
    }
    let b: u8 = bytes[offset];
    if 0x21 <= b && b <= 0x7E {
        let mut s = String::new();
        s.push('`');
        s.push(b as char);
        s.push('`');
        assert(s@ =~= seq!['`', b as char, '`']);
        s
    } else {
        let mut s = String::from_str("byte 0x");
        s.push(hex_digit(b / 16));
        s.push(hex_digit(b % 16));
        assert(s@ =~= "byte 0x"@ + seq![hex_char(b as int / 16), hex_char(b as int % 16)]);
        s
    }
}

fn error_at(bytes: &[u8], offset: usize, expected: &str) -> (r: EngineError)
    ensures
        r.is_invalid_state(expected_at(bytes@, offset as int, expected@).text()),
{
    fault_error(offset, expected, describe(bytes, offset).as_str())
}

fn depth_error(offset: usize) -> (r: EngineError)
    ensures
        r.is_invalid_state((JsonFault::Depth { offset: offset as int }).text()),
{
    let mut s = String::from_str("json parse error at byte offset ");
    push_decimal(&mut s, offset as u64);
    s.append(": nesting depth exceeds the limit of ");
    push_decimal(&mut s, MAX_DEPTH as u64);
    EngineError::InvalidState(s)
}

fn text_error(offset: usize) -> (r: EngineError)
    ensures
        r.is_invalid_state((JsonFault::InvalidText { offset: offset as int }).text()),
{
    let mut s = String::from_str("json parse error at byte offset ");
    push_decimal(&mut s, offset as u64);
    s.append(": string decoded to invalid UTF-8");
    EngineError::InvalidState(s)
}

/// `String::from_utf8`: accepts exactly the byte strings that are UTF-8, and the
/// string's own encoding is those bytes.
#[verifier::external_body]
fn string_from_utf8(bytes: Vec<u8>) -> (r: Option<String>)
    ensures
        match r {
            Some(s) => encode_utf8(s@) == bytes@,
            None => !valid_utf8(bytes@),
        },
{
    String::from_utf8(bytes).ok()
}

/// Append a scalar value in UTF-8.
fn push_scalar(out: &mut Vec<u8>, scalar: u32)
    requires
        is_scalar(scalar),
    ensures
        final(out)@ == old(out)@ + encode_scalar(scalar),
{
    if scalar <= 0x7F {
        out.push((scalar & 0x7F) as u8);
    } else if scalar <= 0x7FF {
        out.push(0xC0 | ((scalar >> 6) & 0x1F) as u8);
        out.push(0x80 | (scalar & 0x3F) as u8);
    } else if scalar <= 0xFFFF {
        out.push(0xE0 | ((scalar >> 12) & 0x0F) as u8);
        out.push(0x80 | ((scalar >> 6) & 0x3F) as u8);
        out.push(0x80 | (scalar & 0x3F) as u8);
    } else {
        out.push(0xF0 | ((scalar >> 18) & 0x7) as u8);
        out.push(0x80 | ((scalar >> 12) & 0x3F) as u8);
        out.push(0x80 | ((scalar >> 6) & 0x3F) as u8);
        out.push(0x80 | (scalar & 0x3F) as u8);
    }
    assert(out@ =~= old(out)@ + encode_scalar(scalar));
}

fn peek(bytes: &[u8], pos: usize) -> (r: Option<u8>)
    ensures
        r == byte_at(bytes@, pos as int),
{
    if pos < bytes.len() {
        Some(bytes[pos])
    } else {
        None
    }
}

fn after_blank(bytes: &[u8], from: usize) -> (r: usize)
    requires
        from <= bytes@.len(),
    ensures
        r == skip_blank(bytes@, from as int),
        from <= r <= bytes@.len(),
{
    let mut pos: usize = from;
    while pos < bytes.len() && (bytes[pos] == 0x20 || bytes[pos] == 0x09 || bytes[pos] == 0x0A
        || bytes[pos] == 0x0D)
        invariant
            from <= pos <= bytes@.len(),
            skip_blank(bytes@, from as int) == skip_blank(bytes@, pos as int),
        decreases bytes.len() - pos,
    {
        pos = pos + 1;
    }
    pos
}

fn is_digit_at(bytes: &[u8], pos: usize) -> (r: bool)
    ensures
        r == digit_at(bytes@, pos as int),
{
    pos < bytes.len() && 0x30 <= bytes[pos] && bytes[pos] <= 0x39
}

fn after_digit_bytes(bytes: &[u8], from: usize) -> (r: usize)
    requires
        from <= bytes@.len(),
    ensures
        r == skip_digit_bytes(bytes@, from as int),
        from <= r <= bytes@.len(),
        forall|i: int| from <= i < r ==> is_digit_byte(#[trigger] bytes@[i]),
{
    let mut pos: usize = from;
    while is_digit_at(bytes, pos)
        invariant
            from <= pos <= bytes@.len(),
            skip_digit_bytes(bytes@, from as int) == skip_digit_bytes(bytes@, pos as int),
            forall|i: int| from <= i < pos ==> is_digit_byte(#[trigger] bytes@[i]),
        decreases bytes.len() - pos,
    {
        pos = pos + 1;
    }
    pos
}

/// Read exactly four hexadecimal digits.
fn read_hex4(bytes: &[u8], start: usize) -> (r: Result<u16, EngineError>)
    requires
        start <= bytes@.len(),
    ensures
        match unit_at(bytes@, start as int) {
            Ok(value) => r == Ok::<u16, EngineError>(value as u16) && value <= 0xFFFF && start + 4
                <= bytes@.len(),
            Err(fault) => r matches Err(e) && e.is_invalid_state(fault.text()),
        },
{
    if bytes.len() - start < 4 {
        return Err(
            fault_error(start, "4 hexadecimal digits in a unicode escape", "end of input"),
        );
    }
    let mut value: u32 = 0;
    let mut i: usize = 0;
    while i < 4
        invariant
            i <= 4,
            start + 4 <= bytes@.len(),
            hex_digits(bytes@, start as int, i as nat) == Ok::<nat, int>(value as nat),
            i == 0 ==> value == 0,
            i == 1 ==> value <= 0xF,
            i == 2 ==> value <= 0xFF,
            i == 3 ==> value <= 0xFFF,
            i == 4 ==> value <= 0xFFFF,
        decreases 4 - i,
    {
        assert(start + 4 <= bytes.len());
        let byte: u8 = bytes[start + i];
        let digit: u8 = if 0x30 <= byte && byte <= 0x39 {
            byte - 0x30
        } else if 0x61 <= byte && byte <= 0x66 {
            byte - 0x57
        } else if 0x41 <= byte && byte <= 0x46 {
            byte - 0x37
        } else {
            assert(hex_value(bytes@[start + i]) is None);
            assert(hex_digits(bytes@, start as int, (i + 1) as nat) == Err::<nat, int>(start + i));
            proof {
                lemma_hex_fault(bytes@, start as int, (i + 1) as nat, 4, start + i);
            }
            return Err(error_at(bytes, start + i, "a hexadecimal digit in a unicode escape"));
        };
        assert(hex_value(bytes@[start + i]) == Some(digit as nat));
        value = value * 16 + digit as u32;
        i = i + 1;
    }
    Ok(value as u16)
}

proof fn lemma_hex_fault(s: Seq<u8>, start: int, n: nat, m: nat, offset: int)
    requires
        n <= m,
        hex_digits(s, start, n) == Err::<nat, int>(offset),
    ensures
        hex_digits(s, start, m) == Err::<nat, int>(offset),
    decreases m,
{
    if n < m {
        lemma_hex_fault(s, start, n, (m - 1) as nat, offset);
    }
}

/// Decode a unicode escape, joining surrogate pairs into one scalar value.
fn parse_unicode_escape(bytes: &[u8], at: usize) -> (r: Result<(u32, usize), EngineError>)
    requires
        at < bytes@.len(),
    ensures
        match unicode_at(bytes@, at as int) {
            Ok((scalar, next)) => r == Ok::<(u32, usize), EngineError>(
                (scalar as u32, next as usize),
            ) && scalar <= 0x10FFFF && is_scalar(scalar as u32) && at < next <= bytes@.len(),
            Err(fault) => r matches Err(e) && e.is_invalid_state(fault.text()),
        },
{
    assert(bytes.len() == bytes@.len());
    let unit: u32 = match read_hex4(bytes, at + 1) {
        Ok(unit) => unit as u32,
        Err(e) => {
            return Err(e);
        },
    };
    let low_at: usize = at + 5;
    if 0xD800 <= unit && unit < 0xDC00 {
        if bytes.len() - low_at < 2 || bytes[low_at] != 0x5C || bytes[low_at + 1] != 0x75 {
            return Err(error_at(bytes, low_at, "a low surrogate escape completing the pair"));
        }
        let low: u32 = match read_hex4(bytes, low_at + 2) {
            Ok(low) => low as u32,
            Err(e) => {
                return Err(e);
            },
        };
        if low < 0xDC00 || low >= 0xE000 {
            return Err(error_at(bytes, low_at, "a low surrogate in the range DC00-DFFF"));
        }
        Ok((0x1_0000 + (unit - 0xD800) * 0x400 + (low - 0xDC00), low_at + 6))
    } else if 0xDC00 <= unit && unit < 0xE000 {
        Err(error_at(bytes, at, "a Unicode escape that is not a lone low surrogate"))
    } else {
        Ok((unit, low_at))
    }
}

/// Decode the escape whose letter stands at `at`.
fn parse_escape(bytes: &[u8], at: usize) -> (r: Result<(u32, usize), EngineError>)
    requires
        at <= bytes@.len(),
    ensures
        match escape_at(bytes@, at as int) {
            Ok((scalar, next)) => r == Ok::<(u32, usize), EngineError>(
                (scalar as u32, next as usize),
            ) && scalar <= 0x10FFFF && is_scalar(scalar as u32) && at < next <= bytes@.len(),
            Err(fault) => r matches Err(e) && e.is_invalid_state(fault.text()),
        },
{
    assert(bytes.len() == bytes@.len());
    match peek(bytes, at) {
        None => Err(fault_error(at, "an escape character after `\\`", "end of input")),
        Some(b) => if b == 0x22 || b == 0x5C || b == 0x2F {
            Ok((b as u32, at + 1))
        } else if b == 0x62 {
            Ok((0x08, at + 1))
        } else if b == 0x66 {
            Ok((0x0C, at + 1))
        } else if b == 0x6E {
            Ok((0x0A, at + 1))
        } else if b == 0x72 {
            Ok((0x0D, at + 1))
        } else if b == 0x74 {
            Ok((0x09, at + 1))
        } else if b == 0x75 {
            parse_unicode_escape(bytes, at)
        } else {
            Err(
                error_at(bytes, at, "one of `\"` `\\` `/` `b` `f` `n` `r` `t` `u` after `\\`"),
            )
        },
    }
}

/// Parse the string literal whose opening quote stands at `open`.
fn parse_string(bytes: &[u8], open: usize) -> (r: Result<(String, usize), EngineError>)
    requires
        open < bytes@.len(),
    ensures
        match string_at(bytes@, open as int) {
            Ok((text, next)) => r matches Ok((s, n)) && s@ == text && n == next && open < next
                <= bytes@.len(),
            Err(fault) => r matches Err(e) && e.is_invalid_state(fault.text()),
        },
{
    assert(bytes.len() == bytes@.len());
    let mut out: Vec<u8> = Vec::new();
    let mut pos: usize = open + 1;
    assert(out@ =~= seq![]);
    loop
        invariant
            bytes@.len() <= usize::MAX,
            open < pos <= bytes@.len(),
            string_from(bytes@, open as int, open + 1, seq![]) == string_from(
                bytes@,
                open as int,
                pos as int,
                out@,
            ),
        decreases bytes@.len() - pos,
    {
        let byte: u8 = match peek(bytes, pos) {
            Some(b) => b,
            None => {
                return Err(
                    fault_error(
                        open,
                        "a closing `\"` for the string starting here",
                        "end of input",
                    ),
                );
            },
        };
        if byte == 0x22 {
            let next: usize = pos + 1;
            let ghost decoded = out@;
            assert(string_from(bytes@, open as int, open + 1, seq![]) == Ok::<
                (Seq<u8>, int),
                JsonFault,
            >((decoded, next as int)));
            return match string_from_utf8(out) {
                Some(s) => {
                    proof {
                        encode_utf8_decode_utf8(s@);
                        vstd::utf8::encode_utf8_valid_utf8(s@);
                    }
                    Ok((s, next))
                },
                None => Err(text_error(open)),
            };
        } else if byte == 0x5C {
            let (scalar, next) = match parse_escape(bytes, pos + 1) {
                Ok(decoded) => decoded,
                Err(e) => {
                    return Err(e);
                },
            };
            push_scalar(&mut out, scalar);
            pos = next;
        } else if byte <= 0x1F {
            return Err(
                error_at(bytes, pos, "an escape sequence instead of a raw control character"),
            );
        } else {
            out.push(byte);
            pos = pos + 1;
        }
    }
}

/// Append the digits from `from` up to `to`.
fn push_digits(out: &mut Vec<u8>, bytes: &[u8], from: usize, to: usize)
    requires
        from <= to <= bytes@.len(),
        digits_ok(old(out)@),
        forall|i: int| from <= i < to ==> is_digit_byte(#[trigger] bytes@[i]),
    ensures
        final(out)@ == old(out)@ + digit_values(bytes@, from as int, to as int),
        digits_ok(final(out)@),
{
    let mut i: usize = from;
    assert(digit_values(bytes@, from as int, from as int) =~= seq![]);
    assert(out@ + seq![] =~= out@);
    while i < to
        invariant
            from <= i <= to <= bytes@.len(),
            forall|j: int| from <= j < to ==> is_digit_byte(#[trigger] bytes@[j]),
            digits_ok(out@),
            out@ == old(out)@ + digit_values(bytes@, from as int, i as int),
        decreases to - i,
    {
        assert(is_digit_byte(bytes@[i as int]));
        let d: u8 = bytes[i] - 0x30;
        out.push(d);
        i = i + 1;
        assert(out@ =~= old(out)@ + digit_values(bytes@, from as int, i as int));
    }
}

/// The exponent from `fraction` to `end`, exactly when it is small, and no less
/// than 2^110 in magnitude when it is not.
fn read_exponent(bytes: &[u8], fraction: usize, end: usize) -> (r: i128)
    requires
        fraction <= end <= bytes@.len(),
        end > fraction ==> skip_sign_byte(bytes@, fraction + 1) <= end,
        forall|i: int|
            skip_sign_byte(bytes@, fraction + 1) <= i < end ==> is_digit_byte(#[trigger] bytes@[i]),
    ensures
        ({
            let x = exponent_value(bytes@, fraction as int, end as int);
            ||| r == x
            ||| r >= 0x4000_0000_0000_0000_0000_0000_0000 && x >= r
            ||| r <= -0x4000_0000_0000_0000_0000_0000_0000 && x <= r
        }),
        -0x100_0000_0000_0000_0000_0000_0000_0000 < r < 0x100_0000_0000_0000_0000_0000_0000_0000,
{
    if end == fraction {
        return 0;
    }
    assert(bytes.len() == bytes@.len());
    let mut start: usize = fraction + 1;
    let mut negative: bool = false;
    if start < bytes.len() && (bytes[start] == 0x2B || bytes[start] == 0x2D) {
        negative = bytes[start] == 0x2D;
        start = start + 1;
    }
    let ghost digits = digit_values(bytes@, start as int, end as int);
    let mut v: i128 = 0;
    let mut i: usize = start;
    assert(digits.take(0) =~= seq![]);
    while i < end
        invariant
            start <= i <= end <= bytes@.len(),
            digits == digit_values(bytes@, start as int, end as int),
            forall|j: int| start <= j < end ==> is_digit_byte(#[trigger] bytes@[j]),
            0 <= v < 0x100_0000_0000_0000_0000_0000_0000_0000,
            v == digits_nat(digits.take(i - start)) || (v
                >= 0x4000_0000_0000_0000_0000_0000_0000 && digits_nat(digits.take(i - start)) >= v),
        decreases end - i,
    {
        assert(is_digit_byte(bytes@[i as int]));
        let d: i128 = (bytes[i] - 0x30) as i128;
        proof {
            let next = digits.take(i - start + 1);
            assert(next.drop_last() =~= digits.take(i - start));
            assert(next.last() == d);
        }
        if v < 0x4000_0000_0000_0000_0000_0000_0000 {
            v = v * 10 + d;
        }
        i = i + 1;
    }
    assert(digits.take(digits.len() as int) =~= digits);
    if negative {
        -v
    } else {
        v
    }
}

/// The ends of a number's parts.
fn scan_number(bytes: &[u8], start: usize) -> (r: Result<(usize, usize, usize), EngineError>)
    requires
        start < bytes@.len(),
    ensures
        match number_ends(bytes@, start as int) {
            Ok((whole, fraction, end)) => {
                let first = if bytes@[start as int] == 0x2D {
                    start + 1
                } else {
                    start as int
                };
                &&& r == Ok::<(usize, usize, usize), EngineError>(
                    (whole as usize, fraction as usize, end as usize),
                )
                &&& start <= first < whole <= fraction <= end <= bytes@.len()
                &&& forall|i: int| first <= i < whole ==> is_digit_byte(#[trigger] bytes@[i])
                &&& forall|i: int| whole < i < fraction ==> is_digit_byte(#[trigger] bytes@[i])
                &&& end > fraction ==> skip_sign_byte(bytes@, fraction + 1) <= end
                &&& forall|i: int|
                    skip_sign_byte(bytes@, fraction + 1) <= i < end ==> is_digit_byte(
                        #[trigger] bytes@[i],
                    )
            },
            Err(fault) => r matches Err(e) && e.is_invalid_state(fault.text()),
        },
{
    assert(bytes.len() == bytes@.len());
    let first: usize = if bytes[start] == 0x2D {
        start + 1
    } else {
        start
    };
    let whole: usize = if peek(bytes, first) == Some(0x30) {
        if is_digit_at(bytes, first + 1) {
            return Err(error_at(bytes, first + 1, "no further digits after a leading zero"));
        }
        first + 1
    } else if is_digit_at(bytes, first) {
        after_digit_bytes(bytes, first + 1)
    } else {
        return Err(error_at(bytes, first, "a digit in a number"));
    };
    let fraction: usize = if peek(bytes, whole) == Some(0x2E) {
        if !is_digit_at(bytes, whole + 1) {
            return Err(error_at(bytes, whole + 1, "at least one digit after `.`"));
        }
        after_digit_bytes(bytes, whole + 1)
    } else {
        whole
    };
    let end: usize = if peek(bytes, fraction) == Some(0x65) || peek(bytes, fraction) == Some(0x45) {
        let digits: usize = if peek(bytes, fraction + 1) == Some(0x2B) || peek(bytes, fraction + 1)
            == Some(0x2D) {
            fraction + 2
        } else {
            fraction + 1
        };
        if !is_digit_at(bytes, digits) {
            return Err(error_at(bytes, digits, "at least one digit in the exponent"));
        }
        after_digit_bytes(bytes, digits)
    } else {
        fraction
    };
    Ok((whole, fraction, end))
}

/// The digits and the exponent of a number whose parts are known.
fn read_decimal(bytes: &[u8], start: usize, whole: usize, fraction: usize, end: usize) -> (r: (
    bool,
    Vec<u8>,
    i128,
))
    requires
        number_ends(bytes@, start as int) == Ok::<(int, int, int), JsonFault>(
            (whole as int, fraction as int, end as int),
        ),
        start < whole <= fraction <= end <= bytes@.len(),
        bytes@[start as int] == 0x2D ==> start + 1 < whole,
        forall|i: int|
            (if bytes@[start as int] == 0x2D {
                start + 1
            } else {
                start as int
            }) <= i < whole ==> is_digit_byte(#[trigger] bytes@[i]),
        forall|i: int| whole < i < fraction ==> is_digit_byte(#[trigger] bytes@[i]),
        end > fraction ==> skip_sign_byte(bytes@, fraction + 1) <= end,
        forall|i: int|
            skip_sign_byte(bytes@, fraction + 1) <= i < end ==> is_digit_byte(#[trigger] bytes@[i]),
    ensures
        ({
            let number = decimal_at(
                bytes@,
                start as int,
                whole as int,
                fraction as int,
                end as int,
            );
            &&& r.0 == number.negative
            &&& r.1@ == number.digits
            &&& digits_ok(r.1@)
            &&& r.2 == clamped(number.exp)
        }),
{
    let negative: bool = bytes[start] == 0x2D;
    let first: usize = if negative {
        start + 1
    } else {
        start
    };
    let mut digits: Vec<u8> = Vec::new();
    push_digits(&mut digits, bytes, first, whole);
    assert(digits@ =~= digit_values(bytes@, first as int, whole as int));
    let places: usize = if fraction > whole {
        fraction - whole - 1
    } else {
        0
    };
    push_digits(&mut digits, bytes, fraction - places, fraction);
    let exponent: i128 = read_exponent(bytes, fraction, end) - places as i128;
    let exp: i128 = if exponent > EXPONENT_CAP {
        EXPONENT_CAP
    } else if exponent < -EXPONENT_CAP {
        -EXPONENT_CAP
    } else {
        exponent
    };
    (negative, digits, exp)
}

fn ascii_string(bytes: &[u8], from: usize, to: usize) -> (r: String)
    requires
        from <= to <= bytes@.len(),
    ensures
        r@ == ascii_text(bytes@, from as int, to as int),
{
    let mut s = String::new();
    let mut i: usize = from;
    while i < to
        invariant
            from <= i <= to <= bytes@.len(),
            s@ == ascii_text(bytes@, from as int, i as int),
        decreases to - i,
    {
        s.push(bytes[i] as char);
        i = i + 1;
        assert(s@ =~= ascii_text(bytes@, from as int, i as int));
    }
    s
}

fn parse_number(bytes: &[u8], start: usize) -> (r: Result<(JsonValue, usize), EngineError>)
    requires
        start < bytes@.len(),
    ensures
        match number_at(bytes@, start as int) {
            Ok((tree, next)) => r matches Ok((v, n)) && v.tree() == tree && n == next && start < next
                <= bytes@.len(),
            Err(fault) => r matches Err(e) && e.is_invalid_state(fault.text()),
        },
{
    assert(bytes.len() == bytes@.len());
    let (whole, fraction, end) = match scan_number(bytes, start) {
        Ok(ends) => ends,
        Err(e) => {
            return Err(e);
        },
    };
    let (_negative, digits, exp) = read_decimal(bytes, start, whole, fraction, end);
    let ghost number = decimal_at(bytes@, start as int, whole as int, fraction as int, end as int);
    if !fits_f32(digits.as_slice(), exp, Ghost(number.exp)) {
        return Err(error_at(bytes, start, "a number representable as a finite f32"));
    }
    Ok((JsonValue::Number(ascii_string(bytes, start, end)), end))
}

/// The trees of a run of values.
pub open spec fn trees(items: Seq<JsonValue>) -> Seq<JsonTree> {
    Seq::new(items.len(), |i: int| items[i].tree())
}

/// The contents of a run of pairs.
pub open spec fn pair_trees(pairs: Seq<(String, JsonValue)>) -> Seq<(Seq<char>, JsonTree)> {
    Seq::new(pairs.len(), |i: int| (pairs[i].0@, pairs[i].1.tree()))
}

proof fn lemma_array_tree(items: Vec<JsonValue>)
    ensures
        JsonValue::Array(items).tree() == JsonTree::Array(trees(items@)),
{
    let v = JsonValue::Array(items);
    assert(v.tree()->Array_0 =~= trees(items@));
}

proof fn lemma_object_tree(pairs: Vec<(String, JsonValue)>)
    ensures
        JsonValue::Object(pairs).tree() == JsonTree::Object(pair_trees(pairs@)),
{
    let v = JsonValue::Object(pairs);
    assert(v.tree()->Object_0 =~= pair_trees(pairs@));
}

fn parse_literal(bytes: &[u8], pos: usize, word: &[u8], name: &str, value: JsonValue) -> (r: Result<
    (JsonValue, usize),
    EngineError,
>)
    requires
        pos <= bytes@.len(),
        word@.len() > 0,
    ensures
        match literal_at(bytes@, pos as int, word@, name@, value.tree()) {
            Ok((tree, next)) => r matches Ok((v, n)) && v.tree() == tree && n == next && pos < next
                <= bytes@.len(),
            Err(fault) => r matches Err(e) && e.is_invalid_state(fault.text()),
        },
{
    if bytes_stand_at(bytes, pos, word) {
        assert(bytes.len() == bytes@.len());
        Ok((value, pos + word.len()))
    } else {
        let mut expected = String::from_str("the literal `");
        expected.append(name);
        expected.append("`");
        Err(error_at(bytes, pos, expected.as_str()))
    }
}

fn bytes_stand_at(bytes: &[u8], pos: usize, word: &[u8]) -> (r: bool)
    requires
        pos <= bytes@.len(),
    ensures
        r == word_at(bytes@, pos as int, word@),
{
    if bytes.len() - pos < word.len() {
        return false;
    }
    let mut i: usize = 0;
    while i < word.len()
        invariant
            i <= word@.len(),
            pos + word@.len() <= bytes@.len() <= usize::MAX,
            forall|j: int| 0 <= j < i ==> bytes@[pos + j] == #[trigger] word@[j],
        decreases word.len() - i,
    {
        if bytes[pos + i] != word[i] {
            assert(bytes@.subrange(pos as int, pos + word@.len())[i as int] != word@[i as int]);
            return false;
        }
        i = i + 1;
    }
    assert(bytes@.subrange(pos as int, pos + word@.len()) =~= word@);
    true
}

/// Parse one value that starts at `pos` inside `depth` containers.
fn parse_value(bytes: &[u8], pos: usize, depth: usize) -> (r: Result<
    (JsonValue, usize),
    EngineError,
>)
    requires
        pos <= bytes@.len(),
        depth <= MAX_DEPTH,
    ensures
        match value_at(bytes@, pos as int, depth as int) {
            Ok((tree, next)) => r matches Ok((v, n)) && v.tree() == tree && n == next && pos < next
                <= bytes@.len(),
            Err(fault) => r matches Err(e) && e.is_invalid_state(fault.text()),
        },
    decreases MAX_DEPTH - depth, 0int,
{
    let b: u8 = match peek(bytes, pos) {
        Some(b) => b,
        None => {
            return Err(error_at(bytes, pos, "a JSON value"));
        },
    };
    if b == 0x6E {
        let word: [u8; 4] = [0x6E, 0x75, 0x6C, 0x6C];
        assert(word@ =~= seq![0x6Eu8, 0x75u8, 0x6Cu8, 0x6Cu8]);
        parse_literal(bytes, pos, word.as_slice(), "null", JsonValue::Null)
    } else if b == 0x74 {
        let word: [u8; 4] = [0x74, 0x72, 0x75, 0x65];
        assert(word@ =~= seq![0x74u8, 0x72u8, 0x75u8, 0x65u8]);
        parse_literal(bytes, pos, word.as_slice(), "true", JsonValue::Bool(true))
    } else if b == 0x66 {
        let word: [u8; 5] = [0x66, 0x61, 0x6C, 0x73, 0x65];
        assert(word@ =~= seq![0x66u8, 0x61u8, 0x6Cu8, 0x73u8, 0x65u8]);
        parse_literal(bytes, pos, word.as_slice(), "false", JsonValue::Bool(false))
    } else if b == 0x22 {
        match parse_string(bytes, pos) {
            Ok((text, next)) => Ok((JsonValue::String(text), next)),
            Err(e) => Err(e),
        }
    } else if b == 0x5B {
        if depth >= MAX_DEPTH {
            return Err(depth_error(pos));
        }
        parse_array(bytes, pos, depth)
    } else if b == 0x7B {
        if depth >= MAX_DEPTH {
            return Err(depth_error(pos));
        }
        parse_object(bytes, pos, depth)
    } else if b == 0x2D || (0x30 <= b && b <= 0x39) {
        parse_number(bytes, pos)
    } else {
        Err(error_at(bytes, pos, "a JSON value"))
    }
}

fn parse_array(bytes: &[u8], pos: usize, depth: usize) -> (r: Result<
    (JsonValue, usize),
    EngineError,
>)
    requires
        pos < bytes@.len(),
        depth < MAX_DEPTH,
        bytes@[pos as int] == 0x5B,
    ensures
        match value_at(bytes@, pos as int, depth as int) {
            Ok((tree, next)) => r matches Ok((v, n)) && v.tree() == tree && n == next && pos < next
                <= bytes@.len(),
            Err(fault) => r matches Err(e) && e.is_invalid_state(fault.text()),
        },
    decreases MAX_DEPTH - (depth + 1), 1int,
{
    assert(bytes.len() == bytes@.len());
    let mut items: Vec<JsonValue> = Vec::new();
    assert(trees(items@) =~= seq![]);
    let mut at: usize = after_blank(bytes, pos + 1);
    if peek(bytes, at) == Some(0x5D) {
        proof {
            lemma_array_tree(items);
        }
        return Ok((JsonValue::Array(items), at + 1));
    }
    loop
        invariant
            bytes@.len() <= usize::MAX,
            pos < at <= bytes@.len(),
            depth < MAX_DEPTH,
            value_at(bytes@, pos as int, depth as int) == items_from(
                bytes@,
                at as int,
                depth + 1,
                trees(items@),
            ),
        decreases bytes@.len() - at,
    {
        let start: usize = after_blank(bytes, at);
        let (item, end) = match parse_value(bytes, start, depth + 1) {
            Ok(parsed) => parsed,
            Err(e) => {
                return Err(e);
            },
        };
        let ghost before = trees(items@);
        let ghost tree = item.tree();
        items.push(item);
        assert(trees(items@) =~= before.push(tree));
        let next: usize = after_blank(bytes, end);
        match peek(bytes, next) {
            Some(0x2C) => {
                at = next + 1;
            },
            Some(0x5D) => {
                proof {
                    lemma_array_tree(items);
                }
                return Ok((JsonValue::Array(items), next + 1));
            },
            _ => {
                return Err(error_at(bytes, next, "`,` or `]` in array"));
            },
        }
    }
}

fn parse_object(bytes: &[u8], pos: usize, depth: usize) -> (r: Result<
    (JsonValue, usize),
    EngineError,
>)
    requires
        pos < bytes@.len(),
        depth < MAX_DEPTH,
        bytes@[pos as int] == 0x7B,
    ensures
        match value_at(bytes@, pos as int, depth as int) {
            Ok((tree, next)) => r matches Ok((v, n)) && v.tree() == tree && n == next && pos < next
                <= bytes@.len(),
            Err(fault) => r matches Err(e) && e.is_invalid_state(fault.text()),
        },
    decreases MAX_DEPTH - (depth + 1), 1int,
{
    assert(bytes.len() == bytes@.len());
    let mut pairs: Vec<(String, JsonValue)> = Vec::new();
    assert(pair_trees(pairs@) =~= seq![]);
    let mut at: usize = after_blank(bytes, pos + 1);
    if peek(bytes, at) == Some(0x7D) {
        proof {
            lemma_object_tree(pairs);
        }
        return Ok((JsonValue::Object(pairs), at + 1));
    }
    loop
        invariant
            bytes@.len() <= usize::MAX,
            pos < at <= bytes@.len(),
            depth < MAX_DEPTH,
            value_at(bytes@, pos as int, depth as int) == pairs_from(
                bytes@,
                at as int,
                depth + 1,
                pair_trees(pairs@),
            ),
        decreases bytes@.len() - at,
    {
        let open: usize = after_blank(bytes, at);
        if peek(bytes, open) != Some(0x22) {
            return Err(error_at(bytes, open, "`\"` starting an object key"));
        }
        let (key, key_end) = match parse_string(bytes, open) {
            Ok(parsed) => parsed,
            Err(e) => {
                return Err(e);
            },
        };
        let colon: usize = after_blank(bytes, key_end);
        if peek(bytes, colon) != Some(0x3A) {
            return Err(error_at(bytes, colon, "`:` after an object key"));
        }
        let start: usize = after_blank(bytes, colon + 1);
        let (value, end) = match parse_value(bytes, start, depth + 1) {
            Ok(parsed) => parsed,
            Err(e) => {
                return Err(e);
            },
        };
        let ghost before = pair_trees(pairs@);
        let ghost pair = (key@, value.tree());
        pairs.push((key, value));
        assert(pair_trees(pairs@) =~= before.push(pair));
        let next: usize = after_blank(bytes, end);
        match peek(bytes, next) {
            Some(0x2C) => {
                at = next + 1;
            },
            Some(0x7D) => {
                proof {
                    lemma_object_tree(pairs);
                }
                return Ok((JsonValue::Object(pairs), next + 1));
            },
            _ => {
                return Err(error_at(bytes, next, "`,` or `}` in object"));
            },
        }
    }
}

/// Parse a complete JSON document.
pub fn parse(input: &str) -> (r: Result<JsonValue, EngineError>)
    ensures
        match document(encode_utf8(input@)) {
            Ok(tree) => r matches Ok(v) && v.tree() == tree,
            Err(fault) => r matches Err(e) && e.is_invalid_state(fault.text()),
        },
{
    let bytes: &[u8] = input.as_bytes();
    let bom: [u8; 3] = [0xEF, 0xBB, 0xBF];
    assert(bom@ =~= seq![0xEFu8, 0xBBu8, 0xBFu8]);
    let start: usize = if bytes_stand_at(bytes, 0, bom.as_slice()) {
        3
    } else {
        0
    };
    let (value, end) = match parse_value(bytes, after_blank(bytes, start), 0) {
        Ok(parsed) => parsed,
        Err(e) => {
            return Err(e);
        },
    };
    let rest: usize = after_blank(bytes, end);
    if rest < bytes.len() {
        return Err(error_at(bytes, rest, "end of input after the top-level value"));
    }
    Ok(value)
}

// --- accessors -----------------------------------------------------------------

/// The decimal number that a whole text is, if it is one.
pub open spec fn number_text(s: Seq<u8>) -> Option<Decimal> {
    match number_ends(s, 0) {
        Ok((whole, fraction, end)) if s.len() > 0 && end == s.len() => Some(
            decimal_at(s, 0, whole, fraction, end),
        ),
        _ => None,
    }
}

/// Whether a text is a number that stays finite in single precision.
pub open spec fn is_finite_text(text: Seq<char>) -> bool {
    match number_text(encode_utf8(text)) {
        Some(number) => is_below(digits_nat(number.digits), number.exp, F32_LIMIT as nat),
        None => false,
    }
}

/// Whether a text is a number that denotes `n` once rounded to double precision.
pub open spec fn denotes_u32(text: Seq<char>, n: nat) -> bool {
    match number_text(encode_utf8(text)) {
        Some(number) => rounds_to(digits_nat(number.digits), number.exp, n) && (number.negative
            ==> n == 0),
        None => false,
    }
}

/// The first pair with the given key.
pub open spec fn first_pair(pairs: Seq<(String, JsonValue)>, key: Seq<char>, from: int) -> Option<int>
    decreases pairs.len() - from,
{
    if from >= pairs.len() {
        None
    } else if pairs[from].0@ == key {
        Some(from)
    } else {
        first_pair(pairs, key, from + 1)
    }
}

/// The member of an object that a key finds.
pub open spec fn member(value: JsonValue, key: Seq<char>) -> Option<JsonValue> {
    match value {
        JsonValue::Object(pairs) => match first_pair(pairs@, key, 0) {
            Some(i) => Some(pairs@[i].1),
            None => None,
        },
        _ => None,
    }
}

/// The number texts of an array of exactly `n` numbers that all stay finite in
/// single precision.
pub open spec fn number_array(value: JsonValue, n: nat) -> Option<Seq<Seq<char>>> {
    match value {
        JsonValue::Array(items) => if items@.len() == n && forall|i: int|
            0 <= i < n ==> finite_number(#[trigger] items@[i]) is Some {
            Some(Seq::new(n, |i: int| finite_number(items@[i])->Some_0))
        } else {
            None
        },
        _ => None,
    }
}

/// The text of a number that stays finite in single precision.
pub open spec fn finite_number(value: JsonValue) -> Option<Seq<char>> {
    match value {
        JsonValue::Number(text) => if is_finite_text(text@) {
            Some(text@)
        } else {
            None
        },
        _ => None,
    }
}

/// The text of an optional string.
pub open spec fn opt_text(s: Option<&str>) -> Option<Seq<char>> {
    match s {
        Some(s) => Some(s@),
        None => None,
    }
}

/// The texts of optional strings.
pub open spec fn opt_texts(v: Option<Vec<String>>) -> Option<Seq<Seq<char>>> {
    match v {
        Some(v) => Some(Seq::new(v@.len(), |i: int| v@[i]@)),
        None => None,
    }
}

/// The 32-bit integer an optional value denotes.
pub open spec fn u32_result(value: Option<JsonValue>, r: Option<u32>) -> bool {
    match value {
        Some(JsonValue::Number(text)) => match r {
            Some(n) => denotes_u32(text@, n as nat),
            None => forall|n: nat| n <= u32::MAX ==> !#[trigger] denotes_u32(text@, n),
        },
        _ => r is None,
    }
}

fn decimal_of(text: &str) -> (r: Option<(bool, Vec<u8>, i128)>)
    ensures
        match number_text(encode_utf8(text@)) {
            Some(number) => r matches Some((negative, digits, exp)) && negative == number.negative
                && digits@ == number.digits && digits_ok(digits@) && exp == clamped(number.exp),
            None => r is None,
        },
{
    let bytes: &[u8] = text.as_bytes();
    assert(bytes.len() == bytes@.len());
    if bytes.len() == 0 {
        return None;
    }
    match scan_number(bytes, 0) {
        Ok((whole, fraction, end)) => {
            if end == bytes.len() {
                Some(read_decimal(bytes, 0, whole, fraction, end))
            } else {
                None
            }
        },
        Err(_) => None,
    }
}

fn is_finite(text: &str) -> (r: bool)
    ensures
        r == is_finite_text(text@),
{
    let ghost number = number_text(encode_utf8(text@));
    match decimal_of(text) {
        Some((_negative, digits, exp)) => fits_f32(
            digits.as_slice(),
            exp,
            Ghost(number->Some_0.exp),
        ),
        None => false,
    }
}

impl JsonValue {
    /// Human-readable name of this value's kind.
    pub fn kind_name(&self) -> (r: &'static str)
        ensures
            r@ == (match self {
                JsonValue::Null => "null"@,
                JsonValue::Bool(_) => "bool"@,
                JsonValue::Number(_) => "number"@,
                JsonValue::String(_) => "string"@,
                JsonValue::Array(_) => "array"@,
                JsonValue::Object(_) => "object"@,
            }),
    {
        match self {
            JsonValue::Null => "null",
            JsonValue::Bool(_) => "bool",
            JsonValue::Number(_) => "number",
            JsonValue::String(_) => "string",
            JsonValue::Array(_) => "array",
            JsonValue::Object(_) => "object",
        }
    }

    /// Whether this is `null`.
    pub fn is_null(&self) -> (r: bool)
        ensures
            r == (self is Null),
    {
        matches!(self, JsonValue::Null)
    }

    /// Look up `key` in an object. The first pair with that key wins.
    pub fn get(&self, key: &str) -> (r: Option<&JsonValue>)
        ensures
            match member(*self, key@) {
                Some(v) => r == Some(&v),
                None => r is None,
            },
    {
        match self {
            JsonValue::Object(pairs) => {
                let wanted: String = key.to_owned();
                let mut i: usize = 0;
                while i < pairs.len()
                    invariant
                        *self == JsonValue::Object(*pairs),
                        i <= pairs@.len(),
                        wanted@ == key@,
                        first_pair(pairs@, key@, 0) == first_pair(pairs@, key@, i as int),
                    decreases pairs.len() - i,
                {
                    if pairs[i].0 == wanted {
                        return Some(&pairs[i].1);
                    }
                    i = i + 1;
                }
                None
            },
            _ => None,
        }
    }

    /// Element `i` of an array.
    pub fn index(&self, i: usize) -> (r: Option<&JsonValue>)
        ensures
            match self {
                JsonValue::Array(items) => if i < items@.len() {
                    r == Some(&items@[i as int])
                } else {
                    r is None
                },
                _ => r is None,
            },
    {
        match self {
            JsonValue::Array(items) => if i < items.len() {
                Some(&items[i])
            } else {
                None
            },
            _ => None,
        }
    }

    /// Borrow the string payload.
    pub fn as_str(&self) -> (r: Option<&str>)
        ensures
            opt_text(r) == (match self {
                JsonValue::String(s) => Some(s@),
                _ => None,
            }),
    {
        match self {
            JsonValue::String(s) => Some(s.as_str()),
            _ => None,
        }
    }

    /// Numeric payload, as the text that denotes it.
    pub fn as_f64(&self) -> (r: Option<&str>)
        ensures
            opt_text(r) == (match self {
                JsonValue::Number(text) => Some(text@),
                _ => None,
            }),
    {
        match self {
            JsonValue::Number(text) => Some(text.as_str()),
            _ => None,
        }
    }

    /// Numeric payload that stays finite in single precision. A value built by
    /// hand whose text is no number, or an infinite one, has none.
    pub fn as_f32(&self) -> (r: Option<&str>)
        ensures
            opt_text(r) == finite_number(*self),
    {
        match self {
            JsonValue::Number(text) => if is_finite(text.as_str()) {
                Some(text.as_str())
            } else {
                None
            },
            _ => None,
        }
    }

    /// Numeric payload as `u32`. Negative, non-integral and out-of-range values
    /// are rejected.
    pub fn as_u32(&self) -> (r: Option<u32>)
        ensures
            u32_result(Some(*self), r),
    {
        match self {
            JsonValue::Number(text) => {
                let ghost number = number_text(encode_utf8(text@));
                match decimal_of(text.as_str()) {
                    Some((negative, digits, exp)) => nearest_u32(
                        negative,
                        digits.as_slice(),
                        exp,
                        Ghost(number->Some_0.exp),
                    ),
                    None => None,
                }
            },
            _ => None,
        }
    }

    /// Boolean payload.
    pub fn as_bool(&self) -> (r: Option<bool>)
        ensures
            r == (match self {
                JsonValue::Bool(b) => Some(*b),
                _ => None,
            }),
    {
        match self {
            JsonValue::Bool(b) => Some(*b),
            _ => None,
        }
    }

    /// Elements of an array.
    pub fn as_array(&self) -> (r: Option<&[JsonValue]>)
        ensures
            match self {
                JsonValue::Array(items) => r matches Some(s) && s@ == items@,
                _ => r is None,
            },
    {
        match self {
            JsonValue::Array(items) => Some(items.as_slice()),
            _ => None,
        }
    }

    /// Ordered key/value pairs of an object.
    pub fn as_object(&self) -> (r: Option<&[(String, JsonValue)]>)
        ensures
            match self {
                JsonValue::Object(pairs) => r matches Some(s) && s@ == pairs@,
                _ => r is None,
            },
    {
        match self {
            JsonValue::Object(pairs) => Some(pairs.as_slice()),
            _ => None,
        }
    }

    /// The number texts of an array of exactly `n` numbers.
    pub fn as_f32_array(&self, n: usize) -> (r: Option<Vec<String>>)
        ensures
            opt_texts(r) == number_array(*self, n as nat),
    {
        match self {
            JsonValue::Array(items) => {
                if items.len() != n {
                    return None;
                }
                let mut out: Vec<String> = Vec::new();
                let mut i: usize = 0;
                while i < n
                    invariant
                        *self == JsonValue::Array(*items),
                        i <= n == items@.len(),
                        out@.len() == i,
                        forall|j: int|
                            0 <= j < i ==> finite_number(#[trigger] items@[j]) == Some(out@[j]@),
                    decreases n - i,
                {
                    match items[i].as_f32() {
                        Some(text) => {
                            out.push(text.to_owned());
                        },
                        None => {
                            assert(finite_number(items@[i as int]) is None);
                            return None;
                        },
                    }
                    i = i + 1;
                }
                proof {
                    let texts = Seq::new(out@.len(), |j: int| out@[j]@);
                    assert(number_array(*self, n as nat)->Some_0 =~= texts);
                }
                Some(out)
            },
            _ => None,
        }
    }

    /// This value read as `[x, y, z]`.
    pub fn get_vec3_array(&self) -> (r: Option<Vec<String>>)
        ensures
            opt_texts(r) == number_array(*self, 3),
    {
        self.as_f32_array(3)
    }

    /// This value read as `[x, y, z, w]`.
    pub fn get_vec4_array(&self) -> (r: Option<Vec<String>>)
        ensures
            opt_texts(r) == number_array(*self, 4),
    {
        self.as_f32_array(4)
    }

    /// Object field as a string.
    pub fn get_str(&self, key: &str) -> (r: Option<&str>)
        ensures
            opt_text(r) == (match member(*self, key@) {
                Some(JsonValue::String(s)) => Some(s@),
                _ => None,
            }),
    {
        match self.get(key) {
            Some(v) => v.as_str(),
            None => None,
        }
    }

    /// Object field as a number's text.
    pub fn get_f64(&self, key: &str) -> (r: Option<&str>)
        ensures
            opt_text(r) == (match member(*self, key@) {
                Some(JsonValue::Number(text)) => Some(text@),
                _ => None,
            }),
    {
        match self.get(key) {
            Some(v) => v.as_f64(),
            None => None,
        }
    }

    /// Object field as the text of a number finite in single precision.
    pub fn get_f32(&self, key: &str) -> (r: Option<&str>)
        ensures
            opt_text(r) == (match member(*self, key@) {
                Some(v) => finite_number(v),
                None => None,
            }),
    {
        match self.get(key) {
            Some(v) => v.as_f32(),
            None => None,
        }
    }

    /// Object field as `u32`.
    pub fn get_u32(&self, key: &str) -> (r: Option<u32>)
        ensures
            u32_result(member(*self, key@), r),
    {
        match self.get(key) {
            Some(v) => v.as_u32(),
            None => None,
        }
    }

    /// Object field as a bool.
    pub fn get_bool(&self, key: &str) -> (r: Option<bool>)
        ensures
            r == (match member(*self, key@) {
                Some(JsonValue::Bool(b)) => Some(b),
                _ => None,
            }),
    {
        match self.get(key) {
            Some(v) => v.as_bool(),
            None => None,
        }
    }

    /// Object field as an array.
    pub fn get_array(&self, key: &str) -> (r: Option<&[JsonValue]>)
        ensures
            match member(*self, key@) {
                Some(JsonValue::Array(items)) => r matches Some(s) && s@ == items@,
                _ => r is None,
            },
    {
        match self.get(key) {
            Some(v) => v.as_array(),
            None => None,
        }
    }

    /// Object field as `[x, y, z]`.
    pub fn get_vec3(&self, key: &str) -> (r: Option<Vec<String>>)
        ensures
            opt_texts(r) == (match member(*self, key@) {
                Some(v) => number_array(v, 3),
                None => None,
            }),
    {
        match self.get(key) {
            Some(v) => v.get_vec3_array(),
            None => None,
        }
    }

    /// Object field as `[x, y, z, w]`.
    pub fn get_vec4(&self, key: &str) -> (r: Option<Vec<String>>)
        ensures
            opt_texts(r) == (match member(*self, key@) {
                Some(v) => number_array(v, 4),
                None => None,
            }),
    {
        match self.get(key) {
            Some(v) => v.get_vec4_array(),
            None => None,
        }
    }
}

} // verus!
