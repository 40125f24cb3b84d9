//! Reading texts agrees with the standard library.

use astraglyph::engine::json::{parse, JsonValue};
use astraglyph::text::{
    is_control, is_digit, is_number, is_whitespace, parse_i64, parse_u32, push_decimal,
    split_words,
};

fn chars(text: &str) -> Vec<char> {
    text.chars().collect()
}

#[test]
fn characters_are_classed_as_by_the_standard_library() {
    for c in '\0'..=char::MAX {
        assert_eq!(is_whitespace(c), c.is_whitespace(), "{c:?}");
        assert_eq!(is_control(c), c.is_control(), "{c:?}");
        assert_eq!(is_digit(c), c.is_ascii_digit(), "{c:?}");
    }
}

#[test]
fn words_are_split_at_white_space() {
    for text in ["", "  ", "a", " a\tbc \u{3000}d\u{85}", "one two\r\n"] {
        let words: Vec<String> =
            split_words(&chars(text)).into_iter().map(|w| w.into_iter().collect()).collect();
        let expected: Vec<&str> = text.split_whitespace().collect();
        assert_eq!(words, expected, "{text:?}");
    }
}

#[test]
fn integers_are_read_as_by_the_standard_library() {
    for text in [
        "", "+", "-", "0", "-0", "+7", "007", "12a", " 1", "1 ", "--1", "+-1", "4294967295",
        "4294967296", "-4294967296", "9223372036854775807", "9223372036854775808",
        "-9223372036854775808", "-9223372036854775809", "99999999999999999999999", "٣",
    ] {
        assert_eq!(parse_i64(&chars(text)), text.parse::<i64>().ok(), "{text:?}");
        assert_eq!(parse_u32(&chars(text)), text.parse::<u32>().ok(), "{text:?}");
    }
}

#[test]
fn number_texts_are_those_of_the_standard_library() {
    for text in [
        "", "+", "-", ".", "1", "1.", ".5", "+.5", "-.5e3", "1e", "1e+", "1e5", "1E-5", "e5",
        ".e5", "1.e5", "1.5.2", "inf", "-inf", "+Infinity", "infinit", "NaN", "-nan", "nan1",
        "0x10", "1_000", "1e999", "1e-999", "1 ", "١", "--1", "1e+-1", "infinity1", "+", "-.",
    ] {
        assert_eq!(is_number(&chars(text)), text.parse::<f32>().is_ok(), "{text:?}");
    }
}

#[test]
fn decimals_are_written_as_by_the_standard_library() {
    for n in [0, 1, 9, 10, 99, 100, 12_345, u32::MAX as u64, u64::MAX] {
        let mut text = String::from("n=");
        push_decimal(&mut text, n);
        assert_eq!(text, format!("n={n}"));
    }
}

/// A number is accepted exactly where it narrows to a finite single, and its
/// value as a count is exact.
fn compare(text: &str) {
    let value: f64 = text.parse().expect("a number");
    let accepted = (value as f32).is_finite();
    let count = if value.fract() != 0.0 || value < 0.0 || value > u32::MAX as f64 {
        None
    } else {
        Some(value as u32)
    };
    match parse(text) {
        Ok(number) => {
            assert!(accepted, "{text} was accepted");
            assert_eq!(number.as_u32(), count, "{text}");
            assert!(number.as_f32().is_some(), "{text}");
        }
        Err(_) => assert!(!accepted, "{text} was rejected"),
    }
    let by_hand = JsonValue::Number(text.to_string());
    assert_eq!(by_hand.as_f32().is_some(), accepted, "{text}");
    assert_eq!(by_hand.as_u32(), count, "{text}");
}

#[test]
fn number_limits_are_exact() {
    for text in [
        "0", "-0", "0.0", "-0.0", "0e999999999999", "1e-999999999999", "-1e-400", "7.0", "70e-1",
        "0.7e1", "4294967295", "4294967295.0", "4294967295.5", "4294967296", "42949672950e-1",
        "0.4294967295e10", "1.0000000000000000000000000001", "0.99999999999999999999999",
        "0.9999999999999999", "1e-17", "3.4028234663852886e38", "3.4028235677973362e38",
        "3.4028235677973366e38", "3.4028235677973367e38", "-3.4028235677973366e38", "3.5e38",
        "340282346638528859811704183484516925440", "340282356779733661637539395458142568447",
        "340282356779733661637539395458142568448", "1e38", "1e39", "1e308", "1e309",
        "4294967294.9999999999", "4294967295.0000000001", "4294967295.0000001",
        "4294967295.0000002", "4294967295.0000003", "4294967295.0000005",
        "0.00000000000000000000000000000000000000000000000001e50",
    ] {
        compare(text);
    }
}

#[test]
fn many_numbers_are_read_exactly() {
    let mut state = 12_345u64;
    let mut next = |limit: u64| {
        state = state.wrapping_mul(6_364_136_223_846_793_005).wrapping_add(1_442_695_040_888_963_407);
        (state >> 33) % limit
    };
    for _ in 0..20_000 {
        let mut text = String::new();
        if next(4) == 0 {
            text.push('-');
        }
        let digits = 1 + next(9) as u32;
        text.push_str(&next(10u64.pow(digits)).to_string());
        if next(2) == 0 {
            text.push('.');
            for _ in 0..1 + next(18) {
                let digit = if next(3) == 0 { next(10) } else { 0 };
                text.push((b'0' + digit as u8) as char);
            }
        }
        if next(2) == 0 {
            text.push_str(&format!("e{}", next(100) as i64 - 50));
        }
        compare(&text);
    }
}
