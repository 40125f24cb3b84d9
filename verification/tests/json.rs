//! JSON parsing and typed access to documents.

use astraglyph::engine::json::{parse, JsonValue, MAX_DEPTH};

/// Numbers are kept as their texts: these read them.
trait Numbers {
    fn num(&self) -> Option<f64>;
    fn num32(&self) -> Option<f32>;
    fn member_num(&self, key: &str) -> Option<f64>;
    fn member_num32(&self, key: &str) -> Option<f32>;
    fn triple(&self) -> Option<[f32; 3]>;
    fn quadruple(&self) -> Option<[f32; 4]>;
    fn member_triple(&self, key: &str) -> Option<[f32; 3]>;
    fn member_quadruple(&self, key: &str) -> Option<[f32; 4]>;
}

fn value(text: &str) -> f64 {
    text.parse().expect("a number")
}

fn value32(text: &str) -> f32 {
    text.parse().expect("a number")
}

fn values<const N: usize>(texts: Vec<String>) -> [f32; N] {
    let values: Vec<f32> = texts.iter().map(|text| value32(text)).collect();
    values.try_into().expect("the asked number of components")
}

impl Numbers for JsonValue {
    fn num(&self) -> Option<f64> {
        self.as_f64().map(value)
    }

    fn num32(&self) -> Option<f32> {
        self.as_f32().map(value32)
    }

    fn member_num(&self, key: &str) -> Option<f64> {
        self.get_f64(key).map(value)
    }

    fn member_num32(&self, key: &str) -> Option<f32> {
        self.get_f32(key).map(value32)
    }

    fn triple(&self) -> Option<[f32; 3]> {
        self.get_vec3_array().map(values)
    }

    fn quadruple(&self) -> Option<[f32; 4]> {
        self.get_vec4_array().map(values)
    }

    fn member_triple(&self, key: &str) -> Option<[f32; 3]> {
        self.get_vec3(key).map(values)
    }

    fn member_quadruple(&self, key: &str) -> Option<[f32; 4]> {
        self.get_vec4(key).map(values)
    }
}

fn number(text: &str) -> JsonValue {
    JsonValue::Number(text.to_string())
}

/// Parse and unwrap, surfacing the error text on failure.
fn ok(input: &str) -> JsonValue {
    match parse(input) {
        Ok(v) => v,
        Err(e) => panic!("expected `{input}` to parse, got: {}", e.message()),
    }
}

/// Assert the input is rejected and hand back the message for inspection.
fn err(input: &str) -> String {
    match parse(input) {
        Ok(v) => panic!("expected `{input}` to be rejected, got: {v:?}"),
        Err(e) => e.message(),
    }
}

/// A JSON unicode escape (`backslash` + `u` + hex), assembled at runtime. Built this way
/// on purpose: a literal escape in this source risks being decoded by tooling before it
/// ever reaches the parser, which would silently gut these tests.
fn uesc(hex: &str) -> String {
    let mut s = String::from("\\");
    s.push('u');
    s.push_str(hex);
    s
}

/// Wrap a raw string body in JSON quotes.
fn quoted(body: &str) -> String {
    format!("\"{body}\"")
}

/// `depth` nested containers of one kind, e.g. `[[[]]]`.
fn nested(open: char, close: char, depth: usize) -> String {
    let mut s = String::with_capacity(depth * 2);
    for _ in 0..depth {
        s.push(open);
    }
    for _ in 0..depth {
        s.push(close);
    }
    s
}

/// Well-formed alternating array/object nest of `depth` levels wrapped around a `1`.
fn mixed_nest(depth: usize) -> String {
    let mut open = String::new();
    let mut close = String::new();
    for i in 0..depth {
        if i % 2 == 0 {
            open.push('[');
            close.insert(0, ']');
        } else {
            open.push_str("{\"k\":");
            close.insert(0, '}');
        }
    }
    format!("{open}1{close}")
}

// --- primitives ----------------------------------------------------------------------

#[test]
fn parses_literals() {
    assert_eq!(ok("null"), JsonValue::Null);
    assert_eq!(ok("true"), JsonValue::Bool(true));
    assert_eq!(ok("false"), JsonValue::Bool(false));
}

#[test]
fn parses_empty_containers() {
    assert_eq!(ok("[]"), JsonValue::Array(vec![]));
    assert_eq!(ok("{}"), JsonValue::Object(vec![]));
    assert_eq!(ok("[ ]").as_array().expect("array").len(), 0);
    assert_eq!(ok("{ }").as_object().expect("object").len(), 0);
}

#[test]
fn parses_plain_string() {
    assert_eq!(ok("\"hello world\"").as_str(), Some("hello world"));
    assert_eq!(ok("\"\"").as_str(), Some(""));
}

#[test]
fn parses_non_ascii_string_verbatim() {
    // Multi-byte UTF-8 must survive the byte-level scanner untouched.
    let src = "\"\u{043F}\u{0440}\u{0438} \u{4E2D} \u{1F600}\"";
    assert_eq!(ok(src).as_str(), Some("\u{043F}\u{0440}\u{0438} \u{4E2D} \u{1F600}"));
}

// --- numbers -------------------------------------------------------------------------

#[test]
fn parses_number_forms() {
    assert_eq!(ok("0").num(), Some(0.0));
    assert_eq!(ok("-0").num(), Some(-0.0));
    assert_eq!(ok("-1").num(), Some(-1.0));
    assert_eq!(ok("42").num(), Some(42.0));
    assert_eq!(ok("1.5").num(), Some(1.5));
    assert_eq!(ok("1e10").num(), Some(1e10));
    assert_eq!(ok("1E10").num(), Some(1e10));
    assert_eq!(ok("1e+10").num(), Some(1e10));
    assert_eq!(ok("-2.5e-3").num(), Some(-2.5e-3));
    assert_eq!(ok("0.0").num(), Some(0.0));
    assert_eq!(ok("-0.125").num(), Some(-0.125));
    assert_eq!(ok("123456789012345").num(), Some(123456789012345.0));
}

#[test]
fn rejects_malformed_numbers() {
    for input in ["01", "-", "-x", ".5", "1.", "1e", "1e+", "1.2.3", "+1", "0.", "--1", "1e--2"]
    {
        assert!(parse(input).is_err(), "`{input}` should be rejected");
    }
}

#[test]
fn rejects_non_finite_numbers() {
    // Overflow to infinity would silently corrupt downstream math.
    let message = err("1e999");
    assert!(message.contains("finite"), "message should explain the overflow: {message}");
}

#[test]
fn rejects_numbers_outside_f32_range_at_parse_time() {
    // Finite as f64, infinite as f32. Rejected by the *parser*, not the
    // accessor, so a bad literal in a scene file fails with a byte offset
    // instead of surfacing as "optional field silently used its default".
    for input in ["1e300", "-1e300", "1e39", "3.5e38"] {
        let message = err(input);
        assert!(
            message.contains("offset") && message.contains("f32"),
            "`{input}` should be rejected with an offset and a reason: {message}"
        );
    }
    // The offset must point at the number, not the start of the document.
    let message = err(r#"{ "fov": 1e300 }"#);
    assert!(message.contains("offset 9"), "wrong offset: {message}");
}

#[test]
fn numeric_accessors_narrow_correctly() {
    assert_eq!(ok("1.5").num32(), Some(1.5f32));
    assert_eq!(ok("7").as_u32(), Some(7));
    assert_eq!(ok("7.5").as_u32(), None, "non-integral must not truncate silently");
    assert_eq!(ok("-1").as_u32(), None, "negative must not wrap");
    assert_eq!(ok("1e20").as_u32(), None, "out of range must be rejected");
    assert_eq!(ok("\"7\"").num(), None, "strings are not numbers");
    assert_eq!(ok("true").num(), None);
    assert_eq!(ok("4294967295").as_u32(), Some(u32::MAX), "the exact upper bound fits");
    assert_eq!(ok("4294967296").as_u32(), None, "one past the upper bound does not");
}

#[test]
fn as_f32_rejects_values_outside_f32_range() {
    // The parser rejects these (see
    // `rejects_numbers_outside_f32_range_at_parse_time`), so the only way such
    // values reach the accessor is a hand-constructed document — which must
    // still not smuggle an infinity through.
    assert_eq!(number("1e300").num32(), None);
    assert_eq!(number("-1e300").num32(), None);
    assert_eq!(number("NaN").num32(), None);
    assert_eq!(
        number("1e300").num(),
        Some(1e300),
        "as_f64 still reports it faithfully"
    );
    // The rejection propagates through the aggregate accessors a scene loader uses.
    let vec = JsonValue::Array(vec![
        number("1e300"),
        number("0.0"),
        number("0.0"),
    ]);
    assert_eq!(vec.triple(), None);

    // Values that merely lose precision stay accepted.
    assert_eq!(ok("1e-300").num32(), Some(0.0), "underflow to zero is ordinary");
    assert_eq!(ok("3.4e38").num32().map(f32::is_finite), Some(true), "inside f32 range");
    assert_eq!(ok("[1, 2, 3]").triple(), Some([1.0, 2.0, 3.0]));
}

#[test]
fn skips_a_single_leading_utf8_bom() {
    assert_eq!(ok("\u{FEFF}{\"a\": 1}").member_num("a"), Some(1.0));
    assert_eq!(ok("\u{FEFF} [1]").as_array().map(|a| a.len()), Some(1));
    assert_eq!(ok("\u{FEFF}null"), JsonValue::Null);

    assert!(parse("\u{FEFF}").is_err(), "a BOM alone is not a document");
    assert!(parse("\u{FEFF}\u{FEFF}1").is_err(), "only the first BOM is tolerated");
    assert!(parse("[\u{FEFF}1]").is_err(), "a BOM inside the document is not whitespace");
    assert!(parse("1\u{FEFF}").is_err(), "a trailing BOM is still trailing content");

    // Offsets must keep counting the BOM bytes so they still index into the real file.
    let message = err("\u{FEFF}x");
    assert!(message.contains("offset 3"), "offset must include the BOM bytes: {message}");
}

// --- escapes -------------------------------------------------------------------------

#[test]
fn parses_all_simple_escapes() {
    let value = ok(r#""\"\\\/\b\f\n\r\t""#);
    assert_eq!(value.as_str(), Some("\"\\/\u{0008}\u{000C}\n\r\t"));
}

#[test]
fn parses_unicode_escapes() {
    assert_eq!(ok(&quoted(&uesc("0041"))).as_str(), Some("A"));
    assert_eq!(ok(&quoted(&uesc("00e9"))).as_str(), Some("\u{00E9}"));
    assert_eq!(ok(&quoted(&uesc("002F"))).as_str(), Some("/"), "uppercase hex");
    assert_eq!(ok(&quoted(&uesc("0000"))).as_str(), Some("\u{0000}"));
    assert_eq!(ok(&quoted(&uesc("07FF"))).as_str(), Some("\u{07FF}"), "2-byte boundary");
    assert_eq!(ok(&quoted(&uesc("0800"))).as_str(), Some("\u{0800}"), "3-byte boundary");

    let two = format!("{}{}", uesc("4e2d"), uesc("6587"));
    assert_eq!(ok(&quoted(&two)).as_str(), Some("\u{4E2D}\u{6587}"));

    // Escapes interleaved with literal text.
    let mixed = format!("a{}c", uesc("0062"));
    assert_eq!(ok(&quoted(&mixed)).as_str(), Some("abc"));
}

#[test]
fn parses_surrogate_pairs() {
    let grin = format!("{}{}", uesc("D83D"), uesc("DE00"));
    assert_eq!(ok(&quoted(&grin)).as_str(), Some("\u{1F600}"));

    let grin_lower = format!("{}{}", uesc("d83d"), uesc("de00"));
    assert_eq!(ok(&quoted(&grin_lower)).as_str(), Some("\u{1F600}"), "lowercase hex");

    let embedded = format!("x{}{}y", uesc("D83D"), uesc("DE00"));
    assert_eq!(ok(&quoted(&embedded)).as_str(), Some("x\u{1F600}y"));

    // Both ends of the supplementary planes.
    let lowest = format!("{}{}", uesc("D800"), uesc("DC00"));
    assert_eq!(ok(&quoted(&lowest)).as_str(), Some("\u{10000}"));
    let highest = format!("{}{}", uesc("DBFF"), uesc("DFFF"));
    assert_eq!(ok(&quoted(&highest)).as_str(), Some("\u{10FFFF}"));
}

#[test]
fn rejects_bad_escapes() {
    assert!(parse("\"\\q\"").is_err(), "unknown escape letter");
    assert!(parse("\"\\N\"").is_err(), "unknown escape letter");
    assert!(parse("\"\\\"").is_err(), "escaped quote leaves the string unterminated");
    assert!(parse("\"\\").is_err(), "backslash at end of input");
    assert!(parse("\"\\u\"").is_err(), "unicode escape without digits");
    assert!(parse(&quoted(&uesc("12"))).is_err(), "too few hex digits");
    assert!(parse(&quoted(&uesc("ZZZZ"))).is_err(), "non-hex digits");
    assert!(parse(&quoted(&uesc("00G1"))).is_err(), "partially non-hex");
}

#[test]
fn rejects_lone_surrogates() {
    assert!(parse(&quoted(&uesc("D800"))).is_err(), "lone high surrogate");
    assert!(parse(&quoted(&uesc("DBFF"))).is_err(), "lone high surrogate at range end");
    assert!(parse(&quoted(&uesc("DC00"))).is_err(), "lone low surrogate");
    assert!(parse(&quoted(&uesc("DFFF"))).is_err(), "lone low surrogate at range end");

    let then_text = quoted(&format!("{}x", uesc("D800")));
    assert!(parse(&then_text).is_err(), "high surrogate followed by plain text");

    let then_bmp = quoted(&format!("{}{}", uesc("D800"), uesc("0041")));
    assert!(parse(&then_bmp).is_err(), "high surrogate followed by a non-surrogate escape");

    let two_highs = quoted(&format!("{}{}", uesc("D800"), uesc("D800")));
    assert!(parse(&two_highs).is_err(), "two high surrogates in a row");

    let truncated = quoted(&format!("{}\\u", uesc("D800")));
    assert!(parse(&truncated).is_err(), "high surrogate then a truncated escape");
}

#[test]
fn rejects_raw_control_characters_in_strings() {
    assert!(parse("\"a\nb\"").is_err(), "raw newline");
    assert!(parse("\"a\tb\"").is_err(), "raw tab");
    assert!(parse("\"a\u{0000}b\"").is_err(), "raw NUL");
}

// --- structure -----------------------------------------------------------------------

#[test]
fn parses_flat_array() {
    let value = ok("[1, 2, 3]");
    assert_eq!(value.as_array().expect("array").len(), 3);
    assert_eq!(value.index(0).and_then(|v| v.num()), Some(1.0));
    assert_eq!(value.index(2).and_then(|v| v.num()), Some(3.0));
    assert_eq!(value.index(3), None, "out of bounds");
}

#[test]
fn parses_heterogeneous_array() {
    let value = ok("[null, true, 1, \"s\", [], {}]");
    let items = value.as_array().expect("array");
    assert_eq!(items.len(), 6);
    assert!(items[0].is_null());
    assert_eq!(items[1].as_bool(), Some(true));
    assert_eq!(items[2].num(), Some(1.0));
    assert_eq!(items[3].as_str(), Some("s"));
    assert_eq!(items[4].kind_name(), "array");
    assert_eq!(items[5].kind_name(), "object");
}

#[test]
fn parses_nested_object_graph() {
    let src = r#"{
        "name": "cornell",
        "camera": { "position": [0.0, 1.0, -3.5], "fov": 60, "perspective": true },
        "entities": [
            { "mesh": "sphere", "segments": 32,
              "material": { "type": "mirror", "reflectivity": 0.5 } },
            { "mesh": "plane",
              "material": { "type": "matte", "color": [1, 1, 1, 1] } }
        ]
    }"#;
    let doc = ok(src);
    assert_eq!(doc.get_str("name"), Some("cornell"));
    assert_eq!(doc.as_object().expect("object").len(), 3);

    let camera = doc.get("camera").expect("camera");
    assert_eq!(camera.member_triple("position"), Some([0.0, 1.0, -3.5]));
    assert_eq!(camera.member_num32("fov"), Some(60.0));
    assert_eq!(camera.get_bool("perspective"), Some(true));
    assert_eq!(camera.member_triple("missing"), None);

    let entities = doc.get_array("entities").expect("entities");
    assert_eq!(entities.len(), 2);
    assert_eq!(entities[0].get_str("mesh"), Some("sphere"));
    assert_eq!(entities[0].get_u32("segments"), Some(32));
    assert_eq!(
        entities[0].get("material").and_then(|m| m.member_num32("reflectivity")),
        Some(0.5)
    );
    assert_eq!(entities[1].get("material").and_then(|m| m.get_str("type")), Some("matte"));
    assert_eq!(entities[1].get("material").and_then(|m| m.member_quadruple("color")), Some([1.0; 4]));
    assert_eq!(doc.get("missing"), None);
}

#[test]
fn object_preserves_order_and_first_duplicate_wins() {
    let doc = ok(r#"{ "z": 1, "a": 2, "z": 3 }"#);
    let pairs = doc.as_object().expect("object");
    assert_eq!(pairs.len(), 3);
    assert_eq!(pairs[0].0, "z");
    assert_eq!(pairs[1].0, "a");
    assert_eq!(pairs[2].0, "z");
    assert_eq!(doc.member_num("z"), Some(1.0), "lookup returns the first occurrence");
}

#[test]
fn accessors_return_none_on_type_mismatch() {
    let object = ok(r#"{ "a": 1 }"#);
    assert_eq!(object.as_array(), None);
    assert_eq!(object.as_str(), None);
    assert_eq!(object.as_bool(), None);
    assert_eq!(object.index(0), None);
    assert_eq!(object.get_str("a"), None, "number is not a string");

    let array = ok("[1, 2, 3]");
    assert_eq!(array.get("a"), None);
    assert_eq!(array.as_object(), None);
    assert_eq!(array.triple(), Some([1.0, 2.0, 3.0]));

    assert_eq!(ok("[1, 2]").triple(), None, "too few components");
    assert_eq!(ok("[1, 2, 3, 4]").triple(), None, "too many components");
    assert_eq!(ok(r#"[1, "x", 3]"#).triple(), None, "non-numeric component");
    assert_eq!(ok("[1, 2, 3, 4]").quadruple(), Some([1.0, 2.0, 3.0, 4.0]));
    assert_eq!(ok("null").triple(), None);
}

#[test]
fn type_name_reports_every_kind() {
    assert_eq!(ok("null").kind_name(), "null");
    assert_eq!(ok("true").kind_name(), "bool");
    assert_eq!(ok("1").kind_name(), "number");
    assert_eq!(ok("\"s\"").kind_name(), "string");
    assert_eq!(ok("[]").kind_name(), "array");
    assert_eq!(ok("{}").kind_name(), "object");
    assert!(!ok("0").is_null());
}

// --- whitespace ----------------------------------------------------------------------

#[test]
fn tolerates_arbitrary_whitespace() {
    let src = " \t\r\n { \n \"a\" \t : \r\n [ 1 , 2 ] \n } \t\r\n ";
    let doc = ok(src);
    assert_eq!(doc.get_array("a").map(|a| a.len()), Some(2));
    assert_eq!(ok("\n\t 7 \n").num(), Some(7.0));
    assert_eq!(ok(" [ ] ").kind_name(), "array");
}

// --- malformed input -----------------------------------------------------------------

#[test]
fn rejects_empty_and_whitespace_only_input() {
    assert!(parse("").is_err());
    assert!(parse("   \n\t ").is_err());
    let message = err("");
    assert!(message.contains("end of input"), "message should say why: {message}");
}

#[test]
fn rejects_unterminated_string() {
    assert!(parse("\"abc").is_err());
    assert!(parse("\"").is_err());
    assert!(parse(r#"{ "key": "value }"#).is_err());
    let message = err("\"abc");
    assert!(message.contains("closing"), "message should name the cause: {message}");
}

#[test]
fn rejects_unterminated_containers() {
    for input in
        ["[", "[1", "[1,", "[[1]", "[1 2]", "{", "{\"a\"", "{\"a\":", "{\"a\":1", "{\"a\":1,"]
    {
        assert!(parse(input).is_err(), "`{input}` should be rejected");
    }
}

#[test]
fn rejects_trailing_commas() {
    assert!(parse("[1,]").is_err());
    assert!(parse("[,]").is_err());
    assert!(parse("[1,,2]").is_err());
    assert!(parse(r#"{"a":1,}"#).is_err());
    assert!(parse(r#"{,}"#).is_err());
}

#[test]
fn rejects_trailing_content() {
    for input in ["1 2", "{} {}", "null x", "[] []", "\"a\" \"b\"", "truefalse", "[1][2]"] {
        assert!(parse(input).is_err(), "`{input}` should be rejected");
    }
}

#[test]
fn rejects_broken_object_syntax() {
    for input in [r#"{a: 1}"#, r#"{"a" 1}"#, r#"{"a": }"#, r#"{1: 2}"#, r#"{"a"::1}"#] {
        assert!(parse(input).is_err(), "`{input}` should be rejected");
    }
}

#[test]
fn rejects_partial_literals() {
    for input in ["nul", "tru", "fals", "None", "NULL", "n", "undefined"] {
        assert!(parse(input).is_err(), "`{input}` should be rejected");
    }
}

#[test]
fn errors_carry_offset_and_expectation() {
    // The unexpected `"` sits at index 8: `{"a": 1 "b": 2}`.
    let message = err(r#"{"a": 1 "b": 2}"#);
    assert!(message.contains("offset"), "message should locate the failure: {message}");
    assert!(message.contains("expected"), "message should state expectation: {message}");
    assert!(message.contains("offset 8"), "wrong offset reported: {message}");
}

// --- depth limit ---------------------------------------------------------------------

#[test]
fn accepts_nesting_up_to_the_limit() {
    assert!(parse(&nested('[', ']', MAX_DEPTH - 1)).is_ok());
    assert!(parse(&nested('[', ']', MAX_DEPTH)).is_ok());
    assert!(parse(&mixed_nest(MAX_DEPTH)).is_ok());
}

#[test]
fn rejects_nesting_past_the_limit() {
    let src = nested('[', ']', MAX_DEPTH + 1);
    let message = match parse(&src) {
        Ok(_) => panic!("depth {} should be rejected", MAX_DEPTH + 1),
        Err(e) => e.message(),
    };
    assert!(message.contains("depth"), "message should mention depth: {message}");
    assert!(parse(&mixed_nest(MAX_DEPTH + 1)).is_err(), "arrays and objects share the budget");
}

#[test]
fn survives_pathologically_deep_input_without_overflowing() {
    // Errors out at the cap instead of recursing a hundred thousand frames deep.
    assert!(parse(&nested('[', ']', 100_000)).is_err());

    let mut deep_objects = String::new();
    for _ in 0..100_000 {
        deep_objects.push_str("{\"a\":");
    }
    assert!(parse(&deep_objects).is_err());
}

#[test]
fn values_can_be_copied() {
    let value = parse(r#"{"a": [1, true, null, "x"], "b": {"c": -2.5}, "a": []}"#).unwrap();
    assert_eq!(value.clone(), value);
}
