use metrics_cloudwatch_embedded::json::{render_i64, render_u64, Chunk, JsonText};
use metrics_cloudwatch_embedded::value::{JsonScalar, JsonValue};

fn text_of(out: JsonText) -> String {
    let mut text = String::new();
    for chunk in out.into_chunks() {
        match chunk {
            Chunk::Text(s) => text.push_str(&s),
            Chunk::Float(bits) => {
                text.push_str(&serde_json::to_string(&f64::from_bits(bits)).unwrap())
            }
        }
    }
    text
}

fn rendered(value: &JsonValue) -> String {
    let mut out = JsonText::new();
    value.render(&mut out);
    text_of(out)
}

#[test]
fn quoting_escapes_quotes_and_backslashes() {
    let mut out = JsonText::new();
    out.push_quoted("a\"b\\c");
    assert_eq!(text_of(out), r#""a\"b\\c""#);
}

#[test]
fn quoting_differs_from_its_argument() {
    let mut out = JsonText::new();
    out.push_quoted("plain");
    assert_eq!(text_of(out), "\"plain\"");
}

#[test]
fn quoting_escapes_control_characters() {
    let mut out = JsonText::new();
    out.push_quoted("\u{8}\t\n\u{c}\r\u{0}\u{1f}\u{7f}é");
    assert_eq!(text_of(out), "\"\\b\\t\\n\\f\\r\\u0000\\u001f\u{7f}é\"");
}

fn escaped_by_the_rules(s: &str) -> String {
    let mut out = String::from("\"");
    for c in s.chars() {
        match c {
            '"' => out.push_str("\\\""),
            '\\' => out.push_str("\\\\"),
            '\u{8}' => out.push_str("\\b"),
            '\t' => out.push_str("\\t"),
            '\n' => out.push_str("\\n"),
            '\u{c}' => out.push_str("\\f"),
            '\r' => out.push_str("\\r"),
            c if (c as u32) < 0x20 => {
                out.push_str(&format!("\\u00{:x}{:x}", c as u32 / 16, c as u32 % 16))
            }
            c => out.push(c),
        }
    }
    out.push('"');
    out
}

#[test]
fn quoting_follows_the_rules_on_every_character_up_to_latin() {
    let mut all = String::new();
    for code in 0u32..0x300 {
        let c = char::from_u32(code).unwrap();
        all.push(c);
        let s = c.to_string();
        let mut out = JsonText::new();
        out.push_quoted(&s);
        assert_eq!(text_of(out), escaped_by_the_rules(&s), "U+{:04X}", code);
    }
    all.push_str("\u{2028}\u{2029}\u{ffff}\u{10000}\u{10ffff}");
    let mut out = JsonText::new();
    out.push_quoted(&all);
    assert_eq!(text_of(out), escaped_by_the_rules(&all));
}

#[test]
fn decimal_of_unsigned() {
    assert_eq!(render_u64(0), "0");
    assert_eq!(render_u64(7), "7");
    assert_eq!(render_u64(10), "10");
    assert_eq!(render_u64(1687657545423), "1687657545423");
    assert_eq!(render_u64(u64::MAX), "18446744073709551615");
}

#[test]
fn decimal_of_signed() {
    assert_eq!(render_i64(0), "0");
    assert_eq!(render_i64(-1), "-1");
    assert_eq!(render_i64(42), "42");
    assert_eq!(render_i64(i64::MIN), "-9223372036854775808");
    assert_eq!(render_i64(i64::MAX), "9223372036854775807");
}

#[test]
fn decimal_agrees_with_serde_json() {
    for n in [0u64, 1, 9, 10, 99, 100, 12345, u64::MAX] {
        assert_eq!(render_u64(n), serde_json::to_string(&n).unwrap());
    }
    for n in [i64::MIN, -10, -1, 0, 1, i64::MAX] {
        assert_eq!(render_i64(n), serde_json::to_string(&n).unwrap());
    }
}

#[test]
fn scalars_render_as_json() {
    assert_eq!(rendered(&JsonValue::Scalar(JsonScalar::Null)), "null");
    assert_eq!(rendered(&JsonValue::Scalar(JsonScalar::Bool(true))), "true");
    assert_eq!(rendered(&JsonValue::Scalar(JsonScalar::Bool(false))), "false");
    assert_eq!(rendered(&JsonValue::Scalar(JsonScalar::Unsigned(3))), "3");
    assert_eq!(rendered(&JsonValue::Scalar(JsonScalar::Signed(-3))), "-3");
    assert_eq!(rendered(&JsonValue::Scalar(JsonScalar::Float(2.5f64.to_bits()))), "2.5");
    assert_eq!(rendered(&JsonValue::Scalar(JsonScalar::Text("x".to_string()))), "\"x\"");
}

#[test]
fn arrays_render_with_commas_between() {
    assert_eq!(rendered(&JsonValue::Array(Vec::new())), "[]");
    assert_eq!(rendered(&JsonValue::Array(vec![JsonScalar::Unsigned(1)])), "[1]");
    assert_eq!(
        rendered(&JsonValue::Array(vec![
            JsonScalar::Unsigned(1),
            JsonScalar::Text("a".to_string()),
            JsonScalar::Null
        ])),
        "[1,\"a\",null]"
    );
    assert_eq!(rendered(&JsonValue::floats(&vec![4.0f64.to_bits(), 5.0f64.to_bits()])), "[4.0,5.0]");
}

#[test]
fn a_double_is_handed_out_as_a_chunk_of_its_own() {
    let mut out = JsonText::new();
    out.push_str("a");
    out.push_float(1.5f64.to_bits());
    out.push_str("b");
    out.push_str("c");
    let chunks = out.into_chunks();
    let mut floats = 0;
    let mut text = String::new();
    for chunk in &chunks {
        match chunk {
            Chunk::Text(s) => text.push_str(s),
            Chunk::Float(bits) => {
                floats += 1;
                assert_eq!(*bits, 1.5f64.to_bits());
                text.push('#');
            }
        }
    }
    assert_eq!(floats, 1);
    assert_eq!(text, "a#bc");
}

#[test]
fn empty_text_is_empty() {
    let mut out = JsonText::new();
    assert!(out.is_empty());
    out.push_str("");
    assert!(out.is_empty());
    out.push_float(0);
    assert!(!out.is_empty());
    let mut other = JsonText::new();
    other.push_str("x");
    assert!(!other.is_empty());
    other.push_text(out);
    assert_eq!(text_of(other), "x0.0");
}

#[test]
fn duplicate_keeps_the_value() {
    let value = JsonValue::Array(vec![JsonScalar::Text("a".to_string()), JsonScalar::Signed(-2)]);
    assert_eq!(rendered(&value.duplicate()), rendered(&value));
}
