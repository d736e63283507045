use serde_json::Value;
use yerd_dump::json::{Json, Member, Number};

fn compact(text: &str) -> String {
    let value: Value = serde_json::from_str(text).unwrap();
    serde_json::to_string(&value).unwrap()
}

#[test]
fn scalars_are_encoded() {
    assert_eq!(Json::Null.encode(), "null");
    assert_eq!(Json::Bool(true).encode(), "true");
    assert_eq!(Json::Bool(false).encode(), "false");
    assert_eq!(Json::Int(0).encode(), "0");
    assert_eq!(Json::Int(i64::MIN).encode(), "-9223372036854775808");
    assert_eq!(Json::UInt(u64::MAX).encode(), "18446744073709551615");
    assert_eq!(Json::Number(Number::parse("1.5e-7").unwrap()).encode(), "1.5e-7");
}

#[test]
fn strings_are_quoted_and_escaped() {
    assert_eq!(Json::text("plain").encode(), "\"plain\"");
    assert_eq!(Json::text("").encode(), "\"\"");
    assert_eq!(
        Json::text("\"\\/\u{8}\u{c}\n\r\t\u{0}\u{1f}\u{7f}é\u{2028}😀").encode(),
        "\"\\\"\\\\/\\b\\f\\n\\r\\t\\u0000\\u001f\u{7f}é\u{2028}😀\""
    );
}

#[test]
fn every_control_character_reads_back() {
    for code in 0u8..0x80 {
        let s = format!("<{}>", code as char);
        let text = Json::text(&s).encode();
        assert_eq!(text, serde_json::to_string(&s).unwrap());
        assert!(text.chars().all(|c| c >= ' '));
        let back: Value = serde_json::from_str(&text).unwrap();
        assert_eq!(back, Value::from(s));
    }
}

#[test]
fn nested_values_are_compact() {
    let value = Json::object(vec![
        Member::new("a", Json::array(vec![Json::Int(1), Json::Null, Json::array(vec![])])),
        Member::new("b\"", Json::object(vec![])),
        Member::new("c", Json::optional_int(Some(-3))),
        Member::new("d", Json::optional_int(None)),
        Member::new("e", Json::optional_text(Some("x".to_owned()))),
        Member::new("f", Json::optional_text(None)),
    ]);
    let text = value.encode();
    assert_eq!(
        text,
        "{\"a\":[1,null,[]],\"b\\\"\":{},\"c\":-3,\"d\":null,\"e\":\"x\",\"f\":null}"
    );
    assert_eq!(text, compact(&text));
}

#[test]
fn different_strings_have_different_texts() {
    let strings = ["", "a", "\\", "\\\\", "\n", "\\n", "\"", "\\\"", "\u{1}", "\\u0001"];
    for (i, a) in strings.iter().enumerate() {
        for (j, b) in strings.iter().enumerate() {
            assert_eq!(i == j, Json::text(a).encode() == Json::text(b).encode());
        }
    }
}

#[test]
fn numbers_follow_the_json_grammar() {
    for text in [
        "0", "-0", "7", "10", "-1.5", "0.25", "1e5", "1E+5", "2.5e-10", "1.7976931348623157e308",
    ] {
        assert_eq!(Json::Number(Number::parse(text).unwrap()).encode(), text);
        assert!(serde_json::from_str::<Value>(text).is_ok());
    }
    for text in [
        "", "-", "01", "1.", ".5", "1e", "1e+", "+1", "NaN", "inf", " 1", "1 ", "0x1", "1,5",
    ] {
        assert!(Number::parse(text).is_none());
    }
}

#[test]
fn a_copied_number_is_the_same() {
    let n = Number::parse("3.25").unwrap();
    assert_eq!(Json::Number(n.duplicate()).encode(), "3.25");
    assert_eq!(Json::Number(n).encode(), "3.25");
}
