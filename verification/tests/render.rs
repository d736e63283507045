use yerd_dump::json::Number;
use yerd_dump::php::{ArrayKey, Double, Entry, PhpValue};
use yerd_dump::render::{html_escape, render, MAX_ITEMS, MAX_STR};

fn text_of(v: &PhpValue) -> String {
    render(v).1
}

fn string(s: &str) -> PhpValue {
    PhpValue::Str(s.to_owned())
}

fn list(values: Vec<PhpValue>) -> PhpValue {
    let mut entries = Vec::new();
    for (i, value) in values.into_iter().enumerate() {
        entries.push(Entry { key: ArrayKey::Int(i as i64), value });
    }
    PhpValue::Array(entries)
}

#[test]
fn escapes_html_metacharacters() {
    assert_eq!(
        html_escape(r#"<a href="x">&'"#),
        "&lt;a href=&quot;x&quot;&gt;&amp;&#39;"
    );
}

#[test]
fn escaped_text_holds_no_markup() {
    let all = "a<b>c\"d'e&f&lt;é…";
    let out = html_escape(all);
    assert!(!out.contains('<') && !out.contains('>'));
    assert!(!out.contains('"') && !out.contains('\''));
    assert_eq!(out, "a&lt;b&gt;c&quot;d&#39;e&amp;f&amp;lt;é…");
    assert_ne!(html_escape("<"), html_escape("&lt;"));
}

#[test]
fn scalars_are_rendered() {
    assert_eq!(text_of(&PhpValue::Null), "null");
    assert_eq!(text_of(&PhpValue::Bool(true)), "true");
    assert_eq!(text_of(&PhpValue::Bool(false)), "false");
    assert_eq!(text_of(&PhpValue::Long(-42)), "-42");
    assert_eq!(text_of(&PhpValue::Long(i64::MIN)), "-9223372036854775808");
    let double = PhpValue::Double(Double { shown: "1.5".to_owned(), json: Number::parse("1.5") });
    assert_eq!(text_of(&double), "1.5");
    assert_eq!(text_of(&string("hi")), "\"hi\"");
    assert_eq!(text_of(&PhpValue::Object(Some("App\\User".to_owned()))), "App\\User {…}");
    assert_eq!(text_of(&PhpValue::Object(None)), "object {…}");
    assert_eq!(text_of(&PhpValue::Other), "(unknown)");
}

#[test]
fn the_html_is_the_escaped_text() {
    let (html, text) = render(&string("<b>"));
    assert_eq!(text, "\"<b>\"");
    assert_eq!(html, "<pre>&quot;&lt;b&gt;&quot;</pre>");
}

#[test]
fn arrays_are_indented() {
    let inner = PhpValue::Array(vec![Entry {
        key: ArrayKey::Str("k".to_owned()),
        value: PhpValue::Null,
    }]);
    let outer = PhpValue::Array(vec![
        Entry { key: ArrayKey::Int(0), value: PhpValue::Long(1) },
        Entry { key: ArrayKey::Str("in".to_owned()), value: inner },
    ]);
    assert_eq!(text_of(&outer), "[\n  0 => 1\n  in => [\n    k => null\n  ]\n]");
    assert_eq!(text_of(&list(vec![])), "[\n]");
}

#[test]
fn nesting_is_capped() {
    let mut value = PhpValue::Long(1);
    for _ in 0..6 {
        value = list(vec![value]);
    }
    assert_eq!(
        text_of(&value),
        "[\n  0 => [\n    0 => [\n      0 => [\n        0 => array(…)\n      ]\n    ]\n  ]\n]"
    );
}

#[test]
fn breadth_is_capped() {
    let hundred = text_of(&list((0..MAX_ITEMS).map(|_| PhpValue::Null).collect()));
    assert!(hundred.ends_with("  99 => null\n]"));
    let more = text_of(&list((0..MAX_ITEMS + 1).map(|_| PhpValue::Null).collect()));
    assert!(more.ends_with("  99 => null\n  …\n]"));
    let many = text_of(&list((0..MAX_ITEMS + 500).map(|_| PhpValue::Null).collect()));
    assert_eq!(more, many);
}

#[test]
fn strings_are_capped() {
    let exact = "x".repeat(MAX_STR);
    assert_eq!(text_of(&string(&exact)), format!("\"{exact}\""));
    let longer = "x".repeat(MAX_STR + 1);
    let longest = "x".repeat(MAX_STR + 1000);
    assert_eq!(text_of(&string(&longer)), format!("\"{exact}…[truncated]\""));
    assert_eq!(text_of(&string(&longer)), text_of(&string(&longest)));
}
