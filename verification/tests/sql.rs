use yerd_dump::json::Number;
use yerd_dump::observers::sql::{
    binding_value, is_read, sql_literal, substitute, BINDING_JSON_CAP, BINDING_STR_CAP,
};
use yerd_dump::php::{Double, PhpValue};

fn pair(name: &str, value: &str) -> (String, String) {
    (name.to_owned(), value.to_owned())
}

fn string(s: &str) -> PhpValue {
    PhpValue::Str(s.to_owned())
}

#[test]
fn positional_in_order() {
    let got = substitute(
        r#"SELECT * FROM "p" WHERE id = ? AND name = ?"#,
        &vec!["7".into(), "'Ada'".into()],
        &vec![],
    );
    assert_eq!(got, r#"SELECT * FROM "p" WHERE id = 7 AND name = 'Ada'"#);
}

#[test]
fn named_placeholders() {
    let named = vec![pair("id", "42"), pair("active", "1")];
    let got = substitute("VALUES (:id, :active)", &vec![], &named);
    assert_eq!(got, "VALUES (42, 1)");
}

#[test]
fn does_not_touch_question_mark_inside_string_literal() {
    let got = substitute(
        "WHERE note = 'why? really' AND id = ?",
        &vec!["9".into()],
        &vec![],
    );
    assert_eq!(got, "WHERE note = 'why? really' AND id = 9");
}

#[test]
fn leftover_placeholder_when_too_few_bindings() {
    let got = substitute("a = ? AND b = ?", &vec!["1".into()], &vec![]);
    assert_eq!(got, "a = 1 AND b = ?");
}

#[test]
fn escaped_quote_inside_literal() {
    let got = substitute(
        "name = 'O''Brien' AND id = ?",
        &vec!["3".into()],
        &vec![],
    );
    assert_eq!(got, "name = 'O''Brien' AND id = 3");
}

#[test]
fn unknown_named_left_intact() {
    let got = substitute("x = :missing", &vec![], &vec![]);
    assert_eq!(got, "x = :missing");
}

#[test]
fn reads_are_detected() {
    for s in [
        "select 1",
        "  SELECT *",
        "WITH x AS (..)",
        "pragma foo",
        "explain select",
    ] {
        assert!(is_read(s), "{s} should be a read");
    }
    for s in ["insert into t", "UPDATE t", "delete from t", "create table"] {
        assert!(!is_read(s), "{s} should be a write");
    }
}

#[test]
fn all_reading_keywords_are_known() {
    for s in ["show tables", "Describe t", "desc t", "\t\n with x", "select", "\u{a0}select 1"] {
        assert!(is_read(s));
    }
    for s in ["", "   ", "selects", "select(1)", "(select 1)", "descending", "ſelect 1"] {
        assert!(!is_read(s));
    }
}

#[test]
fn blanks_before_a_statement_do_not_matter() {
    for s in ["select 1", "update t", ""] {
        assert_eq!(is_read(s), is_read(&format!(" \t\r\n\u{b}\u{c}\u{2003}{s}")));
    }
}

#[test]
fn the_case_of_a_statement_does_not_matter() {
    for s in ["select 1", "SELECT 1", "SeLeCt 1", "\tExPlAiN x"] {
        assert!(is_read(s));
    }
    for s in ["insert x", "INSERT X", "InSeRt x"] {
        assert!(!is_read(s));
    }
}

#[test]
fn a_name_is_taken_whole() {
    let named = vec![pair("id", "1"), pair("id2", "2"), pair("naïve_3", "3")];
    assert_eq!(substitute(":id :id2 :id_", &vec![], &named), "1 2 :id_");
    assert_eq!(substitute(":naïve_3;", &vec![], &named), "3;");
    assert_eq!(substitute(": ::id", &vec![], &named), ": :1");
    let empty = vec![pair("", "x")];
    assert_eq!(substitute("a : b", &vec![], &empty), "a : b");
}

#[test]
fn the_later_value_of_a_name_stands() {
    let named = vec![pair("id", "1"), pair("id", "2")];
    assert_eq!(substitute(":id", &vec![], &named), "2");
}

#[test]
fn substituted_values_are_not_scanned_again() {
    let got = substitute("? ?", &vec!["'?'".into(), ":x".into()], &vec![pair("x", "9")]);
    assert_eq!(got, "'?' :x");
}

#[test]
fn an_open_literal_runs_to_the_end() {
    assert_eq!(substitute("a = 'b ? :c", &vec!["1".into()], &vec![pair("c", "2")]), "a = 'b ? :c");
    assert_eq!(substitute("''?", &vec!["1".into()], &vec![]), "''1");
    assert_eq!(substitute("'''?'?", &vec!["1".into()], &vec![]), "'''?'1");
}

#[test]
fn text_without_placeholders_stays() {
    assert_eq!(substitute("select \"a\" é", &vec!["1".into()], &vec![]), "select \"a\" é");
    assert_eq!(substitute("", &vec!["1".into()], &vec![]), "");
    assert_eq!(substitute("a = ? 'x' :y", &vec![], &vec![]), "a = ? 'x' :y");
}

#[test]
fn literals_are_quoted() {
    assert_eq!(sql_literal(&PhpValue::Null), "NULL");
    assert_eq!(sql_literal(&PhpValue::Bool(true)), "1");
    assert_eq!(sql_literal(&PhpValue::Bool(false)), "0");
    assert_eq!(sql_literal(&PhpValue::Long(-7)), "-7");
    let double = PhpValue::Double(Double { shown: "0.5".to_owned(), json: Number::parse("0.5") });
    assert_eq!(sql_literal(&double), "0.5");
    assert_eq!(sql_literal(&string("O'Brien")), "'O''Brien'");
    assert_eq!(sql_literal(&string("")), "''");
    assert_eq!(sql_literal(&PhpValue::Other), "'(binary)'");
    assert_eq!(sql_literal(&PhpValue::Array(vec![])), "'(binary)'");
    assert_eq!(sql_literal(&PhpValue::Object(None)), "'(binary)'");
}

#[test]
fn long_literals_are_cut() {
    let exact = "x".repeat(BINDING_STR_CAP);
    assert_eq!(sql_literal(&string(&exact)), format!("'{exact}'"));
    let longer = "x".repeat(BINDING_STR_CAP + 1);
    assert_eq!(sql_literal(&string(&longer)), format!("'{exact}…[truncated]'"));
}

#[test]
fn a_cut_literal_is_still_closed() {
    let letters = "x".repeat(BINDING_STR_CAP - 1);
    let cut = sql_literal(&string(&format!("{letters}'")));
    assert_eq!(cut, format!("'{letters}…[truncated]'"));
    let quotes = sql_literal(&string(&"'".repeat(BINDING_STR_CAP)));
    assert_eq!(quotes, format!("'{}…[truncated]'", "'".repeat(BINDING_STR_CAP)));
    let wide = sql_literal(&string(&"é".repeat(BINDING_STR_CAP)));
    assert_eq!(wide, format!("'{}…[truncated]'", "é".repeat(BINDING_STR_CAP / 2)));
    for n in BINDING_STR_CAP - 3..BINDING_STR_CAP + 3 {
        for tail in ["'", "''", "'x'", "é'", "x''''"] {
            let literal = sql_literal(&string(&format!("{}{tail}", "x".repeat(n))));
            let inner = &literal[1..literal.len() - 1];
            assert!(!inner.replace("''", "").contains('\''));
            let sql = format!("{literal} = ?");
            let got = substitute(&sql, &vec!["1".into()], &vec![]);
            assert_eq!(got, format!("{literal} = 1"));
        }
    }
}

#[test]
fn a_literal_is_not_touched_when_substituted_around() {
    for s in ["plain", "a ? b", ":id", "it's", "''", "'"] {
        let literal = sql_literal(&string(s));
        let sql = format!("{literal} = ?");
        let got = substitute(&sql, &vec!["1".into()], &vec![pair("id", "2")]);
        assert_eq!(got, format!("{literal} = 1"));
    }
}

#[test]
fn bindings_are_json_values() {
    assert_eq!(binding_value(&PhpValue::Null).encode(), "null");
    assert_eq!(binding_value(&PhpValue::Bool(true)).encode(), "true");
    assert_eq!(binding_value(&PhpValue::Long(5)).encode(), "5");
    let double = PhpValue::Double(Double { shown: "0.5".to_owned(), json: Number::parse("0.5") });
    assert_eq!(binding_value(&double).encode(), "0.5");
    let nan = PhpValue::Double(Double { shown: "NaN".to_owned(), json: None });
    assert_eq!(binding_value(&nan).encode(), "null");
    assert_eq!(binding_value(&string("it's")).encode(), "\"it's\"");
    assert_eq!(binding_value(&PhpValue::Other).encode(), "\"(binary)\"");
    let exact = "x".repeat(BINDING_JSON_CAP);
    let longer = "x".repeat(BINDING_JSON_CAP + 1);
    assert_eq!(binding_value(&string(&exact)).encode(), format!("\"{exact}\""));
    assert_eq!(binding_value(&string(&longer)).encode(), format!("\"{exact}…[truncated]\""));
}
