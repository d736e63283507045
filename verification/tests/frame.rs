use serde_json::Value;
use yerd_dump::frame::{build_line, epoch_ms, now_ms, truncate, FIELD_CAP, MAX_LINE};
use yerd_dump::json::{Json, Member};

#[test]
fn truncate_short_string_unchanged() {
    assert_eq!(truncate("hello", 100), "hello");
}

#[test]
fn truncate_long_string_marks() {
    let out = truncate(&"a".repeat(50), 10);
    assert!(out.starts_with(&"a".repeat(10)));
    assert!(out.ends_with("[truncated]"));
}

#[test]
fn truncate_respects_utf8_boundary() {
    let out = truncate("é", 1);
    assert!(out.ends_with("[truncated]"));
    assert!(out.starts_with("…[truncated]") || !out.starts_with('é'));
}

#[test]
fn truncate_keeps_what_just_fits() {
    assert_eq!(truncate("hello", 5), "hello");
    assert_eq!(truncate("hello", 4), "hell…[truncated]");
    assert_eq!(truncate("aé", 3), "aé");
    assert_eq!(truncate("aé", 2), "a…[truncated]");
    assert_eq!(truncate("", 0), "");
    assert_eq!(truncate("x", 0), "…[truncated]");
    assert_eq!(truncate("😀😀", 7), "😀…[truncated]");
}

#[test]
fn truncation_keeps_the_longest_prefix_that_fits() {
    let s = "aé€😀z";
    for cap in 0..s.len() {
        let out = truncate(s, cap);
        let kept = out.strip_suffix("…[truncated]").unwrap();
        assert!(s.starts_with(kept));
        assert!(kept.len() <= cap);
        let next = s[kept.len()..].chars().next().unwrap();
        assert!(kept.len() + next.len_utf8() > cap);
    }
    assert_eq!(truncate(s, s.len()), s);
}

#[test]
fn build_line_is_single_newline_terminated_json() {
    let line = build_line(
        "dump",
        123,
        "blog.test",
        "abc",
        Json::object(vec![Member::new("value_text", Json::text("hi"))]),
    );
    assert!(line.ends_with('\n'));
    assert_eq!(line.matches('\n').count(), 1);
    let parsed: Value = serde_json::from_str(line.trim_end()).unwrap();
    assert_eq!(parsed["category"], "dump");
    assert_eq!(parsed["payload"]["value_text"], "hi");
}

#[test]
fn build_line_oversized_payload_falls_back_to_marker() {
    let huge = "\"".repeat(MAX_LINE);
    let line = build_line(
        "dump",
        1,
        "s",
        "r",
        Json::object(vec![Member::new("value_html", Json::text(&huge))]),
    );
    assert!(line.len() <= MAX_LINE);
    let parsed: Value = serde_json::from_str(line.trim_end()).unwrap();
    assert_eq!(parsed["payload"]["truncated"], true);
}

#[test]
fn a_line_is_exact() {
    let line = build_line("log", 7, "a\"b", "id", Json::Null);
    assert_eq!(
        line,
        "{\"category\":\"log\",\"ts\":7,\"site\":\"a\\\"b\",\"request_id\":\"id\",\
         \"payload\":null}\n"
    );
    let marker = build_line("log", u64::MAX, "", "", Json::text(&"x".repeat(MAX_LINE)));
    assert_eq!(
        marker,
        "{\"category\":\"log\",\"ts\":18446744073709551615,\"site\":\"\",\"request_id\":\"\",\
         \"payload\":{\"truncated\":true}}\n"
    );
}

#[test]
fn the_budget_counts_the_encoded_line() {
    let around = build_line("c", 1, "s", "r", Json::text("")).len();
    let fits = build_line("c", 1, "s", "r", Json::text(&"x".repeat(MAX_LINE - around)));
    assert_eq!(fits.len(), MAX_LINE);
    assert!(fits.contains("xxx"));
    let over = build_line("c", 1, "s", "r", Json::text(&"x".repeat(MAX_LINE - around + 1)));
    assert!(over.ends_with("\"payload\":{\"truncated\":true}}\n"));
}

#[test]
fn a_line_never_holds_a_second_line_break() {
    let payload = Json::object(vec![Member::new("a\nb", Json::text("1\r\n2\u{0}3"))]);
    let line = build_line("x\ny", 0, "p\nq", "r\ns", payload);
    assert_eq!(line.matches('\n').count(), 1);
    assert_eq!(line.matches('\r').count(), 0);
    let parsed: Value = serde_json::from_str(line.trim_end()).unwrap();
    assert_eq!(parsed["payload"]["a\nb"], "1\r\n2\u{0}3");
    assert_eq!(parsed["site"], "p\nq");
}

#[test]
fn a_capped_field_leaves_room_in_the_line() {
    let field = truncate(&"x".repeat(MAX_LINE), FIELD_CAP);
    let line = build_line("dump", 1, "s", "r", Json::text(&field));
    assert!(line.len() <= MAX_LINE);
    assert!(line.contains("[truncated]\"}\n"));
}

#[test]
fn epoch_milliseconds_saturate() {
    assert_eq!(epoch_ms(None), 0);
    assert_eq!(epoch_ms(Some(0)), 0);
    assert_eq!(epoch_ms(Some(1_700_000_000_123)), 1_700_000_000_123);
    assert_eq!(epoch_ms(Some(u64::MAX as u128)), u64::MAX);
    assert_eq!(epoch_ms(Some(u64::MAX as u128 + 1)), u64::MAX);
}

#[test]
fn now_is_the_wall_clock() {
    let before = std::time::SystemTime::now()
        .duration_since(std::time::UNIX_EPOCH)
        .unwrap()
        .as_millis();
    let now = now_ms() as u128;
    let after = std::time::SystemTime::now()
        .duration_since(std::time::UNIX_EPOCH)
        .unwrap()
        .as_millis();
    assert!(before <= now && now <= after);
}
