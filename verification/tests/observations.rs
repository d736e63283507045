use yerd_dump::frame::FIELD_CAP;
use yerd_dump::json::{Json, Number};
use yerd_dump::observers::dumps::on_dump;
use yerd_dump::observers::events::{
    event_kind, on_dispatch, view_name, CacheEvent, Event, EventKind, EventObject, JobStatus,
    CONTEXT_ENTRIES, CONTEXT_VALUE_CAP,
};
use yerd_dump::observers::http::{on_curl_exec_end, CurlInfo};
use yerd_dump::php::PhpValue;
use yerd_dump::request::{Emission, Feature};

fn object(class: &str) -> EventObject {
    EventObject {
        class: class.to_owned(),
        connection_name: None,
        queue: None,
        job: None,
        job_class: None,
        key: None,
        store_name: None,
        level: None,
        message: None,
        context: None,
    }
}

fn some(s: &str) -> Option<String> {
    Some(s.to_owned())
}

fn dispatched(event: EventObject) -> Option<Emission> {
    on_dispatch(&Event::Object(event), some("/app/a.php"), 3)
}

fn logged(context: Vec<(String, String)>) -> String {
    let class = "Illuminate\\Log\\Events\\MessageLogged";
    let event = EventObject { context: Some(context), ..object(class) };
    dispatched(event).unwrap().payload.encode()
}

#[test]
fn each_dumped_argument_has_a_frame() {
    let args = vec![Some(PhpValue::Long(1)), None, Some(PhpValue::Str("<b>".to_owned()))];
    let frames = on_dump(&args, &some("/app/a.php"), 7);
    assert_eq!(frames.len(), 2);
    assert_eq!(
        frames[0].payload.encode(),
        "{\"file\":\"/app/a.php\",\"line\":7,\"value_html\":\"<pre>1</pre>\",\"value_text\":\"1\"}"
    );
    assert_eq!(
        frames[1].payload.encode(),
        "{\"file\":\"/app/a.php\",\"line\":7,\
         \"value_html\":\"<pre>&quot;&lt;b&gt;&quot;</pre>\",\"value_text\":\"\\\"<b>\\\"\"}"
    );
    for frame in &frames {
        assert_eq!(frame.feature, Feature::Dumps);
        assert_eq!(frame.ts, None);
    }
}

#[test]
fn a_dump_without_arguments_has_no_frame() {
    assert!(on_dump(&vec![], &None, 0).is_empty());
}

#[test]
fn a_dumped_value_is_capped() {
    let mut entries = Vec::new();
    for i in 0..100 {
        entries.push(yerd_dump::php::Entry {
            key: yerd_dump::php::ArrayKey::Int(i),
            value: PhpValue::Str("x".repeat(8000)),
        });
    }
    let frames = on_dump(&vec![Some(PhpValue::Array(entries))], &None, 0);
    let text = frames[0].payload.encode();
    assert!(text.len() > 2 * FIELD_CAP && text.len() < 2 * FIELD_CAP + 4000);
    assert_eq!(text.matches("…[truncated]\"").count(), 2);
}

#[test]
fn event_classes_are_known() {
    let kinds = [
        ("Illuminate\\Queue\\Events\\JobProcessing", EventKind::Job(JobStatus::Processing)),
        ("Illuminate\\Queue\\Events\\JobProcessed", EventKind::Job(JobStatus::Processed)),
        ("Illuminate\\Queue\\Events\\JobFailed", EventKind::Job(JobStatus::Failed)),
        ("Illuminate\\Cache\\Events\\CacheHit", EventKind::Cache(CacheEvent::Hit)),
        ("Illuminate\\Cache\\Events\\CacheMissed", EventKind::Cache(CacheEvent::Missed)),
        ("Illuminate\\Cache\\Events\\KeyWritten", EventKind::Cache(CacheEvent::Written)),
        ("Illuminate\\Cache\\Events\\KeyForgotten", EventKind::Cache(CacheEvent::Forgotten)),
        ("Illuminate\\Log\\Events\\MessageLogged", EventKind::Log),
    ];
    for (class, kind) in kinds {
        assert_eq!(event_kind(class), Some(kind));
    }
    assert_eq!(event_kind("App\\Events\\OrderShipped"), None);
    assert!(dispatched(object("App\\Events\\OrderShipped")).is_none());
}

#[test]
fn a_job_is_reported() {
    let event = EventObject {
        connection_name: some("redis"),
        queue: some("default"),
        job: some("SendMail"),
        job_class: some("RedisJob"),
        ..object("Illuminate\\Queue\\Events\\JobFailed")
    };
    let frame = dispatched(event).unwrap();
    assert_eq!(frame.feature, Feature::Jobs);
    assert_eq!(
        frame.payload.encode(),
        "{\"connection\":\"redis\",\"file\":\"/app/a.php\",\"line\":3,\"name\":\"SendMail\",\
         \"queue\":\"default\",\"status\":\"failed\"}"
    );
}

#[test]
fn a_job_without_a_name_is_shown_by_class() {
    let class = "Illuminate\\Queue\\Events\\JobProcessing";
    let queued = EventObject { job: some(""), job_class: some("RedisJob"), ..object(class) };
    assert!(dispatched(queued).unwrap().payload.encode().contains("\"name\":\"RedisJob\""));
    let bare = dispatched(object(class)).unwrap().payload.encode();
    assert_eq!(
        bare,
        "{\"connection\":\"\",\"file\":\"/app/a.php\",\"line\":3,\
         \"name\":\"Illuminate\\\\Queue\\\\Events\\\\JobProcessing\",\"queue\":\"\",\
         \"status\":\"processing\"}"
    );
    let done = dispatched(object("Illuminate\\Queue\\Events\\JobProcessed")).unwrap();
    assert!(done.payload.encode().ends_with("\"status\":\"processed\"}"));
}

#[test]
fn a_cache_event_is_reported() {
    for (class, name) in [
        ("CacheHit", "hit"),
        ("CacheMissed", "missed"),
        ("KeyWritten", "written"),
        ("KeyForgotten", "forgotten"),
    ] {
        let event = EventObject {
            key: some("user:1"),
            store_name: some("file"),
            ..object(&format!("Illuminate\\Cache\\Events\\{class}"))
        };
        let frame = dispatched(event).unwrap();
        assert_eq!(frame.feature, Feature::Cache);
        assert_eq!(
            frame.payload.encode(),
            format!(
                "{{\"event\":\"{name}\",\"file\":\"/app/a.php\",\"key\":\"user:1\",\"line\":3,\
                 \"store\":\"file\"}}"
            )
        );
    }
}

#[test]
fn a_log_message_is_reported() {
    let event = EventObject {
        level: some("error"),
        message: some("it broke"),
        context: Some(vec![
            ("user".to_owned(), "7".to_owned()),
            ("ip".to_owned(), "::1".to_owned()),
        ]),
        ..object("Illuminate\\Log\\Events\\MessageLogged")
    };
    let frame = dispatched(event).unwrap();
    assert_eq!(frame.feature, Feature::Logs);
    assert_eq!(
        frame.payload.encode(),
        "{\"context\":{\"ip\":\"::1\",\"user\":\"7\"},\"file\":\"/app/a.php\",\
         \"level\":\"error\",\"line\":3,\"message\":\"it broke\"}"
    );
    let bare = dispatched(object("Illuminate\\Log\\Events\\MessageLogged")).unwrap();
    assert_eq!(
        bare.payload.encode(),
        "{\"context\":{},\"file\":\"/app/a.php\",\"level\":\"\",\"line\":3,\"message\":\"\"}"
    );
}

#[test]
fn a_long_message_is_cut() {
    let event = EventObject {
        message: Some("m".repeat(FIELD_CAP + 1)),
        ..object("Illuminate\\Log\\Events\\MessageLogged")
    };
    let text = dispatched(event).unwrap().payload.encode();
    assert!(text.ends_with("mm…[truncated]\"}"));
}

#[test]
fn a_context_is_in_the_order_of_its_keys() {
    let pairs = |keys: &[&str]| -> Vec<(String, String)> {
        keys.iter().map(|k| (k.to_string(), format!("<{k}>"))).collect()
    };
    let keys = ["b", "a", "", "ab", "B", "é", "aa", "z", "€", "😀", "a\u{0}"];
    let mut sorted = keys.to_vec();
    sorted.sort();
    assert_eq!(logged(pairs(&keys)), logged(pairs(&sorted)));
    let mut map = serde_json::Map::new();
    for (k, v) in pairs(&keys) {
        map.insert(k, serde_json::Value::from(v));
    }
    let expected = serde_json::Value::Object(map).to_string();
    assert!(logged(pairs(&keys)).starts_with(&format!("{{\"context\":{expected},")));
}

#[test]
fn the_last_value_of_a_context_key_stands() {
    let context = vec![
        ("a".to_owned(), "1".to_owned()),
        ("b".to_owned(), "2".to_owned()),
        ("a".to_owned(), "3".to_owned()),
    ];
    assert!(logged(context).starts_with("{\"context\":{\"a\":\"3\",\"b\":\"2\"},"));
}

#[test]
fn a_context_is_capped() {
    let mut context = Vec::new();
    for i in 0..CONTEXT_ENTRIES + 10 {
        context.push((format!("k{i:03}"), "v".to_owned()));
    }
    let text = logged(context);
    assert!(text.contains("\"k063\"") && !text.contains("\"k064\""));

    let long = vec![("k".to_owned(), "v".repeat(CONTEXT_VALUE_CAP + 1))];
    let cut = format!("{}…[truncated]", "v".repeat(CONTEXT_VALUE_CAP));
    assert!(logged(long).starts_with(&format!("{{\"context\":{{\"k\":\"{cut}\"}},")));
}

#[test]
fn views_are_named_events() {
    assert_eq!(view_name("composing: home"), some("home"));
    assert_eq!(view_name("creating: admin.index"), some("admin.index"));
    assert_eq!(view_name("composing: "), some(""));
    assert_eq!(view_name("composing:home"), None);
    assert_eq!(view_name("eloquent.created: App\\User"), None);
    assert_eq!(view_name("creating: composing: x"), some("composing: x"));
}

#[test]
fn a_view_is_reported() {
    let frame = on_dispatch(&Event::Name("composing: home".to_owned()), None, 0).unwrap();
    assert_eq!(frame.feature, Feature::Views);
    assert_eq!(
        frame.payload.encode(),
        "{\"data_keys\":[],\"file\":null,\"line\":0,\"name\":\"home\",\"path\":\"\"}"
    );
    assert!(on_dispatch(&Event::Name("booted".to_owned()), None, 0).is_none());
}

#[test]
fn an_http_call_is_reported() {
    let info = CurlInfo {
        url: some("https://api.test/v1?q=1"),
        http_code: Some(201),
        duration_ms: Json::Number(Number::parse("20.5").unwrap()),
        effective_method: some("POST"),
    };
    let frame = on_curl_exec_end(info, some("/app/b.php"), 9).unwrap();
    assert_eq!(frame.feature, Feature::Http);
    assert_eq!(
        frame.payload.encode(),
        "{\"duration_ms\":20.5,\"file\":\"/app/b.php\",\"line\":9,\"method\":\"POST\",\
         \"status\":201,\"url\":\"https://api.test/v1?q=1\"}"
    );
}

#[test]
fn an_http_call_needs_a_url() {
    for url in [None, some("")] {
        let info = CurlInfo {
            url,
            http_code: Some(200),
            duration_ms: Json::Null,
            effective_method: None,
        };
        assert!(on_curl_exec_end(info, None, 0).is_none());
    }
    let bare = CurlInfo {
        url: some("u"),
        http_code: None,
        duration_ms: Json::Int(0),
        effective_method: None,
    };
    assert_eq!(
        on_curl_exec_end(bare, None, 0).unwrap().payload.encode(),
        "{\"duration_ms\":0,\"file\":null,\"line\":0,\"method\":\"\",\"status\":0,\"url\":\"u\"}"
    );
}

#[test]
fn a_long_url_is_cut() {
    let info = CurlInfo {
        url: Some("u".repeat(FIELD_CAP + 1)),
        http_code: None,
        duration_ms: Json::Null,
        effective_method: None,
    };
    let text = on_curl_exec_end(info, None, 0).unwrap().payload.encode();
    assert!(text.ends_with("uu…[truncated]\"}"));
}
