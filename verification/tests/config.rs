use serde_json::Value;
use yerd_dump::config::{cache_state_path, state_path, Features, State, StatePath, INI_STATE_PATH};

/// The flag `name` of `object`: off where it is absent, and nothing where it is
/// no flag.
fn flag(object: &Value, name: &str) -> Option<bool> {
    match object.get(name) {
        None => Some(false),
        Some(value) => value.as_bool(),
    }
}

/// The state document in `bytes`, with what it does not name switched off;
/// nothing where it is no such document.
fn document(bytes: &[u8]) -> Option<State> {
    let doc: Value = serde_json::from_slice(bytes).ok()?;
    doc.as_object()?;
    let port = match doc.get("port") {
        None => 0,
        Some(value) => u16::try_from(value.as_u64()?).ok()?,
    };
    let features = match doc.get("features") {
        None => Features::default(),
        Some(f) => {
            f.as_object()?;
            Features {
                dumps: flag(f, "dumps")?,
                queries: flag(f, "queries")?,
                jobs: flag(f, "jobs")?,
                views: flag(f, "views")?,
                requests: flag(f, "requests")?,
                logs: flag(f, "logs")?,
                cache: flag(f, "cache")?,
                http: flag(f, "http")?,
            }
        }
    };
    Some(State { enabled: flag(&doc, "enabled")?, port, features })
}

#[test]
fn enabled_state_parses() {
    let s = State::from_parsed(document(
        br#"{"enabled":true,"port":2304,"features":{"dumps":true,"queries":true}}"#,
    ))
    .expect("should parse");
    assert_eq!(s.port, 2304);
    assert!(s.features.dumps);
    assert!(s.features.queries);
    assert!(!s.features.jobs);
}

#[test]
fn disabled_state_is_none() {
    assert!(State::from_parsed(document(br#"{"enabled":false,"port":2304}"#)).is_none());
}

#[test]
fn zero_port_is_none() {
    assert!(State::from_parsed(document(br#"{"enabled":true,"port":0}"#)).is_none());
}

#[test]
fn garbage_is_none() {
    assert!(State::from_parsed(document(b"not json {{{")).is_none());
    assert!(State::from_parsed(document(b"")).is_none());
}

#[test]
fn partial_features_default_off() {
    let s = State::from_parsed(document(
        br#"{"enabled":true,"port":1,"features":{"logs":true}}"#,
    ))
    .expect("should parse");
    assert!(s.features.logs);
    assert!(!s.features.dumps);
    assert!(!s.features.cache);
}

#[test]
fn a_document_with_a_wrong_type_is_none() {
    for bytes in [
        &br#"{"enabled":1,"port":2304}"#[..],
        br#"{"enabled":true,"port":"2304"}"#,
        br#"{"enabled":true,"port":65536}"#,
        br#"{"enabled":true,"port":-1}"#,
        br#"{"enabled":true,"port":1,"features":{"logs":"yes"}}"#,
        br#"{"enabled":true,"port":1,"features":null}"#,
        b"null",
    ] {
        assert!(State::from_parsed(document(bytes)).is_none());
    }
}

#[test]
fn an_enabled_state_is_kept_whole() {
    let mut features = Features::default();
    features.http = true;
    let state = State { enabled: true, port: 65535, features };
    assert_eq!(State::from_parsed(Some(state)), Some(state));
    assert_eq!(State::from_parsed(None), None);
}

#[test]
fn features_are_off_by_default() {
    let f = Features::default();
    assert!(!f.dumps && !f.queries && !f.jobs && !f.views);
    assert!(!f.requests && !f.logs && !f.cache && !f.http);
}

#[test]
fn directive_name() {
    assert_eq!(INI_STATE_PATH, "yerd_dump.state_path");
}

#[test]
fn the_path_is_cached_once() {
    let mut path = StatePath::new();
    assert_eq!(state_path(&path), None);
    cache_state_path(&mut path, Some("/run/state.json".to_owned()));
    assert_eq!(state_path(&path), Some("/run/state.json"));
    cache_state_path(&mut path, Some("/elsewhere.json".to_owned()));
    assert_eq!(state_path(&path), Some("/run/state.json"));
}

#[test]
fn an_empty_or_absent_directive_is_no_path() {
    let mut empty = StatePath::new();
    cache_state_path(&mut empty, Some(String::new()));
    assert_eq!(state_path(&empty), None);
    cache_state_path(&mut empty, Some("/late.json".to_owned()));
    assert_eq!(state_path(&empty), None);

    let mut absent = StatePath::new();
    cache_state_path(&mut absent, None);
    assert_eq!(state_path(&absent), None);
}
