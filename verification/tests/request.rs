use serde_json::Value;
use yerd_dump::config::{Features, State};
use yerd_dump::frame::MAX_LINE;
use yerd_dump::json::{Json, Number};
use yerd_dump::request::{
    active, category, elapsed, emission_line, emit, emit_at, new_request_id, on_rinit,
    on_rshutdown, read_site, request_id, request_summary, seed_of, shut_down_at, Emission, Feature,
    RequestCtx, RequestIds, ServerVars,
};
use yerd_dump::transport::Conn;

const FEATURES: [Feature; 8] = [
    Feature::Dumps,
    Feature::Queries,
    Feature::Jobs,
    Feature::Views,
    Feature::Requests,
    Feature::Logs,
    Feature::Cache,
    Feature::Http,
];

fn only(feature: Feature) -> Features {
    let mut f = Features::default();
    match feature {
        Feature::Dumps => f.dumps = true,
        Feature::Queries => f.queries = true,
        Feature::Jobs => f.jobs = true,
        Feature::Views => f.views = true,
        Feature::Requests => f.requests = true,
        Feature::Logs => f.logs = true,
        Feature::Cache => f.cache = true,
        Feature::Http => f.http = true,
    }
    f
}

fn server() -> ServerVars {
    ServerVars {
        http_host: Some("blog.test".to_owned()),
        server_name: Some("other.test".to_owned()),
        request_method: Some("GET".to_owned()),
        request_uri: Some("/posts?page=2".to_owned()),
        remote_addr: Some("127.0.0.1".to_owned()),
    }
}

fn nothing() -> ServerVars {
    ServerVars {
        http_host: None,
        server_name: None,
        request_method: None,
        request_uri: None,
        remote_addr: None,
    }
}

fn request(features: Features) -> Option<RequestCtx> {
    Some(RequestCtx {
        request_id: "id".to_owned(),
        site: "blog.test".to_owned(),
        state: State { enabled: true, port: 2304, features },
        conn: Conn::Live,
        started: 1_000,
    })
}

#[test]
fn each_feature_has_its_own_flag() {
    for a in FEATURES {
        for b in FEATURES {
            assert_eq!(only(a).allows(b), a == b);
            assert_eq!(active(&request(only(a)), b), a == b);
        }
        assert!(!active(&None, a));
    }
}

#[test]
fn each_feature_has_its_own_category() {
    let names: Vec<&str> = FEATURES.iter().map(|f| category(*f)).collect();
    assert_eq!(
        names,
        vec!["dump", "query", "job", "view", "request", "log", "cache", "http"]
    );
}

#[test]
fn the_seed_is_little_endian() {
    assert_eq!(seed_of(&[0; 8]), 0);
    assert_eq!(seed_of(&[1, 2, 0, 0, 0, 0, 0, 0]), 0x201);
    assert_eq!(seed_of(&[8, 7, 6, 5, 4, 3, 2, 1]), 0x0102030405060708);
    assert_eq!(seed_of(&[255; 8]), u64::MAX);
}

#[test]
fn request_ids_are_hexadecimal() {
    assert_eq!(request_id(0, 0), "0".repeat(32));
    assert_eq!(request_id(0xdead_beef, 10), "00000000deadbeef000000000000000a");
    assert_eq!(request_id(u64::MAX, u64::MAX), "f".repeat(32));
}

#[test]
fn request_ids_of_a_process_differ() {
    let mut ids = RequestIds::new();
    let first = new_request_id(&mut ids);
    let second = new_request_id(&mut ids);
    assert_eq!(first.len(), 32);
    assert_ne!(first, second);
    assert_eq!(first[..16], second[..16]);
    assert_eq!(&first[16..], "0000000000000000");
    assert_eq!(&second[16..], "0000000000000001");
    assert_eq!(ids.next, 2);
}

#[test]
fn later_request_ids_come_after_earlier_ones() {
    let counts = [0, 1, 9, 10, 15, 16, 255, 256, 0xffff_ffff, 1 << 32, u64::MAX];
    for pair in counts.windows(2) {
        assert!(request_id(77, pair[0]) < request_id(77, pair[1]));
    }
    let id = request_id(0xabcd_ef01_2345_6789, u64::MAX);
    assert!(id.chars().all(|c| c.is_ascii_digit() || ('a'..='f').contains(&c)));
}

#[test]
fn seeds_are_random() {
    let seeds: Vec<String> = (0..4).map(|_| new_request_id(&mut RequestIds::new())).collect();
    assert!(seeds.iter().any(|s| *s != seeds[0]));
}

#[test]
fn the_request_counter_wraps() {
    let mut ids = RequestIds { seed: Some(1), next: u64::MAX };
    assert_eq!(new_request_id(&mut ids), "0000000000000001ffffffffffffffff");
    assert_eq!(new_request_id(&mut ids), "00000000000000010000000000000000");
}

#[test]
fn the_site_is_the_host_or_the_server_name() {
    assert_eq!(read_site(&server()), "blog.test");
    assert_eq!(read_site(&ServerVars { http_host: None, ..server() }), "other.test");
    assert_eq!(read_site(&ServerVars { http_host: Some(String::new()), ..server() }), "other.test");
    assert_eq!(read_site(&nothing()), "");
}

#[test]
fn an_enabled_state_arms_the_request() {
    let mut ctx = None;
    let mut ids = RequestIds { seed: Some(5), next: 3 };
    let state = State { enabled: true, port: 2304, features: only(Feature::Dumps) };
    on_rinit(&mut ctx, &mut ids, Some(state), &server(), 99);
    let c = ctx.unwrap();
    assert_eq!(c.request_id, "00000000000000050000000000000003");
    assert_eq!(c.site, "blog.test");
    assert_eq!(c.state, state);
    assert_eq!(c.conn, Conn::Idle);
    assert_eq!(c.started, 99);
    assert_eq!(ids.next, 4);
}

#[test]
fn a_disabled_state_leaves_the_request_unarmed() {
    let off = State { enabled: false, port: 2304, features: only(Feature::Dumps) };
    let no_port = State { enabled: true, port: 0, features: only(Feature::Dumps) };
    for parsed in [None, Some(off), Some(no_port)] {
        let mut ctx = request(only(Feature::Dumps));
        let mut ids = RequestIds { seed: Some(5), next: 3 };
        on_rinit(&mut ctx, &mut ids, parsed, &server(), 99);
        assert!(ctx.is_none());
        assert_eq!(ids.next, 3);
    }
}

#[test]
fn a_frame_is_built_only_for_an_enabled_feature() {
    let ctx = request(only(Feature::Logs));
    let line = emit_at(&ctx, Feature::Logs, "log", 5, || Json::text("p")).unwrap();
    assert_eq!(
        line,
        "{\"category\":\"log\",\"ts\":5,\"site\":\"blog.test\",\"request_id\":\"id\",\
         \"payload\":\"p\"}\n"
    );
    assert!(emit_at(&ctx, Feature::Dumps, "dump", 5, || unreachable!()).is_none());
    assert!(emit(&ctx, Feature::Dumps, "dump", || unreachable!()).is_none());
    assert!(emit(&None, Feature::Logs, "log", || unreachable!()).is_none());
}

#[test]
fn a_frame_carries_the_current_time() {
    let ctx = request(only(Feature::Logs));
    let line = emit(&ctx, Feature::Logs, "log", || Json::Null).unwrap();
    let frame: Value = serde_json::from_str(line.trim_end()).unwrap();
    assert!(frame["ts"].as_u64().unwrap() > 1_600_000_000_000);
    assert_eq!(frame["payload"], Value::Null);
}

#[test]
fn an_emission_carries_its_own_time_or_now() {
    let ctx = request(only(Feature::Http));
    let own = Emission { feature: Feature::Http, ts: Some(3), payload: Json::Int(1) };
    let line = emission_line(&ctx, own, 8).unwrap();
    assert!(line.starts_with("{\"category\":\"http\",\"ts\":3,"));
    let now = Emission { feature: Feature::Http, ts: None, payload: Json::Int(1) };
    let line = emission_line(&ctx, now, 8).unwrap();
    assert!(line.starts_with("{\"category\":\"http\",\"ts\":8,"));
    assert!(line.ends_with("\"payload\":1}\n"));
    let off = Emission { feature: Feature::Dumps, ts: None, payload: Json::Int(1) };
    assert!(emission_line(&ctx, off, 8).is_none());
}

#[test]
fn a_huge_payload_stays_within_the_budget() {
    let ctx = request(only(Feature::Dumps));
    let payload = Json::text(&"\u{1}".repeat(MAX_LINE));
    let e = Emission { feature: Feature::Dumps, ts: None, payload };
    let line = emission_line(&ctx, e, 8).unwrap();
    assert!(line.len() <= MAX_LINE);
    assert!(line.ends_with("\"payload\":{\"truncated\":true}}\n"));
}

#[test]
fn the_time_of_a_request_runs_from_its_start() {
    let ctx = request(Features::default()).unwrap();
    assert_eq!(elapsed(&ctx, 1_500), 500);
    assert_eq!(elapsed(&ctx, 1_000), 0);
    assert_eq!(elapsed(&ctx, 999), 0);
}

#[test]
fn the_summary_is_exact() {
    let ms = Json::Number(Number::parse("12.5").unwrap());
    assert_eq!(
        request_summary(&server(), 404, ms).encode(),
        "{\"duration_ms\":12.5,\"ip\":\"127.0.0.1\",\"method\":\"GET\",\"status\":404,\
         \"uri\":\"/posts?page=2\"}"
    );
    assert_eq!(
        request_summary(&nothing(), 0, Json::Null).encode(),
        "{\"duration_ms\":null,\"ip\":\"\",\"method\":\"\",\"status\":0,\"uri\":\"\"}"
    );
}

#[test]
fn the_end_of_a_request_reports_its_summary() {
    let mut ctx = request(only(Feature::Requests));
    let last = shut_down_at(&mut ctx, &server(), 200, Json::Null, 6).unwrap();
    assert!(ctx.is_none());
    assert!(last.line.starts_with("{\"category\":\"request\",\"ts\":6,\"site\":\"blog.test\","));
    assert_eq!(last.port, 2304);
    assert_eq!(last.conn, Conn::Live);
    assert!(shut_down_at(&mut ctx, &server(), 200, Json::Null, 7).is_none());
}

#[test]
fn the_end_of_a_request_switches_telemetry_off() {
    let mut ctx = request(only(Feature::Dumps));
    assert!(on_rshutdown(&mut ctx, &server(), 200, Json::Null).is_none());
    assert!(ctx.is_none());
    let mut ctx = request(only(Feature::Requests));
    let last = on_rshutdown(&mut ctx, &server(), 500, Json::Null).unwrap();
    let frame: Value = serde_json::from_str(last.line.trim_end()).unwrap();
    assert_eq!(frame["payload"]["status"], 500);
    assert!(frame["ts"].as_u64().unwrap() > 1_600_000_000_000);
    assert!(!active(&ctx, Feature::Requests));
}
