use yerd_dump::config::{Features, State};
use yerd_dump::observer::{classify, BeginAction, EndAction, Sym, YerdObserver};
use yerd_dump::observers::queries::QueryKind;
use yerd_dump::request::RequestCtx;
use yerd_dump::transport::Conn;

fn request(features: Features) -> Option<RequestCtx> {
    Some(RequestCtx {
        request_id: "id".to_owned(),
        site: "site".to_owned(),
        state: State { enabled: true, port: 1, features },
        conn: Conn::Idle,
        started: 0,
    })
}

fn all_on() -> Features {
    Features {
        dumps: true,
        queries: true,
        jobs: true,
        views: true,
        requests: true,
        logs: true,
        cache: true,
        http: true,
    }
}

#[test]
fn classifies_known_symbols() {
    assert!(matches!(
        classify(
            Some("Symfony\\Component\\VarDumper\\VarDumper"),
            Some("dump")
        ),
        Some(Sym::Dump)
    ));
    assert!(matches!(
        classify(Some("PDO"), Some("query")),
        Some(Sym::Query(_))
    ));
    assert!(matches!(
        classify(Some("PDOStatement"), Some("execute")),
        Some(Sym::Query(_))
    ));
    assert!(matches!(
        classify(Some("Illuminate\\Events\\Dispatcher"), Some("dispatch")),
        Some(Sym::Dispatch)
    ));
}

#[test]
fn ignores_unrelated_symbols() {
    assert!(classify(None, Some("array_map")).is_none());
    assert!(classify(Some("PDO"), Some("beginTransaction")).is_none());
    assert!(classify(None, None).is_none());
}

#[test]
fn each_symbol_has_its_kind() {
    let kinds = [
        ("PDO", "exec", QueryKind::PdoExec),
        ("PDO", "query", QueryKind::PdoQuery),
        ("PDOStatement", "execute", QueryKind::StmtExecute),
        ("PDOStatement", "bindValue", QueryKind::BindValue),
        ("PDOStatement", "bindParam", QueryKind::BindValue),
        ("PDOStatement", "fetchAll", QueryKind::FetchAll),
    ];
    for (class, func, kind) in kinds {
        assert_eq!(classify(Some(class), Some(func)), Some(Sym::Query(kind)));
    }
    assert_eq!(classify(None, Some("curl_exec")), Some(Sym::CurlExec));
    assert_eq!(classify(Some("Curl"), Some("curl_exec")), None);
    assert_eq!(classify(None, Some("dump")), None);
    assert_eq!(classify(Some("PDO"), None), None);
    assert_eq!(classify(Some("PDO"), Some("execute")), None);
    assert_eq!(classify(Some("pdo"), Some("exec")), None);
}

#[test]
fn exactly_the_known_symbols_are_observed() {
    let observer = YerdObserver::new();
    assert!(observer.should_observe(Some("PDO"), Some("exec")));
    assert!(observer.should_observe(None, Some("curl_exec")));
    assert!(!observer.should_observe(None, Some("strlen")));
    assert!(!observer.should_observe(None, None));
}

#[test]
fn what_is_done_when_a_call_begins() {
    let observer = YerdObserver::new();
    let ctx = request(all_on());
    let begin = |class: Option<&str>, func: &str| observer.begin(&ctx, class, Some(func));
    assert_eq!(
        begin(Some("Symfony\\Component\\VarDumper\\VarDumper"), "dump"),
        BeginAction::Dump
    );
    assert_eq!(begin(Some("PDO"), "exec"), BeginAction::StartQuery);
    assert_eq!(begin(Some("PDO"), "query"), BeginAction::StartQuery);
    assert_eq!(begin(Some("PDOStatement"), "execute"), BeginAction::StartQuery);
    assert_eq!(begin(Some("PDOStatement"), "bindParam"), BeginAction::Bind);
    assert_eq!(begin(Some("PDOStatement"), "fetchAll"), BeginAction::Nothing);
    assert_eq!(begin(Some("Illuminate\\Events\\Dispatcher"), "dispatch"), BeginAction::Dispatch);
    assert_eq!(begin(None, "curl_exec"), BeginAction::Nothing);
    assert_eq!(begin(None, "strlen"), BeginAction::Nothing);
}

#[test]
fn what_is_done_when_a_call_ends() {
    let observer = YerdObserver::new();
    let ctx = request(all_on());
    let end = |class: Option<&str>, func: &str| observer.end(&ctx, class, Some(func));
    assert_eq!(
        end(Some("PDOStatement"), "fetchAll"),
        EndAction::EndQuery(QueryKind::FetchAll)
    );
    assert_eq!(end(Some("PDO"), "exec"), EndAction::EndQuery(QueryKind::PdoExec));
    assert_eq!(end(None, "curl_exec"), EndAction::EndCurl);
    assert_eq!(end(Some("Illuminate\\Events\\Dispatcher"), "dispatch"), EndAction::Nothing);
    assert_eq!(
        end(Some("Symfony\\Component\\VarDumper\\VarDumper"), "dump"),
        EndAction::Nothing
    );
}

#[test]
fn nothing_is_done_where_the_feature_is_off() {
    let observer = YerdObserver::new();
    let symbols = [
        (Some("Symfony\\Component\\VarDumper\\VarDumper"), "dump"),
        (Some("PDO"), "exec"),
        (Some("PDOStatement"), "bindValue"),
        (Some("PDOStatement"), "fetchAll"),
        (Some("Illuminate\\Events\\Dispatcher"), "dispatch"),
        (None, "curl_exec"),
    ];
    for ctx in [None, request(Features::default())] {
        for (class, func) in symbols {
            assert_eq!(observer.begin(&ctx, class, Some(func)), BeginAction::Nothing);
            assert_eq!(observer.end(&ctx, class, Some(func)), EndAction::Nothing);
        }
    }
}

#[test]
fn any_dispatched_category_opens_the_dispatcher() {
    let observer = YerdObserver::new();
    let dispatcher = Some("Illuminate\\Events\\Dispatcher");
    for i in 0..4 {
        let mut features = Features::default();
        match i {
            0 => features.jobs = true,
            1 => features.cache = true,
            2 => features.logs = true,
            _ => features.views = true,
        }
        let ctx = request(features);
        assert_eq!(observer.begin(&ctx, dispatcher, Some("dispatch")), BeginAction::Dispatch);
    }
    let mut rest = all_on();
    rest.jobs = false;
    rest.cache = false;
    rest.logs = false;
    rest.views = false;
    let ctx = request(rest);
    assert_eq!(observer.begin(&ctx, dispatcher, Some("dispatch")), BeginAction::Nothing);
}

#[test]
fn a_start_is_recorded_for_the_ends_that_take_one() {
    let observer = YerdObserver::new();
    let ctx = request(all_on());
    for (class, func) in [
        ("PDO", "exec"),
        ("PDO", "query"),
        ("PDOStatement", "execute"),
        ("PDOStatement", "bindValue"),
        ("PDOStatement", "fetchAll"),
        ("PDO", "commit"),
    ] {
        let starts = observer.begin(&ctx, Some(class), Some(func)) == BeginAction::StartQuery;
        let takes = matches!(
            observer.end(&ctx, Some(class), Some(func)),
            EndAction::EndQuery(QueryKind::PdoExec | QueryKind::PdoQuery | QueryKind::StmtExecute)
        );
        assert_eq!(starts, takes);
    }
}
