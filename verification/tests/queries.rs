use serde_json::Value;
use yerd_dump::json::{Json, Number};
use yerd_dump::observers::queries::{
    flush, on_begin, on_bind, on_end, on_fetchall, query_frame, query_payload, reset, BindCall,
    CallSite, PdoCall, Queries, Query, QueryKind, Statement,
};
use yerd_dump::php::{ArrayKey, Entry, PhpValue};
use yerd_dump::request::Feature;

fn statement(handle: u32, sql: &str, row_count: Option<i64>) -> Option<Statement> {
    Some(Statement { handle, query_string: Some(sql.to_owned()), row_count })
}

fn no_call() -> PdoCall {
    PdoCall {
        this: None,
        sql: None,
        params: None,
        returned_long: None,
        returned_stmt: None,
        returned_rows: None,
    }
}

fn at(now: u64, ts: u64) -> CallSite {
    CallSite { now, ts, file: Some("/app/a.php".to_owned()), line: 12 }
}

fn bind(handle: u32, param: PhpValue, value: PhpValue) -> BindCall {
    BindCall { handle: Some(handle), param: Some(param), value: Some(value) }
}

fn string(s: &str) -> PhpValue {
    PhpValue::Str(s.to_owned())
}

fn bindings(query: Query) -> Value {
    let payload: Value =
        serde_json::from_str(&query_payload(query, Json::Null).encode()).unwrap();
    payload["bindings"].clone()
}

fn execute(q: &mut Queries, handle: u32, sql: &str, row_count: Option<i64>) -> Option<Query> {
    on_begin(q, 100);
    let call = PdoCall { this: statement(handle, sql, row_count), ..no_call() };
    on_end(q, QueryKind::StmtExecute, call, at(150, 9))
}

fn fetch(q: &mut Queries, handle: u32, rows: Option<u32>) -> Option<Query> {
    let call = PdoCall {
        this: Some(Statement { handle, query_string: None, row_count: None }),
        returned_rows: rows,
        ..no_call()
    };
    on_end(q, QueryKind::FetchAll, call, at(999, 999))
}

#[test]
fn exec_is_reported_with_the_returned_count() {
    let mut q = Queries::new();
    on_begin(&mut q, 1_000);
    let call = PdoCall {
        sql: Some("delete from t where a = ?".to_owned()),
        returned_long: Some(3),
        ..no_call()
    };
    let query = on_end(&mut q, QueryKind::PdoExec, call, at(1_250, 77)).unwrap();
    assert_eq!(query.ts, 77);
    assert_eq!(query.sql, "delete from t where a = ?");
    assert_eq!(query.sql_full, "delete from t where a = ?");
    assert_eq!(query.row_count, Some(3));
    assert_eq!(query.elapsed, 250);
    assert_eq!(query.file, Some("/app/a.php".to_owned()));
    assert_eq!(query.line, 12);
    assert_eq!(query.bindings.len(), 0);
    assert!(flush(&mut q).is_empty());
}

#[test]
fn a_call_without_sql_is_not_reported_but_timed() {
    let mut q = Queries::new();
    on_begin(&mut q, 10);
    on_begin(&mut q, 20);
    assert!(on_end(&mut q, QueryKind::PdoExec, no_call(), at(25, 1)).is_none());
    let call = PdoCall { sql: Some("x".to_owned()), ..no_call() };
    let query = on_end(&mut q, QueryKind::PdoExec, call, at(30, 2)).unwrap();
    assert_eq!(query.elapsed, 20);
}

#[test]
fn nested_calls_are_timed_from_their_own_start() {
    let mut q = Queries::new();
    on_begin(&mut q, 10);
    on_begin(&mut q, 40);
    let inner = PdoCall { sql: Some("inner".to_owned()), ..no_call() };
    let outer = PdoCall { sql: Some("outer".to_owned()), ..no_call() };
    let late = PdoCall { sql: Some("late".to_owned()), ..no_call() };
    assert_eq!(on_end(&mut q, QueryKind::PdoExec, inner, at(45, 0)).unwrap().elapsed, 5);
    assert!(fetch(&mut q, 1, None).is_none());
    assert!(on_end(&mut q, QueryKind::BindValue, no_call(), at(46, 0)).is_none());
    assert_eq!(on_end(&mut q, QueryKind::PdoExec, outer, at(50, 0)).unwrap().elapsed, 40);
    assert_eq!(on_end(&mut q, QueryKind::PdoExec, late, at(60, 0)).unwrap().elapsed, 0);
}

#[test]
fn a_clock_that_went_back_gives_no_time() {
    let mut q = Queries::new();
    on_begin(&mut q, 100);
    let call = PdoCall { sql: Some("x".to_owned()), ..no_call() };
    assert_eq!(on_end(&mut q, QueryKind::PdoExec, call, at(90, 0)).unwrap().elapsed, 0);
}

#[test]
fn a_query_is_deferred_to_the_fetch_of_its_statement() {
    let mut q = Queries::new();
    on_begin(&mut q, 0);
    let call = PdoCall {
        sql: Some("select 1".to_owned()),
        returned_stmt: Some(Statement { handle: 5, query_string: None, row_count: Some(0) }),
        ..no_call()
    };
    assert!(on_end(&mut q, QueryKind::PdoQuery, call, at(8, 70)).is_none());
    let query = fetch(&mut q, 5, Some(2)).unwrap();
    assert_eq!(query.sql, "select 1");
    assert_eq!(query.row_count, Some(2));
    assert_eq!(query.ts, 70);
    assert_eq!(query.elapsed, 8);
}

#[test]
fn a_query_without_a_statement_is_reported_at_once() {
    let mut q = Queries::new();
    on_begin(&mut q, 0);
    let call = PdoCall { sql: Some("select 1".to_owned()), returned_long: Some(9), ..no_call() };
    let query = on_end(&mut q, QueryKind::PdoQuery, call, at(8, 70)).unwrap();
    assert_eq!(query.row_count, None);
    assert!(on_end(&mut q, QueryKind::PdoQuery, no_call(), at(9, 71)).is_none());
}

#[test]
fn a_write_is_reported_at_once() {
    let mut q = Queries::new();
    let query = execute(&mut q, 3, "update t set a = 1", Some(4)).unwrap();
    assert_eq!(query.row_count, Some(4));
    assert_eq!(query.ts, 9);
    assert_eq!(query.elapsed, 50);
    assert!(fetch(&mut q, 3, Some(1)).is_none());
    assert!(flush(&mut q).is_empty());
}

#[test]
fn a_read_is_reported_once_fetched_and_only_once() {
    let mut q = Queries::new();
    assert!(execute(&mut q, 3, "select * from t", Some(0)).is_none());
    let query = fetch(&mut q, 3, Some(17)).unwrap();
    assert_eq!(query.row_count, Some(17));
    assert_eq!(query.ts, 9);
    assert!(fetch(&mut q, 3, Some(17)).is_none());
    assert!(flush(&mut q).is_empty());
}

#[test]
fn a_fetch_without_rows_falls_back_to_the_statement() {
    let mut q = Queries::new();
    assert!(execute(&mut q, 3, "select 1", Some(6)).is_none());
    assert_eq!(fetch(&mut q, 3, None).unwrap().row_count, Some(6));
    assert!(execute(&mut q, 3, "select 1", None).is_none());
    assert_eq!(fetch(&mut q, 3, None).unwrap().row_count, None);
}

#[test]
fn reads_that_are_never_fetched_are_flushed() {
    let mut q = Queries::new();
    assert!(execute(&mut q, 1, "select 1", Some(11)).is_none());
    assert!(execute(&mut q, 2, "select 2", None).is_none());
    assert!(execute(&mut q, 3, "select 3", Some(13)).is_none());
    assert_eq!(fetch(&mut q, 2, Some(5)).unwrap().sql, "select 2");
    let mut left: Vec<(String, Option<i64>)> =
        flush(&mut q).into_iter().map(|p| (p.sql, p.row_count)).collect();
    left.sort();
    assert_eq!(
        left,
        vec![("select 1".to_owned(), Some(11)), ("select 3".to_owned(), Some(13))]
    );
    assert!(flush(&mut q).is_empty());
}

#[test]
fn a_statement_that_is_executed_again_keeps_its_earlier_reads() {
    let mut q = Queries::new();
    let mut reported = 0;
    assert!(execute(&mut q, 1, "select 'first'", None).is_none());
    assert!(execute(&mut q, 1, "select 'second'", None).is_none());
    assert!(execute(&mut q, 2, "select 'other'", None).is_none());
    reported += execute(&mut q, 3, "update t", None).into_iter().count();
    let query = fetch(&mut q, 1, Some(1)).unwrap();
    assert_eq!(query.sql, "select 'second'");
    reported += 1;
    let left: Vec<String> = flush(&mut q).into_iter().map(|p| p.sql).collect();
    assert_eq!(left, vec!["select 'first'".to_owned(), "select 'other'".to_owned()]);
    reported += left.len();
    assert_eq!(reported, 4);
    assert!(flush(&mut q).is_empty());
}

#[test]
fn a_read_in_a_loop_is_reported_for_each_execution() {
    let mut q = Queries::new();
    for i in 0..5 {
        on_begin(&mut q, 0);
        let call = PdoCall { this: statement(7, "select 1", Some(i)), ..no_call() };
        assert!(on_end(&mut q, QueryKind::StmtExecute, call, at(1, 100 + i as u64)).is_none());
    }
    let left: Vec<(u64, Option<i64>)> =
        flush(&mut q).into_iter().map(|p| (p.ts, p.row_count)).collect();
    assert_eq!(
        left,
        vec![(100, Some(0)), (101, Some(1)), (102, Some(2)), (103, Some(3)), (104, Some(4))]
    );
}

#[test]
fn a_reused_handle_keeps_the_read_of_the_statement_before() {
    let mut q = Queries::new();
    assert!(execute(&mut q, 5, "select 'old'", Some(1)).is_none());
    let call = PdoCall {
        sql: Some("select 'new'".to_owned()),
        returned_stmt: Some(Statement { handle: 5, query_string: None, row_count: None }),
        ..no_call()
    };
    on_begin(&mut q, 0);
    assert!(on_end(&mut q, QueryKind::PdoQuery, call, at(1, 1)).is_none());
    assert_eq!(fetch(&mut q, 5, Some(3)).unwrap().sql, "select 'new'");
    assert!(fetch(&mut q, 5, Some(3)).is_none());
    let left = flush(&mut q);
    assert_eq!(left.len(), 1);
    assert_eq!(left[0].sql, "select 'old'");
    assert_eq!(left[0].row_count, Some(1));
}

#[test]
fn a_new_request_forgets_displaced_reads() {
    let mut q = Queries::new();
    assert!(execute(&mut q, 1, "select 1", None).is_none());
    assert!(execute(&mut q, 1, "select 2", None).is_none());
    reset(&mut q);
    assert!(flush(&mut q).is_empty());
}

#[test]
fn a_fetch_takes_only_the_read_of_its_statement() {
    let mut q = Queries::new();
    assert!(execute(&mut q, 1, "select 1", Some(8)).is_none());
    assert!(execute(&mut q, 2, "select 2", None).is_none());
    let of = |handle: u32, rows: Option<u32>| PdoCall {
        this: Some(Statement { handle, query_string: None, row_count: None }),
        returned_rows: rows,
        ..no_call()
    };
    assert!(on_fetchall(&mut q, no_call()).is_none());
    assert!(on_fetchall(&mut q, of(3, Some(1))).is_none());
    let query = on_fetchall(&mut q, of(1, None)).unwrap();
    assert_eq!((query.ts, query.row_count, query.elapsed, query.line), (9, Some(8), 50, 12));
    assert!(on_fetchall(&mut q, of(1, Some(4))).is_none());
    assert_eq!(on_fetchall(&mut q, of(2, Some(4))).unwrap().row_count, Some(4));
}

#[test]
fn other_statements_do_not_disturb_a_deferred_read() {
    let mut q = Queries::new();
    assert!(execute(&mut q, 1, "select 1", Some(1)).is_none());
    assert!(execute(&mut q, 2, "update t", Some(2)).is_some());
    on_bind(&mut q, &bind(1, PhpValue::Long(1), PhpValue::Long(9)));
    assert!(fetch(&mut q, 7, Some(3)).is_none());
    assert_eq!(fetch(&mut q, 1, Some(4)).unwrap().sql, "select 1");
}

#[test]
fn bound_values_reach_the_execution() {
    let mut q = Queries::new();
    on_bind(&mut q, &bind(4, PhpValue::Long(1), PhpValue::Long(7)));
    on_bind(&mut q, &bind(4, PhpValue::Long(2), string("O'Brien")));
    on_bind(&mut q, &bind(4, string("::flag"), PhpValue::Bool(true)));
    on_bind(&mut q, &bind(8, PhpValue::Long(1), PhpValue::Long(99)));
    let sql = "update t set a = ?, b = ? where c = :flag";
    let query = execute(&mut q, 4, sql, None).unwrap();
    assert_eq!(query.sql, sql);
    assert_eq!(query.sql_full, "update t set a = 7, b = 'O''Brien' where c = 1");
    assert_eq!(bindings(query).to_string(), "[7,\"O'Brien\",true]");
    let again = execute(&mut q, 4, sql, None).unwrap();
    assert_eq!(again.sql_full, sql);
    let other = execute(&mut q, 8, "update u set a = ?", None).unwrap();
    assert_eq!(other.sql_full, "update u set a = 99");
}

#[test]
fn incomplete_binds_are_ignored() {
    let mut q = Queries::new();
    on_bind(&mut q, &BindCall { handle: None, param: Some(string("a")), value: Some(string("b")) });
    on_bind(&mut q, &BindCall { handle: Some(1), param: None, value: Some(string("b")) });
    on_bind(&mut q, &BindCall { handle: Some(1), param: Some(string("a")), value: None });
    assert_eq!(execute(&mut q, 1, "update :a", None).unwrap().sql_full, "update :a");
}

#[test]
fn a_parameter_that_is_no_string_is_positional() {
    let mut q = Queries::new();
    on_bind(&mut q, &bind(1, PhpValue::Null, PhpValue::Long(5)));
    assert_eq!(execute(&mut q, 1, "update ?", None).unwrap().sql_full, "update 5");
}

#[test]
fn parameters_of_execute_come_first() {
    let mut q = Queries::new();
    on_bind(&mut q, &bind(4, PhpValue::Long(1), PhpValue::Long(1)));
    on_begin(&mut q, 0);
    let params = vec![
        Entry { key: ArrayKey::Int(0), value: PhpValue::Long(10) },
        Entry { key: ArrayKey::Str(":name".to_owned()), value: string("x") },
        Entry { key: ArrayKey::Str("+12".to_owned()), value: PhpValue::Null },
        Entry { key: ArrayKey::Str("9223372036854775808".to_owned()), value: PhpValue::Long(3) },
    ];
    let call = PdoCall {
        this: statement(4, "update ? :name ? :9223372036854775808", None),
        params: Some(params),
        ..no_call()
    };
    let query = on_end(&mut q, QueryKind::StmtExecute, call, at(1, 1)).unwrap();
    assert_eq!(query.sql_full, "update 10 'x' NULL 3");
    assert_eq!(bindings(query).to_string(), "[10,\"x\",null,3]");
    assert_eq!(execute(&mut q, 4, "update ?", None).unwrap().sql_full, "update ?");
}

#[test]
fn at_most_five_hundred_and_twelve_parameters_are_taken() {
    let mut q = Queries::new();
    on_begin(&mut q, 0);
    let mut params = Vec::new();
    for i in 0..600 {
        params.push(Entry { key: ArrayKey::Int(i), value: PhpValue::Long(i) });
    }
    let call = PdoCall { this: statement(4, "update ?", None), params: Some(params), ..no_call() };
    let query = on_end(&mut q, QueryKind::StmtExecute, call, at(1, 1)).unwrap();
    assert_eq!(query.bindings.len(), 512);
    assert_eq!(query.bindings[511].encode(), "511");
}

#[test]
fn a_statement_without_sql_uses_up_its_values() {
    let mut q = Queries::new();
    on_bind(&mut q, &bind(4, PhpValue::Long(1), PhpValue::Long(1)));
    on_begin(&mut q, 0);
    let call = PdoCall {
        this: Some(Statement { handle: 4, query_string: None, row_count: Some(1) }),
        ..no_call()
    };
    assert!(on_end(&mut q, QueryKind::StmtExecute, call, at(1, 1)).is_none());
    assert_eq!(execute(&mut q, 4, "update ?", None).unwrap().sql_full, "update ?");
    on_begin(&mut q, 0);
    assert!(on_end(&mut q, QueryKind::StmtExecute, no_call(), at(1, 1)).is_none());
}

#[test]
fn a_new_request_starts_clean() {
    let mut q = Queries::new();
    on_begin(&mut q, 5);
    on_bind(&mut q, &bind(1, PhpValue::Long(1), PhpValue::Long(1)));
    assert!(execute(&mut q, 2, "select 1", None).is_none());
    reset(&mut q);
    assert!(fetch(&mut q, 2, Some(1)).is_none());
    assert!(flush(&mut q).is_empty());
    let call = PdoCall { this: statement(1, "update ?", None), ..no_call() };
    let query = on_end(&mut q, QueryKind::StmtExecute, call, at(50, 1)).unwrap();
    assert_eq!(query.sql_full, "update ?");
    assert_eq!(query.elapsed, 0);
}

#[test]
fn the_payload_of_a_query_is_exact() {
    let query = Query {
        ts: 5,
        sql: "select ?".to_owned(),
        sql_full: "select 'a'".to_owned(),
        bindings: vec![Json::text("a")],
        row_count: Some(2),
        elapsed: 1,
        file: None,
        line: 0,
    };
    let frame = query_frame(query, Json::Number(Number::parse("0.25").unwrap()));
    assert_eq!(frame.feature, Feature::Queries);
    assert_eq!(frame.ts, Some(5));
    assert_eq!(
        frame.payload.encode(),
        "{\"bindings\":[\"a\"],\"connection\":\"\",\"file\":null,\"line\":0,\"row_count\":2,\
         \"sql\":\"select ?\",\"sql_full\":\"select 'a'\",\"time_ms\":0.25}"
    );
}
