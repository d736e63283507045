//! PDO query observation.
//!
//! Correlates the calls that are made on one prepared statement, so that a
//! frame has real values and a real row count:
//!
//! * `PDOStatement::bindValue` / `bindParam`: the bound values accumulate for
//!   each statement, keyed by object handle, until `execute` takes them.
//! * `PDO::exec` / `PDO::query` / `PDOStatement::execute`: SQL, bindings,
//!   timing, call site and the interpolated statement. Writes are reported at
//!   once with the affected-row count; reads are deferred, because their row
//!   count is not known until the rows are fetched.
//! * `PDOStatement::fetchAll`: counts the returned rows and reports the
//!   deferred read. Reads that are never fetched, or fetched row by row, are
//!   reported at the end of the request, however often their statement is
//!   executed.
//!
//! A deferred query keeps the time at which it was executed.

use std::collections::HashMap;
use vstd::prelude::*;
use crate::frame::{truncate, truncated, FIELD_CAP};
use crate::json::{
    element_views, has_member, has_members, int_or_null, member_views, string_or_null, Json,
    JsonView, Member,
};
use crate::observers::sql::{
    binding_value, binding_view, is_read, law_no_values_no_change, literal_text, named_values,
    pair_views, reads, sql_literal, substitute, substituted,
};
use crate::php::{key_text, ArrayKey, Entry, PhpValue};
use crate::request::{Emission, EmissionView, Feature};
use crate::text::{
    is_i64_text, law_integers_read_back, law_leading_characters_go, reads_as_i64, trim_leading,
    without_leading,
};

verus! {

broadcast use vstd::std_specs::hash::group_hash_axioms;

/// Which observed PDO symbol fired.
#[derive(Debug, Clone, Copy, PartialEq, Eq, Structural)]
pub enum QueryKind {
    /// `PDO::exec(string $sql)`: a write; returns the affected-row count.
    PdoExec,
    /// `PDO::query(string $sql, ...)`: returns a statement, usually a read.
    PdoQuery,
    /// `PDOStatement::execute(?array $params)`.
    StmtExecute,
    /// `PDOStatement::bindValue` or `bindParam`.
    BindValue,
    /// `PDOStatement::fetchAll`.
    FetchAll,
}

/// What a bound value is bound to.
pub enum BindKey {
    Positional,
    Named(String),
}

/// One bound value.
pub struct Bind {
    pub key: BindKey,
    /// The value as a literal, for interpolation.
    pub lit: String,
    /// The value among the bindings of the frame.
    pub json: Json,
}

/// The mathematical value of a [`Bind`].
pub struct BindView {
    /// The name that the value is bound to; none where it is positional.
    pub name: Option<Seq<char>>,
    pub lit: Seq<char>,
    pub json: JsonView,
}

impl View for Bind {
    type V = BindView;

    open spec fn view(&self) -> BindView {
        BindView {
            name: match self.key {
                BindKey::Positional => None,
                BindKey::Named(n) => Some(n@),
            },
            lit: self.lit@,
            json: self.json@,
        }
    }
}

/// The mathematical values of `v`, in order.
pub open spec fn bind_views(v: Seq<Bind>) -> Seq<BindView> {
    v.map_values(|b: Bind| b@)
}

/// A prepared statement.
pub struct Statement {
    /// The handle of its object.
    pub handle: u32,
    /// Its `queryString`, where that is a string.
    pub query_string: Option<String>,
    /// What its `rowCount()` returns, where that is an integer.
    pub row_count: Option<i64>,
}

/// What a finished PDO call was given and what it returned.
pub struct PdoCall {
    /// The statement that the method was called on.
    pub this: Option<Statement>,
    /// The first argument, where it is a string.
    pub sql: Option<String>,
    /// The first argument, where it is an array.
    pub params: Option<Vec<Entry>>,
    /// The returned value, where it is an integer.
    pub returned_long: Option<i64>,
    /// The returned value, where it is a statement.
    pub returned_stmt: Option<Statement>,
    /// The number of returned rows, where the returned value is an array.
    pub returned_rows: Option<u32>,
}

/// When and where a call was made.
pub struct CallSite {
    /// The monotonic clock, in nanoseconds.
    pub now: u64,
    /// The wall clock, in epoch milliseconds.
    pub ts: u64,
    pub file: Option<String>,
    pub line: u32,
}

/// One executed query.
pub struct Query {
    pub ts: u64,
    pub sql: String,
    /// The statement with its bound values interpolated.
    pub sql_full: String,
    pub bindings: Vec<Json>,
    /// The row count; of a deferred read, the count that stands if its rows
    /// are never fetched at once.
    pub row_count: Option<i64>,
    /// How long the call took, in nanoseconds.
    pub elapsed: u64,
    pub file: Option<String>,
    pub line: u32,
}

/// The mathematical value of a [`Query`].
pub struct QueryView {
    pub ts: u64,
    pub sql: Seq<char>,
    pub sql_full: Seq<char>,
    pub bindings: Seq<JsonView>,
    pub row_count: Option<i64>,
    pub elapsed: u64,
    pub file: Option<Seq<char>>,
    pub line: u32,
}

/// The mathematical value of a query that may be absent.
pub open spec fn reported(r: Option<Query>) -> Option<QueryView> {
    match r {
        Some(query) => Some(query@),
        None => None,
    }
}

impl View for Query {
    type V = QueryView;

    open spec fn view(&self) -> QueryView {
        QueryView {
            ts: self.ts,
            sql: self.sql@,
            sql_full: self.sql_full@,
            bindings: element_views(self.bindings@),
            row_count: self.row_count,
            elapsed: self.elapsed,
            file: self.file.deep_view(),
            line: self.line,
        }
    }
}

/// The queries of one request.
pub struct Queries {
    starts: Vec<u64>,
    binds: HashMap<u32, Vec<Bind>>,
    pending: HashMap<u32, Query>,
    displaced: Vec<Query>,
}

/// The mathematical value of a [`Queries`].
pub struct QueriesView {
    /// The start times of the calls in flight; the innermost is last.
    pub starts: Seq<u64>,
    /// The values bound to each statement, awaiting its execution.
    pub binds: Map<u32, Seq<BindView>>,
    /// The latest deferred read of each statement, awaiting its rows.
    pub pending: Map<u32, QueryView>,
    /// The reads that were still deferred when their statement was executed
    /// again, in that order, awaiting the end of the request.
    pub displaced: Seq<QueryView>,
}

impl View for Queries {
    type V = QueriesView;

    closed spec fn view(&self) -> QueriesView {
        QueriesView {
            starts: self.starts@,
            binds: self.binds@.map_values(|v: Vec<Bind>| bind_views(v@)),
            pending: self.pending@.map_values(|p: Query| p@),
            displaced: query_views(self.displaced@),
        }
    }
}

/// No call, no bound value and no deferred read.
pub open spec fn no_queries() -> QueriesView {
    QueriesView {
        starts: seq![],
        binds: Map::empty(),
        pending: Map::empty(),
        displaced: seq![],
    }
}

impl Queries {
    /// No call, no bound value and no deferred read.
    pub fn new() -> (q: Queries)
        ensures
            q@ == no_queries(),
    {
        let q = Queries {
            starts: Vec::new(),
            binds: HashMap::new(),
            pending: HashMap::new(),
            displaced: Vec::new(),
        };
        assert(q@.binds == no_queries().binds);
        assert(q@.pending == no_queries().pending);
        assert(q@.displaced == no_queries().displaced);
        q
    }
}

/// Clears everything at the start of a request. Handles are reused across
/// requests.
pub fn reset(q: &mut Queries)
    ensures
        final(q)@ == no_queries(),
{
    q.starts.clear();
    q.binds.clear();
    q.pending.clear();
    q.displaced.clear();
    assert(q@.binds == no_queries().binds);
    assert(q@.pending == no_queries().pending);
    assert(q@.displaced == no_queries().displaced);
}

/// The state once a call has started at `now`.
pub open spec fn begun(q: QueriesView, now: u64) -> QueriesView {
    QueriesView { starts: q.starts.push(now), ..q }
}

/// Records the start of an exec, query or execute call.
pub fn on_begin(q: &mut Queries, now: u64)
    ensures
        final(q)@ == begun(old(q)@, now),
{
    q.starts.push(now);
}

/// A `bindValue` or `bindParam` call.
pub struct BindCall {
    /// The handle of the statement.
    pub handle: Option<u32>,
    /// The parameter: a position or a name.
    pub param: Option<PhpValue>,
    pub value: Option<PhpValue>,
}

/// The bind of `value` to `param`: named where the parameter is a string, and
/// positional otherwise. Leading colons do not belong to the name.
pub open spec fn bind_of(param: PhpValue, value: PhpValue) -> BindView {
    BindView {
        name: match param {
            PhpValue::Str(s) => Some(without_leading(s@, ':')),
            _ => None,
        },
        lit: literal_text(value),
        json: binding_view(value),
    }
}

/// The state once `call` has been made.
pub open spec fn bound(q: QueriesView, call: BindCall) -> QueriesView {
    match (call.handle, call.param, call.value) {
        (Some(handle), Some(param), Some(value)) => {
            let earlier = if q.binds.contains_key(handle) {
                q.binds[handle]
            } else {
                seq![]
            };
            QueriesView {
                binds: q.binds.insert(handle, earlier.push(bind_of(param, value))),
                ..q
            }
        },
        _ => q,
    }
}

/// Accumulates a bound value for the statement.
pub fn on_bind(q: &mut Queries, call: &BindCall)
    ensures
        final(q)@ == bound(old(q)@, *call),
{
    if let (Some(handle), Some(param), Some(value)) = (&call.handle, &call.param, &call.value) {
        let key = match param {
            PhpValue::Str(s) => BindKey::Named(trim_leading(s.as_str(), ':')),
            _ => BindKey::Positional,
        };
        let bind = Bind { key, lit: sql_literal(value), json: binding_value(value) };
        let mut list = match q.binds.remove(handle) {
            Some(list) => list,
            None => Vec::new(),
        };
        let ghost earlier = list@;
        list.push(bind);
        assert(bind_views(list@) == bind_views(earlier).push(bind@));
        assert(bind_views(Seq::<Bind>::empty()) == Seq::<BindView>::empty());
        q.binds.insert(*handle, list);
        assert(q@.binds == bound(old(q)@, *call).binds);
    }
}

/// How many entries of a parameter array are taken.
pub const MAX_PARAMS: usize = 512;

/// The bind of one entry of a parameter array: positional where its key reads
/// as an integer, and named otherwise.
pub open spec fn entry_bind(e: Entry) -> BindView {
    BindView {
        name: if is_i64_text(key_text(e.key)) {
            None
        } else {
            Some(without_leading(key_text(e.key), ':'))
        },
        lit: literal_text(e.value),
        json: binding_view(e.value),
    }
}

/// The binds of a parameter array, in array order.
pub open spec fn array_binds(params: Seq<Entry>) -> Seq<BindView> {
    let n = if params.len() <= MAX_PARAMS {
        params.len()
    } else {
        MAX_PARAMS as nat
    };
    params.take(n as int).map_values(|e: Entry| entry_bind(e))
}

fn binds_from_array(params: &Vec<Entry>) -> (binds: Vec<Bind>)
    ensures
        bind_views(binds@) == array_binds(params@),
{
    let n: usize = if params.len() <= MAX_PARAMS {
        params.len()
    } else {
        MAX_PARAMS
    };
    let mut binds: Vec<Bind> = Vec::new();
    let mut i: usize = 0;
    while i < n
        invariant
            i <= n <= params@.len(),
            bind_views(binds@) == params@.take(i as int).map_values(|e: Entry| entry_bind(e)),
        decreases n - i,
    {
        let e = &params[i];
        let name = e.key.to_text();
        let key = if reads_as_i64(name.as_str()) {
            BindKey::Positional
        } else {
            BindKey::Named(trim_leading(name.as_str(), ':'))
        };
        let bind = Bind { key, lit: sql_literal(&e.value), json: binding_value(&e.value) };
        assert(bind@ == entry_bind(params@[i as int]));
        let ghost earlier = binds@;
        binds.push(bind);
        assert(bind_views(binds@) == bind_views(earlier).push(bind@));
        assert(params@.take(i + 1) == params@.take(i as int).push(params@[i as int]));
        assert(bind_views(binds@) == params@.take(i + 1).map_values(|e: Entry| entry_bind(e)));
        i += 1;
    }
    binds
}

/// The literals of the positional binds, in order.
pub open spec fn positional_literals(binds: Seq<BindView>) -> Seq<Seq<char>>
    decreases binds.len(),
{
    if binds.len() == 0 {
        seq![]
    } else {
        let front = positional_literals(binds.drop_last());
        if binds.last().name is None {
            front.push(binds.last().lit)
        } else {
            front
        }
    }
}

/// The names of the named binds with their literals, in order.
pub open spec fn named_literals(binds: Seq<BindView>) -> Seq<(Seq<char>, Seq<char>)>
    decreases binds.len(),
{
    if binds.len() == 0 {
        seq![]
    } else {
        let front = named_literals(binds.drop_last());
        match binds.last().name {
            Some(name) => front.push((name, binds.last().lit)),
            None => front,
        }
    }
}

/// `sql` with the values of `binds` in place of its placeholders.
pub open spec fn interpolated(sql: Seq<char>, binds: Seq<BindView>) -> Seq<char> {
    substituted(sql, positional_literals(binds), named_values(named_literals(binds)))
}

/// The values of `binds` as JSON, in order.
pub open spec fn bindings_of(binds: Seq<BindView>) -> Seq<JsonView> {
    binds.map_values(|b: BindView| b.json)
}

/// Splits binds into positional literals, named literals and JSON bindings.
fn build(binds: Vec<Bind>) -> (r: (Vec<String>, Vec<(String, String)>, Vec<Json>))
    ensures
        r.0.deep_view() == positional_literals(bind_views(binds@)),
        pair_views(r.1@) == named_literals(bind_views(binds@)),
        element_views(r.2@) == bindings_of(bind_views(binds@)),
{
    let ghost views = bind_views(binds@);
    let mut positional: Vec<String> = Vec::new();
    let mut named: Vec<(String, String)> = Vec::new();
    let mut json: Vec<Json> = Vec::new();
    assert(positional.deep_view() == positional_literals(views.take(0)));
    assert(pair_views(named@) == named_literals(views.take(0)));
    assert(element_views(json@) == bindings_of(views.take(0)));
    for b in it: binds
        invariant
            views == bind_views(it.seq()),
            positional.deep_view() == positional_literals(views.take(it.index() as int)),
            pair_views(named@) == named_literals(views.take(it.index() as int)),
            element_views(json@) == bindings_of(views.take(it.index() as int)),
    {
        let ghost after = views.take(it.index() + 1);
        let ghost before = views.take(it.index() as int);
        let ghost p = positional@;
        let ghost n = named@;
        let ghost j = json@;
        assert(after.drop_last() == before);
        assert(after.last() == b@);
        json.push(b.json);
        assert(element_views(json@) == element_views(j).push(b.json@));
        assert(bindings_of(after) == bindings_of(before).push(b.json@));
        match b.key {
            BindKey::Positional => {
                positional.push(b.lit);
                assert(positional.deep_view() == positional_literals(before).push(b.lit@));
            },
            BindKey::Named(name) => {
                named.push((name, b.lit));
                assert(pair_views(named@) == pair_views(n).push((name@, b.lit@)));
            },
        }
    }
    assert(views.take(views.len() as int) == views);
    (positional, named, json)
}

/// How long the innermost call has taken at `now`; zero where none is in
/// flight.
pub open spec fn elapsed_at(starts: Seq<u64>, now: u64) -> u64 {
    if starts.len() > 0 && starts.last() <= now {
        (now - starts.last()) as u64
    } else {
        0
    }
}

/// The state once the innermost call is no longer in flight.
pub open spec fn timed(q: QueriesView) -> QueriesView {
    QueriesView {
        starts: if q.starts.len() > 0 {
            q.starts.drop_last()
        } else {
            q.starts
        },
        ..q
    }
}

/// The query of a call that ended at `at`.
pub open spec fn query_of(
    q: QueriesView,
    at: CallSite,
    sql: Seq<char>,
    binds: Seq<BindView>,
    row_count: Option<i64>,
) -> QueryView {
    QueryView {
        ts: at.ts,
        sql,
        sql_full: interpolated(sql, binds),
        bindings: bindings_of(binds),
        row_count,
        elapsed: elapsed_at(q.starts, at.now),
        file: at.file.deep_view(),
        line: at.line,
    }
}

/// The state once `query`, a read of the statement `handle`, is deferred. A
/// read of that statement that was deferred before is kept until the end of the
/// request: its rows can no longer be fetched.
pub open spec fn deferred(q: QueriesView, handle: u32, query: QueryView) -> QueriesView {
    QueriesView {
        pending: q.pending.insert(handle, query),
        displaced: if q.pending.contains_key(handle) {
            q.displaced.push(q.pending[handle])
        } else {
            q.displaced
        },
        ..q
    }
}

/// What `PDO::exec` leaves and reports: a write, at once, with the returned
/// row count.
pub open spec fn exec_ended(q: QueriesView, call: PdoCall, at: CallSite) -> (
    QueriesView,
    Option<QueryView>,
) {
    (
        timed(q),
        match call.sql {
            Some(sql) => Some(query_of(q, at, sql@, seq![], call.returned_long)),
            None => None,
        },
    )
}

/// What `PDO::query` leaves and reports: the query is deferred to the fetch of
/// the statement that was returned, or reported at once where none was.
pub open spec fn query_ended(q: QueriesView, call: PdoCall, at: CallSite) -> (
    QueriesView,
    Option<QueryView>,
) {
    match (call.sql, call.returned_stmt) {
        (Some(sql), Some(stmt)) => (
            deferred(timed(q), stmt.handle, query_of(q, at, sql@, seq![], stmt.row_count)),
            None,
        ),
        (Some(sql), None) => (timed(q), Some(query_of(q, at, sql@, seq![], None))),
        (None, _) => (timed(q), None),
    }
}

/// The values that an execution uses: those of its parameter array, or else
/// those bound to the statement before.
pub open spec fn binds_used(q: QueriesView, handle: u32, call: PdoCall) -> Seq<BindView> {
    match call.params {
        Some(params) => array_binds(params@),
        None => if q.binds.contains_key(handle) {
            q.binds[handle]
        } else {
            seq![]
        },
    }
}

/// What `PDOStatement::execute` leaves and reports: the values bound to the
/// statement are used up, a read is deferred, and a write is reported at once
/// with the affected-row count.
pub open spec fn execute_ended(q: QueriesView, call: PdoCall, at: CallSite) -> (
    QueriesView,
    Option<QueryView>,
) {
    match call.this {
        None => (timed(q), None),
        Some(stmt) => {
            let left = QueriesView { binds: q.binds.remove(stmt.handle), ..timed(q) };
            match stmt.query_string {
                None => (left, None),
                Some(sql) => {
                    let binds = binds_used(q, stmt.handle, call);
                    let query = query_of(q, at, sql@, binds, stmt.row_count);
                    if reads(sql@) {
                        (deferred(left, stmt.handle, query), None)
                    } else {
                        (left, Some(query))
                    }
                },
            }
        },
    }
}

/// What `PDOStatement::fetchAll` leaves and reports: the deferred read of the
/// statement, with the number of returned rows where that is known.
pub open spec fn fetch_ended(q: QueriesView, call: PdoCall) -> (QueriesView, Option<QueryView>) {
    match call.this {
        Some(stmt) if q.pending.contains_key(stmt.handle) => {
            let query = q.pending[stmt.handle];
            (
                QueriesView { pending: q.pending.remove(stmt.handle), ..q },
                Some(
                    QueryView {
                        row_count: match call.returned_rows {
                            Some(n) => Some(n as i64),
                            None => query.row_count,
                        },
                        ..query
                    },
                ),
            )
        },
        _ => (q, None),
    }
}

/// The state after a call has ended, and the query that is reported.
pub open spec fn ended(q: QueriesView, kind: QueryKind, call: PdoCall, at: CallSite) -> (
    QueriesView,
    Option<QueryView>,
) {
    match kind {
        QueryKind::PdoExec => exec_ended(q, call, at),
        QueryKind::PdoQuery => query_ended(q, call, at),
        QueryKind::StmtExecute => execute_ended(q, call, at),
        QueryKind::BindValue => (q, None),
        QueryKind::FetchAll => fetch_ended(q, call),
    }
}

/// Takes the innermost call out of flight, and returns how long it took.
fn take_elapsed(q: &mut Queries, now: u64) -> (elapsed: u64)
    ensures
        elapsed == elapsed_at(old(q)@.starts, now),
        final(q)@ == timed(old(q)@),
{
    match q.starts.pop() {
        Some(start) => if start <= now {
            now - start
        } else {
            0
        },
        None => 0,
    }
}

/// The query of a call without bound values.
fn unbound_query(sql: String, row_count: Option<i64>, elapsed: u64, at: CallSite) -> (query: Query)
    ensures
        query@ == (QueryView {
            ts: at.ts,
            sql: sql@,
            sql_full: interpolated(sql@, seq![]),
            bindings: bindings_of(seq![]),
            row_count,
            elapsed,
            file: at.file.deep_view(),
            line: at.line,
        }),
{
    proof {
        law_no_values_no_change(sql@);
        assert(named_values(named_literals(Seq::<BindView>::empty())) == Map::<
            Seq<char>,
            Seq<char>,
        >::empty());
    }
    let query = Query {
        ts: at.ts,
        sql_full: sql.clone(),
        sql,
        bindings: Vec::new(),
        row_count,
        elapsed,
        file: at.file,
        line: at.line,
    };
    assert(query@.bindings == bindings_of(seq![]));
    query
}

/// Stores a read until its rows are fetched.
fn defer(q: &mut Queries, handle: u32, query: Query)
    ensures
        final(q)@ == deferred(old(q)@, handle, query@),
{
    let ghost earlier = q.displaced@;
    if let Some(displaced) = q.pending.insert(handle, query) {
        q.displaced.push(displaced);
        assert(query_views(q.displaced@) == query_views(earlier).push(displaced@));
    }
    assert(q@.pending == deferred(old(q)@, handle, query@).pending);
    assert(q@.displaced == deferred(old(q)@, handle, query@).displaced);
}

fn end_exec(q: &mut Queries, call: PdoCall, at: CallSite) -> (r: Option<Query>)
    ensures
        (final(q)@, reported(r)) == exec_ended(old(q)@, call, at),
{
    let elapsed = take_elapsed(q, at.now);
    match call.sql {
        Some(sql) => Some(unbound_query(sql, call.returned_long, elapsed, at)),
        None => None,
    }
}

fn end_query(q: &mut Queries, call: PdoCall, at: CallSite) -> (r: Option<Query>)
    ensures
        (final(q)@, reported(r)) == query_ended(old(q)@, call, at),
{
    let elapsed = take_elapsed(q, at.now);
    match (call.sql, call.returned_stmt) {
        (Some(sql), Some(stmt)) => {
            defer(q, stmt.handle, unbound_query(sql, stmt.row_count, elapsed, at));
            None
        },
        (Some(sql), None) => Some(unbound_query(sql, None, elapsed, at)),
        (None, _) => None,
    }
}

fn end_execute(q: &mut Queries, call: PdoCall, at: CallSite) -> (r: Option<Query>)
    ensures
        (final(q)@, reported(r)) == execute_ended(old(q)@, call, at),
{
    let elapsed = take_elapsed(q, at.now);
    let stmt = match call.this {
        Some(stmt) => stmt,
        None => {
            return None;
        },
    };
    let ghost before = q@;
    let taken = match q.binds.remove(&stmt.handle) {
        Some(list) => list,
        None => Vec::new(),
    };
    assert(q@.binds == before.binds.remove(stmt.handle));
    assert(bind_views(Seq::<Bind>::empty()) == Seq::<BindView>::empty());
    let binds = match &call.params {
        Some(params) => binds_from_array(params),
        None => taken,
    };
    assert(bind_views(binds@) == binds_used(old(q)@, stmt.handle, call));
    let sql = match stmt.query_string {
        Some(sql) => sql,
        None => {
            return None;
        },
    };
    let (positional, named, bindings) = build(binds);
    let sql_full = substitute(sql.as_str(), &positional, &named);
    let read = is_read(sql.as_str());
    let query = Query {
        ts: at.ts,
        sql,
        sql_full,
        bindings,
        row_count: stmt.row_count,
        elapsed,
        file: at.file,
        line: at.line,
    };
    if read {
        defer(q, stmt.handle, query);
        None
    } else {
        Some(query)
    }
}

/// Reports the deferred read of the statement whose rows were fetched.
pub fn on_fetchall(q: &mut Queries, call: PdoCall) -> (r: Option<Query>)
    ensures
        (final(q)@, reported(r)) == fetch_ended(old(q)@, call),
{
    match call.this {
        None => None,
        Some(stmt) => match q.pending.remove(&stmt.handle) {
            None => {
                assert(q@.pending == old(q)@.pending);
                None
            },
            Some(query) => {
                assert(q@.pending == old(q)@.pending.remove(stmt.handle));
                let row_count = match call.returned_rows {
                    Some(n) => Some(n as i64),
                    None => query.row_count,
                };
                Some(
                    Query {
                        ts: query.ts,
                        sql: query.sql,
                        sql_full: query.sql_full,
                        bindings: query.bindings,
                        row_count,
                        elapsed: query.elapsed,
                        file: query.file,
                        line: query.line,
                    },
                )
            },
        },
    }
}

/// Ends a call: the query that is to be reported now, if any.
pub fn on_end(q: &mut Queries, kind: QueryKind, call: PdoCall, at: CallSite) -> (r: Option<Query>)
    ensures
        (final(q)@, reported(r)) == ended(old(q)@, kind, call, at),
{
    match kind {
        QueryKind::BindValue => None,
        QueryKind::FetchAll => on_fetchall(q, call),
        QueryKind::PdoExec => end_exec(q, call, at),
        QueryKind::PdoQuery => end_query(q, call, at),
        QueryKind::StmtExecute => end_execute(q, call, at),
    }
}

/// The mathematical values of `v`, in order.
pub open spec fn query_views(v: Seq<Query>) -> Seq<QueryView> {
    v.map_values(|p: Query| p@)
}

/// Whether `order` lists each key of `m` once.
pub open spec fn lists_keys(order: Seq<u32>, m: Map<u32, QueryView>) -> bool {
    order.no_duplicates() && order.to_set() == m.dom()
}

/// The handles of the statements with a deferred read.
fn deferred_handles(q: &Queries) -> (handles: Vec<u32>)
    ensures
        lists_keys(handles@, q@.pending),
{
    let mut handles: Vec<u32> = Vec::new();
    let keys = q.pending.keys();
    let ghost listed = vstd::std_specs::iter::IteratorSpec::remaining(&keys).unref();
    for h in it: keys
        invariant
            it.seq().unref() == listed,
            handles@ == listed.take(it.index() as int),
    {
        handles.push(*h);
        assert(listed[it.index() as int] == *h);
        assert(handles@ == listed.take(it.index() + 1));
    }
    assert(handles@ == listed);
    assert(q.pending@.dom() == q@.pending.dom());
    handles
}

/// Takes all reads that are still deferred at the end of the request: first
/// those whose statement was executed again, in the order in which that
/// happened, then the latest of each statement, in no particular order.
pub fn flush(q: &mut Queries) -> (r: Vec<Query>)
    ensures
        final(q)@ == (QueriesView { pending: Map::empty(), displaced: seq![], ..old(q)@ }),
        exists|order: Seq<u32>| #[trigger]
            lists_keys(order, old(q)@.pending) && query_views(r@) == old(q)@.displaced
                + order.map_values(|h: u32| old(q)@.pending[h]),
{
    let handles = deferred_handles(q);
    let ghost pending = q@.pending;
    let ghost displaced = q@.displaced;
    let mut out: Vec<Query> = Vec::new();
    out.append(&mut q.displaced);
    assert(query_views(out@) == displaced);
    assert(q@.displaced == Seq::<QueryView>::empty());
    let mut i: usize = 0;
    assert(displaced + handles@.take(0).map_values(|h: u32| pending[h]) == displaced);
    while i < handles.len()
        invariant
            i <= handles@.len(),
            lists_keys(handles@, pending),
            pending == old(q)@.pending,
            q@.starts == old(q)@.starts,
            q@.binds == old(q)@.binds,
            q@.displaced == Seq::<QueryView>::empty(),
            query_views(out@) == displaced + handles@.take(i as int).map_values(
                |h: u32| pending[h],
            ),
            forall|h: u32| #[trigger]
                q@.pending.contains_key(h) <==> pending.contains_key(h) && !handles@.take(
                    i as int,
                ).contains(h),
            forall|h: u32| #[trigger]
                q@.pending.contains_key(h) ==> q@.pending[h] == pending[h],
        decreases handles@.len() - i,
    {
        let h = handles[i];
        let ghost done = handles@.take(i as int);
        let ghost before = q@.pending;
        assert(handles@.take(i + 1) == done.push(h));
        assert(!done.contains(h));
        assert(handles@.to_set().contains(h));
        assert(pending.contains_key(h));
        assert(before.contains_key(h));
        if let Some(query) = q.pending.remove(&h) {
            let ghost earlier = out@;
            out.push(query);
            assert(query@ == pending[h]);
            assert(query_views(out@) == query_views(earlier).push(query@));
        }
        assert(q@.pending == before.remove(h));
        assert(done.push(h).map_values(|h: u32| pending[h]) == done.map_values(
            |h: u32| pending[h],
        ).push(pending[h]));
        assert(query_views(out@) == displaced + done.push(h).map_values(|h: u32| pending[h]));
        assert forall|k: u32| #[trigger] q@.pending.contains_key(k) <==> pending.contains_key(k)
            && !handles@.take(i + 1).contains(k) by {
            if done.push(h).contains(k) {
                let j = choose|j: int| 0 <= j < done.push(h).len() && done.push(h)[j] == k;
                if j < done.len() {
                    assert(done[j] == k);
                }
            }
            if done.contains(k) {
                let j = choose|j: int| 0 <= j < done.len() && done[j] == k;
                assert(done.push(h)[j] == k);
            }
            assert(done.push(h)[done.len() as int] == h);
        }
        i += 1;
    }
    assert(handles@.take(handles@.len() as int) == handles@);
    assert forall|h: u32| !(#[trigger] q@.pending.contains_key(h)) by {
        if pending.contains_key(h) {
            assert(handles@.to_set().contains(h));
        }
    }
    assert(q@.pending == Map::<u32, QueryView>::empty());
    assert(lists_keys(handles@, old(q)@.pending));
    out
}

/// The payload of a `query` frame.
pub open spec fn query_payload_view(query: QueryView, time_ms: JsonView) -> JsonView {
    JsonView::Object(
        seq![
            ("bindings"@, JsonView::Array(query.bindings)),
            ("connection"@, JsonView::Str(seq![])),
            ("file"@, string_or_null(query.file)),
            ("line"@, JsonView::Int(query.line as int)),
            ("row_count"@, int_or_null(query.row_count)),
            ("sql"@, JsonView::Str(truncated(query.sql, FIELD_CAP as nat))),
            ("sql_full"@, JsonView::Str(truncated(query.sql_full, FIELD_CAP as nat))),
            ("time_ms"@, time_ms),
        ],
    )
}

/// The payload of a `query` frame. `time_ms` is how long the query took, in
/// milliseconds.
pub fn query_payload(query: Query, time_ms: Json) -> (payload: Json)
    ensures
        payload@ == query_payload_view(query@, time_ms@),
{
    let sql = truncate(query.sql.as_str(), FIELD_CAP);
    let sql_full = truncate(query.sql_full.as_str(), FIELD_CAP);
    let members = vec![
        Member::new("bindings", Json::array(query.bindings)),
        Member::new("connection", Json::Str(String::new())),
        Member::new("file", Json::optional_text(query.file)),
        Member::new("line", Json::UInt(query.line as u64)),
        Member::new("row_count", Json::optional_int(query.row_count)),
        Member::new("sql", Json::Str(sql)),
        Member::new("sql_full", Json::Str(sql_full)),
        Member::new("time_ms", time_ms),
    ];
    assert(member_views(members@) == query_payload_view(query@, time_ms@)->Object_0);
    Json::object(members)
}

/// The frame of a query: it carries the time at which the query was executed.
pub fn query_frame(query: Query, time_ms: Json) -> (e: Emission)
    ensures
        e@ == (EmissionView {
            feature: Feature::Queries,
            ts: Some(query.ts),
            payload: query_payload_view(query@, time_ms@),
        }),
{
    let ts = query.ts;
    Emission { feature: Feature::Queries, ts: Some(ts), payload: query_payload(query, time_ms) }
}

/// Whether calls of this kind are timed: their start is recorded, and their
/// end takes it back.
pub open spec fn is_timed(kind: QueryKind) -> bool {
    kind is PdoExec || kind is PdoQuery || kind is StmtExecute
}

/// Starts and ends balance: the end of a timed call takes exactly the start
/// of that call, and no other call touches the starts.
pub proof fn law_starts_balance(
    q: QueriesView,
    start: u64,
    kind: QueryKind,
    call: PdoCall,
    at: CallSite,
)
    ensures
        is_timed(kind) ==> ended(begun(q, start), kind, call, at).0.starts == q.starts,
        !is_timed(kind) ==> ended(q, kind, call, at).0.starts == q.starts,
{
    assert(q.starts.push(start).drop_last() == q.starts);
}

/// A reported or deferred timed call carries the time since its own start,
/// however many calls enclose it.
pub proof fn law_elapsed_since_own_start(q: QueriesView, start: u64, now: u64)
    requires
        start <= now,
    ensures
        elapsed_at(begun(q, start).starts, now) == now - start,
{
}

/// The query string of the statement that a call was made on.
pub open spec fn executed_sql(call: PdoCall) -> Option<Seq<char>> {
    match call.this {
        Some(stmt) => stmt.query_string.deep_view(),
        None => None,
    }
}

/// A write is reported as soon as it has been executed, with the affected-row
/// count of its statement, and nothing of it is kept.
pub proof fn law_write_is_reported_at_once(q: QueriesView, call: PdoCall, at: CallSite)
    requires
        executed_sql(call) is Some,
        !reads(executed_sql(call)->0),
    ensures
        ({
            let handle = call.this->0.handle;
            let (after, report) = ended(q, QueryKind::StmtExecute, call, at);
            &&& report == Some(
                query_of(
                    q,
                    at,
                    executed_sql(call)->0,
                    binds_used(q, handle, call),
                    call.this->0.row_count,
                ),
            )
            &&& after.pending == q.pending
            &&& after.displaced == q.displaced
            &&& !after.binds.contains_key(handle)
        }),
{
}

/// A read is not reported when it is executed, but when its rows are fetched:
/// with the number of rows returned, the time of its execution, and once.
pub proof fn law_read_is_reported_once_fetched(
    q: QueriesView,
    call: PdoCall,
    at: CallSite,
    fetch: PdoCall,
    at_fetch: CallSite,
    again: PdoCall,
)
    requires
        executed_sql(call) is Some,
        reads(executed_sql(call)->0),
        fetch.this is Some,
        fetch.this->0.handle == call.this->0.handle,
        again.this is Some,
        again.this->0.handle == call.this->0.handle,
    ensures
        ({
            let handle = call.this->0.handle;
            let query = query_of(
                q,
                at,
                executed_sql(call)->0,
                binds_used(q, handle, call),
                call.this->0.row_count,
            );
            let (executed, at_once) = ended(q, QueryKind::StmtExecute, call, at);
            let (fetched, report) = ended(executed, QueryKind::FetchAll, fetch, at_fetch);
            &&& at_once is None
            &&& report == Some(
                QueryView {
                    row_count: match fetch.returned_rows {
                        Some(n) => Some(n as i64),
                        None => call.this->0.row_count,
                    },
                    ..query
                },
            )
            &&& report->0.ts == at.ts
            &&& !fetched.pending.contains_key(handle)
            &&& ended(fetched, QueryKind::FetchAll, again, at_fetch).1 is None
        }),
{
}

/// A read whose rows are never fetched at once stays deferred, with the count
/// that its statement gave, and so is among those taken at the end of the
/// request.
pub proof fn law_unfetched_read_stays_deferred(q: QueriesView, call: PdoCall, at: CallSite)
    requires
        executed_sql(call) is Some,
        reads(executed_sql(call)->0),
    ensures
        ({
            let handle = call.this->0.handle;
            let after = ended(q, QueryKind::StmtExecute, call, at).0;
            &&& after.pending.contains_key(handle)
            &&& after.pending[handle] == query_of(
                q,
                at,
                executed_sql(call)->0,
                binds_used(q, handle, call),
                call.this->0.row_count,
            )
        }),
{
}

/// Whether an ended call concerns the statement `handle`.
pub open spec fn concerns(kind: QueryKind, call: PdoCall, handle: u32) -> bool {
    match kind {
        QueryKind::PdoExec | QueryKind::BindValue => false,
        QueryKind::PdoQuery => call.returned_stmt is Some && call.returned_stmt->0.handle
            == handle,
        QueryKind::StmtExecute | QueryKind::FetchAll => call.this is Some && call.this->0.handle
            == handle,
    }
}

/// A call leaves alone what is kept of every statement that it does not
/// concern.
pub proof fn law_other_statements_untouched(
    q: QueriesView,
    kind: QueryKind,
    call: PdoCall,
    at: CallSite,
    handle: u32,
)
    requires
        !concerns(kind, call, handle),
    ensures
        ({
            let after = ended(q, kind, call, at).0;
            &&& after.pending.contains_key(handle) == q.pending.contains_key(handle)
            &&& q.pending.contains_key(handle) ==> after.pending[handle] == q.pending[handle]
            &&& after.binds.contains_key(handle) == q.binds.contains_key(handle)
            &&& q.binds.contains_key(handle) ==> after.binds[handle] == q.binds[handle]
        }),
{
}

/// The state after the bind calls `calls`, in order.
pub open spec fn all_bound(q: QueriesView, calls: Seq<BindCall>) -> QueriesView
    decreases calls.len(),
{
    if calls.len() == 0 {
        q
    } else {
        bound(all_bound(q, calls.drop_last()), calls.last())
    }
}

/// Whether `calls` are complete bind calls on the statement `handle`.
pub open spec fn are_binds_of(calls: Seq<BindCall>, handle: u32) -> bool {
    forall|i: int|
        0 <= i < calls.len() ==> {
            let c = #[trigger] calls[i];
            c.handle == Some(handle) && c.param is Some && c.value is Some
        }
}

proof fn lemma_binds_accumulate(q: QueriesView, calls: Seq<BindCall>, handle: u32)
    requires
        !q.binds.contains_key(handle),
        are_binds_of(calls, handle),
    ensures
        calls.len() > 0 ==> all_bound(q, calls).binds.contains_key(handle),
        calls.len() > 0 ==> all_bound(q, calls).binds[handle] == calls.map_values(
            |c: BindCall| bind_of(c.param->0, c.value->0),
        ),
        all_bound(q, calls).starts == q.starts,
        all_bound(q, calls).pending == q.pending,
    decreases calls.len(),
{
    if calls.len() > 0 {
        let front = calls.drop_last();
        assert(are_binds_of(front, handle)) by {
            assert(forall|i: int| 0 <= i < front.len() ==> front[i] == calls[i]);
        }
        lemma_binds_accumulate(q, front, handle);
        let f = |c: BindCall| bind_of(c.param->0, c.value->0);
        let last = calls.last();
        assert(last == calls[calls.len() - 1]);
        assert(calls.map_values(f) == front.map_values(f).push(f(last)));
        if front.len() == 0 {
            assert(front.map_values(f) == Seq::<BindView>::empty());
        }
    }
}

/// Values bound one by one reach an execution without parameters, in the order
/// in which they were bound, and are used up by it.
pub proof fn law_bound_values_reach_execution(
    q: QueriesView,
    calls: Seq<BindCall>,
    call: PdoCall,
    at: CallSite,
)
    requires
        call.this is Some,
        call.params is None,
        !q.binds.contains_key(call.this->0.handle),
        are_binds_of(calls, call.this->0.handle),
    ensures
        ({
            let handle = call.this->0.handle;
            let before = all_bound(q, calls);
            &&& binds_used(before, handle, call) == calls.map_values(
                |c: BindCall| bind_of(c.param->0, c.value->0),
            )
            &&& !ended(before, QueryKind::StmtExecute, call, at).0.binds.contains_key(handle)
        }),
{
    lemma_binds_accumulate(q, calls, call.this->0.handle);
    if calls.len() == 0 {
        assert(calls.map_values(|c: BindCall| bind_of(c.param->0, c.value->0)) == Seq::<
            BindView,
        >::empty());
    }
}

/// One thing that happens to the queries of a request.
pub enum Step {
    Begin(u64),
    Bind(BindCall),
    End(QueryKind, PdoCall, CallSite),
}

/// The state after `step`, and the query that is reported.
pub open spec fn stepped(q: QueriesView, step: Step) -> (QueriesView, Option<QueryView>) {
    match step {
        Step::Begin(now) => (begun(q, now), None),
        Step::Bind(call) => (bound(q, call), None),
        Step::End(kind, call, at) => ended(q, kind, call, at),
    }
}

/// The state after `steps`, in order.
pub open spec fn run(q: QueriesView, steps: Seq<Step>) -> QueriesView
    decreases steps.len(),
{
    if steps.len() == 0 {
        q
    } else {
        stepped(run(q, steps.drop_last()), steps.last()).0
    }
}

/// Whether no call in `steps` ends on the statement `handle`.
pub open spec fn never_concern(steps: Seq<Step>, handle: u32) -> bool {
    forall|i: int|
        0 <= i < steps.len() ==> match #[trigger] steps[i] {
            Step::End(kind, call, _) => !concerns(kind, call, handle),
            _ => true,
        }
}

/// A deferred read is neither lost nor changed, whatever happens to other
/// statements in the meantime: it waits for its own fetch, or for the end of
/// the request.
pub proof fn law_deferred_read_waits(q: QueriesView, steps: Seq<Step>, handle: u32)
    requires
        q.pending.contains_key(handle),
        never_concern(steps, handle),
    ensures
        run(q, steps).pending.contains_key(handle),
        run(q, steps).pending[handle] == q.pending[handle],
    decreases steps.len(),
{
    if steps.len() > 0 {
        let front = steps.drop_last();
        let last = steps[steps.len() - 1];
        assert(never_concern(front, handle)) by {
            assert(forall|i: int| 0 <= i < front.len() ==> front[i] == steps[i]);
        }
        law_deferred_read_waits(q, front, handle);
        match last {
            Step::End(kind, call, at) => {
                law_other_statements_untouched(run(q, front), kind, call, at, handle);
            },
            _ => {},
        }
    }
}

/// Whether a query is made when `step` happens: an executed call whose
/// statement is known.
pub open spec fn makes_query(step: Step) -> bool {
    match step {
        Step::End(QueryKind::PdoExec, call, _) => call.sql is Some,
        Step::End(QueryKind::PdoQuery, call, _) => call.sql is Some,
        Step::End(QueryKind::StmtExecute, call, _) => executed_sql(call) is Some,
        _ => false,
    }
}

/// One where `b` holds, and zero where it does not.
pub open spec fn count_if(b: bool) -> nat {
    if b {
        1
    } else {
        0
    }
}

/// How many queries are made in `steps`.
pub open spec fn queries_made(steps: Seq<Step>) -> nat
    decreases steps.len(),
{
    if steps.len() == 0 {
        0
    } else {
        queries_made(steps.drop_last()) + count_if(makes_query(steps.last()))
    }
}

/// How many queries are reported in `steps`.
pub open spec fn queries_reported(q: QueriesView, steps: Seq<Step>) -> nat
    decreases steps.len(),
{
    if steps.len() == 0 {
        0
    } else {
        let front = steps.drop_last();
        queries_reported(q, front) + count_if(stepped(run(q, front), steps.last()).1 is Some)
    }
}

/// How many reads are kept for later.
pub open spec fn queries_kept(q: QueriesView) -> nat {
    q.displaced.len() + q.pending.dom().len()
}

proof fn lemma_step_keeps_count(q: QueriesView, step: Step)
    requires
        q.pending.dom().finite(),
    ensures
        stepped(q, step).0.pending.dom().finite(),
        count_if(makes_query(step)) + queries_kept(q) == count_if(stepped(q, step).1 is Some)
            + queries_kept(stepped(q, step).0),
{
    match step {
        Step::End(QueryKind::PdoQuery, call, at) => {
            if let (Some(_), Some(stmt)) = (call.sql, call.returned_stmt) {
                assert(stepped(q, step).0.pending.dom() == q.pending.dom().insert(stmt.handle));
            }
        },
        Step::End(QueryKind::StmtExecute, call, at) => {
            if executed_sql(call) is Some && reads(executed_sql(call)->0) {
                assert(stepped(q, step).0.pending.dom() == q.pending.dom().insert(
                    call.this->0.handle,
                ));
            }
        },
        Step::End(QueryKind::FetchAll, call, at) => {
            if call.this is Some && q.pending.contains_key(call.this->0.handle) {
                assert(stepped(q, step).0.pending.dom() == q.pending.dom().remove(
                    call.this->0.handle,
                ));
            }
        },
        _ => {},
    }
}

/// No query is lost and none is reported twice: those kept before and those
/// made are those reported and those kept after, whatever happens in between.
pub proof fn law_every_query_is_accounted_for(q: QueriesView, steps: Seq<Step>)
    requires
        q.pending.dom().finite(),
    ensures
        run(q, steps).pending.dom().finite(),
        queries_made(steps) + queries_kept(q) == queries_reported(q, steps) + queries_kept(
            run(q, steps),
        ),
    decreases steps.len(),
{
    if steps.len() > 0 {
        let front = steps.drop_last();
        law_every_query_is_accounted_for(q, front);
        lemma_step_keeps_count(run(q, front), steps.last());
    }
}

/// The end of a request reports every read that is kept, and each once: `taken`
/// are the queries that a flush takes from `q`.
pub proof fn law_flush_takes_all(q: QueriesView, order: Seq<u32>, taken: Seq<QueryView>)
    requires
        lists_keys(order, q.pending),
        taken == q.displaced + order.map_values(|h: u32| q.pending[h]),
    ensures
        taken.len() == queries_kept(q),
        forall|i: int| 0 <= i < q.displaced.len() ==> taken[i] == #[trigger] q.displaced[i],
        forall|h: u32| #[trigger]
            q.pending.contains_key(h) ==> exists|i: int|
                q.displaced.len() <= i < taken.len() && taken[i] == q.pending[h],
{
    order.unique_seq_to_set();
    assert forall|h: u32| #[trigger] q.pending.contains_key(h) implies exists|i: int|
        q.displaced.len() <= i < taken.len() && taken[i] == q.pending[h] by {
        assert(order.to_set().contains(h));
        let k = choose|k: int| 0 <= k < order.len() && order[k] == h;
        assert(taken[q.displaced.len() + k] == q.pending[h]);
    }
}

/// Whether a read of the statement `handle` is deferred when `step` happens.
pub open spec fn defers(step: Step, handle: u32) -> bool {
    match step {
        Step::End(QueryKind::PdoQuery, call, _) => call.sql is Some && call.returned_stmt is Some
            && call.returned_stmt->0.handle == handle,
        Step::End(QueryKind::StmtExecute, call, _) => executed_sql(call) is Some && reads(
            executed_sql(call)->0,
        ) && call.this->0.handle == handle,
        _ => false,
    }
}

/// A statement that is executed again before its rows were fetched keeps both
/// reads: the earlier one as it was, with the time of its own execution, and the
/// later one in its place.
pub proof fn law_earlier_read_is_kept(q: QueriesView, step: Step, handle: u32)
    requires
        q.pending.contains_key(handle),
        defers(step, handle),
    ensures
        stepped(q, step).0.displaced == q.displaced.push(q.pending[handle]),
        stepped(q, step).0.pending.contains_key(handle),
        stepped(q, step).1 is None,
{
}

/// A read that is kept for the end of the request stays there, unchanged,
/// whatever happens until then.
pub proof fn law_displaced_reads_wait(q: QueriesView, steps: Seq<Step>)
    ensures
        q.displaced.is_prefix_of(run(q, steps).displaced),
    decreases steps.len(),
{
    if steps.len() > 0 {
        law_displaced_reads_wait(q, steps.drop_last());
    }
}

/// A fetch reports the deferred read of its statement, with the number of
/// returned rows where that is known and otherwise as it was deferred, and takes
/// it: a second fetch reports nothing. Where the statement has none, nothing is
/// reported. What is kept of other statements stays.
pub proof fn law_fetch_takes_the_deferred_read(
    q: QueriesView,
    fetch: PdoCall,
    at: CallSite,
    again: PdoCall,
    at_again: CallSite,
    other: u32,
)
    requires
        fetch.this is Some,
        again.this is Some,
        again.this->0.handle == fetch.this->0.handle,
        other != fetch.this->0.handle,
    ensures
        ({
            let handle = fetch.this->0.handle;
            let (after, report) = ended(q, QueryKind::FetchAll, fetch, at);
            &&& report == (if q.pending.contains_key(handle) {
                Some(
                    QueryView {
                        row_count: match fetch.returned_rows {
                            Some(n) => Some(n as i64),
                            None => q.pending[handle].row_count,
                        },
                        ..q.pending[handle]
                    },
                )
            } else {
                None
            })
            &&& !after.pending.contains_key(handle)
            &&& after.pending.contains_key(other) == q.pending.contains_key(other)
            &&& q.pending.contains_key(other) ==> after.pending[other] == q.pending[other]
            &&& after.displaced == q.displaced
            &&& after.binds == q.binds
            &&& after.starts == q.starts
            &&& ended(after, QueryKind::FetchAll, again, at_again).1 is None
        }),
{
}

/// A query holds what its call was: its statement, its row count, the wall clock
/// and the place of its end, and the time from its own start to its end.
pub proof fn law_query_holds_its_call(
    q: QueriesView,
    start: u64,
    at: CallSite,
    sql: Seq<char>,
    binds: Seq<BindView>,
    row_count: Option<i64>,
    file: String,
)
    requires
        start <= at.now,
    ensures
        ({
            let query = query_of(begun(q, start), at, sql, binds, row_count);
            &&& query.sql == sql
            &&& query.row_count == row_count
            &&& query.ts == at.ts
            &&& query.elapsed == at.now - start
            &&& query.line == at.line
            &&& at.file == Some(file) ==> query.file == Some(file@)
            &&& at.file is None ==> query.file is None
            &&& query.sql_full == interpolated(sql, binds)
            &&& query.bindings.len() == binds.len()
            &&& forall|i: int|
                0 <= i < binds.len() ==> #[trigger] query.bindings[i] == binds[i].json
        }),
{
    let query = query_of(begun(q, start), at, sql, binds, row_count);
    assert(begun(q, start).starts.last() == start);
    assert(query.bindings == bindings_of(binds));
}

/// A call that is in flight changes nothing but the starts, and its start is the
/// innermost.
pub proof fn law_start_is_recorded(q: QueriesView, now: u64)
    ensures
        begun(q, now).starts.last() == now,
        begun(q, now).starts.drop_last() == q.starts,
        begun(q, now).binds == q.binds,
        begun(q, now).pending == q.pending,
        begun(q, now).displaced == q.displaced,
{
    assert(q.starts.push(now).drop_last() == q.starts);
}

/// A request starts with nothing in flight, nothing bound and nothing kept.
pub proof fn law_request_starts_clean(handle: u32)
    ensures
        no_queries().starts.len() == 0,
        !no_queries().binds.contains_key(handle),
        !no_queries().pending.contains_key(handle),
        no_queries().displaced.len() == 0,
{
}

/// `PDO::exec` is reported at once, as it was given, with the count that it
/// returned, and leaves what was there before it started. Where its statement is
/// unknown, nothing is reported.
pub proof fn law_exec_is_reported_at_once(
    q: QueriesView,
    start: u64,
    call: PdoCall,
    at: CallSite,
    sql: String,
)
    requires
        start <= at.now,
    ensures
        ({
            let (after, report) = ended(begun(q, start), QueryKind::PdoExec, call, at);
            &&& after == q
            &&& call.sql is None ==> report is None
            &&& call.sql == Some(sql) ==> {
                &&& report is Some
                &&& report->0.sql == sql@
                &&& report->0.sql_full == sql@
                &&& report->0.bindings.len() == 0
                &&& report->0.row_count == call.returned_long
                &&& report->0.ts == at.ts
                &&& report->0.elapsed == at.now - start
                &&& report->0.file == at.file.deep_view()
                &&& report->0.line == at.line
            }
        }),
{
    assert(q.starts.push(start).drop_last() == q.starts);
    law_unbound_statement_stays(sql@);
}

/// `PDO::query` is not reported when it ends, but kept for the fetch of the
/// statement that it returned, with the count of that statement; where it
/// returned none, it is reported at once, without a count.
pub proof fn law_query_waits_for_its_statement(
    q: QueriesView,
    start: u64,
    call: PdoCall,
    at: CallSite,
    sql: String,
    stmt: Statement,
)
    requires
        start <= at.now,
        call.sql == Some(sql),
    ensures
        ({
            let (after, report) = ended(begun(q, start), QueryKind::PdoQuery, call, at);
            let query = if report is Some {
                report->0
            } else {
                after.pending[stmt.handle]
            };
            &&& after.starts == q.starts
            &&& after.binds == q.binds
            &&& call.returned_stmt is None ==> report is Some && after == q && query.row_count
                is None
            &&& call.returned_stmt == Some(stmt) ==> {
                &&& report is None
                &&& after.pending.contains_key(stmt.handle)
                &&& after.pending.dom() == q.pending.dom().insert(stmt.handle)
                &&& query.row_count == stmt.row_count
            }
            &&& call.returned_stmt is None || call.returned_stmt == Some(stmt) ==> {
                &&& query.sql == sql@
                &&& query.sql_full == sql@
                &&& query.bindings.len() == 0
                &&& query.ts == at.ts
                &&& query.elapsed == at.now - start
                &&& query.file == at.file.deep_view()
                &&& query.line == at.line
            }
        }),
{
    assert(q.starts.push(start).drop_last() == q.starts);
    law_unbound_statement_stays(sql@);
    if call.returned_stmt == Some(stmt) {
        let after = ended(begun(q, start), QueryKind::PdoQuery, call, at).0;
        assert(after.pending.dom() == q.pending.dom().insert(stmt.handle));
    }
}

/// `PDOStatement::execute` makes a query of the statement that it was called on:
/// with its SQL, its count, the values that it uses, the wall clock and the place
/// of its end, and the time since its own start. A write is the report, a read is
/// kept for the fetch of that statement, and both use up the values bound to it.
pub proof fn law_execution_makes_a_query(
    q: QueriesView,
    start: u64,
    call: PdoCall,
    at: CallSite,
    stmt: Statement,
    sql: String,
)
    requires
        start <= at.now,
        call.this == Some(stmt),
        stmt.query_string == Some(sql),
    ensures
        ({
            let (after, report) = ended(begun(q, start), QueryKind::StmtExecute, call, at);
            let query = if report is Some {
                report->0
            } else {
                after.pending[stmt.handle]
            };
            let binds = binds_used(q, stmt.handle, call);
            &&& report is None <==> reads(sql@)
            &&& reads(sql@) ==> after.pending.contains_key(stmt.handle)
            &&& !reads(sql@) ==> after.pending == q.pending && after.displaced == q.displaced
            &&& !after.binds.contains_key(stmt.handle)
            &&& after.starts == q.starts
            &&& query.sql == sql@
            &&& query.sql_full == interpolated(sql@, binds)
            &&& query.row_count == stmt.row_count
            &&& query.ts == at.ts
            &&& query.elapsed == at.now - start
            &&& query.file == at.file.deep_view()
            &&& query.line == at.line
            &&& query.bindings.len() == binds.len()
            &&& forall|i: int|
                0 <= i < binds.len() ==> #[trigger] query.bindings[i] == binds[i].json
        }),
{
    let before = begun(q, start);
    assert(q.starts.push(start).drop_last() == q.starts);
    assert(binds_used(before, stmt.handle, call) == binds_used(q, stmt.handle, call));
    let query = query_of(before, at, sql@, binds_used(q, stmt.handle, call), stmt.row_count);
    assert(query.bindings == bindings_of(binds_used(q, stmt.handle, call)));
}

/// An execution uses its own parameters where it has some, and otherwise the
/// values that were bound to its statement, if any.
pub proof fn law_parameters_come_first(
    q: QueriesView,
    handle: u32,
    call: PdoCall,
    params: Vec<Entry>,
)
    ensures
        call.params == Some(params) ==> binds_used(q, handle, call) == array_binds(params@),
        call.params is None && q.binds.contains_key(handle) ==> binds_used(q, handle, call)
            == q.binds[handle],
        call.params is None && !q.binds.contains_key(handle) ==> binds_used(q, handle, call).len()
            == 0,
{
}

/// The binds of a parameter array are its first 512 entries, in order: each with
/// the literal and the value of the entry, positional where the key is an integer
/// or reads as one, and otherwise named by the key without its leading colons.
pub proof fn law_parameters_in_order(params: Seq<Entry>, i: int, n: i64, colons: nat, s: String)
    requires
        0 <= i < params.len(),
        i < 512,
        s@.len() > 0 ==> s@[0] != ':',
    ensures
        params.len() <= 512 ==> array_binds(params).len() == params.len(),
        params.len() > 512 ==> array_binds(params).len() == 512,
        array_binds(params)[i].lit == literal_text(params[i].value),
        array_binds(params)[i].json == binding_view(params[i].value),
        params[i].key == ArrayKey::Int(n) ==> array_binds(params)[i].name is None,
        params[i].key == ArrayKey::Str(s) && is_i64_text(s@) ==> array_binds(params)[i].name
            is None,
        params[i].key is Str && params[i].key->Str_0@ == Seq::new(colons, |k: int| ':') + s@
            && !is_i64_text(params[i].key->Str_0@) ==> array_binds(params)[i].name == Some(s@),
{
    law_integers_read_back(n, s@, 0);
    law_leading_characters_go(':', colons, s@);
    let taken: int = if params.len() <= 512 {
        params.len() as int
    } else {
        512
    };
    assert(params.take(taken)[i] == params[i]);
    assert(array_binds(params)[i] == entry_bind(params[i]));
}

/// A value that is bound by name is named without its leading colons; one that is
/// bound to anything but a string is positional. The bind holds the literal and
/// the value.
pub proof fn law_value_is_bound(param: PhpValue, value: PhpValue, colons: nat, s: Seq<char>)
    requires
        s.len() > 0 ==> s[0] != ':',
    ensures
        !(param is Str) ==> bind_of(param, value).name is None,
        param is Str && param->Str_0@ == Seq::new(colons, |k: int| ':') + s ==> bind_of(
            param,
            value,
        ).name == Some(s),
        bind_of(param, value).lit == literal_text(value),
        bind_of(param, value).json == binding_view(value),
{
    law_leading_characters_go(':', colons, s);
}

/// A complete bind call adds its value behind those of its statement, and an
/// incomplete one nothing; neither touches anything else.
pub proof fn law_binds_accumulate(q: QueriesView, call: BindCall, other: u32)
    ensures
        ({
            let after = bound(q, call);
            let complete = call.handle is Some && call.param is Some && call.value is Some;
            let handle = call.handle->0;
            let bind = bind_of(call.param->0, call.value->0);
            &&& after.starts == q.starts
            &&& after.pending == q.pending
            &&& after.displaced == q.displaced
            &&& !complete ==> after.binds == q.binds
            &&& complete ==> after.binds.contains_key(handle) && after.binds[handle].last() == bind
            &&& complete && q.binds.contains_key(handle) ==> after.binds[handle].drop_last()
                == q.binds[handle]
            &&& complete && !q.binds.contains_key(handle) ==> after.binds[handle].len() == 1
            &&& call.handle != Some(other) ==> after.binds.contains_key(other)
                == q.binds.contains_key(other)
            &&& call.handle != Some(other) && q.binds.contains_key(other) ==> after.binds[other]
                == q.binds[other]
        }),
{
    if call.handle is Some && q.binds.contains_key(call.handle->0) {
        let earlier = q.binds[call.handle->0];
        let bind = bind_of(call.param->0, call.value->0);
        assert(earlier.push(bind).drop_last() == earlier);
    }
}

/// A statement without bound values stays as it is.
pub proof fn law_unbound_statement_stays(sql: Seq<char>)
    ensures
        interpolated(sql, seq![]) == sql,
{
    law_no_values_no_change(sql);
    assert(named_values(named_literals(Seq::<BindView>::empty())) == Map::<
        Seq<char>,
        Seq<char>,
    >::empty());
}

/// Interpolation puts the literals of the positional binds in place of the
/// positional placeholders, in the order of the binds, and those of the named
/// binds in place of their names.
pub proof fn law_interpolation_uses_the_binds(
    sql: Seq<char>,
    binds: Seq<BindView>,
    bind: BindView,
)
    ensures
        interpolated(sql, binds) == substituted(
            sql,
            positional_literals(binds),
            named_values(named_literals(binds)),
        ),
        positional_literals(seq![]).len() == 0,
        named_literals(seq![]).len() == 0,
        bind.name is None ==> positional_literals(binds.push(bind)) == positional_literals(
            binds,
        ).push(bind.lit),
        bind.name is None ==> named_literals(binds.push(bind)) == named_literals(binds),
        bind.name is Some ==> positional_literals(binds.push(bind)) == positional_literals(binds),
        bind.name is Some ==> named_literals(binds.push(bind)) == named_literals(binds).push(
            (bind.name->0, bind.lit),
        ),
{
    assert(binds.push(bind).drop_last() == binds);
}

/// A query frame holds the statement and the interpolated statement up to their
/// caps, the bindings, the count where there is one, the time and the place.
pub proof fn law_frame_holds_the_query(query: QueryView, time_ms: JsonView)
    ensures
        ({
            let payload = query_payload_view(query, time_ms);
            &&& has_members(payload, 8)
            &&& has_member(payload, "sql"@, JsonView::Str(truncated(query.sql, 204800)))
            &&& has_member(payload, "sql_full"@, JsonView::Str(truncated(query.sql_full, 204800)))
            &&& has_member(payload, "bindings"@, JsonView::Array(query.bindings))
            &&& has_member(payload, "connection"@, JsonView::Str(seq![]))
            &&& has_member(payload, "time_ms"@, time_ms)
            &&& has_member(payload, "line"@, JsonView::Int(query.line as int))
            &&& query.row_count is Some ==> has_member(
                payload,
                "row_count"@,
                JsonView::Int(query.row_count->0 as int),
            )
            &&& query.row_count is None ==> has_member(payload, "row_count"@, JsonView::Null)
            &&& query.file is Some ==> has_member(payload, "file"@, JsonView::Str(query.file->0))
            &&& query.file is None ==> has_member(payload, "file"@, JsonView::Null)
        }),
{
    let m = query_payload_view(query, time_ms)->Object_0;
    assert(m[0].0 == "bindings"@);
    assert(m[1].0 == "connection"@);
    assert(m[2].0 == "file"@);
    assert(m[3].0 == "line"@);
    assert(m[4].0 == "row_count"@);
    assert(m[5].0 == "sql"@);
    assert(m[6].0 == "sql_full"@);
    assert(m[7].0 == "time_ms"@);
}

/// A call whose statement is not known makes no query, and neither does the end
/// of a bind call. Nothing is kept of them, and nothing that was kept is lost.
pub proof fn law_unknown_statements_are_silent(
    q: QueriesView,
    start: u64,
    call: PdoCall,
    at: CallSite,
)
    ensures
        ended(q, QueryKind::BindValue, call, at) == (q, None::<QueryView>),
        call.sql is None ==> ended(begun(q, start), QueryKind::PdoQuery, call, at) == (
            q,
            None::<QueryView>,
        ),
        call.this is None ==> ended(begun(q, start), QueryKind::StmtExecute, call, at) == (
            q,
            None::<QueryView>,
        ),
        call.this is None ==> ended(q, QueryKind::FetchAll, call, at) == (q, None::<QueryView>),
        call.this is Some && call.this->0.query_string is None ==> {
            let (after, report) = ended(begun(q, start), QueryKind::StmtExecute, call, at);
            &&& report is None
            &&& after.starts == q.starts
            &&& after.pending == q.pending
            &&& after.displaced == q.displaced
            &&& after.binds == q.binds.remove(call.this->0.handle)
        },
{
    assert(q.starts.push(start).drop_last() == q.starts);
}

/// A call that was never seen to start took no time, and neither did one that
/// ended before its start.
pub proof fn law_no_time_without_a_start(starts: Seq<u64>, start: u64, now: u64)
    ensures
        elapsed_at(seq![], now) == 0,
        now < start ==> elapsed_at(starts.push(start), now) == 0,
        start <= now ==> elapsed_at(starts.push(start), now) == now - start,
{
}

/// What is reported is the query itself, or nothing where there is none.
pub proof fn law_report_is_the_query(query: Query, v: Seq<Query>, i: int)
    ensures
        reported(None) is None,
        reported(Some(query)) is Some,
        reported(Some(query))->0.ts == query.ts,
        reported(Some(query))->0.sql == query.sql@,
        reported(Some(query))->0.sql_full == query.sql_full@,
        reported(Some(query))->0.bindings == element_views(query.bindings@),
        reported(Some(query))->0.row_count == query.row_count,
        reported(Some(query))->0.elapsed == query.elapsed,
        reported(Some(query))->0.file == query.file.deep_view(),
        reported(Some(query))->0.line == query.line,
        query_views(v).len() == v.len(),
        0 <= i < v.len() ==> Some(query_views(v)[i]) == reported(Some(v[i])),
{
}

} // verus!
