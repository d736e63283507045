//! Which PHP calls are observed, and what is done when one begins and ends.
//!
//! Whether a function is observed depends on its identity alone, because the
//! engine caches the answer. The features are asked at each call instead, so
//! that a change of the state file takes effect at the next request.

use vstd::prelude::*;
use crate::observers::queries::{is_timed, QueryKind};
use crate::request::{active, is_active, Feature, RequestCtx};
use crate::text::str_eq;

verus! {

/// The observed symbols.
#[derive(Debug, Clone, Copy, PartialEq, Eq, Structural)]
pub enum Sym {
    /// `VarDumper::dump`, which the `dump()` and `dd()` helpers go through.
    Dump,
    /// One of the PDO methods.
    Query(QueryKind),
    /// `Dispatcher::dispatch`, which events go through.
    Dispatch,
    /// The function `curl_exec`.
    CurlExec,
}

/// The observed symbol with this class and function name, if there is one.
pub open spec fn symbol_of(class: Option<Seq<char>>, func: Option<Seq<char>>) -> Option<Sym> {
    match (class, func) {
        (Some(c), Some(f)) => if c == "Symfony\\Component\\VarDumper\\VarDumper"@ && f == "dump"@ {
            Some(Sym::Dump)
        } else if c == "PDO"@ && f == "exec"@ {
            Some(Sym::Query(QueryKind::PdoExec))
        } else if c == "PDO"@ && f == "query"@ {
            Some(Sym::Query(QueryKind::PdoQuery))
        } else if c == "PDOStatement"@ && f == "execute"@ {
            Some(Sym::Query(QueryKind::StmtExecute))
        } else if c == "PDOStatement"@ && (f == "bindValue"@ || f == "bindParam"@) {
            Some(Sym::Query(QueryKind::BindValue))
        } else if c == "PDOStatement"@ && f == "fetchAll"@ {
            Some(Sym::Query(QueryKind::FetchAll))
        } else if c == "Illuminate\\Events\\Dispatcher"@ && f == "dispatch"@ {
            Some(Sym::Dispatch)
        } else {
            None
        },
        (None, Some(f)) => if f == "curl_exec"@ {
            Some(Sym::CurlExec)
        } else {
            None
        },
        (_, None) => None,
    }
}

/// The observed symbol with this class and function name, if there is one.
///
/// Dumps are observed at `VarDumper::dump`, which takes the value as a
/// positional argument, and not at the global helpers, which are variadic.
pub fn classify(class: Option<&str>, func: Option<&str>) -> (r: Option<Sym>)
    ensures
        r == symbol_of(class.deep_view(), func.deep_view()),
{
    let f = match func {
        Some(f) => f,
        None => {
            return None;
        },
    };
    let c = match class {
        Some(c) => c,
        None => {
            if str_eq(f, "curl_exec") {
                return Some(Sym::CurlExec);
            }
            return None;
        },
    };
    if str_eq(c, "Symfony\\Component\\VarDumper\\VarDumper") && str_eq(f, "dump") {
        Some(Sym::Dump)
    } else if str_eq(c, "PDO") && str_eq(f, "exec") {
        Some(Sym::Query(QueryKind::PdoExec))
    } else if str_eq(c, "PDO") && str_eq(f, "query") {
        Some(Sym::Query(QueryKind::PdoQuery))
    } else if str_eq(c, "PDOStatement") && str_eq(f, "execute") {
        Some(Sym::Query(QueryKind::StmtExecute))
    } else if str_eq(c, "PDOStatement") && (str_eq(f, "bindValue") || str_eq(f, "bindParam")) {
        Some(Sym::Query(QueryKind::BindValue))
    } else if str_eq(c, "PDOStatement") && str_eq(f, "fetchAll") {
        Some(Sym::Query(QueryKind::FetchAll))
    } else if str_eq(c, "Illuminate\\Events\\Dispatcher") && str_eq(f, "dispatch") {
        Some(Sym::Dispatch)
    } else {
        None
    }
}

/// What is done when an observed call begins.
#[derive(Debug, Clone, Copy, PartialEq, Eq, Structural)]
pub enum BeginAction {
    Nothing,
    /// Report the arguments of a dump. `dd()` never returns, so that this
    /// cannot wait for the end of the call.
    Dump,
    /// Record the start of a query.
    StartQuery,
    /// Record a bound value.
    Bind,
    /// Report an event.
    Dispatch,
}

/// What is done when an observed call ends.
#[derive(Debug, Clone, Copy, PartialEq, Eq, Structural)]
pub enum EndAction {
    Nothing,
    /// End a query call of this kind.
    EndQuery(QueryKind),
    /// Report an outgoing HTTP call.
    EndCurl,
}

/// What is done when a call of `sym` begins in a request.
pub open spec fn begin_action(ctx: Option<RequestCtx>, sym: Option<Sym>) -> BeginAction {
    match sym {
        Some(Sym::Dump) => if is_active(ctx, Feature::Dumps) {
            BeginAction::Dump
        } else {
            BeginAction::Nothing
        },
        Some(Sym::Query(kind)) => if !is_active(ctx, Feature::Queries) {
            BeginAction::Nothing
        } else if is_timed(kind) {
            BeginAction::StartQuery
        } else if kind is BindValue {
            BeginAction::Bind
        } else {
            BeginAction::Nothing
        },
        Some(Sym::Dispatch) => if is_active(ctx, Feature::Jobs) || is_active(ctx, Feature::Cache)
            || is_active(ctx, Feature::Logs) || is_active(ctx, Feature::Views) {
            BeginAction::Dispatch
        } else {
            BeginAction::Nothing
        },
        Some(Sym::CurlExec) => BeginAction::Nothing,
        None => BeginAction::Nothing,
    }
}

/// What is done when a call of `sym` ends in a request.
pub open spec fn end_action(ctx: Option<RequestCtx>, sym: Option<Sym>) -> EndAction {
    match sym {
        Some(Sym::Query(kind)) => if is_active(ctx, Feature::Queries) {
            EndAction::EndQuery(kind)
        } else {
            EndAction::Nothing
        },
        Some(Sym::CurlExec) => if is_active(ctx, Feature::Http) {
            EndAction::EndCurl
        } else {
            EndAction::Nothing
        },
        _ => EndAction::Nothing,
    }
}

/// The observer of function calls. It has no state of its own.
pub struct YerdObserver;

impl YerdObserver {
    /// The observer.
    pub fn new() -> (o: YerdObserver)
        ensures
            o == YerdObserver,
    {
        YerdObserver
    }

    /// Whether calls of a function are observed.
    pub fn should_observe(&self, class: Option<&str>, func: Option<&str>) -> (r: bool)
        ensures
            r == (symbol_of(class.deep_view(), func.deep_view()) is Some),
    {
        classify(class, func).is_some()
    }

    /// What is done when a call begins.
    pub fn begin(
        &self,
        ctx: &Option<RequestCtx>,
        class: Option<&str>,
        func: Option<&str>,
    ) -> (r: BeginAction)
        ensures
            r == begin_action(*ctx, symbol_of(class.deep_view(), func.deep_view())),
    {
        match classify(class, func) {
            Some(Sym::Dump) => if active(ctx, Feature::Dumps) {
                BeginAction::Dump
            } else {
                BeginAction::Nothing
            },
            Some(Sym::Query(kind)) => if !active(ctx, Feature::Queries) {
                BeginAction::Nothing
            } else {
                match kind {
                    QueryKind::BindValue => BeginAction::Bind,
                    QueryKind::FetchAll => BeginAction::Nothing,
                    _ => BeginAction::StartQuery,
                }
            },
            Some(Sym::Dispatch) => if active(ctx, Feature::Jobs) || active(ctx, Feature::Cache)
                || active(ctx, Feature::Logs) || active(ctx, Feature::Views) {
                BeginAction::Dispatch
            } else {
                BeginAction::Nothing
            },
            Some(Sym::CurlExec) => BeginAction::Nothing,
            None => BeginAction::Nothing,
        }
    }

    /// What is done when a call ends.
    pub fn end(
        &self,
        ctx: &Option<RequestCtx>,
        class: Option<&str>,
        func: Option<&str>,
    ) -> (r: EndAction)
        ensures
            r == end_action(*ctx, symbol_of(class.deep_view(), func.deep_view())),
    {
        match classify(class, func) {
            Some(Sym::Query(kind)) => if active(ctx, Feature::Queries) {
                EndAction::EndQuery(kind)
            } else {
                EndAction::Nothing
            },
            Some(Sym::CurlExec) => if active(ctx, Feature::Http) {
                EndAction::EndCurl
            } else {
                EndAction::Nothing
            },
            _ => EndAction::Nothing,
        }
    }
}

/// Nothing is done where telemetry is off, and nothing for a function that is
/// not observed.
pub proof fn law_off_means_nothing(ctx: Option<RequestCtx>, sym: Option<Sym>)
    requires
        ctx is None || sym is None,
    ensures
        begin_action(ctx, sym) is Nothing,
        end_action(ctx, sym) is Nothing,
{
}

/// Within a request a start is recorded for exactly those query calls whose
/// end takes one back.
pub proof fn law_starts_match_ends(ctx: Option<RequestCtx>, sym: Option<Sym>)
    ensures
        begin_action(ctx, sym) is StartQuery <==> (end_action(ctx, sym) matches EndAction::EndQuery(
            kind,
        ) && is_timed(kind)),
{
}

proof fn lemma_names_differ()
    ensures
        "Symfony\\Component\\VarDumper\\VarDumper"@ != "PDO"@,
        "Symfony\\Component\\VarDumper\\VarDumper"@ != "PDOStatement"@,
        "Symfony\\Component\\VarDumper\\VarDumper"@ != "Illuminate\\Events\\Dispatcher"@,
        "PDO"@ != "PDOStatement"@,
        "PDO"@ != "Illuminate\\Events\\Dispatcher"@,
        "PDOStatement"@ != "Illuminate\\Events\\Dispatcher"@,
        "exec"@ != "query"@,
        "execute"@ != "bindValue"@,
        "execute"@ != "bindParam"@,
        "execute"@ != "fetchAll"@,
        "bindValue"@ != "fetchAll"@,
        "bindParam"@ != "fetchAll"@,
{
    reveal_strlit("Symfony\\Component\\VarDumper\\VarDumper");
    reveal_strlit("PDO");
    reveal_strlit("PDOStatement");
    reveal_strlit("Illuminate\\Events\\Dispatcher");
    reveal_strlit("exec");
    reveal_strlit("query");
    reveal_strlit("execute");
    reveal_strlit("bindValue");
    reveal_strlit("bindParam");
    reveal_strlit("fetchAll");
    assert("Symfony\\Component\\VarDumper\\VarDumper"@.len() == 37);
    assert("Illuminate\\Events\\Dispatcher"@.len() == 28);
    assert("PDO"@.len() == 3);
    assert("PDOStatement"@.len() == 12);
    assert("exec"@.len() == 4 && "query"@.len() == 5);
    assert("execute"@.len() == 7 && "bindValue"@.len() == 9);
    assert("bindParam"@.len() == 9 && "fetchAll"@.len() == 8);
}

/// These functions are observed, each as its own symbol, and no other function
/// is: neither one without a name, nor one of these names in another class.
pub proof fn law_observed_functions(class: Option<Seq<char>>, func: Option<Seq<char>>)
    ensures
        symbol_of(Some("Symfony\\Component\\VarDumper\\VarDumper"@), Some("dump"@)) == Some(
            Sym::Dump,
        ),
        symbol_of(Some("PDO"@), Some("exec"@)) == Some(Sym::Query(QueryKind::PdoExec)),
        symbol_of(Some("PDO"@), Some("query"@)) == Some(Sym::Query(QueryKind::PdoQuery)),
        symbol_of(Some("PDOStatement"@), Some("execute"@)) == Some(
            Sym::Query(QueryKind::StmtExecute),
        ),
        symbol_of(Some("PDOStatement"@), Some("bindValue"@)) == Some(
            Sym::Query(QueryKind::BindValue),
        ),
        symbol_of(Some("PDOStatement"@), Some("bindParam"@)) == Some(
            Sym::Query(QueryKind::BindValue),
        ),
        symbol_of(Some("PDOStatement"@), Some("fetchAll"@)) == Some(
            Sym::Query(QueryKind::FetchAll),
        ),
        symbol_of(Some("Illuminate\\Events\\Dispatcher"@), Some("dispatch"@)) == Some(
            Sym::Dispatch,
        ),
        symbol_of(None, Some("curl_exec"@)) == Some(Sym::CurlExec),
        func is None ==> symbol_of(class, func) is None,
        class is None && func != Some("curl_exec"@) ==> symbol_of(class, func) is None,
        symbol_of(class, func) is Some && class is Some ==> {
            let c = class->0;
            let f = func->0;
            ||| c == "Symfony\\Component\\VarDumper\\VarDumper"@ && f == "dump"@
            ||| c == "PDO"@ && (f == "exec"@ || f == "query"@)
            ||| c == "PDOStatement"@ && (f == "execute"@ || f == "bindValue"@ || f == "bindParam"@
                || f == "fetchAll"@)
            ||| c == "Illuminate\\Events\\Dispatcher"@ && f == "dispatch"@
        },
{
    lemma_names_differ();
}

/// What is done when a call begins is gated by the flags of the request: a dump
/// by that of dumps, the calls on a database by that of queries, an event by
/// any of those that events feed.
pub proof fn law_flags_gate_beginnings(ctx: RequestCtx)
    ensures
        ({
            let f = ctx.state.features;
            let on = |sym: Sym| begin_action(Some(ctx), Some(sym));
            &&& on(Sym::Dump) == (if f.dumps {
                BeginAction::Dump
            } else {
                BeginAction::Nothing
            })
            &&& on(Sym::Query(QueryKind::PdoExec)) == (if f.queries {
                BeginAction::StartQuery
            } else {
                BeginAction::Nothing
            })
            &&& on(Sym::Query(QueryKind::PdoQuery)) == on(Sym::Query(QueryKind::PdoExec))
            &&& on(Sym::Query(QueryKind::StmtExecute)) == on(Sym::Query(QueryKind::PdoExec))
            &&& on(Sym::Query(QueryKind::BindValue)) == (if f.queries {
                BeginAction::Bind
            } else {
                BeginAction::Nothing
            })
            &&& on(Sym::Query(QueryKind::FetchAll)) is Nothing
            &&& on(Sym::Dispatch) == (if f.jobs || f.cache || f.logs || f.views {
                BeginAction::Dispatch
            } else {
                BeginAction::Nothing
            })
            &&& on(Sym::CurlExec) is Nothing
        }),
{
}

/// What is done when a call ends is gated by the flags of the request: the calls
/// on a database by that of queries, an outgoing call by that of HTTP.
pub proof fn law_flags_gate_ends(ctx: RequestCtx, kind: QueryKind)
    ensures
        ctx.state.features.queries ==> end_action(Some(ctx), Some(Sym::Query(kind)))
            == EndAction::EndQuery(kind),
        !ctx.state.features.queries ==> end_action(Some(ctx), Some(Sym::Query(kind))) is Nothing,
        ctx.state.features.http ==> end_action(Some(ctx), Some(Sym::CurlExec)) is EndCurl,
        !ctx.state.features.http ==> end_action(Some(ctx), Some(Sym::CurlExec)) is Nothing,
        end_action(Some(ctx), Some(Sym::Dump)) is Nothing,
        end_action(Some(ctx), Some(Sym::Dispatch)) is Nothing,
{
}

} // verus!
