//! Laravel signals, observed at `Illuminate\Events\Dispatcher::dispatch`.
//!
//! One observation point covers jobs, cache, logs and views. The event is
//! usually an object, whose class gives the category, or else a name, such as
//! `composing: home` for a view. A property that is missing, or of another
//! type than expected, counts as empty.

use vstd::prelude::*;
use crate::frame::{truncate, truncated, FIELD_CAP};
use crate::json::{
    has_member, has_members, member_views, string_or_null, Json, JsonView, Member,
};
use crate::request::{copy_or_empty, emitted, or_empty, Emission, EmissionView, Feature};
use crate::text::{
    after_prefix, comes_before, is_before, lemma_ascii_len, lemma_not_before_itself,
    lemma_order_is_total, lemma_order_is_transitive, str_eq, strip_prefix, utf8_len,
};

verus! {

/// What happened to a job.
#[derive(Debug, Clone, Copy, PartialEq, Eq, Structural)]
pub enum JobStatus {
    Processing,
    Processed,
    Failed,
}

/// What happened to a cache entry.
#[derive(Debug, Clone, Copy, PartialEq, Eq, Structural)]
pub enum CacheEvent {
    Hit,
    Missed,
    Written,
    Forgotten,
}

/// The event classes that are reported.
#[derive(Debug, Clone, Copy, PartialEq, Eq, Structural)]
pub enum EventKind {
    Job(JobStatus),
    Cache(CacheEvent),
    Log,
}

/// What an event of this class says, if it is reported at all.
pub open spec fn kind_of(class: Seq<char>) -> Option<EventKind> {
    if class == "Illuminate\\Queue\\Events\\JobProcessing"@ {
        Some(EventKind::Job(JobStatus::Processing))
    } else if class == "Illuminate\\Queue\\Events\\JobProcessed"@ {
        Some(EventKind::Job(JobStatus::Processed))
    } else if class == "Illuminate\\Queue\\Events\\JobFailed"@ {
        Some(EventKind::Job(JobStatus::Failed))
    } else if class == "Illuminate\\Cache\\Events\\CacheHit"@ {
        Some(EventKind::Cache(CacheEvent::Hit))
    } else if class == "Illuminate\\Cache\\Events\\CacheMissed"@ {
        Some(EventKind::Cache(CacheEvent::Missed))
    } else if class == "Illuminate\\Cache\\Events\\KeyWritten"@ {
        Some(EventKind::Cache(CacheEvent::Written))
    } else if class == "Illuminate\\Cache\\Events\\KeyForgotten"@ {
        Some(EventKind::Cache(CacheEvent::Forgotten))
    } else if class == "Illuminate\\Log\\Events\\MessageLogged"@ {
        Some(EventKind::Log)
    } else {
        None
    }
}

/// What an event of this class says, if it is reported at all.
pub fn event_kind(class: &str) -> (r: Option<EventKind>)
    ensures
        r == kind_of(class@),
{
    if str_eq(class, "Illuminate\\Queue\\Events\\JobProcessing") {
        Some(EventKind::Job(JobStatus::Processing))
    } else if str_eq(class, "Illuminate\\Queue\\Events\\JobProcessed") {
        Some(EventKind::Job(JobStatus::Processed))
    } else if str_eq(class, "Illuminate\\Queue\\Events\\JobFailed") {
        Some(EventKind::Job(JobStatus::Failed))
    } else if str_eq(class, "Illuminate\\Cache\\Events\\CacheHit") {
        Some(EventKind::Cache(CacheEvent::Hit))
    } else if str_eq(class, "Illuminate\\Cache\\Events\\CacheMissed") {
        Some(EventKind::Cache(CacheEvent::Missed))
    } else if str_eq(class, "Illuminate\\Cache\\Events\\KeyWritten") {
        Some(EventKind::Cache(CacheEvent::Written))
    } else if str_eq(class, "Illuminate\\Cache\\Events\\KeyForgotten") {
        Some(EventKind::Cache(CacheEvent::Forgotten))
    } else if str_eq(class, "Illuminate\\Log\\Events\\MessageLogged") {
        Some(EventKind::Log)
    } else {
        None
    }
}

/// An event object: its class, and those of its properties that are strings.
pub struct EventObject {
    pub class: String,
    pub connection_name: Option<String>,
    pub queue: Option<String>,
    pub job: Option<String>,
    /// The class of the `job` property, where that is an object.
    pub job_class: Option<String>,
    pub key: Option<String>,
    pub store_name: Option<String>,
    pub level: Option<String>,
    pub message: Option<String>,
    /// The `context` property, where it is an array of strings.
    pub context: Option<Vec<(String, String)>>,
}

/// A dispatched event.
pub enum Event {
    Object(EventObject),
    Name(String),
}

/// Whether a string property is there and not empty.
pub open spec fn nonempty(s: Option<Seq<char>>) -> bool {
    or_empty(s).len() > 0
}

/// The name that a job is shown under: its own where the event carries one,
/// else the class of the queued job, else the class of the event.
pub open spec fn job_name_of(event: EventObject) -> Seq<char> {
    if nonempty(event.job.deep_view()) {
        event.job->0@
    } else if nonempty(event.job_class.deep_view()) {
        event.job_class->0@
    } else {
        event.class@
    }
}

/// The name that a job is shown under.
fn job_name(event: &EventObject) -> (name: String)
    ensures
        name@ == job_name_of(*event),
{
    let job = copy_or_empty(&event.job);
    if !job.as_str().is_empty() {
        return job;
    }
    let job_class = copy_or_empty(&event.job_class);
    if !job_class.as_str().is_empty() {
        return job_class;
    }
    event.class.clone()
}

/// A job status as it stands in a frame.
pub open spec fn status_text(status: JobStatus) -> Seq<char> {
    match status {
        JobStatus::Processing => "processing"@,
        JobStatus::Processed => "processed"@,
        JobStatus::Failed => "failed"@,
    }
}

/// The payload of a `job` frame.
pub open spec fn job_view(
    event: EventObject,
    status: JobStatus,
    file: Option<Seq<char>>,
    line: u32,
) -> JsonView {
    JsonView::Object(
        seq![
            ("connection"@, JsonView::Str(or_empty(event.connection_name.deep_view()))),
            ("file"@, string_or_null(file)),
            ("line"@, JsonView::Int(line as int)),
            ("name"@, JsonView::Str(job_name_of(event))),
            ("queue"@, JsonView::Str(or_empty(event.queue.deep_view()))),
            ("status"@, JsonView::Str(status_text(status))),
        ],
    )
}

fn job_payload(
    event: &EventObject,
    status: JobStatus,
    file: Option<String>,
    line: u32,
) -> (payload: Json)
    ensures
        payload@ == job_view(*event, status, file.deep_view(), line),
{
    let status_name = match status {
        JobStatus::Processing => "processing",
        JobStatus::Processed => "processed",
        JobStatus::Failed => "failed",
    };
    let members = vec![
        Member::new("connection", Json::Str(copy_or_empty(&event.connection_name))),
        Member::new("file", Json::optional_text(file)),
        Member::new("line", Json::UInt(line as u64)),
        Member::new("name", Json::Str(job_name(event))),
        Member::new("queue", Json::Str(copy_or_empty(&event.queue))),
        Member::new("status", Json::text(status_name)),
    ];
    assert(member_views(members@) == job_view(*event, status, file.deep_view(), line)->Object_0);
    Json::object(members)
}

/// A cache event as it stands in a frame.
pub open spec fn cache_text(event: CacheEvent) -> Seq<char> {
    match event {
        CacheEvent::Hit => "hit"@,
        CacheEvent::Missed => "missed"@,
        CacheEvent::Written => "written"@,
        CacheEvent::Forgotten => "forgotten"@,
    }
}

/// The payload of a `cache` frame.
pub open spec fn cache_view(
    event: EventObject,
    what: CacheEvent,
    file: Option<Seq<char>>,
    line: u32,
) -> JsonView {
    JsonView::Object(
        seq![
            ("event"@, JsonView::Str(cache_text(what))),
            ("file"@, string_or_null(file)),
            ("key"@, JsonView::Str(or_empty(event.key.deep_view()))),
            ("line"@, JsonView::Int(line as int)),
            ("store"@, JsonView::Str(or_empty(event.store_name.deep_view()))),
        ],
    )
}

fn cache_payload(
    event: &EventObject,
    what: CacheEvent,
    file: Option<String>,
    line: u32,
) -> (payload: Json)
    ensures
        payload@ == cache_view(*event, what, file.deep_view(), line),
{
    let event_name = match what {
        CacheEvent::Hit => "hit",
        CacheEvent::Missed => "missed",
        CacheEvent::Written => "written",
        CacheEvent::Forgotten => "forgotten",
    };
    let members = vec![
        Member::new("event", Json::text(event_name)),
        Member::new("file", Json::optional_text(file)),
        Member::new("key", Json::Str(copy_or_empty(&event.key))),
        Member::new("line", Json::UInt(line as u64)),
        Member::new("store", Json::Str(copy_or_empty(&event.store_name))),
    ];
    assert(member_views(members@) == cache_view(*event, what, file.deep_view(), line)->Object_0);
    Json::object(members)
}

/// `m`, whose keys are in order, with `key` set to `value`: replaced where the
/// key is there already, and put in its place where it is not.
pub open spec fn placed(
    m: Seq<(Seq<char>, JsonView)>,
    key: Seq<char>,
    value: JsonView,
) -> Seq<(Seq<char>, JsonView)>
    decreases m.len(),
{
    if m.len() == 0 {
        seq![(key, value)]
    } else if comes_before(key, m.last().0) {
        placed(m.drop_last(), key, value).push(m.last())
    } else if m.last().0 == key {
        m.drop_last().push((key, value))
    } else {
        m.push((key, value))
    }
}

fn place(m: &mut Vec<Member>, key: String, value: Json)
    ensures
        member_views(final(m)@) == placed(member_views(old(m)@), key@, value@),
{
    let ghost views = member_views(m@);
    let mut i: usize = m.len();
    assert(views.take(i as int) == views);
    assert(placed(views, key@, value@) + views.skip(i as int) == placed(views, key@, value@));
    while i > 0 && is_before(key.as_str(), m[i - 1].key.as_str())
        invariant
            m@ == old(m)@,
            views == member_views(m@),
            i <= m@.len(),
            placed(views, key@, value@) == placed(views.take(i as int), key@, value@) + views.skip(
                i as int,
            ),
        decreases i,
    {
        let ghost front = views.take(i as int);
        assert(front.drop_last() == views.take(i - 1));
        assert(front.last() == views[i - 1]);
        i -= 1;
        assert(placed(views, key@, value@) == placed(views.take(i as int), key@, value@)
            + views.skip(i as int));
    }
    let ghost front = views.take(i as int);
    let ghost fresh = (key@, value@);
    let member = Member { key, value };
    assert(member@ == fresh);
    if i > 0 && str_eq(m[i - 1].key.as_str(), member.key.as_str()) {
        assert(front.last() == views[i - 1]);
        assert(front.drop_last() == views.take(i - 1));
        m.set(i - 1, member);
        assert(member_views(m@) == front.drop_last().push(fresh) + views.skip(i as int));
    } else {
        if i > 0 {
            assert(front.last() == views[i - 1]);
        }
        m.insert(i, member);
        assert(member_views(m@) == front.push(fresh) + views.skip(i as int));
        if i == 0 {
            assert(front.push(fresh) == seq![fresh]);
        }
    }
}

/// How many entries of a log context are reported.
pub const CONTEXT_ENTRIES: usize = 64;

/// Cap on each value of a log context, in bytes.
pub const CONTEXT_VALUE_CAP: usize = 4096;

/// The mathematical values of `v`, in order.
pub open spec fn context_entries(v: Seq<(String, String)>) -> Seq<(Seq<char>, Seq<char>)> {
    v.map_values(|p: (String, String)| (p.0@, p.1@))
}

/// The members for the first `n` entries of a log context, in the order of
/// their keys. The last value for a key stands.
pub open spec fn context_members(
    entries: Seq<(Seq<char>, Seq<char>)>,
    n: nat,
) -> Seq<(Seq<char>, JsonView)>
    decreases n,
{
    if n == 0 || n > entries.len() {
        seq![]
    } else {
        let (key, value) = entries[n - 1];
        placed(
            context_members(entries, (n - 1) as nat),
            key,
            JsonView::Str(truncated(value, CONTEXT_VALUE_CAP as nat)),
        )
    }
}

/// How many of `len` entries are reported.
pub open spec fn entries_taken(len: nat) -> nat {
    if len <= CONTEXT_ENTRIES {
        len
    } else {
        CONTEXT_ENTRIES as nat
    }
}

/// The context of a log frame.
pub open spec fn context_view(context: Option<Vec<(String, String)>>) -> JsonView {
    match context {
        Some(v) => JsonView::Object(
            context_members(context_entries(v@), entries_taken(v@.len())),
        ),
        None => JsonView::Object(seq![]),
    }
}

fn context_json(context: &Option<Vec<(String, String)>>) -> (j: Json)
    ensures
        j@ == context_view(*context),
{
    let mut members: Vec<Member> = Vec::new();
    assert(member_views(members@) == Seq::<(Seq<char>, JsonView)>::empty());
    if let Some(v) = context {
        let n: usize = if v.len() <= CONTEXT_ENTRIES {
            v.len()
        } else {
            CONTEXT_ENTRIES
        };
        let mut i: usize = 0;
        while i < n
            invariant
                i <= n <= v@.len(),
                member_views(members@) == context_members(context_entries(v@), i as nat),
            decreases n - i,
        {
            let value = truncate(v[i].1.as_str(), CONTEXT_VALUE_CAP);
            place(&mut members, v[i].0.clone(), Json::Str(value));
            i += 1;
        }
    }
    Json::object(members)
}

/// The payload of a `log` frame.
pub open spec fn log_view(event: EventObject, file: Option<Seq<char>>, line: u32) -> JsonView {
    JsonView::Object(
        seq![
            ("context"@, context_view(event.context)),
            ("file"@, string_or_null(file)),
            ("level"@, JsonView::Str(or_empty(event.level.deep_view()))),
            ("line"@, JsonView::Int(line as int)),
            (
                "message"@,
                JsonView::Str(truncated(or_empty(event.message.deep_view()), FIELD_CAP as nat)),
            ),
        ],
    )
}

fn log_payload(event: &EventObject, file: Option<String>, line: u32) -> (payload: Json)
    ensures
        payload@ == log_view(*event, file.deep_view(), line),
{
    let message = copy_or_empty(&event.message);
    let members = vec![
        Member::new("context", context_json(&event.context)),
        Member::new("file", Json::optional_text(file)),
        Member::new("level", Json::Str(copy_or_empty(&event.level))),
        Member::new("line", Json::UInt(line as u64)),
        Member::new("message", Json::Str(truncate(message.as_str(), FIELD_CAP))),
    ];
    assert(member_views(members@) == log_view(*event, file.deep_view(), line)->Object_0);
    Json::object(members)
}

/// The view that a named event is about, if it is about one.
pub open spec fn view_of(name: Seq<char>) -> Option<Seq<char>> {
    match after_prefix(name, "composing: "@) {
        Some(view) => Some(view),
        None => after_prefix(name, "creating: "@),
    }
}

/// The view that a named event is about, if it is about one: views are
/// dispatched as `composing: <view>` and `creating: <view>`.
pub fn view_name(name: &str) -> (r: Option<String>)
    ensures
        r.deep_view() == view_of(name@),
{
    match strip_prefix(name, "composing: ") {
        Some(view) => Some(view),
        None => strip_prefix(name, "creating: "),
    }
}

/// The payload of a `view` frame.
pub open spec fn view_view(view: Seq<char>, file: Option<Seq<char>>, line: u32) -> JsonView {
    JsonView::Object(
        seq![
            ("data_keys"@, JsonView::Array(seq![])),
            ("file"@, string_or_null(file)),
            ("line"@, JsonView::Int(line as int)),
            ("name"@, JsonView::Str(view)),
            ("path"@, JsonView::Str(seq![])),
        ],
    )
}

fn view_payload(view: String, file: Option<String>, line: u32) -> (payload: Json)
    ensures
        payload@ == view_view(view@, file.deep_view(), line),
{
    let keys: Vec<Json> = Vec::new();
    let data_keys = Json::array(keys);
    assert(data_keys@->Array_0 == Seq::<JsonView>::empty());
    let members = vec![
        Member::new("data_keys", data_keys),
        Member::new("file", Json::optional_text(file)),
        Member::new("line", Json::UInt(line as u64)),
        Member::new("name", Json::Str(view)),
        Member::new("path", Json::Str(String::new())),
    ];
    assert(member_views(members@) == view_view(view@, file.deep_view(), line)->Object_0);
    Json::object(members)
}

/// What is reported of a dispatched event.
pub open spec fn event_frame(event: Event, file: Option<Seq<char>>, line: u32) -> Option<
    EmissionView,
> {
    match event {
        Event::Object(object) => match kind_of(object.class@) {
            Some(EventKind::Job(status)) => Some(
                EmissionView {
                    feature: Feature::Jobs,
                    ts: None,
                    payload: job_view(object, status, file, line),
                },
            ),
            Some(EventKind::Cache(what)) => Some(
                EmissionView {
                    feature: Feature::Cache,
                    ts: None,
                    payload: cache_view(object, what, file, line),
                },
            ),
            Some(EventKind::Log) => Some(
                EmissionView {
                    feature: Feature::Logs,
                    ts: None,
                    payload: log_view(object, file, line),
                },
            ),
            None => None,
        },
        Event::Name(name) => match view_of(name@) {
            Some(view) => Some(
                EmissionView {
                    feature: Feature::Views,
                    ts: None,
                    payload: view_view(view, file, line),
                },
            ),
            None => None,
        },
    }
}

fn dispatch_object(event: &EventObject, file: Option<String>, line: u32) -> (r: Option<Emission>)
    ensures
        emitted(r) == event_frame(Event::Object(*event), file.deep_view(), line),
{
    match event_kind(event.class.as_str()) {
        Some(EventKind::Job(status)) => Some(
            Emission {
                feature: Feature::Jobs,
                ts: None,
                payload: job_payload(event, status, file, line),
            },
        ),
        Some(EventKind::Cache(what)) => Some(
            Emission {
                feature: Feature::Cache,
                ts: None,
                payload: cache_payload(event, what, file, line),
            },
        ),
        Some(EventKind::Log) => Some(
            Emission {
                feature: Feature::Logs,
                ts: None,
                payload: log_payload(event, file, line),
            },
        ),
        None => None,
    }
}

fn dispatch_string(name: &str, file: Option<String>, line: u32) -> (r: Option<Emission>)
    ensures
        emitted(r) == (match view_of(name@) {
            Some(view) => Some(
                EmissionView {
                    feature: Feature::Views,
                    ts: None,
                    payload: view_view(view, file.deep_view(), line),
                },
            ),
            None => None,
        }),
{
    match view_name(name) {
        Some(view) => Some(
            Emission {
                feature: Feature::Views,
                ts: None,
                payload: view_payload(view, file, line),
            },
        ),
        None => None,
    }
}

/// Handles a dispatched event.
pub fn on_dispatch(event: &Event, file: Option<String>, line: u32) -> (r: Option<Emission>)
    ensures
        emitted(r) == event_frame(*event, file.deep_view(), line),
{
    match event {
        Event::Object(object) => dispatch_object(object, file, line),
        Event::Name(name) => dispatch_string(name.as_str(), file, line),
    }
}

/// Whether the keys of `m` are in order, each there once.
pub open spec fn in_order(m: Seq<(Seq<char>, JsonView)>) -> bool {
    forall|i: int, j: int|
        0 <= i < j < m.len() ==> comes_before((#[trigger] m[i]).0, (#[trigger] m[j]).0)
}

proof fn lemma_placed(m: Seq<(Seq<char>, JsonView)>, key: Seq<char>, value: JsonView)
    requires
        in_order(m),
    ensures
        in_order(placed(m, key, value)),
        placed(m, key, value).contains((key, value)),
        forall|i: int|
            0 <= i < placed(m, key, value).len() ==> {
                let p = #[trigger] placed(m, key, value)[i];
                p == (key, value) || (p.0 != key && m.contains(p))
            },
        forall|p: (Seq<char>, JsonView)| #[trigger]
            m.contains(p) && p.0 != key ==> placed(m, key, value).contains(p),
    decreases m.len(),
{
    let r = placed(m, key, value);
    let fresh = (key, value);
    if m.len() == 0 {
        assert(r[0] == fresh);
    } else {
        let last = m.last();
        let front = m.drop_last();
        assert(forall|i: int| 0 <= i < front.len() ==> front[i] == m[i]);
        assert(m[m.len() - 1] == last);
        assert forall|p: (Seq<char>, JsonView)| #[trigger] m.contains(p) implies p == last
            || front.contains(p) by {
            let i = choose|i: int| 0 <= i < m.len() && m[i] == p;
            if i < front.len() {
                assert(front[i] == p);
            }
        }
        assert forall|p: (Seq<char>, JsonView)| #[trigger] front.contains(p) implies m.contains(
            p,
        ) by {
            let i = choose|i: int| 0 <= i < front.len() && front[i] == p;
            assert(m[i] == p);
        }
        lemma_order_is_total(key, last.0);
        if comes_before(key, last.0) {
            lemma_placed(front, key, value);
            lemma_not_before_itself(key);
            let inner = placed(front, key, value);
            assert(r == inner.push(last));
            assert(forall|i: int| 0 <= i < inner.len() ==> r[i] == inner[i]);
            assert(r[inner.len() as int] == last);
            assert forall|i: int, j: int| 0 <= i < j < r.len() implies comes_before(
                (#[trigger] r[i]).0,
                (#[trigger] r[j]).0,
            ) by {
                if j == inner.len() {
                    let p = inner[i];
                    if p != fresh {
                        let k = choose|k: int| 0 <= k < front.len() && front[k] == p;
                        assert(comes_before(m[k].0, m[m.len() - 1].0));
                    }
                } else {
                    assert(comes_before(inner[i].0, inner[j].0));
                }
            }
            assert forall|p: (Seq<char>, JsonView)| #[trigger] inner.contains(p) implies r.contains(
                p,
            ) by {
                let k = choose|k: int| 0 <= k < inner.len() && inner[k] == p;
                assert(r[k] == p);
            }
            assert(r.contains(last));
        } else {
            let kept = if last.0 == key {
                front
            } else {
                m
            };
            assert(r == kept.push(fresh));
            assert(forall|i: int| 0 <= i < kept.len() ==> r[i] == kept[i] && kept[i] == m[i]);
            assert(r[kept.len() as int] == fresh);
            assert forall|i: int| 0 <= i < kept.len() implies comes_before(
                (#[trigger] kept[i]).0,
                key,
            ) by {
                if i < m.len() - 1 {
                    assert(comes_before(m[i].0, m[m.len() - 1].0));
                    if last.0 != key {
                        lemma_order_is_transitive(m[i].0, last.0, key);
                    }
                }
            }
            assert forall|i: int, j: int| 0 <= i < j < r.len() implies comes_before(
                (#[trigger] r[i]).0,
                (#[trigger] r[j]).0,
            ) by {
                if j < kept.len() {
                    assert(comes_before(m[i].0, m[j].0));
                } else {
                    assert(comes_before(kept[i].0, key));
                }
            }
            assert forall|i: int| 0 <= i < r.len() implies {
                let p = #[trigger] r[i];
                p == fresh || (p.0 != key && m.contains(p))
            } by {
                if i < kept.len() {
                    assert(comes_before(kept[i].0, key));
                    lemma_not_before_itself(key);
                    assert(m[i] == r[i]);
                }
            }
            assert forall|p: (Seq<char>, JsonView)| #[trigger] m.contains(p) && p.0
                != key implies r.contains(p) by {
                let i = choose|i: int| 0 <= i < m.len() && m[i] == p;
                assert(i < kept.len());
                assert(r[i] == p);
            }
        }
    }
}

/// The members of a reported log context are in the order of their keys, and
/// each key stands once.
pub proof fn law_context_is_in_order(entries: Seq<(Seq<char>, Seq<char>)>, n: nat)
    requires
        n <= entries.len(),
    ensures
        in_order(context_members(entries, n)),
    decreases n,
{
    if n > 0 {
        law_context_is_in_order(entries, (n - 1) as nat);
        let (key, value) = entries[n - 1];
        lemma_placed(
            context_members(entries, (n - 1) as nat),
            key,
            JsonView::Str(truncated(value, CONTEXT_VALUE_CAP as nat)),
        );
    }
}

/// An entry of a log context is reported where no later reported entry has
/// its key.
pub proof fn law_last_context_value_stands(
    entries: Seq<(Seq<char>, Seq<char>)>,
    n: nat,
    i: int,
)
    requires
        0 <= i < n <= entries.len(),
        forall|j: int| i < j < n ==> (#[trigger] entries[j]).0 != entries[i].0,
    ensures
        context_members(entries, n).contains(
            (
                entries[i].0,
                JsonView::Str(truncated(entries[i].1, CONTEXT_VALUE_CAP as nat)),
            ),
        ),
    decreases n,
{
    let (key, value) = entries[n - 1];
    let front = context_members(entries, (n - 1) as nat);
    law_context_is_in_order(entries, (n - 1) as nat);
    lemma_placed(front, key, JsonView::Str(truncated(value, CONTEXT_VALUE_CAP as nat)));
    if i < n - 1 {
        law_last_context_value_stands(entries, (n - 1) as nat, i);
        assert(entries[n - 1].0 != entries[i].0);
    }
}

/// These classes are reported, each as its own kind, and no other class is.
pub proof fn law_reported_classes(class: Seq<char>)
    ensures
        kind_of("Illuminate\\Queue\\Events\\JobProcessing"@) == Some(
            EventKind::Job(JobStatus::Processing),
        ),
        kind_of("Illuminate\\Queue\\Events\\JobProcessed"@) == Some(
            EventKind::Job(JobStatus::Processed),
        ),
        kind_of("Illuminate\\Queue\\Events\\JobFailed"@) == Some(EventKind::Job(JobStatus::Failed)),
        kind_of("Illuminate\\Cache\\Events\\CacheHit"@) == Some(EventKind::Cache(CacheEvent::Hit)),
        kind_of("Illuminate\\Cache\\Events\\CacheMissed"@) == Some(
            EventKind::Cache(CacheEvent::Missed),
        ),
        kind_of("Illuminate\\Cache\\Events\\KeyWritten"@) == Some(
            EventKind::Cache(CacheEvent::Written),
        ),
        kind_of("Illuminate\\Cache\\Events\\KeyForgotten"@) == Some(
            EventKind::Cache(CacheEvent::Forgotten),
        ),
        kind_of("Illuminate\\Log\\Events\\MessageLogged"@) == Some(EventKind::Log),
        kind_of(class) is Some ==> {
            ||| class == "Illuminate\\Queue\\Events\\JobProcessing"@
            ||| class == "Illuminate\\Queue\\Events\\JobProcessed"@
            ||| class == "Illuminate\\Queue\\Events\\JobFailed"@
            ||| class == "Illuminate\\Cache\\Events\\CacheHit"@
            ||| class == "Illuminate\\Cache\\Events\\CacheMissed"@
            ||| class == "Illuminate\\Cache\\Events\\KeyWritten"@
            ||| class == "Illuminate\\Cache\\Events\\KeyForgotten"@
            ||| class == "Illuminate\\Log\\Events\\MessageLogged"@
        },
{
    reveal_strlit("Illuminate\\Queue\\Events\\JobProcessing");
    reveal_strlit("Illuminate\\Queue\\Events\\JobProcessed");
    reveal_strlit("Illuminate\\Queue\\Events\\JobFailed");
    reveal_strlit("Illuminate\\Cache\\Events\\CacheHit");
    reveal_strlit("Illuminate\\Cache\\Events\\CacheMissed");
    reveal_strlit("Illuminate\\Cache\\Events\\KeyWritten");
    reveal_strlit("Illuminate\\Cache\\Events\\KeyForgotten");
    reveal_strlit("Illuminate\\Log\\Events\\MessageLogged");
    assert("Illuminate\\Queue\\Events\\JobProcessing"@.len() == 37);
    assert("Illuminate\\Queue\\Events\\JobProcessed"@.len() == 36);
    assert("Illuminate\\Queue\\Events\\JobFailed"@.len() == 33);
    assert("Illuminate\\Cache\\Events\\CacheHit"@.len() == 32);
    assert("Illuminate\\Cache\\Events\\CacheMissed"@.len() == 35);
    assert("Illuminate\\Cache\\Events\\KeyWritten"@.len() == 34);
    assert("Illuminate\\Cache\\Events\\KeyForgotten"@.len() == 36);
    assert("Illuminate\\Log\\Events\\MessageLogged"@.len() == 35);
    assert("Illuminate\\Queue\\Events\\JobProcessed"@[11]
        != "Illuminate\\Cache\\Events\\KeyForgotten"@[11]);
    assert("Illuminate\\Cache\\Events\\CacheMissed"@[11]
        != "Illuminate\\Log\\Events\\MessageLogged"@[11]);
}

/// The words of a frame for what happened to a job or to a cache entry.
pub proof fn law_words_of_events()
    ensures
        status_text(JobStatus::Processing) == "processing"@,
        status_text(JobStatus::Processed) == "processed"@,
        status_text(JobStatus::Failed) == "failed"@,
        cache_text(CacheEvent::Hit) == "hit"@,
        cache_text(CacheEvent::Missed) == "missed"@,
        cache_text(CacheEvent::Written) == "written"@,
        cache_text(CacheEvent::Forgotten) == "forgotten"@,
{
}

/// A job is shown under its own name, or else under the class of the queued job,
/// or else under that of the event.
pub proof fn law_name_of_a_job(event: EventObject, name: String)
    ensures
        event.job == Some(name) && name@.len() > 0 ==> job_name_of(event) == name@,
        (event.job is None || event.job->0@.len() == 0) && event.job_class == Some(name)
            && name@.len() > 0 ==> job_name_of(event) == name@,
        (event.job is None || event.job->0@.len() == 0) && (event.job_class is None
            || event.job_class->0@.len() == 0) ==> job_name_of(event) == event.class@,
{
}

/// A job event is reported with its own connection and queue, its name and its
/// status.
pub proof fn law_job_is_reported(
    event: EventObject,
    status: JobStatus,
    s: String,
    file: Option<Seq<char>>,
    line: u32,
)
    requires
        kind_of(event.class@) == Some(EventKind::Job(status)),
    ensures
        ({
            let frame = event_frame(Event::Object(event), file, line);
            let payload = frame->0.payload;
            &&& frame is Some
            &&& frame->0.feature == Feature::Jobs
            &&& frame->0.ts is None
            &&& has_members(payload, 6)
            &&& has_member(payload, "name"@, JsonView::Str(job_name_of(event)))
            &&& has_member(payload, "status"@, JsonView::Str(status_text(status)))
            &&& event.connection_name == Some(s) ==> has_member(
                payload,
                "connection"@,
                JsonView::Str(s@),
            )
            &&& event.connection_name is None ==> has_member(
                payload,
                "connection"@,
                JsonView::Str(seq![]),
            )
            &&& event.queue == Some(s) ==> has_member(payload, "queue"@, JsonView::Str(s@))
            &&& event.queue is None ==> has_member(payload, "queue"@, JsonView::Str(seq![]))
            &&& has_member(payload, "line"@, JsonView::Int(line as int))
            &&& file is Some ==> has_member(payload, "file"@, JsonView::Str(file->0))
            &&& file is None ==> has_member(payload, "file"@, JsonView::Null)
        }),
{
    let m = job_view(event, status, file, line)->Object_0;
    assert(m[0].0 == "connection"@);
    assert(m[1].0 == "file"@);
    assert(m[2].0 == "line"@);
    assert(m[3].0 == "name"@);
    assert(m[4].0 == "queue"@);
    assert(m[5].0 == "status"@);
}

/// A cache event is reported with what happened, and its own key and store.
pub proof fn law_cache_event_is_reported(
    event: EventObject,
    what: CacheEvent,
    s: String,
    file: Option<Seq<char>>,
    line: u32,
)
    requires
        kind_of(event.class@) == Some(EventKind::Cache(what)),
    ensures
        ({
            let frame = event_frame(Event::Object(event), file, line);
            let payload = frame->0.payload;
            &&& frame is Some
            &&& frame->0.feature == Feature::Cache
            &&& frame->0.ts is None
            &&& has_members(payload, 5)
            &&& has_member(payload, "event"@, JsonView::Str(cache_text(what)))
            &&& event.key == Some(s) ==> has_member(payload, "key"@, JsonView::Str(s@))
            &&& event.key is None ==> has_member(payload, "key"@, JsonView::Str(seq![]))
            &&& event.store_name == Some(s) ==> has_member(payload, "store"@, JsonView::Str(s@))
            &&& event.store_name is None ==> has_member(payload, "store"@, JsonView::Str(seq![]))
            &&& has_member(payload, "line"@, JsonView::Int(line as int))
            &&& file is Some ==> has_member(payload, "file"@, JsonView::Str(file->0))
            &&& file is None ==> has_member(payload, "file"@, JsonView::Null)
        }),
{
    let m = cache_view(event, what, file, line)->Object_0;
    assert(m[0].0 == "event"@);
    assert(m[1].0 == "file"@);
    assert(m[2].0 == "key"@);
    assert(m[3].0 == "line"@);
    assert(m[4].0 == "store"@);
}

/// A logged message is reported with its own level, character for character, its
/// message up to the cap, and its context.
pub proof fn law_log_message_is_reported(
    event: EventObject,
    s: String,
    file: Option<Seq<char>>,
    line: u32,
)
    requires
        kind_of(event.class@) == Some(EventKind::Log),
    ensures
        ({
            let frame = event_frame(Event::Object(event), file, line);
            let payload = frame->0.payload;
            &&& frame is Some
            &&& frame->0.feature == Feature::Logs
            &&& frame->0.ts is None
            &&& has_members(payload, 5)
            &&& event.level == Some(s) ==> has_member(payload, "level"@, JsonView::Str(s@))
            &&& event.level is None ==> has_member(payload, "level"@, JsonView::Str(seq![]))
            &&& event.message == Some(s) ==> has_member(
                payload,
                "message"@,
                JsonView::Str(truncated(s@, 204800)),
            )
            &&& event.message is None ==> has_member(payload, "message"@, JsonView::Str(seq![]))
            &&& has_member(payload, "context"@, context_view(event.context))
            &&& has_member(payload, "line"@, JsonView::Int(line as int))
            &&& file is Some ==> has_member(payload, "file"@, JsonView::Str(file->0))
            &&& file is None ==> has_member(payload, "file"@, JsonView::Null)
        }),
{
    let m = log_view(event, file, line)->Object_0;
    assert(m[0].0 == "context"@);
    assert(m[1].0 == "file"@);
    assert(m[2].0 == "level"@);
    assert(m[3].0 == "line"@);
    assert(m[4].0 == "message"@);
    assert(utf8_len(Seq::<char>::empty()) == 0) by {
        lemma_ascii_len(seq![]);
    }
}

/// Messages that were logged at different levels have different frames.
pub proof fn law_levels_are_told_apart(
    a: EventObject,
    b: EventObject,
    file: Option<Seq<char>>,
    line: u32,
)
    requires
        kind_of(a.class@) == Some(EventKind::Log),
        kind_of(b.class@) == Some(EventKind::Log),
        a.level is Some,
        b.level is Some,
        a.level->0@ != b.level->0@,
    ensures
        event_frame(Event::Object(a), file, line) != event_frame(Event::Object(b), file, line),
{
    let x = log_view(a, file, line)->Object_0;
    let y = log_view(b, file, line)->Object_0;
    assert(x[2].1 == JsonView::Str(a.level->0@));
    assert(y[2].1 == JsonView::Str(b.level->0@));
}

/// A view is reported under its name, which stands behind `composing: ` or
/// `creating: ` in the name of the event; other names are not reported, and
/// neither are objects of other classes.
pub proof fn law_views_are_reported(
    view: Seq<char>,
    event: String,
    other: EventObject,
    file: Option<Seq<char>>,
    line: u32,
)
    ensures
        (event@ == "composing: "@ + view || event@ == "creating: "@ + view) ==> {
            let frame = event_frame(Event::Name(event), file, line);
            let payload = frame->0.payload;
            &&& frame is Some
            &&& frame->0.feature == Feature::Views
            &&& frame->0.ts is None
            &&& has_members(payload, 5)
            &&& has_member(payload, "name"@, JsonView::Str(view))
            &&& has_member(payload, "path"@, JsonView::Str(seq![]))
            &&& has_member(payload, "data_keys"@, JsonView::Array(seq![]))
            &&& has_member(payload, "line"@, JsonView::Int(line as int))
            &&& file is Some ==> has_member(payload, "file"@, JsonView::Str(file->0))
            &&& file is None ==> has_member(payload, "file"@, JsonView::Null)
        },
        !"composing: "@.is_prefix_of(event@) && !"creating: "@.is_prefix_of(event@)
            ==> event_frame(Event::Name(event), file, line) is None,
        kind_of(other.class@) is None ==> event_frame(Event::Object(other), file, line) is None,
{
    reveal_strlit("composing: ");
    reveal_strlit("creating: ");
    let a = "composing: "@;
    let b = "creating: "@;
    assert((a + view).skip(a.len() as int) == view);
    assert((b + view).skip(b.len() as int) == view);
    assert(a.is_prefix_of(a + view));
    assert(b.is_prefix_of(b + view));
    if a.is_prefix_of(b + view) {
        assert(a[1] == (b + view)[1]);
    }
    let m = view_view(view, file, line)->Object_0;
    assert(m[0].0 == "data_keys"@);
    assert(m[1].0 == "file"@);
    assert(m[2].0 == "line"@);
    assert(m[3].0 == "name"@);
    assert(m[4].0 == "path"@);
}

/// Of a log context the first 64 entries are reported: each under its key, with
/// its value up to the cap, unless a later one of them has the same key.
pub proof fn law_context_holds_its_entries(v: Vec<(String, String)>, i: int)
    requires
        0 <= i < v@.len(),
        i < 64,
        forall|j: int| i < j < v@.len() && j < 64 ==> (#[trigger] v@[j]).0@ != v@[i].0@,
    ensures
        has_member(
            context_view(Some(v)),
            v@[i].0@,
            JsonView::Str(truncated(v@[i].1@, 4096)),
        ),
{
    let entries = context_entries(v@);
    let n = entries_taken(v@.len());
    assert forall|j: int| i < j < n implies (#[trigger] entries[j]).0 != entries[i].0 by {
        assert(v@[j].0@ != v@[i].0@);
    }
    law_last_context_value_stands(entries, n, i);
}

/// A reported log context holds nothing but those entries: every member is one of
/// the first 64, with its value up to the cap; and each key stands once, in
/// order. Where there is no context, there is no member.
pub proof fn law_context_holds_nothing_else(v: Vec<(String, String)>, k: int)
    ensures
        context_view(None) == JsonView::Object(seq![]),
        context_view(Some(v)) is Object,
        in_order(context_view(Some(v))->Object_0),
        0 <= k < context_view(Some(v))->Object_0.len() ==> exists|i: int|
            0 <= i < v@.len() && i < 64 && context_view(Some(v))->Object_0[k] == (
                (#[trigger] v@[i]).0@,
                JsonView::Str(truncated(v@[i].1@, 4096)),
            ),
{
    let entries = context_entries(v@);
    let n = entries_taken(v@.len());
    law_context_is_in_order(entries, n);
    let m = context_members(entries, n);
    if 0 <= k < m.len() {
        lemma_context_source(entries, n, m[k]);
        let i = choose|i: int|
            0 <= i < n && m[k] == (
                (#[trigger] entries[i]).0,
                JsonView::Str(truncated(entries[i].1, CONTEXT_VALUE_CAP as nat)),
            );
        assert(entries[i] == (v@[i].0@, v@[i].1@));
    }
}

proof fn lemma_context_source(
    entries: Seq<(Seq<char>, Seq<char>)>,
    n: nat,
    p: (Seq<char>, JsonView),
)
    requires
        n <= entries.len(),
        context_members(entries, n).contains(p),
    ensures
        exists|i: int|
            0 <= i < n && p == (
                (#[trigger] entries[i]).0,
                JsonView::Str(truncated(entries[i].1, CONTEXT_VALUE_CAP as nat)),
            ),
    decreases n,
{
    if n > 0 {
        let front = context_members(entries, (n - 1) as nat);
        let (key, value) = entries[n - 1];
        let fresh = JsonView::Str(truncated(value, CONTEXT_VALUE_CAP as nat));
        law_context_is_in_order(entries, (n - 1) as nat);
        lemma_placed(front, key, fresh);
        let m = placed(front, key, fresh);
        let k = choose|k: int| 0 <= k < m.len() && m[k] == p;
        if m[k] != (key, fresh) {
            assert(front.contains(p));
            lemma_context_source(entries, (n - 1) as nat, p);
        } else {
            assert(entries[n - 1].0 == key);
        }
    }
}

} // verus!
