//! Per-request state and the way to a frame line.

use vstd::prelude::*;
use crate::config::{no_features, switches_on, Features, State};
use crate::frame::{
    budgeted_line, build_line, is_line, law_line_within_budget, law_marker_line_is_short, now_ms,
    MAX_LINE,
};
use crate::json::{has_member, has_members, member_views, Json, JsonView, Member};
use crate::text::{
    comes_before, hex_char, hex_digits, lemma_ascii_len, lemma_hex_in_order, lemma_hex_len,
    lemma_order_after_common, push_hex, sixteen_to, utf8_len,
};
use crate::transport::Conn;

verus! {

/// The features that gate the observers.
#[derive(Debug, Clone, Copy, PartialEq, Eq, Structural)]
pub enum Feature {
    Dumps,
    Queries,
    Jobs,
    Views,
    Requests,
    Logs,
    Cache,
    Http,
}

impl Features {
    /// Whether `f` is on.
    pub open spec fn allowed(self, f: Feature) -> bool {
        match f {
            Feature::Dumps => self.dumps,
            Feature::Queries => self.queries,
            Feature::Jobs => self.jobs,
            Feature::Views => self.views,
            Feature::Requests => self.requests,
            Feature::Logs => self.logs,
            Feature::Cache => self.cache,
            Feature::Http => self.http,
        }
    }

    /// Whether `f` is on.
    pub fn allows(&self, f: Feature) -> (r: bool)
        ensures
            r == self.allowed(f),
    {
        match f {
            Feature::Dumps => self.dumps,
            Feature::Queries => self.queries,
            Feature::Jobs => self.jobs,
            Feature::Views => self.views,
            Feature::Requests => self.requests,
            Feature::Logs => self.logs,
            Feature::Cache => self.cache,
            Feature::Http => self.http,
        }
    }
}

/// A request for which telemetry is on.
pub struct RequestCtx {
    pub request_id: String,
    pub site: String,
    pub state: State,
    pub conn: Conn,
    /// The monotonic clock at the start of the request, in nanoseconds.
    pub started: u64,
}

/// What request ids are made of: a random number of the process, drawn when
/// the first id is made, and a counter.
pub struct RequestIds {
    pub seed: Option<u64>,
    pub next: u64,
}

impl RequestIds {
    /// No id made yet.
    pub fn new() -> (ids: RequestIds)
        ensures
            ids.seed is None,
            ids.next == 0,
    {
        RequestIds { seed: None, next: 0 }
    }
}

/// `getrandom::getrandom` fills the buffer with random bytes, or fails. Nothing
/// is claimed of the bytes, or of whether it succeeds.
#[verifier::external_body]
fn fill_random(buf: &mut [u8; 8]) -> (ok: bool) {
    getrandom::getrandom(buf).is_ok()
}

/// The number whose bytes are `s`, the least significant first.
pub open spec fn little_endian(s: Seq<u8>) -> nat
    decreases s.len(),
{
    if s.len() == 0 {
        0
    } else {
        s[0] as nat + 256 * little_endian(s.skip(1))
    }
}

/// The seed that a buffer of random bytes gives.
pub fn seed_of(buf: &[u8; 8]) -> (seed: u64)
    ensures
        seed == little_endian(buf@),
{
    let mut seed: u64 = 0;
    let mut i: usize = 8;
    assert(buf@.skip(8) == Seq::<u8>::empty());
    while i > 0
        invariant
            i <= 8,
            seed == little_endian(buf@.skip(i as int)),
        decreases i,
    {
        i -= 1;
        let ghost rest = buf@.skip(i as int);
        assert(rest.skip(1) == buf@.skip(i + 1));
        proof {
            lemma_little_endian_bound(rest);
        }
        seed = buf[i] as u64 + 256 * seed;
    }
    assert(buf@.skip(0) == buf@);
    seed
}

/// How many strings of `k` bytes there are.
spec fn byte_strings(k: nat) -> nat
    decreases k,
{
    if k == 0 {
        1
    } else {
        256 * byte_strings((k - 1) as nat)
    }
}

proof fn lemma_little_endian_bound(s: Seq<u8>)
    requires
        s.len() <= 8,
    ensures
        little_endian(s) <= u64::MAX,
{
    lemma_little_endian_below(s);
    reveal_with_fuel(byte_strings, 9);
    assert(byte_strings(s.len()) <= u64::MAX + 1);
}

proof fn lemma_little_endian_below(s: Seq<u8>)
    ensures
        little_endian(s) < byte_strings(s.len()),
    decreases s.len(),
{
    if s.len() > 0 {
        lemma_little_endian_below(s.skip(1));
    }
}

/// The request id for a seed and a count: both in hexadecimal, sixteen digits
/// each.
pub open spec fn request_id_text(seed: u64, n: u64) -> Seq<char> {
    hex_digits(seed as nat, 16) + hex_digits(n as nat, 16)
}

/// The request id for a seed and a count.
pub fn request_id(seed: u64, n: u64) -> (id: String)
    ensures
        id@ == request_id_text(seed, n),
{
    let mut id = String::new();
    push_hex(&mut id, seed, 16);
    push_hex(&mut id, n, 16);
    assert(id@ == request_id_text(seed, n));
    id
}

/// Makes the next request id. It only groups frames, and is no secret. Nothing
/// is claimed of the random number that a process draws for its first id.
pub fn new_request_id(ids: &mut RequestIds) -> (id: String)
    ensures
        final(ids).seed is Some,
        old(ids).seed is Some ==> final(ids).seed == old(ids).seed,
        final(ids).next == old(ids).next.wrapping_add(1),
        id@ == request_id_text(final(ids).seed->0, old(ids).next),
{
    let seed = match ids.seed {
        Some(seed) => seed,
        None => {
            let mut buf: [u8; 8] = [0; 8];
            let _ = fill_random(&mut buf);
            seed_of(&buf)
        },
    };
    ids.seed = Some(seed);
    let n = ids.next;
    ids.next = n.wrapping_add(1);
    request_id(seed, n)
}

/// Whether `c` is a hexadecimal digit, in lower case.
pub open spec fn is_hex_digit(c: char) -> bool {
    ('0' <= c && c <= '9') || ('a' <= c && c <= 'f')
}

proof fn lemma_hex_digits(n: nat, k: nat)
    ensures
        forall|i: int|
            0 <= i < hex_digits(n, k).len() ==> is_hex_digit(#[trigger] hex_digits(n, k)[i]),
    decreases k,
{
    if k > 0 {
        let front = hex_digits(n / 16, (k - 1) as nat);
        lemma_hex_digits(n / 16, (k - 1) as nat);
        assert(is_hex_digit(hex_char(n % 16)));
        assert forall|i: int| 0 <= i < hex_digits(n, k).len() implies is_hex_digit(
            #[trigger] hex_digits(n, k)[i],
        ) by {
            if i < front.len() {
                assert(hex_digits(n, k)[i] == front[i]);
            }
        }
    }
}

proof fn lemma_hex_injective(a: nat, b: nat, k: nat)
    requires
        a < sixteen_to(k),
        b < sixteen_to(k),
        hex_digits(a, k) == hex_digits(b, k),
    ensures
        a == b,
    decreases k,
{
    if k > 0 {
        let j = (k - 1) as nat;
        let x = hex_digits(a, k);
        let y = hex_digits(b, k);
        assert(x.last() == y.last());
        assert(x.drop_last() == hex_digits(a / 16, j));
        assert(y.drop_last() == hex_digits(b / 16, j));
        assert(a % 16 == b % 16);
        lemma_hex_injective(a / 16, b / 16, j);
    }
}

/// A request id has thirty-two characters, and no two requests of a process
/// share one until the counter wraps around.
pub proof fn law_request_ids_differ(seed: u64, n: u64, other_seed: u64, m: u64)
    ensures
        request_id_text(seed, n).len() == 32,
        request_id_text(seed, n) == request_id_text(other_seed, m) ==> seed == other_seed && n
            == m,
{
    let a = hex_digits(seed as nat, 16);
    let b = hex_digits(n as nat, 16);
    let c = hex_digits(other_seed as nat, 16);
    let d = hex_digits(m as nat, 16);
    lemma_hex_len(seed as nat, 16);
    lemma_hex_len(n as nat, 16);
    lemma_hex_len(other_seed as nat, 16);
    lemma_hex_len(m as nat, 16);
    assert(sixteen_to(16) == 0x1_0000_0000_0000_0000nat) by {
        reveal_with_fuel(sixteen_to, 17);
    }
    if a + b == c + d {
        assert((a + b).take(16) == a);
        assert((c + d).take(16) == c);
        assert((a + b).skip(16) == b);
        assert((c + d).skip(16) == d);
        lemma_hex_injective(seed as nat, other_seed as nat, 16);
        lemma_hex_injective(n as nat, m as nat, 16);
    }
}

/// A request id is made of lower-case hexadecimal digits, and within a process
/// a later one comes after an earlier one until the counter wraps around.
pub proof fn law_request_ids_are_in_order(seed: u64, n: u64, m: u64)
    requires
        n < m,
    ensures
        forall|i: int|
            0 <= i < request_id_text(seed, n).len() ==> is_hex_digit(
                #[trigger] request_id_text(seed, n)[i],
            ),
        comes_before(request_id_text(seed, n), request_id_text(seed, m)),
{
    lemma_hex_digits(seed as nat, 16);
    lemma_hex_digits(n as nat, 16);
    assert(sixteen_to(16) == 0x1_0000_0000_0000_0000nat) by {
        reveal_with_fuel(sixteen_to, 17);
    }
    lemma_hex_in_order(n as nat, m as nat, 16);
    lemma_order_after_common(
        hex_digits(seed as nat, 16),
        hex_digits(n as nat, 16),
        hex_digits(m as nat, 16),
    );
}

/// The entries of `$_SERVER` that are strings.
pub struct ServerVars {
    pub http_host: Option<String>,
    pub server_name: Option<String>,
    pub request_method: Option<String>,
    pub request_uri: Option<String>,
    pub remote_addr: Option<String>,
}

/// A string that may be absent; the empty string where it is.
pub open spec fn or_empty(s: Option<Seq<char>>) -> Seq<char> {
    match s {
        Some(t) => t,
        None => seq![],
    }
}

/// The site of a request: the first of the host header and the server name
/// that is not empty.
pub open spec fn site_of(server: ServerVars) -> Seq<char> {
    let host = or_empty(server.http_host.deep_view());
    if host.len() > 0 {
        host
    } else {
        or_empty(server.server_name.deep_view())
    }
}

/// A copy of a string that may be absent; the empty string where it is.
pub fn copy_or_empty(s: &Option<String>) -> (r: String)
    ensures
        r@ == or_empty(s.deep_view()),
{
    match s {
        Some(t) => t.clone(),
        None => String::new(),
    }
}

/// The site of a request.
pub fn read_site(server: &ServerVars) -> (site: String)
    ensures
        site@ == site_of(*server),
{
    let host = copy_or_empty(&server.http_host);
    if host.as_str().is_empty() {
        copy_or_empty(&server.server_name)
    } else {
        host
    }
}

/// Whether telemetry is on for the request and `feature` is enabled.
pub open spec fn is_active(ctx: Option<RequestCtx>, feature: Feature) -> bool {
    ctx is Some && ctx->0.state.features.allowed(feature)
}

/// Starts a request, given what was read from the state file: arms it where
/// telemetry is on, and does nothing more where it is off.
pub fn on_rinit(
    ctx: &mut Option<RequestCtx>,
    ids: &mut RequestIds,
    parsed: Option<State>,
    server: &ServerVars,
    now: u64,
)
    ensures
        parsed is Some && switches_on(parsed->0) ==> {
            &&& *final(ctx) matches Some(c)
            &&& c.request_id@ == request_id_text(final(ids).seed->0, old(ids).next)
            &&& c.site@ == site_of(*server)
            &&& c.state == parsed->0
            &&& c.conn == Conn::Idle
            &&& c.started == now
            &&& final(ids).seed is Some
            &&& old(ids).seed is Some ==> final(ids).seed == old(ids).seed
            &&& final(ids).next == old(ids).next.wrapping_add(1)
        },
        !(parsed is Some && switches_on(parsed->0)) ==> *final(ctx) is None && *final(ids) == *old(
            ids,
        ),
{
    match State::from_parsed(parsed) {
        Some(state) => {
            let request_id = new_request_id(ids);
            *ctx = Some(
                RequestCtx {
                    request_id,
                    site: read_site(server),
                    state,
                    conn: Conn::Idle,
                    started: now,
                },
            );
        },
        None => {
            *ctx = None;
        },
    }
}

/// Whether telemetry is on for this request and `feature` is enabled. Observers
/// ask before they do any work.
pub fn active(ctx: &Option<RequestCtx>, feature: Feature) -> (r: bool)
    ensures
        r == is_active(*ctx, feature),
{
    match ctx {
        Some(c) => c.state.features.allows(feature),
        None => false,
    }
}

/// The line of a frame of this request.
pub open spec fn request_line(
    ctx: RequestCtx,
    category: Seq<char>,
    ts: u64,
    payload: JsonView,
) -> Seq<char> {
    budgeted_line(category, ts, ctx.site@, ctx.request_id@, payload)
}

/// Builds the line of a frame with the time `ts`, if `feature` is enabled. The
/// payload is made only then.
pub fn emit_at<F: FnOnce() -> Json>(
    ctx: &Option<RequestCtx>,
    feature: Feature,
    category: &str,
    ts: u64,
    make_payload: F,
) -> (r: Option<String>)
    requires
        is_active(*ctx, feature) ==> make_payload.requires(()),
    ensures
        r is Some <==> is_active(*ctx, feature),
        r matches Some(line) ==> exists|payload: Json| #[trigger]
            make_payload.ensures((), payload) && line@ == request_line(
                ctx->0,
                category@,
                ts,
                payload@,
            ),
        r matches Some(line) ==> is_line(line@),
{
    match ctx {
        Some(c) => if c.state.features.allows(feature) {
            let payload = make_payload();
            Some(
                build_line(category, ts, c.site.as_str(), c.request_id.as_str(), payload),
            )
        } else {
            None
        },
        None => None,
    }
}

/// Builds the line of a frame with the current time, if `feature` is enabled.
pub fn emit<F: FnOnce() -> Json>(
    ctx: &Option<RequestCtx>,
    feature: Feature,
    category: &str,
    make_payload: F,
) -> (r: Option<String>)
    requires
        is_active(*ctx, feature) ==> make_payload.requires(()),
    ensures
        r is Some <==> is_active(*ctx, feature),
        r matches Some(line) ==> exists|ts: u64, payload: Json| #[trigger]
            make_payload.ensures((), payload) && line@ == #[trigger] request_line(
                ctx->0,
                category@,
                ts,
                payload@,
            ),
        r matches Some(line) ==> is_line(line@),
{
    if !active(ctx, feature) {
        return None;
    }
    emit_at(ctx, feature, category, now_ms(), make_payload)
}

/// The category of the frames that a feature gates.
pub open spec fn category_of(feature: Feature) -> Seq<char> {
    match feature {
        Feature::Dumps => "dump"@,
        Feature::Queries => "query"@,
        Feature::Jobs => "job"@,
        Feature::Views => "view"@,
        Feature::Requests => "request"@,
        Feature::Logs => "log"@,
        Feature::Cache => "cache"@,
        Feature::Http => "http"@,
    }
}

/// The category of the frames that a feature gates.
pub fn category(feature: Feature) -> (c: &'static str)
    ensures
        c@ == category_of(feature),
{
    match feature {
        Feature::Dumps => "dump",
        Feature::Queries => "query",
        Feature::Jobs => "job",
        Feature::Views => "view",
        Feature::Requests => "request",
        Feature::Logs => "log",
        Feature::Cache => "cache",
        Feature::Http => "http",
    }
}

/// Something that an observer reports.
pub struct Emission {
    pub feature: Feature,
    /// When it happened, in epoch milliseconds; the time at which the frame is
    /// built where none is given.
    pub ts: Option<u64>,
    pub payload: Json,
}

/// The mathematical value of an [`Emission`].
pub struct EmissionView {
    pub feature: Feature,
    pub ts: Option<u64>,
    pub payload: JsonView,
}

impl View for Emission {
    type V = EmissionView;

    open spec fn view(&self) -> EmissionView {
        EmissionView { feature: self.feature, ts: self.ts, payload: self.payload@ }
    }
}

/// The mathematical value of an emission that may be absent.
pub open spec fn emitted(e: Option<Emission>) -> Option<EmissionView> {
    match e {
        Some(emission) => Some(emission@),
        None => None,
    }
}

/// The line for what an observer reports, if its feature is enabled; `now` is
/// the wall clock in epoch milliseconds.
pub open spec fn emission_text(
    ctx: Option<RequestCtx>,
    e: EmissionView,
    now: u64,
) -> Option<Seq<char>> {
    if is_active(ctx, e.feature) {
        let ts = match e.ts {
            Some(ts) => ts,
            None => now,
        };
        Some(request_line(ctx->0, category_of(e.feature), ts, e.payload))
    } else {
        None
    }
}

/// The line for what an observer reports, if its feature is enabled; `now` is
/// the wall clock in epoch milliseconds.
pub fn emission_line(ctx: &Option<RequestCtx>, e: Emission, now: u64) -> (r: Option<String>)
    ensures
        r.deep_view() == emission_text(*ctx, e@, now),
        r matches Some(line) ==> is_line(line@),
{
    let ts = match e.ts {
        Some(ts) => ts,
        None => now,
    };
    let payload = e.payload;
    let make_payload = move || -> (p: Json)
        ensures
            p == payload,
        { payload };
    emit_at(ctx, e.feature, category(e.feature), ts, make_payload)
}

/// A frame of a request is within the budget whatever its payload, as long as
/// the site of the request is not itself close to it.
pub proof fn law_frame_within_budget(
    ctx: RequestCtx,
    seed: u64,
    n: u64,
    feature: Feature,
    ts: u64,
    payload: JsonView,
)
    requires
        ctx.request_id@ == request_id_text(seed, n),
        6 * utf8_len(ctx.site@) + 1024 <= MAX_LINE,
    ensures
        utf8_len(request_line(ctx, category_of(feature), ts, payload)) <= MAX_LINE,
{
    let category = category_of(feature);
    assert(utf8_len(category) <= 7) by {
        reveal_strlit("dump");
        reveal_strlit("query");
        reveal_strlit("job");
        reveal_strlit("view");
        reveal_strlit("request");
        reveal_strlit("log");
        reveal_strlit("cache");
        reveal_strlit("http");
        lemma_ascii_len(category);
    }
    lemma_hex_len(seed as nat, 16);
    lemma_hex_len(n as nat, 16);
    lemma_hex_digits(seed as nat, 16);
    lemma_hex_digits(n as nat, 16);
    lemma_ascii_len(ctx.request_id@);
    law_marker_line_is_short(category, ts, ctx.site@, ctx.request_id@);
    law_line_within_budget(category, ts, ctx.site@, ctx.request_id@, payload);
}

/// The time from `start` to `now`; zero where the clock went back.
pub open spec fn elapsed_since(start: u64, now: u64) -> int {
    if start <= now {
        now - start
    } else {
        0
    }
}

/// How long the request has lasted at `now`, in nanoseconds.
pub fn elapsed(ctx: &RequestCtx, now: u64) -> (r: u64)
    ensures
        r == elapsed_since(ctx.started, now),
{
    if ctx.started <= now {
        now - ctx.started
    } else {
        0
    }
}

/// The payload of a `request` frame.
pub open spec fn summary_view(server: ServerVars, status: i64, duration_ms: JsonView) -> JsonView {
    JsonView::Object(
        seq![
            ("duration_ms"@, duration_ms),
            ("ip"@, JsonView::Str(or_empty(server.remote_addr.deep_view()))),
            ("method"@, JsonView::Str(or_empty(server.request_method.deep_view()))),
            ("status"@, JsonView::Int(status as int)),
            ("uri"@, JsonView::Str(or_empty(server.request_uri.deep_view()))),
        ],
    )
}

/// The payload of a `request` frame. `duration_ms` is how long the request
/// lasted, in milliseconds.
pub fn request_summary(server: &ServerVars, status: i64, duration_ms: Json) -> (payload: Json)
    ensures
        payload@ == summary_view(*server, status, duration_ms@),
{
    let members = vec![
        Member::new("duration_ms", duration_ms),
        Member::new("ip", Json::Str(copy_or_empty(&server.remote_addr))),
        Member::new("method", Json::Str(copy_or_empty(&server.request_method))),
        Member::new("status", Json::Int(status)),
        Member::new("uri", Json::Str(copy_or_empty(&server.request_uri))),
    ];
    assert(member_views(members@) == summary_view(*server, status, duration_ms@)->Object_0);
    Json::object(members)
}

/// The last line of a request, and what it is sent with.
pub struct LastLine {
    pub line: String,
    pub port: u16,
    pub conn: Conn,
}

/// Ends a request at the time `ts`: the line of its summary, if that is
/// enabled. Telemetry is off afterwards.
pub fn shut_down_at(
    ctx: &mut Option<RequestCtx>,
    server: &ServerVars,
    status: i64,
    duration_ms: Json,
    ts: u64,
) -> (r: Option<LastLine>)
    ensures
        *final(ctx) is None,
        r is Some <==> is_active(*old(ctx), Feature::Requests),
        r matches Some(last) ==> {
            &&& last.line@ == request_line(
                old(ctx)->0,
                "request"@,
                ts,
                summary_view(*server, status, duration_ms@),
            )
            &&& is_line(last.line@)
            &&& last.port == old(ctx)->0.state.port
            &&& last.conn == old(ctx)->0.conn
        },
{
    match ctx.take() {
        Some(c) => if c.state.features.allows(Feature::Requests) {
            let payload = request_summary(server, status, duration_ms);
            let line = build_line(
                "request",
                ts,
                c.site.as_str(),
                c.request_id.as_str(),
                payload,
            );
            Some(LastLine { line, port: c.state.port, conn: c.conn })
        } else {
            None
        },
        None => None,
    }
}

/// Ends a request: the line of its summary with the current time, if that is
/// enabled. Telemetry is off afterwards.
pub fn on_rshutdown(
    ctx: &mut Option<RequestCtx>,
    server: &ServerVars,
    status: i64,
    duration_ms: Json,
) -> (r: Option<LastLine>)
    ensures
        *final(ctx) is None,
        r is Some <==> is_active(*old(ctx), Feature::Requests),
        r matches Some(last) ==> {
            &&& exists|ts: u64|
                last.line@ == #[trigger] request_line(
                    old(ctx)->0,
                    "request"@,
                    ts,
                    summary_view(*server, status, duration_ms@),
                )
            &&& is_line(last.line@)
            &&& last.port == old(ctx)->0.state.port
            &&& last.conn == old(ctx)->0.conn
        },
{
    shut_down_at(ctx, server, status, duration_ms, now_ms())
}

/// Each feature is gated by its own flag, and by no other.
pub proof fn law_each_feature_has_its_flag(f: Features)
    ensures
        f.allowed(Feature::Dumps) == f.dumps,
        f.allowed(Feature::Queries) == f.queries,
        f.allowed(Feature::Jobs) == f.jobs,
        f.allowed(Feature::Views) == f.views,
        f.allowed(Feature::Requests) == f.requests,
        f.allowed(Feature::Logs) == f.logs,
        f.allowed(Feature::Cache) == f.cache,
        f.allowed(Feature::Http) == f.http,
{
}

/// Where nothing is configured no feature is on.
pub proof fn law_features_are_off_by_default(feature: Feature)
    ensures
        !no_features().allowed(feature),
{
}

/// A request reports what its own features allow, and a request that is not
/// armed reports nothing.
pub proof fn law_only_enabled_features_report(
    ctx: RequestCtx,
    e: EmissionView,
    now: u64,
    own: u64,
)
    ensures
        emission_text(None, e, now) is None,
        emission_text(Some(ctx), e, now) is Some <==> ctx.state.features.allowed(e.feature),
        ctx.state.features.allowed(e.feature) && e.ts is None ==> emission_text(Some(ctx), e, now)
            == Some(
            budgeted_line(
                category_of(e.feature),
                now,
                ctx.site@,
                ctx.request_id@,
                e.payload,
            ),
        ),
        ctx.state.features.allowed(e.feature) && e.ts == Some(own) ==> emission_text(
            Some(ctx),
            e,
            now,
        ) == Some(
            budgeted_line(category_of(e.feature), own, ctx.site@, ctx.request_id@, e.payload),
        ),
{
}

/// The categories of the features.
pub proof fn law_categories()
    ensures
        category_of(Feature::Dumps) == "dump"@,
        category_of(Feature::Queries) == "query"@,
        category_of(Feature::Jobs) == "job"@,
        category_of(Feature::Views) == "view"@,
        category_of(Feature::Requests) == "request"@,
        category_of(Feature::Logs) == "log"@,
        category_of(Feature::Cache) == "cache"@,
        category_of(Feature::Http) == "http"@,
{
}

/// Frames of different features have different categories.
pub proof fn law_categories_differ(a: Feature, b: Feature)
    requires
        a != b,
    ensures
        category_of(a) != category_of(b),
{
    reveal_strlit("dump");
    reveal_strlit("query");
    reveal_strlit("job");
    reveal_strlit("view");
    reveal_strlit("request");
    reveal_strlit("log");
    reveal_strlit("cache");
    reveal_strlit("http");
    let x = category_of(a);
    let y = category_of(b);
    if x == y {
        assert(x.len() == y.len());
        assert(x[0] == y[0]);
        assert(x[1] == y[1]);
    }
}

/// The site is the host that was asked for, whatever the name of the server is;
/// where there is no host, or an empty one, it is the name of the server.
pub proof fn law_site_is_the_host(server: ServerVars, host: String, name: String)
    ensures
        server.http_host == Some(host) && host@.len() > 0 ==> site_of(server) == host@,
        (server.http_host is None || (server.http_host == Some(host) && host@.len() == 0))
            && server.server_name == Some(name) ==> site_of(server) == name@,
        (server.http_host is None || (server.http_host == Some(host) && host@.len() == 0))
            && server.server_name is None ==> site_of(server) == Seq::<char>::empty(),
{
    if server.http_host is Some && server.http_host->0@.len() == 0 {
        assert(server.http_host->0@ == Seq::<char>::empty());
    }
}

/// The seed is the eight random bytes as one number, the first byte the least
/// significant: different bytes give different seeds.
pub proof fn law_seed_of_bytes(b: Seq<u8>)
    requires
        b.len() == 8,
    ensures
        little_endian(b) == b[0] + 0x100 * b[1] + 0x1_0000 * b[2] + 0x100_0000 * b[3]
            + 0x1_0000_0000 * b[4] + 0x100_0000_0000 * b[5] + 0x1_0000_0000_0000 * b[6]
            + 0x100_0000_0000_0000 * b[7],
{
    let b1 = b.skip(1);
    let b2 = b1.skip(1);
    let b3 = b2.skip(1);
    let b4 = b3.skip(1);
    let b5 = b4.skip(1);
    let b6 = b5.skip(1);
    let b7 = b6.skip(1);
    assert(b1[0] == b[1] && b2[0] == b[2] && b3[0] == b[3] && b4[0] == b[4]);
    assert(b5[0] == b[5] && b6[0] == b[6] && b7[0] == b[7]);
    assert(b7.skip(1) == Seq::<u8>::empty());
    assert(little_endian(Seq::<u8>::empty()) == 0);
    assert(little_endian(b7) == b[7]);
    assert(little_endian(b6) == b[6] + 0x100 * b[7]);
    assert(little_endian(b5) == b[5] + 0x100 * b[6] + 0x1_0000 * b[7]);
    assert(little_endian(b4) == b[4] + 0x100 * b[5] + 0x1_0000 * b[6] + 0x100_0000 * b[7]);
    assert(little_endian(b3) == b[3] + 0x100 * little_endian(b4));
    assert(little_endian(b2) == b[2] + 0x100 * little_endian(b3));
    assert(little_endian(b1) == b[1] + 0x100 * little_endian(b2));
    assert(little_endian(b) == b[0] + 0x100 * little_endian(b1));
}

/// A request id is the seed and the count, sixteen hexadecimal digits each.
pub proof fn law_request_id_holds_seed_and_count(seed: u64, n: u64)
    ensures
        request_id_text(seed, n).len() == 32,
        request_id_text(seed, n).take(16) == hex_digits(seed as nat, 16),
        request_id_text(seed, n).skip(16) == hex_digits(n as nat, 16),
{
    lemma_hex_len(seed as nat, 16);
    lemma_hex_len(n as nat, 16);
    assert(request_id_text(seed, n).take(16) == hex_digits(seed as nat, 16));
    assert(request_id_text(seed, n).skip(16) == hex_digits(n as nat, 16));
}

/// A time is as long as the clock ran.
pub proof fn law_time_runs_from_the_start(start: u64, d: u64)
    requires
        start + d <= u64::MAX,
    ensures
        elapsed_since(start, (start + d) as u64) == d,
        d > 0 ==> elapsed_since((start + d) as u64, start) == 0,
{
}

/// The summary of a request holds how long it took, the status of its response,
/// and the address, the method and the URI that the request came with, as they
/// are.
pub proof fn law_summary_holds_the_request(
    server: ServerVars,
    status: i64,
    duration_ms: JsonView,
    s: String,
)
    ensures
        ({
            let payload = summary_view(server, status, duration_ms);
            &&& has_members(payload, 5)
            &&& has_member(payload, "duration_ms"@, duration_ms)
            &&& has_member(payload, "status"@, JsonView::Int(status as int))
            &&& server.remote_addr == Some(s) ==> has_member(payload, "ip"@, JsonView::Str(s@))
            &&& server.remote_addr is None ==> has_member(payload, "ip"@, JsonView::Str(seq![]))
            &&& server.request_method == Some(s) ==> has_member(
                payload,
                "method"@,
                JsonView::Str(s@),
            )
            &&& server.request_method is None ==> has_member(
                payload,
                "method"@,
                JsonView::Str(seq![]),
            )
            &&& server.request_uri == Some(s) ==> has_member(payload, "uri"@, JsonView::Str(s@))
            &&& server.request_uri is None ==> has_member(payload, "uri"@, JsonView::Str(seq![]))
        }),
{
    let m = summary_view(server, status, duration_ms)->Object_0;
    assert(m[0].0 == "duration_ms"@);
    assert(m[1].0 == "ip"@);
    assert(m[2].0 == "method"@);
    assert(m[3].0 == "status"@);
    assert(m[4].0 == "uri"@);
}

/// What is emitted is what an observer reported, or nothing where it reported
/// nothing.
pub proof fn law_emission_is_what_was_reported(e: Emission)
    ensures
        emitted(None) is None,
        emitted(Some(e)) is Some,
        emitted(Some(e))->0.feature == e.feature,
        emitted(Some(e))->0.ts == e.ts,
        emitted(Some(e))->0.payload == e.payload@,
{
}

} // verus!
