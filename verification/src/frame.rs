//! Frame construction and the serialized-line budget.
//!
//! Wire format: one compact UTF-8 JSON object per line, terminated by `\n`.
//! The receiver drops any line longer than the cap, so the budget is measured
//! on the encoded line, not on the raw fields.

use vstd::prelude::*;
use crate::json::{
    escaped, json_text, lemma_members_len, lemma_object_len, lemma_quoted_len, member_views,
    members_text, one_line, quoted, separator, Json, JsonView, Member,
};
use crate::text::{
    byte_len, lemma_ascii_len, lemma_decimal_len, lemma_utf8_concat, lemma_utf8_len_push,
    lemma_utf8_len_take, utf8_len, width_of,
};
use vstd::utf8::encode_utf8;

verus! {

/// Maximum length of a line in bytes, the trailing `\n` included.
pub const MAX_LINE: usize = 256 * 1024;

/// Cap on each string field of a payload, in bytes.
pub const FIELD_CAP: usize = 200 * 1024;

/// The longest prefix of `s` that takes at most `cap` bytes.
pub open spec fn longest_fitting(s: Seq<char>, cap: nat) -> Seq<char>
    decreases s.len(),
{
    if s.len() == 0 || utf8_len(s) <= cap {
        s
    } else {
        longest_fitting(s.drop_last(), cap)
    }
}

/// `s` itself where it takes at most `cap` bytes; else its longest prefix
/// that does, and a mark.
pub open spec fn truncated(s: Seq<char>, cap: nat) -> Seq<char> {
    if utf8_len(s) <= cap {
        s
    } else {
        longest_fitting(s, cap) + "…[truncated]"@
    }
}

proof fn lemma_longest_fitting_is_take(s: Seq<char>, cap: nat, i: int)
    requires
        0 <= i <= s.len(),
        utf8_len(s.take(i)) <= cap,
        i < s.len() ==> utf8_len(s.take(i + 1)) > cap,
    ensures
        longest_fitting(s, cap) == s.take(i),
    decreases s.len(),
{
    if i == s.len() {
        assert(s.take(i) == s);
    } else {
        lemma_utf8_len_take(s, i + 1, s.len() as int);
        assert(s.take(s.len() as int) == s);
        let shorter = s.drop_last();
        assert(shorter.take(i) == s.take(i));
        if i < shorter.len() {
            assert(shorter.take(i + 1) == s.take(i + 1));
        }
        lemma_longest_fitting_is_take(shorter, cap, i);
    }
}

/// Truncates `s` to at most `cap` bytes on a character boundary, and appends
/// a mark where something was cut off.
pub fn truncate(s: &str, cap: usize) -> (r: String)
    ensures
        r@ == truncated(s@, cap as nat),
{
    if byte_len(s) <= cap {
        return s.to_owned();
    }
    let mut out = String::new();
    let mut used: usize = 0;
    let mut full = false;
    assert(s@.take(0) == Seq::<char>::empty());
    for c in it: s.chars()
        invariant
            it.seq() == s@,
            used <= cap,
            !full ==> out@ == s@.take(it.index() as int) && used == utf8_len(out@),
            full ==> out@ == longest_fitting(s@, cap as nat),
    {
        let ghost i = it.index() as int;
        if !full {
            proof {
                assert(s@.take(i).push(c) == s@.take(i + 1));
                lemma_utf8_len_push(s@.take(i), c);
            }
            let w: usize = width_of(c);
            if w <= cap - used {
                out.push(c);
                used += w;
            } else {
                full = true;
                proof {
                    lemma_longest_fitting_is_take(s@, cap as nat, i);
                }
            }
        }
    }
    proof {
        assert(s@.take(s@.len() as int) == s@);
    }
    out.append("…[truncated]");
    out
}

/// Truncation keeps a prefix, within the cap, and one more character would
/// exceed it.
pub proof fn law_truncation_is_longest_prefix(s: Seq<char>, cap: nat)
    ensures
        longest_fitting(s, cap).is_prefix_of(s),
        utf8_len(longest_fitting(s, cap)) <= cap,
        longest_fitting(s, cap).len() < s.len() ==> utf8_len(
            s.take(longest_fitting(s, cap).len() as int + 1),
        ) > cap,
    decreases s.len(),
{
    if s.len() == 0 {
        assert(encode_utf8(s) == Seq::<u8>::empty());
    } else if utf8_len(s) > cap {
        let shorter = s.drop_last();
        law_truncation_is_longest_prefix(shorter, cap);
        let k = longest_fitting(s, cap).len() as int;
        if k < shorter.len() {
            assert(s.take(k + 1) == shorter.take(k + 1));
        } else {
            assert(s.take(k + 1) == s);
        }
    }
}

/// `SystemTime`, a reading of the wall clock. It is carried through unopened.
#[verifier::external_type_specification]
#[verifier::external_body]
pub struct ExSystemTime(std::time::SystemTime);

/// `SystemTimeError`, what `SystemTime::duration_since` gives for a time before
/// the earlier one. It is carried through unopened.
#[verifier::external_type_specification]
#[verifier::external_body]
pub struct ExSystemTimeError(std::time::SystemTimeError);

/// `SystemTime::now` reads the wall clock. Nothing is claimed of the reading.
pub assume_specification[ std::time::SystemTime::now ]() -> std::time::SystemTime;

/// `SystemTime::duration_since` with the Unix epoch as the earlier time: how
/// long after the epoch `t` is, or an error where `t` lies before it. A
/// `SystemTime` is opaque here, so nothing is claimed of the outcome.
#[verifier::external_body]
fn since_epoch(
    t: &std::time::SystemTime,
) -> Result<std::time::Duration, std::time::SystemTimeError> {
    t.duration_since(std::time::UNIX_EPOCH)
}

/// `Duration::as_millis`: the whole milliseconds of a duration. A `Duration` is
/// opaque here, so nothing is claimed of the number.
pub assume_specification[ std::time::Duration::as_millis ](
    d: &std::time::Duration,
) -> u128;

/// Milliseconds after the epoch as a 64-bit number: zero where the clock is
/// before the epoch, and the largest number where it is too far behind it.
pub open spec fn saturated_ms(since_epoch: Option<u128>) -> u64 {
    match since_epoch {
        None => 0,
        Some(ms) => if ms > u64::MAX {
            u64::MAX
        } else {
            ms as u64
        },
    }
}

/// Milliseconds after the epoch as a 64-bit number.
pub fn epoch_ms(since_epoch: Option<u128>) -> (ms: u64)
    ensures
        ms == saturated_ms(since_epoch),
{
    match since_epoch {
        None => 0,
        Some(ms) => if ms > u64::MAX as u128 {
            u64::MAX
        } else {
            ms as u64
        },
    }
}

/// The wall-clock time as epoch milliseconds: a reading of the clock, saturated.
/// Nothing is claimed of the reading itself; [`epoch_ms`] says what is made of
/// it.
pub fn now_ms() -> (ms: u64)
    ensures
        exists|since_epoch: Option<u128>| ms == saturated_ms(since_epoch),
{
    let now = std::time::SystemTime::now();
    let elapsed = match since_epoch(&now) {
        Ok(d) => Some(d.as_millis()),
        Err(_) => None,
    };
    epoch_ms(elapsed)
}

/// What one frame holds, as a JSON object.
pub open spec fn frame_view(
    category: Seq<char>,
    ts: u64,
    site: Seq<char>,
    request_id: Seq<char>,
    payload: JsonView,
) -> JsonView {
    JsonView::Object(
        seq![
            ("category"@, JsonView::Str(category)),
            ("ts"@, JsonView::Int(ts as int)),
            ("site"@, JsonView::Str(site)),
            ("request_id"@, JsonView::Str(request_id)),
            ("payload"@, payload),
        ],
    )
}

/// The line of a frame: its compact JSON text and a line feed.
pub open spec fn frame_line(
    category: Seq<char>,
    ts: u64,
    site: Seq<char>,
    request_id: Seq<char>,
    payload: JsonView,
) -> Seq<char> {
    json_text(frame_view(category, ts, site, request_id, payload)).push('\n')
}

/// The payload that stands for one that is too long.
pub open spec fn truncation_marker() -> JsonView {
    JsonView::Object(seq![("truncated"@, JsonView::Bool(true))])
}

/// The line that is sent for a frame: its own where that is within the
/// budget, else the line with the truncation marker as payload.
pub open spec fn budgeted_line(
    category: Seq<char>,
    ts: u64,
    site: Seq<char>,
    request_id: Seq<char>,
    payload: JsonView,
) -> Seq<char> {
    let line = frame_line(category, ts, site, request_id, payload);
    if utf8_len(line) <= MAX_LINE {
        line
    } else {
        frame_line(category, ts, site, request_id, truncation_marker())
    }
}

/// Whether `s` is exactly one line: it ends with a line feed and holds no other
/// control character below the space.
pub open spec fn is_line(s: Seq<char>) -> bool {
    s.len() > 0 && s.last() == '\n' && one_line(s.drop_last())
}

fn encode_frame(
    category: &str,
    ts: u64,
    site: &str,
    request_id: &str,
    payload: Json,
) -> (text: String)
    ensures
        text@ == json_text(frame_view(category@, ts, site@, request_id@, payload@)),
        one_line(text@),
{
    let members = vec![
        Member::new("category", Json::text(category)),
        Member::new("ts", Json::UInt(ts)),
        Member::new("site", Json::text(site)),
        Member::new("request_id", Json::text(request_id)),
        Member::new("payload", payload),
    ];
    let frame = Json::object(members);
    assert(member_views(members@) == frame_view(
        category@,
        ts,
        site@,
        request_id@,
        payload@,
    )->Object_0);
    frame.encode()
}

/// A line is within the budget whatever the payload, as long as the line with
/// the truncation marker is.
pub proof fn law_line_within_budget(
    category: Seq<char>,
    ts: u64,
    site: Seq<char>,
    request_id: Seq<char>,
    payload: JsonView,
)
    requires
        utf8_len(frame_line(category, ts, site, request_id, truncation_marker())) <= MAX_LINE,
    ensures
        utf8_len(budgeted_line(category, ts, site, request_id, payload)) <= MAX_LINE,
{
}

/// The line with the truncation marker is within the budget where category,
/// site and request id are short.
pub proof fn law_marker_line_is_short(
    category: Seq<char>,
    ts: u64,
    site: Seq<char>,
    request_id: Seq<char>,
)
    requires
        6 * (utf8_len(category) + utf8_len(site) + utf8_len(request_id)) + 512 <= MAX_LINE,
    ensures
        utf8_len(frame_line(category, ts, site, request_id, truncation_marker())) <= MAX_LINE,
{
    reveal_strlit("category");
    reveal_strlit("ts");
    reveal_strlit("site");
    reveal_strlit("request_id");
    reveal_strlit("payload");
    reveal_strlit("truncated");
    reveal_strlit("true");
    let marker = seq![("truncated"@, JsonView::Bool(true))];
    let m0 = Seq::<(Seq<char>, JsonView)>::empty();
    let m1 = m0.push(("category"@, JsonView::Str(category)));
    let m2 = m1.push(("ts"@, JsonView::Int(ts as int)));
    let m3 = m2.push(("site"@, JsonView::Str(site)));
    let m4 = m3.push(("request_id"@, JsonView::Str(request_id)));
    let m5 = m4.push(("payload"@, truncation_marker()));
    lemma_quoted_len(category);
    lemma_quoted_len(site);
    lemma_quoted_len(request_id);
    lemma_ascii_len("category"@);
    lemma_ascii_len("ts"@);
    lemma_ascii_len("site"@);
    lemma_ascii_len("request_id"@);
    lemma_ascii_len("payload"@);
    lemma_ascii_len("truncated"@);
    lemma_ascii_len("true"@);
    lemma_decimal_len(ts);
    lemma_members_len(m0, "truncated"@, JsonView::Bool(true));
    lemma_members_len(m0, "category"@, JsonView::Str(category));
    lemma_members_len(m1, "ts"@, JsonView::Int(ts as int));
    lemma_members_len(m2, "site"@, JsonView::Str(site));
    lemma_members_len(m3, "request_id"@, JsonView::Str(request_id));
    lemma_members_len(m4, "payload"@, truncation_marker());
    assert(m0.push(("truncated"@, JsonView::Bool(true))) == marker);
    let view = frame_view(category, ts, site, request_id, truncation_marker());
    assert(view->Object_0 == m5);
    lemma_object_len(marker);
    lemma_object_len(m5);
    lemma_utf8_len_push(json_text(view), '\n');
}

/// Builds the line of one frame, terminated by a line feed.
///
/// Where the encoded line is longer than [`MAX_LINE`], the payload is replaced
/// by a minimal marker, so that the receiver still gets a line it can read.
pub fn build_line(
    category: &str,
    ts: u64,
    site: &str,
    request_id: &str,
    payload: Json,
) -> (line: String)
    ensures
        line@ == budgeted_line(category@, ts, site@, request_id@, payload@),
        is_line(line@),
{
    let mut line = encode_frame(category, ts, site, request_id, payload);
    proof {
        lemma_utf8_len_push(line@, '\n');
    }
    if byte_len(line.as_str()) >= MAX_LINE {
        let members = vec![Member::new("truncated", Json::Bool(true))];
        let marker = Json::object(members);
        assert(member_views(members@) == truncation_marker()->Object_0);
        line = encode_frame(category, ts, site, request_id, marker);
    }
    let ghost text = line@;
    line.push('\n');
    assert(line@.drop_last() == text);
    line
}

/// Truncation leaves what fits as it is. Of what does not fit it keeps the
/// characters up to the one that would exceed the cap, and adds the mark.
pub proof fn law_truncation(s: Seq<char>, cap: nat, k: int)
    ensures
        encode_utf8(s).len() <= cap ==> truncated(s, cap) == s,
        0 <= k < s.len() && encode_utf8(s.take(k)).len() <= cap && encode_utf8(
            s.take(k + 1),
        ).len() > cap ==> truncated(s, cap) == s.take(k) + "…[truncated]"@,
{
    if 0 <= k < s.len() && utf8_len(s.take(k)) <= cap && utf8_len(s.take(k + 1)) > cap {
        lemma_longest_fitting_is_take(s, cap, k);
        lemma_utf8_len_take(s, k + 1, s.len() as int);
        assert(s.take(s.len() as int) == s);
    }
}

/// The clock never runs backwards by being made to fit: later readings give no
/// earlier times, and a reading that fits is kept.
pub proof fn law_clock_is_kept_where_it_fits(a: u128, b: u128)
    requires
        a <= b,
    ensures
        saturated_ms(None) == 0,
        saturated_ms(Some(a)) <= saturated_ms(Some(b)),
        a <= 0xffff_ffff_ffff_ffff ==> saturated_ms(Some(a)) == a,
        a > 0xffff_ffff_ffff_ffff ==> saturated_ms(Some(a)) == 0xffff_ffff_ffff_ffffu64,
{
}

/// The text of a line with a payload whose text is `payload`.
pub open spec fn line_around(
    category: Seq<char>,
    ts: u64,
    site: Seq<char>,
    request_id: Seq<char>,
    payload: Seq<char>,
) -> Seq<char> {
    "{\"category\":"@ + json_text(JsonView::Str(category)) + ",\"ts\":"@ + json_text(
        JsonView::Int(ts as int),
    ) + ",\"site\":"@ + json_text(JsonView::Str(site)) + ",\"request_id\":"@ + json_text(
        JsonView::Str(request_id),
    ) + ",\"payload\":"@ + payload + "}\n"@
}

proof fn lemma_line_around(
    category: Seq<char>,
    ts: u64,
    site: Seq<char>,
    request_id: Seq<char>,
    payload: JsonView,
)
    ensures
        frame_line(category, ts, site, request_id, payload) == line_around(
            category,
            ts,
            site,
            request_id,
            json_text(payload),
        ),
{
    let none = Seq::<(Seq<char>, JsonView)>::empty();
    let m1 = none.push(("category"@, JsonView::Str(category)));
    let m2 = m1.push(("ts"@, JsonView::Int(ts as int)));
    let m3 = m2.push(("site"@, JsonView::Str(site)));
    let m4 = m3.push(("request_id"@, JsonView::Str(request_id)));
    let m5 = m4.push(("payload"@, payload));
    assert(frame_view(category, ts, site, request_id, payload)->Object_0 == m5);
    assert("{\"category\":"@ == "{"@ + lead(none, "category"@)) by {
        reveal_strlit("{\"category\":");
        reveal_strlit("{");
        reveal_strlit("category");
    }
    assert(",\"ts\":"@ == lead(m1, "ts"@)) by {
        reveal_strlit(",\"ts\":");
        reveal_strlit("ts");
    }
    assert(",\"site\":"@ == lead(m2, "site"@)) by {
        reveal_strlit(",\"site\":");
        reveal_strlit("site");
    }
    assert(",\"request_id\":"@ == lead(m3, "request_id"@)) by {
        reveal_strlit(",\"request_id\":");
        reveal_strlit("request_id");
    }
    assert(",\"payload\":"@ == lead(m4, "payload"@)) by {
        reveal_strlit(",\"payload\":");
        reveal_strlit("payload");
    }
    lemma_keys_are_plain();
    lemma_next_member(none, "category"@, JsonView::Str(category));
    lemma_next_member(m1, "ts"@, JsonView::Int(ts as int));
    lemma_next_member(m2, "site"@, JsonView::Str(site));
    lemma_next_member(m3, "request_id"@, JsonView::Str(request_id));
    lemma_next_member(m4, "payload"@, payload);
    let text = members_text(m4) + ",\"payload\":"@ + json_text(payload);
    assert(members_text(none) + lead(none, "category"@) == lead(none, "category"@));
    assert(frame_line(category, ts, site, request_id, payload) == "{"@ + text + "}\n"@) by {
        reveal_strlit("{");
        reveal_strlit("}\n");
    }
    assert("{"@ + text + "}\n"@ == line_around(
        category,
        ts,
        site,
        request_id,
        json_text(payload),
    ));
}

/// What stands before the value of a member that follows `v`.
spec fn lead(v: Seq<(Seq<char>, JsonView)>, key: Seq<char>) -> Seq<char> {
    (if v.len() > 0 {
        seq![',']
    } else {
        seq![]
    }) + seq!['"'] + key + seq!['"', ':']
}

/// Whether no character of `key` is escaped in a JSON string.
spec fn is_plain_key(key: Seq<char>) -> bool {
    forall|i: int|
        0 <= i < key.len() ==> (#[trigger] key[i]) as u32 >= 32 && key[i] != '"' && key[i] != '\\'
}

proof fn lemma_keys_are_plain()
    ensures
        is_plain_key("category"@),
        is_plain_key("ts"@),
        is_plain_key("site"@),
        is_plain_key("request_id"@),
        is_plain_key("payload"@),
        is_plain_key("truncated"@),
{
    reveal_strlit("category");
    reveal_strlit("ts");
    reveal_strlit("site");
    reveal_strlit("request_id");
    reveal_strlit("payload");
    reveal_strlit("truncated");
}

proof fn lemma_next_member(v: Seq<(Seq<char>, JsonView)>, key: Seq<char>, value: JsonView)
    requires
        is_plain_key(key),
    ensures
        members_text(v.push((key, value))) == members_text(v) + lead(v, key) + json_text(value),
{
    lemma_plain_stays(key);
    let all = v.push((key, value));
    assert(all.drop_last() == v);
    assert(members_text(all) == members_text(v) + separator(all.len()) + quoted(key) + seq![':']
        + json_text(value));
    assert(separator(all.len()) + quoted(key) + seq![':'] == lead(v, key));
    assert(members_text(v) + separator(all.len()) + quoted(key) + seq![':'] == members_text(v)
        + lead(v, key));
}

proof fn lemma_plain_stays(s: Seq<char>)
    requires
        is_plain_key(s),
    ensures
        escaped(s) == s,
    decreases s.len(),
{
    if s.len() > 0 {
        let front = s.drop_last();
        assert(forall|i: int| 0 <= i < front.len() ==> front[i] == s[i]);
        lemma_plain_stays(front);
        assert(s[s.len() - 1] == s.last());
        assert(front + seq![s.last()] == s);
    }
}

/// A line is the JSON object of its category, time, site, request id and
/// payload, and a line feed. Where that takes more than 262144 bytes, the object
/// with `{"truncated":true}` in place of the payload is the line.
pub proof fn law_line_text(
    category: Seq<char>,
    ts: u64,
    site: Seq<char>,
    request_id: Seq<char>,
    payload: JsonView,
)
    ensures
        ({
            let whole = line_around(category, ts, site, request_id, json_text(payload));
            budgeted_line(category, ts, site, request_id, payload) == (if encode_utf8(whole).len()
                <= 262144 {
                whole
            } else {
                line_around(category, ts, site, request_id, "{\"truncated\":true}"@)
            })
        }),
{
    lemma_line_around(category, ts, site, request_id, payload);
    lemma_line_around(category, ts, site, request_id, truncation_marker());
    let none = Seq::<(Seq<char>, JsonView)>::empty();
    let marker = none.push(("truncated"@, JsonView::Bool(true)));
    assert(truncation_marker()->Object_0 == marker);
    lemma_keys_are_plain();
    lemma_next_member(none, "truncated"@, JsonView::Bool(true));
    assert(members_text(none) + lead(none, "truncated"@) == lead(none, "truncated"@));
    assert(json_text(truncation_marker()) == "{\"truncated\":true}"@) by {
        reveal_strlit("truncated");
        reveal_strlit("true");
        reveal_strlit("{\"truncated\":true}");
    }
}

/// What is truncated takes at most the cap, and the mark.
pub proof fn law_truncation_never_grows_beyond_the_mark(s: Seq<char>, cap: nat)
    ensures
        truncated(s, cap) == s || encode_utf8(truncated(s, cap)).len() <= cap + encode_utf8(
            "…[truncated]"@,
        ).len(),
{
    law_truncation_is_longest_prefix(s, cap);
    lemma_utf8_concat(longest_fitting(s, cap), "…[truncated]"@);
}

} // verus!
