//! Outgoing HTTP calls, observed at `curl_exec`.

use vstd::prelude::*;
use crate::frame::{truncate, truncated, FIELD_CAP};
use crate::json::{
    has_member, has_members, member_views, string_or_null, Json, JsonView, Member,
};
use crate::request::{copy_or_empty, emitted, or_empty, Emission, EmissionView, Feature};

verus! {

/// What curl says about a finished transfer.
pub struct CurlInfo {
    pub url: Option<String>,
    pub http_code: Option<i64>,
    /// How long the transfer took, in milliseconds.
    pub duration_ms: Json,
    /// The method, where curl gives it.
    pub effective_method: Option<String>,
}

/// The payload of an `http` frame.
pub open spec fn http_view(info: CurlInfo, file: Option<Seq<char>>, line: u32) -> JsonView {
    JsonView::Object(
        seq![
            ("duration_ms"@, info.duration_ms@),
            ("file"@, string_or_null(file)),
            ("line"@, JsonView::Int(line as int)),
            ("method"@, JsonView::Str(or_empty(info.effective_method.deep_view()))),
            (
                "status"@,
                JsonView::Int(
                    match info.http_code {
                        Some(code) => code as int,
                        None => 0,
                    },
                ),
            ),
            (
                "url"@,
                JsonView::Str(truncated(or_empty(info.url.deep_view()), FIELD_CAP as nat)),
            ),
        ],
    )
}

/// What is reported of a finished `curl_exec`: nothing where it has no URL.
pub open spec fn http_frame(
    info: CurlInfo,
    file: Option<Seq<char>>,
    line: u32,
) -> Option<EmissionView> {
    if or_empty(info.url.deep_view()).len() > 0 {
        Some(
            EmissionView {
                feature: Feature::Http,
                ts: None,
                payload: http_view(info, file, line),
            },
        )
    } else {
        None
    }
}

/// Handles a finished `curl_exec`.
pub fn on_curl_exec_end(info: CurlInfo, file: Option<String>, line: u32) -> (r: Option<Emission>)
    ensures
        emitted(r) == http_frame(info, file.deep_view(), line),
{
    let url = copy_or_empty(&info.url);
    if url.as_str().is_empty() {
        return None;
    }
    let status = match info.http_code {
        Some(code) => code,
        None => 0,
    };
    let members = vec![
        Member::new("duration_ms", info.duration_ms),
        Member::new("file", Json::optional_text(file)),
        Member::new("line", Json::UInt(line as u64)),
        Member::new("method", Json::Str(copy_or_empty(&info.effective_method))),
        Member::new("status", Json::Int(status)),
        Member::new("url", Json::Str(truncate(url.as_str(), FIELD_CAP))),
    ];
    assert(member_views(members@) == http_view(info, file.deep_view(), line)->Object_0);
    Some(Emission { feature: Feature::Http, ts: None, payload: Json::object(members) })
}

/// An outgoing call is reported where it has a URL, with that URL up to its cap,
/// and with the status, the method and the time that curl gives, as they are.
pub proof fn law_call_is_reported(
    info: CurlInfo,
    url: String,
    method: String,
    code: i64,
    file: Option<Seq<char>>,
    line: u32,
)
    ensures
        info.url is None ==> http_frame(info, file, line) is None,
        info.url == Some(url) && url@.len() == 0 ==> http_frame(info, file, line) is None,
        info.url == Some(url) && url@.len() > 0 ==> {
            let frame = http_frame(info, file, line);
            let payload = frame->0.payload;
            &&& frame is Some
            &&& frame->0.feature == Feature::Http
            &&& frame->0.ts is None
            &&& has_members(payload, 6)
            &&& has_member(payload, "url"@, JsonView::Str(truncated(url@, 204800)))
            &&& has_member(payload, "duration_ms"@, info.duration_ms@)
            &&& has_member(payload, "line"@, JsonView::Int(line as int))
            &&& info.http_code == Some(code) ==> has_member(
                payload,
                "status"@,
                JsonView::Int(code as int),
            )
            &&& info.http_code is None ==> has_member(payload, "status"@, JsonView::Int(0))
            &&& info.effective_method == Some(method) ==> has_member(
                payload,
                "method"@,
                JsonView::Str(method@),
            )
            &&& info.effective_method is None ==> has_member(
                payload,
                "method"@,
                JsonView::Str(seq![]),
            )
            &&& file is Some ==> has_member(payload, "file"@, JsonView::Str(file->0))
            &&& file is None ==> has_member(payload, "file"@, JsonView::Null)
        },
{
    let m = http_view(info, file, line)->Object_0;
    assert(m[0].0 == "duration_ms"@);
    assert(m[1].0 == "file"@);
    assert(m[2].0 == "line"@);
    assert(m[3].0 == "method"@);
    assert(m[4].0 == "status"@);
    assert(m[5].0 == "url"@);
}

} // verus!
