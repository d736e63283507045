//! `dump()` and `dd()` observation.

use vstd::prelude::*;
use crate::frame::{truncate, truncated, FIELD_CAP};
use crate::json::{
    has_member, has_members, member_views, string_or_null, Json, JsonView, Member,
};
use crate::php::PhpValue;
use crate::render::{html_text, render, value_text};
use crate::request::{Emission, EmissionView, Feature};

verus! {

/// The payload of a `dump` frame.
pub open spec fn dump_view(v: PhpValue, file: Option<Seq<char>>, line: u32) -> JsonView {
    let text = value_text(v, 0);
    let html = "<pre>"@ + html_text(text) + "</pre>"@;
    JsonView::Object(
        seq![
            ("file"@, string_or_null(file)),
            ("line"@, JsonView::Int(line as int)),
            ("value_html"@, JsonView::Str(truncated(html, FIELD_CAP as nat))),
            ("value_text"@, JsonView::Str(truncated(text, FIELD_CAP as nat))),
        ],
    )
}

/// The payload of a `dump` frame.
fn dump_payload(v: &PhpValue, file: Option<String>, line: u32) -> (payload: Json)
    ensures
        payload@ == dump_view(*v, file.deep_view(), line),
{
    let (html, text) = render(v);
    let members = vec![
        Member::new("file", Json::optional_text(file)),
        Member::new("line", Json::UInt(line as u64)),
        Member::new("value_html", Json::Str(truncate(html.as_str(), FIELD_CAP))),
        Member::new("value_text", Json::Str(truncate(text.as_str(), FIELD_CAP))),
    ];
    assert(member_views(members@) == dump_view(*v, file.deep_view(), line)->Object_0);
    Json::object(members)
}

/// The mathematical values of `v`, in order.
pub open spec fn emission_views(v: Seq<Emission>) -> Seq<EmissionView> {
    v.map_values(|e: Emission| e@)
}

/// The frames for the arguments of a dump, in order: one for each argument
/// that could be read.
pub open spec fn dump_frames(
    args: Seq<Option<PhpValue>>,
    file: Option<Seq<char>>,
    line: u32,
) -> Seq<EmissionView>
    decreases args.len(),
{
    if args.len() == 0 {
        seq![]
    } else {
        let front = dump_frames(args.drop_last(), file, line);
        match args.last() {
            Some(v) => front.push(
                EmissionView {
                    feature: Feature::Dumps,
                    ts: None,
                    payload: dump_view(v, file, line),
                },
            ),
            None => front,
        }
    }
}

/// Handles a dump call: one frame for each argument.
pub fn on_dump(args: &Vec<Option<PhpValue>>, file: &Option<String>, line: u32) -> (r: Vec<Emission>)
    ensures
        emission_views(r@) == dump_frames(args@, file.deep_view(), line),
{
    let mut out: Vec<Emission> = Vec::new();
    let mut i: usize = 0;
    assert(emission_views(out@) == dump_frames(args@.take(0), file.deep_view(), line));
    while i < args.len()
        invariant
            i <= args@.len(),
            emission_views(out@) == dump_frames(args@.take(i as int), file.deep_view(), line),
        decreases args@.len() - i,
    {
        let ghost after = args@.take(i + 1);
        assert(after.drop_last() == args@.take(i as int));
        assert(after.last() == args@[i as int]);
        if let Some(v) = &args[i] {
            let ghost earlier = out@;
            let site = match file {
                Some(f) => Some(f.clone()),
                None => None,
            };
            let frame = Emission {
                feature: Feature::Dumps,
                ts: None,
                payload: dump_payload(v, site, line),
            };
            out.push(frame);
            assert(emission_views(out@) == emission_views(earlier).push(frame@));
        }
        i += 1;
    }
    assert(args@.take(args@.len() as int) == args@);
    out
}

/// A dump frame holds the text of the dumped value, the same text escaped and
/// between `<pre>` tags, and the place of the dump.
pub proof fn law_dump_holds_the_value(v: PhpValue, file: Option<Seq<char>>, line: u32)
    ensures
        ({
            let payload = dump_view(v, file, line);
            let text = value_text(v, 0);
            &&& has_members(payload, 4)
            &&& has_member(payload, "value_text"@, JsonView::Str(truncated(text, 204800)))
            &&& has_member(
                payload,
                "value_html"@,
                JsonView::Str(truncated("<pre>"@ + html_text(text) + "</pre>"@, 204800)),
            )
            &&& has_member(payload, "line"@, JsonView::Int(line as int))
            &&& file is Some ==> has_member(payload, "file"@, JsonView::Str(file->0))
            &&& file is None ==> has_member(payload, "file"@, JsonView::Null)
        }),
{
    let m = dump_view(v, file, line)->Object_0;
    assert(m[0].0 == "file"@);
    assert(m[1].0 == "line"@);
    assert(m[2].0 == "value_html"@);
    assert(m[3].0 == "value_text"@);
}

/// Each argument of a dump that can be read has one frame of its own, in the
/// order of the arguments; one that cannot be read has none.
pub proof fn law_each_argument_has_its_frame(
    args: Seq<Option<PhpValue>>,
    v: PhpValue,
    file: Option<Seq<char>>,
    line: u32,
)
    ensures
        dump_frames(seq![], file, line).len() == 0,
        dump_frames(args.push(None), file, line) == dump_frames(args, file, line),
        ({
            let before = dump_frames(args, file, line);
            let after = dump_frames(args.push(Some(v)), file, line);
            &&& after.len() == before.len() + 1
            &&& after.drop_last() == before
            &&& after.last().feature == Feature::Dumps
            &&& after.last().ts is None
            &&& after.last().payload == dump_view(v, file, line)
        }),
{
    assert(args.push(None).drop_last() == args);
    assert(args.push(Some(v)).drop_last() == args);
    let before = dump_frames(args, file, line);
    let after = dump_frames(args.push(Some(v)), file, line);
    assert(after.drop_last() == before);
}

/// The frames of a dump are counted and ordered as they are handed out.
pub proof fn law_frames_in_order(v: Seq<Emission>, i: int)
    ensures
        emission_views(v).len() == v.len(),
        0 <= i < v.len() ==> emission_views(v)[i].feature == v[i].feature,
        0 <= i < v.len() ==> emission_views(v)[i].ts == v[i].ts,
        0 <= i < v.len() ==> emission_views(v)[i].payload == v[i].payload@,
{
}

} // verus!
