//! Where in the application an observed call comes from.

use vstd::prelude::*;
use crate::text::{contains, has_infix};

verus! {

/// One frame of the call stack.
pub struct StackFrame {
    /// Whether the frame belongs to an internal function.
    pub internal: bool,
    /// The source file, where the frame has one.
    pub file: Option<String>,
    /// The line at which the function of the frame begins.
    pub line_start: u32,
    /// The line that is being executed, where that is known.
    pub current_line: Option<u32>,
}

/// Whether a path is that of a dependency.
pub open spec fn is_vendored(path: Seq<char>) -> bool {
    has_infix(path, "/vendor/"@)
}

/// Whether a path is that of a dependency. Those are skipped when a call site
/// is resolved, so that the frame of the application is reported and not the
/// library code that wraps the observed call.
pub fn is_internal_path(path: &str) -> (r: bool)
    ensures
        r == is_vendored(path@),
{
    contains(path, "/vendor/")
}

/// Whether a frame is PHP code with a known source file.
pub open spec fn is_userland(frame: StackFrame) -> bool {
    !frame.internal && frame.file is Some
}

/// Whether a frame is code of the application itself.
pub open spec fn is_app(frame: StackFrame) -> bool {
    is_userland(frame) && !is_vendored(frame.file->0@)
}

/// The file and line of a frame.
pub open spec fn place_of(frame: StackFrame) -> (Option<Seq<char>>, u32) {
    (
        frame.file.deep_view(),
        match frame.current_line {
            Some(line) => line,
            None => frame.line_start,
        },
    )
}

/// The index of the first frame that satisfies `p`.
pub open spec fn first_where(
    frames: Seq<StackFrame>,
    p: spec_fn(StackFrame) -> bool,
) -> Option<int>
    decreases frames.len(),
{
    if frames.len() == 0 {
        None
    } else {
        match first_where(frames.drop_last(), p) {
            Some(i) => Some(i),
            None => if p(frames.last()) {
                Some(frames.len() - 1)
            } else {
                None
            },
        }
    }
}

/// The call site for a stack, innermost frame first: the first frame of the
/// application, or else the first PHP frame, or else none.
pub open spec fn call_site_of(frames: Seq<StackFrame>) -> (Option<Seq<char>>, u32) {
    match first_where(frames, |f: StackFrame| is_app(f)) {
        Some(i) => place_of(frames[i]),
        None => match first_where(frames, |f: StackFrame| is_userland(f)) {
            Some(i) => place_of(frames[i]),
            None => (None, 0),
        },
    }
}

fn place(frame: &StackFrame) -> (r: (Option<String>, u32))
    ensures
        (r.0.deep_view(), r.1) == place_of(*frame),
{
    let file = match &frame.file {
        Some(file) => Some(file.clone()),
        None => None,
    };
    match frame.current_line {
        Some(line) => (file, line),
        None => (file, frame.line_start),
    }
}

/// Resolves the application's file and line for an observed call, given the
/// frames outside it, innermost first.
pub fn caller_location(frames: &Vec<StackFrame>) -> (r: (Option<String>, u32))
    ensures
        (r.0.deep_view(), r.1) == call_site_of(frames@),
{
    let ghost app = |f: StackFrame| is_app(f);
    let ghost userland = |f: StackFrame| is_userland(f);
    let mut fallback: Option<usize> = None;
    let mut i: usize = 0;
    while i < frames.len()
        invariant
            i <= frames@.len(),
            app == (|f: StackFrame| is_app(f)),
            userland == (|f: StackFrame| is_userland(f)),
            first_where(frames@.take(i as int), app) is None,
            match fallback {
                Some(k) => k < frames@.len() && first_where(frames@.take(i as int), userland)
                    == Some(k as int),
                None => first_where(frames@.take(i as int), userland) is None,
            },
        decreases frames@.len() - i,
    {
        let frame = &frames[i];
        let ghost after = frames@.take(i + 1);
        assert(after.drop_last() == frames@.take(i as int));
        assert(after.last() == *frame);
        if !frame.internal {
            if let Some(file) = &frame.file {
                if !is_internal_path(file.as_str()) {
                    proof {
                        lemma_first_where_extends(frames@, app, i as int + 1);
                    }
                    return place(frame);
                }
                if fallback.is_none() {
                    fallback = Some(i);
                }
            }
        }
        i += 1;
    }
    assert(frames@.take(frames@.len() as int) == frames@);
    match fallback {
        Some(k) => place(&frames[k]),
        None => (None, 0),
    }
}

proof fn lemma_first_where_extends(
    frames: Seq<StackFrame>,
    p: spec_fn(StackFrame) -> bool,
    i: int,
)
    requires
        0 <= i <= frames.len(),
        first_where(frames.take(i), p) is Some,
    ensures
        first_where(frames, p) == first_where(frames.take(i), p),
    decreases frames.len() - i,
{
    if i < frames.len() {
        assert(frames.take(i + 1).drop_last() == frames.take(i));
        lemma_first_where_extends(frames, p, i + 1);
    } else {
        assert(frames.take(i) == frames);
    }
}

/// The first frame that satisfies `p` does so, and none before it does.
pub proof fn lemma_first_where(frames: Seq<StackFrame>, p: spec_fn(StackFrame) -> bool)
    ensures
        match first_where(frames, p) {
            Some(i) => 0 <= i < frames.len() && p(frames[i]) && forall|j: int|
                0 <= j < i ==> !p(#[trigger] frames[j]),
            None => forall|j: int| 0 <= j < frames.len() ==> !p(#[trigger] frames[j]),
        },
    decreases frames.len(),
{
    if frames.len() > 0 {
        let front = frames.drop_last();
        lemma_first_where(front, p);
        assert(forall|j: int| 0 <= j < front.len() ==> front[j] == frames[j]);
    }
}

/// A reported call site is never in a dependency while the stack holds a frame
/// of the application.
pub proof fn law_call_site_is_in_the_application(frames: Seq<StackFrame>, k: int)
    requires
        0 <= k < frames.len(),
        is_app(frames[k]),
    ensures
        call_site_of(frames).0 is Some,
        !is_vendored(call_site_of(frames).0->0),
{
    lemma_first_where(frames, |f: StackFrame| is_app(f));
}

/// The call site is the nearest frame of the application: the first, from the
/// inside, that is PHP code with a source file outside every `/vendor/`
/// directory. Its line is the one being executed, or else the first of its
/// function. Where there is no such frame, the nearest PHP frame with a source
/// file takes its place, and where there is none either, there is no call site.
pub proof fn law_nearest_frame_is_reported(frames: Seq<StackFrame>, k: int)
    ensures
        ({
            let php = |f: StackFrame| !f.internal && f.file is Some;
            let vendored = |f: StackFrame|
                exists|i: int|
                    0 <= i <= f.file->0@.len() - 8 && #[trigger] f.file->0@.subrange(i, i + 8)
                        == "/vendor/"@;
            let line = match frames[k].current_line {
                Some(line) => line,
                None => frames[k].line_start,
            };
            &&& (0 <= k < frames.len() && php(frames[k]) && !vendored(frames[k]) && forall|j: int|
                0 <= j < k ==> !php(#[trigger] frames[j]) || vendored(frames[j])) ==> call_site_of(
                frames,
            ) == (Some(frames[k].file->0@), line)
            &&& (0 <= k < frames.len() && php(frames[k]) && (forall|j: int|
                0 <= j < frames.len() ==> !php(#[trigger] frames[j]) || vendored(frames[j]))
                && forall|j: int| 0 <= j < k ==> !php(#[trigger] frames[j])) ==> call_site_of(
                frames,
            ) == (Some(frames[k].file->0@), line)
            &&& (forall|j: int| 0 <= j < frames.len() ==> !php(#[trigger] frames[j]))
                ==> call_site_of(frames) == (None::<Seq<char>>, 0u32)
        }),
{
    reveal_strlit("/vendor/");
    let app = |f: StackFrame| is_app(f);
    let userland = |f: StackFrame| is_userland(f);
    let vendored = |f: StackFrame|
        exists|i: int|
            0 <= i <= f.file->0@.len() - 8 && #[trigger] f.file->0@.subrange(i, i + 8)
                == "/vendor/"@;
    assert forall|f: StackFrame| f.file is Some implies #[trigger] is_vendored(f.file->0@)
        == vendored(f) by {
        let path = f.file->0@;
        let t = "/vendor/"@;
        if is_vendored(path) {
            let i = choose|i: int|
                0 <= i <= path.len() - t.len() && #[trigger] path.subrange(i, i + t.len()) == t;
            assert(path.subrange(i, i + 8) == t);
        }
        if vendored(f) {
            let i = choose|i: int|
                0 <= i <= path.len() - 8 && #[trigger] path.subrange(i, i + 8) == t;
            assert(path.subrange(i, i + t.len()) == t);
        }
    }
    assert forall|j: int| 0 <= j < frames.len() implies is_app(#[trigger] frames[j]) == (
    !frames[j].internal && frames[j].file is Some && !vendored(frames[j])) by {
        if frames[j].file is Some {
            assert(is_vendored(frames[j].file->0@) == vendored(frames[j]));
        }
    }
    lemma_first_where(frames, app);
    lemma_first_where(frames, userland);
    if 0 <= k < frames.len() && is_app(frames[k]) && forall|j: int|
        0 <= j < k ==> !is_app(#[trigger] frames[j]) {
        let i = first_where(frames, app)->0;
        assert(app(frames[k]));
        if i < k {
            assert(is_app(frames[i]));
        }
        assert(i == k);
    }
    if 0 <= k < frames.len() && is_userland(frames[k]) && forall|j: int|
        0 <= j < k ==> !is_userland(#[trigger] frames[j]) {
        let i = first_where(frames, userland)->0;
        assert(userland(frames[k]));
        if i < k {
            assert(is_userland(frames[i]));
        }
        assert(i == k);
    }
}

} // verus!
