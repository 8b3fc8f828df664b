//! Screenshot endpoint: the primary API.
//!
//! Serving `GET /v1/screenshot` alternates outside work (creating the
//! output directory, driving the browser, the image library, writing
//! files) with decisions. The decisions are a state machine: the caller
//! performs each action that `Screenshot::step` returns and hands back
//! what came of it as the next event, until the action is a reply.

use vstd::prelude::*;
use crate::error::Error;
use crate::image::{
    Dimensions,
    ImageFormat,
    Region,
    ResizePlan,
    lemma_resize_reaches_width,
    planned_resize,
    resize_plan,
    resized_width,
    chunk_count,
    is_chunk,
    lemma_chunk_count,
    lemma_chunk_rows,
    split_by_height,
};
use crate::order::{lex_le, lex_sorted, sort_strings, views};
use crate::reply::{
    Body,
    Reply,
    internal_error_reply,
    is_internal_error_reply,
    is_text_reply,
    text_reply,
};
use crate::routes::config::Config;
use crate::text::{decimal, ends_with, frame_name, frame_name_chars, lemma_frame_names_distinct, str_ends_with};

verus! {

broadcast use vstd::seq_lib::group_to_multiset_ensures;

/// Query parameters of `GET /v1/screenshot`.
#[derive(Debug)]
pub struct Params {
    /// URL of the page to capture
    pub url: String,
    /// Host of the page's URL, if it has one
    pub host: Option<String>,
    /// Viewport width (px)
    pub vw: u32,
    /// Viewport height (px)
    pub vh: u32,
    /// Output width (px)
    pub ow: u32,
    /// Maximum number of vertical frames to slice the page into
    pub frames: u32,
    /// Output image format
    pub format: ImageFormat,
    /// Per-request timeout in milliseconds
    pub timeout_ms: u32,
}

/// What the browser is asked to capture.
#[derive(Debug, PartialEq, Eq)]
pub struct Capture {
    /// URL of the page
    pub url: String,
    /// Viewport width (px)
    pub width: u32,
    /// Viewport height (px)
    pub height: u32,
    /// Maximum number of frames
    pub frames: u32,
    pub format: ImageFormat,
    /// Timeout in milliseconds
    pub timeout_ms: u32,
}

/// One frame to cut out of the resized screenshot, encode and write.
#[derive(Debug)]
pub struct FrameJob {
    /// File name, in the output directory
    pub name: String,
    /// Rows of the resized screenshot that make the frame
    pub region: Region,
}

/// Where a screenshot request stands.
#[derive(Debug, Clone, Copy, PartialEq, Eq, Structural)]
pub enum Stage {
    /// Waiting to know whether the server has room for the request
    Admission,
    /// Waiting for the output directory to be created
    CreatingDir,
    /// Waiting for the browser's screenshot
    Capturing,
    /// Waiting for the screenshot's dimensions
    Inspecting,
    /// Waiting for the screenshot to be resized
    Resizing,
    /// Waiting for the frame height and the resized image's dimensions
    Measuring,
    /// Waiting for the frames to be written
    Writing,
    /// Replied
    Done,
}

/// What the caller is to do next.
#[derive(Debug)]
pub enum Action {
    /// Send this reply; the request is over.
    Respond(Reply),
    /// The request failed with this error: log it and send the reply that
    /// `Error::response` gives; the request is over.
    Fail(Error),
    /// Create the directory `dir_name` under the image directory.
    CreateDir { dir_name: String },
    /// Have the browser capture the page.
    Capture(Capture),
    /// Decode the screenshot's dimensions, and work out the height that
    /// scaling it to `output_width` wide gives it (the long side of a
    /// portrait screenshot once resized).
    Inspect { output_width: u32 },
    /// Resize the screenshot as `plan` says, encoding a thumbnail in
    /// `format`.
    Resize { plan: ResizePlan, format: ImageFormat },
    /// Work out the frame height, the viewport height scaled as the
    /// viewport width is scaled to the output width, and decode the
    /// resized screenshot's dimensions.
    Measure { output_width: u32, viewport_width: u32, viewport_height: u32 },
    /// Cut out, encode and write these frames, each on its own, in the
    /// image directory created for the request.
    Write { format: ImageFormat, frames: Vec<FrameJob> },
}

/// What came of the last action.
#[derive(Debug)]
pub enum Event {
    /// Whether a concurrency permit could be taken; the caller holds it
    /// until the request is over
    Permit(bool),
    DirCreated(Result<(), Error>),
    Captured(Result<(), Error>),
    Inspected { image: Result<Dimensions, Error>, portrait_long_side: u32 },
    Resized(Result<(), Error>),
    Measured { frame_height: u32, image: Result<Dimensions, Error> },
    /// For each frame, in order, the path it was written to or the error
    Written(Vec<Result<String, Error>>),
}

/// The request's dimensions and frame count are all nonzero.
pub open spec fn valid_dimensions(p: Params) -> bool {
    p.vw != 0 && p.vh != 0 && p.ow != 0 && p.frames != 0
}

/// The request can be served: valid dimensions and a nonzero timeout.
pub open spec fn admissible(p: Params) -> bool {
    valid_dimensions(p) && p.timeout_ms != 0
}

/// Name of the output directory of a page: its host, or `host` when its
/// URL has none.
pub open spec fn dir_name_chars(host: Option<String>) -> Seq<char> {
    match host {
        Some(h) => h@,
        None => seq!['h', 'o', 's', 't'],
    }
}

/// The smaller of `a` and `b`.
pub open spec fn min_u32(a: u32, b: u32) -> u32 {
    if a < b {
        a
    } else {
        b
    }
}

/// The browser request for `p`: its URL, viewport and format, its frame
/// count capped at the server's maximum and its timeout capped at the
/// server's.
pub open spec fn capture_for(config: Config, p: Params) -> Capture {
    Capture {
        url: p.url,
        width: p.vw,
        height: p.vh,
        frames: min_u32(p.frames, config.max_frames),
        format: p.format,
        timeout_ms: min_u32(p.timeout_ms, config.timeout_ms),
    }
}

/// The paths of the frames that were written, in order.
pub open spec fn written_paths(outcomes: Seq<Result<String, Error>>) -> Seq<Seq<char>>
    decreases outcomes.len(),
{
    if outcomes.len() == 0 {
        Seq::empty()
    } else {
        let rest = written_paths(outcomes.drop_last());
        match outcomes.last() {
            Ok(p) => rest.push(p@),
            Err(_) => rest,
        }
    }
}

/// The number of frames written for an image of `height` rows cut into
/// chunks of `chunk_height` rows, when at most `limit` frames are allowed:
/// the chunk count, capped at the limit.
pub open spec fn frame_count(height: int, chunk_height: int, limit: int) -> int {
    let n = chunk_count(height, chunk_height);
    if n < limit {
        n
    } else {
        limit
    }
}

/// `jobs` are the first frames of an image of dimensions `dims` cut into
/// chunks of `chunk_height` rows, as many as there are chunks but no more
/// than `limit`: frame `k` is chunk `k`, written to `frame_<k><suffix>`.
pub open spec fn are_frame_jobs(
    jobs: Seq<FrameJob>,
    dims: Dimensions,
    chunk_height: int,
    format: ImageFormat,
    limit: int,
) -> bool {
    &&& jobs.len() == frame_count(dims.height as int, chunk_height, limit)
    &&& forall|k: int|
        0 <= k < jobs.len() ==> is_chunk((#[trigger] jobs[k]).region, dims, chunk_height, k)
            && jobs[k].name@ == frame_name_chars(k as nat, format)
}

/// `action` ends the request with the error `e`.
pub open spec fn fails_with(action: Action, e: Error) -> bool {
    action == Action::Fail(e)
}

/// `action` ends the request with an image error whose message is `m`.
pub open spec fn fails_with_image_error(action: Action, m: Seq<char>) -> bool {
    action matches Action::Fail(Error::Image(msg)) && msg@ == m
}

/// `action` ends the request with the generic internal error.
pub open spec fn is_internal_error(action: Action) -> bool {
    action matches Action::Respond(r) && is_internal_error_reply(r)
}

/// `outcomes` answer the writing of frames named `names`: one outcome per
/// frame, in order, and the path of each written frame ends with its name.
pub open spec fn outcomes_answer(outcomes: Seq<Result<String, Error>>, names: Seq<Seq<char>>) -> bool {
    &&& outcomes.len() == names.len()
    &&& forall|k: int|
        0 <= k < outcomes.len() ==> (#[trigger] outcomes[k] matches Ok(path) ==> ends_with(
            path@,
            names[k],
        ))
}

/// `action` is the answer to `event` in `stage`, for the request `p` on a
/// server with limits `config`, whose frames, once planned, are named
/// `names`.
pub open spec fn answers(
    config: Config,
    p: Params,
    names: Seq<Seq<char>>,
    stage: Stage,
    event: Event,
    action: Action,
) -> bool {
    match (stage, event) {
        (Stage::Admission, Event::Permit(acquired)) => if !acquired {
            action matches Action::Respond(r) && is_text_reply(r, 503, "Server Busy"@)
        } else if !valid_dimensions(p) {
            action matches Action::Respond(r) && is_text_reply(r, 400, "Invalid Image Dimension"@)
        } else if p.timeout_ms == 0 {
            action matches Action::Respond(r) && is_text_reply(r, 400, "Invalid Timeout"@)
        } else {
            action matches Action::CreateDir { dir_name } && dir_name@ == dir_name_chars(p.host)
        },
        (Stage::CreatingDir, Event::DirCreated(outcome)) => match outcome {
            Ok(_) => action == Action::Capture(capture_for(config, p)),
            Err(e) => fails_with(action, e),
        },
        (Stage::Capturing, Event::Captured(outcome)) => match outcome {
            Ok(_) => action == (Action::Inspect { output_width: p.ow }),
            Err(e) => fails_with(action, e),
        },
        (Stage::Inspecting, Event::Inspected { image, portrait_long_side }) => match image {
            Ok(d) => action == (Action::Resize {
                plan: planned_resize(d, p.ow, portrait_long_side),
                format: p.format,
            }),
            Err(e) => fails_with(action, e),
        },
        (Stage::Resizing, Event::Resized(outcome)) => match outcome {
            Ok(_) => action == (Action::Measure {
                output_width: p.ow,
                viewport_width: p.vw,
                viewport_height: p.vh,
            }),
            Err(e) => fails_with(action, e),
        },
        (Stage::Measuring, Event::Measured { frame_height, image }) => if frame_height == 0 {
            fails_with_image_error(action, "chunk height must be > 0"@)
        } else {
            match image {
                Ok(d) => if d.width > 0 && d.height > 0 {
                    action matches Action::Write { format, frames } && format == p.format
                        && are_frame_jobs(
                        frames@,
                        d,
                        frame_height as int,
                        format,
                        capture_for(config, p).frames as int,
                    )
                } else {
                    fails_with_image_error(action, "image width and height must be > 0"@)
                },
                Err(e) => fails_with(action, e),
            }
        },
        (Stage::Writing, Event::Written(outcomes)) => if outcomes_answer(outcomes@, names) {
            &&& action matches Action::Respond(r)
            &&& r.status == 200
            &&& r.body matches Body::Frames(paths)
            &&& lex_sorted(views(paths@))
            &&& views(paths@).to_multiset() == written_paths(outcomes@).to_multiset()
        } else {
            is_internal_error(action)
        },
        _ => is_internal_error(action),
    }
}

/// The stage that follows `stage` on `event`.
pub open spec fn next_stage(stage: Stage, config: Config, p: Params, event: Event) -> Stage {
    match (stage, event) {
        (Stage::Admission, Event::Permit(acquired)) => if acquired && admissible(p) {
            Stage::CreatingDir
        } else {
            Stage::Done
        },
        (Stage::CreatingDir, Event::DirCreated(Ok(_))) => Stage::Capturing,
        (Stage::Capturing, Event::Captured(Ok(_))) => Stage::Inspecting,
        (Stage::Inspecting, Event::Inspected { image: Ok(_), .. }) => Stage::Resizing,
        (Stage::Resizing, Event::Resized(Ok(_))) => Stage::Measuring,
        (Stage::Measuring, Event::Measured { frame_height, image }) => if frame_height > 0
            && (image matches Ok(d) && d.width > 0 && d.height > 0) {
            Stage::Writing
        } else {
            Stage::Done
        },
        _ => Stage::Done,
    }
}

/// The stage a request reaches from `stage` on `events`, in order.
pub open spec fn stage_after(config: Config, p: Params, stage: Stage, events: Seq<Event>) -> Stage
    decreases events.len(),
{
    if events.len() == 0 {
        stage
    } else {
        stage_after(config, p, next_stage(stage, config, p, events[0]), events.drop_first())
    }
}

/// Once replied to, a request stays replied to, whatever comes after.
pub proof fn lemma_done_is_final(config: Config, p: Params, events: Seq<Event>)
    ensures
        stage_after(config, p, Stage::Done, events) == Stage::Done,
    decreases events.len(),
{
    if events.len() > 0 {
        lemma_done_is_final(config, p, events.drop_first());
    }
}

/// No work is done for a request that was turned away: a request gets
/// past admission only when the server had room for it and its
/// dimensions, frame count and timeout are all nonzero.
pub proof fn lemma_work_only_when_admitted(config: Config, p: Params, events: Seq<Event>)
    ensures
        ({
            let s = stage_after(config, p, Stage::Admission, events);
            s != Stage::Admission && s != Stage::Done ==> (events[0] matches Event::Permit(true)
                && admissible(p))
        }),
{
    if events.len() > 0 {
        let s1 = next_stage(Stage::Admission, config, p, events[0]);
        if s1 == Stage::Done {
            lemma_done_is_final(config, p, events.drop_first());
        }
    }
}

/// The browser is never asked for more frames than the request or the
/// server allows, nor given more time than the request or the server
/// allows; the viewport and the format are the request's.
pub proof fn lemma_capture_within_limits(config: Config, p: Params)
    ensures
        capture_for(config, p).frames <= p.frames,
        capture_for(config, p).frames <= config.max_frames,
        capture_for(config, p).frames == p.frames || capture_for(config, p).frames
            == config.max_frames,
        capture_for(config, p).timeout_ms <= p.timeout_ms,
        capture_for(config, p).timeout_ms <= config.timeout_ms,
        capture_for(config, p).timeout_ms == p.timeout_ms || capture_for(config, p).timeout_ms
            == config.timeout_ms,
        capture_for(config, p).width == p.vw,
        capture_for(config, p).height == p.vh,
        capture_for(config, p).format == p.format,
{
}

/// The frames a request writes go to distinct files, are no more than
/// its frame limit, and are the top chunks of the resized screenshot in
/// order: the first starts at its top row, each starts where the previous
/// one ends, all but the last have exactly the frame height, none has
/// more; and when the limit leaves out no chunk, the last ends at the
/// screenshot's bottom row.
pub proof fn lemma_frame_jobs(
    jobs: Seq<FrameJob>,
    d: Dimensions,
    frame_height: int,
    format: ImageFormat,
    limit: int,
)
    requires
        frame_height > 0,
        d.height > 0,
        are_frame_jobs(jobs, d, frame_height, format, limit),
    ensures
        forall|i: int, j: int|
            0 <= i < jobs.len() && 0 <= j < jobs.len() && i != j ==> (#[trigger] jobs[i]).name@
                != (#[trigger] jobs[j]).name@,
        jobs.len() <= limit,
        limit > 0 ==> jobs.len() > 0 && jobs[0].region.top == 0,
        forall|k: int|
            0 <= k < jobs.len() - 1 ==> #[trigger] jobs[k + 1].region.top == jobs[k].region.top
                + jobs[k].region.height,
        forall|k: int| 0 <= k < jobs.len() - 1 ==> #[trigger] jobs[k].region.height == frame_height,
        forall|k: int| 0 <= k < jobs.len() ==> 0 < #[trigger] jobs[k].region.height <= frame_height,
        jobs.len() == chunk_count(d.height as int, frame_height) ==> jobs.last().region.top
            + jobs.last().region.height == d.height,
{
    let h = d.height as int;
    let c = frame_height;
    let n = jobs.len() as int;
    assert forall|i: int, j: int|
        0 <= i < jobs.len() && 0 <= j < jobs.len() && i != j implies (#[trigger] jobs[i]).name@
        != (#[trigger] jobs[j]).name@ by {
        lemma_frame_names_distinct(i as nat, j as nat, format);
    }
    lemma_chunk_count(h, c, 0);
    if n > 0 {
        assert(is_chunk(jobs[0].region, d, c, 0));
        assert(0 * c == 0);
    }
    assert forall|k: int| 0 <= k < n implies 0 < #[trigger] jobs[k].region.height <= c && (k
        < n - 1 ==> jobs[k].region.height == c) && (k == n - 1 && n == chunk_count(h, c)
        ==> jobs[k].region.top + jobs[k].region.height == h) by {
        assert(is_chunk(jobs[k].region, d, c, k));
        lemma_chunk_rows(h, c, k);
    }
    assert forall|k: int| 0 <= k < n - 1 implies #[trigger] jobs[k + 1].region.top
        == jobs[k].region.top + jobs[k].region.height by {
        assert(is_chunk(jobs[k].region, d, c, k));
        assert(is_chunk(jobs[k + 1].region, d, c, k + 1));
        lemma_chunk_rows(h, c, k);
    }
}

/// Every written path comes from an outcome that wrote it.
proof fn lemma_written_path_source(outcomes: Seq<Result<String, Error>>, x: Seq<char>)
    requires
        written_paths(outcomes).contains(x),
    ensures
        exists|k: int| 0 <= k < outcomes.len() && (#[trigger] outcomes[k] matches Ok(path) && path@ == x),
    decreases outcomes.len(),
{
    let rest = outcomes.drop_last();
    if outcomes.len() > 0 {
        let k = outcomes.len() - 1;
        if outcomes.last() matches Ok(path) && path@ == x {
            assert(outcomes[k] matches Ok(path) && path@ == x);
        } else {
            match outcomes.last() {
                Ok(path) => {
                    let i = choose|i: int|
                        0 <= i < written_paths(outcomes).len() && written_paths(outcomes)[i] == x;
                    assert(written_paths(outcomes) == written_paths(rest).push(path@));
                    assert(i < written_paths(rest).len());
                    assert(written_paths(rest)[i] == x);
                },
                Err(_) => {
                    assert(written_paths(outcomes) == written_paths(rest));
                },
            }
            lemma_written_path_source(rest, x);
            let j = choose|j: int| 0 <= j < rest.len() && (#[trigger] rest[j] matches Ok(path) && path@ == x);
            assert(outcomes[j] == rest[j]);
        }
    }
}

/// `path` ends with one of `names`.
pub open spec fn names_a_frame(path: Seq<char>, names: Seq<Seq<char>>) -> bool {
    exists|k: int| 0 <= k < names.len() && ends_with(path, #[trigger] names[k])
}

/// A reply lists only frames of its own request: every path it lists is
/// one of the outcomes handed back for the request's frames, and so ends
/// with the name of one of them.
pub proof fn lemma_listing_names_frames(
    outcomes: Seq<Result<String, Error>>,
    names: Seq<Seq<char>>,
    paths: Seq<Seq<char>>,
)
    requires
        outcomes_answer(outcomes, names),
        paths.to_multiset() == written_paths(outcomes).to_multiset(),
    ensures
        forall|i: int| 0 <= i < paths.len() ==> names_a_frame(#[trigger] paths[i], names),
{
    assert forall|i: int| 0 <= i < paths.len() implies names_a_frame(#[trigger] paths[i], names) by {
        let x = paths[i];
        vstd::seq_lib::to_multiset_contains(paths, x);
        vstd::seq_lib::to_multiset_contains(written_paths(outcomes), x);
        assert(paths.contains(x));
        lemma_written_path_source(outcomes, x);
        let k = choose|k: int| 0 <= k < outcomes.len() && (#[trigger] outcomes[k] matches Ok(path) && path@ == x);
        assert(ends_with(x, names[k]));
    }
}

/// The paths of the written frames, sorted as strings compare; frames
/// that could not be written are left out.
pub fn written_frames(outcomes: Vec<Result<String, Error>>) -> (paths: Vec<String>)
    ensures
        lex_sorted(views(paths@)),
        views(paths@).to_multiset() == written_paths(outcomes@).to_multiset(),
{
    let mut outcomes = outcomes;
    let ghost all = outcomes@;
    let mut ok: Vec<String> = Vec::new();
    while outcomes.len() > 0
        invariant
            views(ok@).to_multiset().add(written_paths(outcomes@).to_multiset())
                == written_paths(all).to_multiset(),
        decreases outcomes.len(),
    {
        let ghost before = outcomes@;
        let o = outcomes.pop().unwrap();
        proof {
            assert(outcomes@ =~= before.drop_last());
        }
        match o {
            Ok(p) => {
                let ghost old_ok = views(ok@);
                ok.push(p);
                proof {
                    broadcast use vstd::multiset::group_multiset_axioms;
                    assert(views(ok@) =~= old_ok.push(p@));
                    assert(views(ok@).to_multiset().add(written_paths(outcomes@).to_multiset())
                        =~= written_paths(all).to_multiset());
                }
            },
            Err(_) => {},
        }
    }
    proof {
        broadcast use vstd::multiset::group_multiset_axioms;
        assert(written_paths(outcomes@) =~= Seq::<Seq<char>>::empty());
        assert(views(ok@).to_multiset() =~= written_paths(all).to_multiset());
    }
    sort_strings(ok)
}

/// A screenshot request in progress.
#[derive(Debug)]
pub struct Screenshot {
    pub config: Config,
    pub params: Params,
    pub stage: Stage,
    /// Names of the frames asked to be written, once planned
    pub names: Vec<String>,
}

impl Screenshot {
    /// Names of the frames the request asked to be written, once planned.
    pub open spec fn frame_names(self) -> Seq<Seq<char>> {
        views(self.names@)
    }

    /// A request that has just arrived.
    pub fn new(config: Config, params: Params) -> (s: Screenshot)
        ensures
            s.config == config,
            s.params == params,
            s.stage == Stage::Admission,
            s.frame_names() == Seq::<Seq<char>>::empty(),
    {
        let s = Screenshot { config, params, stage: Stage::Admission, names: Vec::new() };
        proof {
            assert(s.frame_names() =~= Seq::<Seq<char>>::empty());
        }
        s
    }

    /// Whether `outcomes` answer the writing of this request's frames.
    fn answers_frames(&self, outcomes: &Vec<Result<String, Error>>) -> (r: bool)
        ensures
            r == outcomes_answer(outcomes@, self.frame_names()),
    {
        if outcomes.len() != self.names.len() {
            return false;
        }
        let mut k: usize = 0;
        while k < outcomes.len()
            invariant
                outcomes.len() == self.names.len(),
                k <= outcomes.len(),
                forall|j: int|
                    0 <= j < k ==> (#[trigger] outcomes@[j] matches Ok(path) ==> ends_with(
                        path@,
                        self.frame_names()[j],
                    )),
            decreases outcomes.len() - k,
        {
            match &outcomes[k] {
                Ok(path) => {
                    if !str_ends_with(path.as_str(), self.names[k].as_str()) {
                        return false;
                    }
                },
                Err(_) => {},
            }
            k = k + 1;
        }
        true
    }

    /// Take in what came of the last action and decide the next one.
    ///
    /// A request is turned away with `503 Server Busy` when the server
    /// has no room for it, checked first; with `400 Invalid Image
    /// Dimension` when a viewport side, the output width or the frame
    /// count is zero; and with `400 Invalid Timeout` when the timeout is
    /// zero. Otherwise the directory named after the page's host is
    /// created, the page captured with its frame count and timeout capped
    /// at the server's, the screenshot resized to the output width (kept
    /// as it is when it already has that width), cut
    /// into frames of the scaled viewport height, and the first frames,
    /// no more than the capped frame count, written as
    /// `frame_<i><suffix>`; the reply lists the written frames' paths in
    /// sorted order, once there is an outcome for each frame and each
    /// written path ends with its frame's name. A failure ends the request with its error, and any
    /// event that does not answer the last action with the generic
    /// internal error.
    pub fn step(&mut self, event: Event) -> (action: Action)
        ensures
            final(self).config == old(self).config,
            final(self).params == old(self).params,
            final(self).stage == next_stage(old(self).stage, old(self).config, old(self).params, event),
            final(self).stage == Stage::Done <==> (action is Respond || action is Fail),
            answers(
                old(self).config,
                old(self).params,
                old(self).frame_names(),
                old(self).stage,
                event,
                action,
            ),
            action matches Action::Write { frames, .. } ==> final(self).frame_names()
                == frames@.map_values(|job: FrameJob| job.name@),
            !(action is Write) ==> final(self).frame_names() == old(self).frame_names(),
    {
        let stage = self.stage;
        self.stage = Stage::Done;
        match (stage, event) {
            (Stage::Admission, Event::Permit(acquired)) => {
                // Reject when fully saturated rather than queueing
                if !acquired {
                    return Action::Respond(text_reply(503, "Server Busy"));
                }
                let p = &self.params;
                if p.vw == 0 || p.vh == 0 || p.ow == 0 || p.frames == 0 {
                    return Action::Respond(text_reply(400, "Invalid Image Dimension"));
                }
                if p.timeout_ms == 0 {
                    return Action::Respond(text_reply(400, "Invalid Timeout"));
                }
                let dir_name = match &p.host {
                    Some(h) => h.clone(),
                    None => {
                        let d = String::from_str("host");
                        proof {
                            reveal_strlit("host");
                            assert(d@ == seq!['h', 'o', 's', 't']);
                        }
                        d
                    },
                };
                assert(dir_name@ == dir_name_chars(self.params.host));
                self.stage = Stage::CreatingDir;
                Action::CreateDir { dir_name }
            },
            (Stage::CreatingDir, Event::DirCreated(Err(e))) => Action::Fail(e),
            (Stage::CreatingDir, Event::DirCreated(Ok(_))) => {
                let p = &self.params;
                let frames = if p.frames < self.config.max_frames {
                    p.frames
                } else {
                    self.config.max_frames
                };
                let timeout_ms = if p.timeout_ms < self.config.timeout_ms {
                    p.timeout_ms
                } else {
                    self.config.timeout_ms
                };
                self.stage = Stage::Capturing;
                Action::Capture(
                    Capture {
                        url: p.url.clone(),
                        width: p.vw,
                        height: p.vh,
                        frames,
                        format: p.format,
                        timeout_ms,
                    },
                )
            },
            (Stage::Capturing, Event::Captured(Err(e))) => Action::Fail(e),
            (Stage::Capturing, Event::Captured(Ok(_))) => {
                self.stage = Stage::Inspecting;
                Action::Inspect { output_width: self.params.ow }
            },
            (Stage::Inspecting, Event::Inspected { image, portrait_long_side }) => {
                match resize_plan(image, self.params.ow, portrait_long_side) {
                    Ok(plan) => {
                        self.stage = Stage::Resizing;
                        Action::Resize { plan, format: self.params.format }
                    },
                    Err(e) => Action::Fail(e),
                }
            },
            (Stage::Resizing, Event::Resized(Err(e))) => Action::Fail(e),
            (Stage::Resizing, Event::Resized(Ok(_))) => {
                self.stage = Stage::Measuring;
                Action::Measure {
                    output_width: self.params.ow,
                    viewport_width: self.params.vw,
                    viewport_height: self.params.vh,
                }
            },
            (Stage::Measuring, Event::Measured { frame_height, image }) => {
                let ghost img = image;
                match split_by_height(image, frame_height) {
                    Ok(plan) => {
                        let format = self.params.format;
                        // No more frames than the browser was asked for
                        let limit = if self.params.frames < self.config.max_frames {
                            self.params.frames
                        } else {
                            self.config.max_frames
                        };
                        let n = if plan.len() < limit as usize {
                            plan.len()
                        } else {
                            limit as usize
                        };
                        let mut frames: Vec<FrameJob> = Vec::new();
                        let mut names: Vec<String> = Vec::new();
                        let mut i: usize = 0;
                        while i < n
                            invariant
                                n <= plan.len(),
                                i <= n,
                                frames.len() == i,
                                names.len() == i,
                                forall|k: int|
                                    0 <= k < i ==> (#[trigger] frames@[k]).region == plan@[k]
                                        && frames@[k].name@ == frame_name_chars(k as nat, format)
                                        && names@[k]@ == frames@[k].name@,
                            decreases n - i,
                        {
                            let name = frame_name(i, format);
                            names.push(name.clone());
                            frames.push(FrameJob { name, region: plan[i] });
                            i = i + 1;
                        }
                        self.names = names;
                        proof {
                            assert(self.frame_names() =~= frames@.map_values(
                                |job: FrameJob| job.name@,
                            ));
                        }
                        proof {
                            assert(are_frame_jobs(
                                frames@,
                                img->Ok_0,
                                frame_height as int,
                                format,
                                limit as int,
                            ));
                        }
                        self.stage = Stage::Writing;
                        Action::Write { format, frames }
                    },
                    Err(e) => Action::Fail(e),
                }
            },
            (Stage::Writing, Event::Written(outcomes)) => {
                if !self.answers_frames(&outcomes) {
                    return Action::Respond(internal_error_reply());
                }
                let paths = written_frames(outcomes);
                Action::Respond(Reply { status: 200, body: Body::Frames(paths) })
            },
            _ => Action::Respond(internal_error_reply()),
        }
    }
}

/// Every written frame's path is among the written paths.
proof fn lemma_written_path_listed(outcomes: Seq<Result<String, Error>>, k: int)
    requires
        0 <= k < outcomes.len(),
        outcomes[k] is Ok,
    ensures
        written_paths(outcomes).contains(outcomes[k]->Ok_0@),
    decreases outcomes.len(),
{
    let rest = outcomes.drop_last();
    let x = outcomes[k]->Ok_0@;
    if k == outcomes.len() - 1 {
        assert(written_paths(outcomes) == written_paths(rest).push(x));
        assert(written_paths(outcomes)[written_paths(rest).len() as int] == x);
    } else {
        assert(rest[k] == outcomes[k]);
        lemma_written_path_listed(rest, k);
        let i = choose|i: int| 0 <= i < written_paths(rest).len() && written_paths(rest)[i] == x;
        match outcomes.last() {
            Ok(path) => {
                assert(written_paths(outcomes) == written_paths(rest).push(path@));
                assert(written_paths(outcomes)[i] == x);
            },
            Err(_) => {
                assert(written_paths(outcomes) == written_paths(rest));
            },
        }
    }
}

/// As many paths are written as there are frames written.
proof fn lemma_written_paths_len(outcomes: Seq<Result<String, Error>>)
    ensures
        written_paths(outcomes).len() == outcomes.filter(|o: Result<String, Error>| o is Ok).len(),
    decreases outcomes.len(),
{
    let ok = |o: Result<String, Error>| o is Ok;
    if outcomes.len() > 0 {
        lemma_written_paths_len(outcomes.drop_last());
        reveal_with_fuel(Seq::filter, 1);
        assert(outcomes.filter(ok) == if ok(outcomes.last()) {
            outcomes.drop_last().filter(ok).push(outcomes.last())
        } else {
            outcomes.drop_last().filter(ok)
        });
    } else {
        reveal_with_fuel(Seq::filter, 1);
        assert(outcomes.filter(ok).len() == 0);
    }
}

/// Some frame was written to `path`.
pub open spec fn was_written(path: Seq<char>, outcomes: Seq<Result<String, Error>>) -> bool {
    exists|k: int| 0 <= k < outcomes.len() && (#[trigger] outcomes[k] matches Ok(p) && p@ == path)
}

/// The reply to written frames lists exactly the frames that were
/// written: every frame written is listed, every path listed was written,
/// there are as many paths as frames written, and they are in the order
/// `String`s sort in. Frames that could not be written are left out.
pub proof fn law_written_frames(outcomes: Seq<Result<String, Error>>, paths: Seq<String>)
    requires
        lex_sorted(views(paths)),
        views(paths).to_multiset() == written_paths(outcomes).to_multiset(),
    ensures
        forall|i: int, j: int|
            0 <= i < j < paths.len() ==> lex_le(#[trigger] paths[i]@, #[trigger] paths[j]@),
        forall|k: int|
            0 <= k < outcomes.len() && (#[trigger] outcomes[k]) is Ok ==> views(paths).contains(
                outcomes[k]->Ok_0@,
            ),
        forall|i: int| 0 <= i < paths.len() ==> was_written(#[trigger] paths[i]@, outcomes),
        paths.len() == outcomes.filter(|o: Result<String, Error>| o is Ok).len(),
{
    let listed = views(paths);
    let written = written_paths(outcomes);
    assert forall|i: int, j: int| 0 <= i < j < paths.len() implies lex_le(
        #[trigger] paths[i]@,
        #[trigger] paths[j]@,
    ) by {
        assert(lex_le(listed[i], listed[j]));
    }
    vstd::seq_lib::to_multiset_len(listed);
    vstd::seq_lib::to_multiset_len(written);
    lemma_written_paths_len(outcomes);
    assert forall|k: int|
        0 <= k < outcomes.len() && (#[trigger] outcomes[k]) is Ok implies listed.contains(
        outcomes[k]->Ok_0@,
    ) by {
        lemma_written_path_listed(outcomes, k);
        vstd::seq_lib::to_multiset_contains(written, outcomes[k]->Ok_0@);
        vstd::seq_lib::to_multiset_contains(listed, outcomes[k]->Ok_0@);
    }
    assert forall|i: int| 0 <= i < paths.len() implies was_written(#[trigger] paths[i]@, outcomes) by {
        let x = listed[i];
        assert(x == paths[i]@);
        assert(listed.contains(x));
        vstd::seq_lib::to_multiset_contains(listed, x);
        vstd::seq_lib::to_multiset_contains(written, x);
        lemma_written_path_source(outcomes, x);
    }
}

/// Admission: a request the server has no room for is turned away with
/// `503 Server Busy`, whatever it asks; otherwise one with a zero viewport
/// side, output width or frame count is turned away with `400 Invalid
/// Image Dimension`, then one with a zero timeout with `400 Invalid
/// Timeout`; every other request is served, starting with the directory
/// named after its page's host (`host` when the URL has none).
pub proof fn law_admission(config: Config, p: Params, names: Seq<Seq<char>>, acquired: bool, action: Action)
    requires
        answers(config, p, names, Stage::Admission, Event::Permit(acquired), action),
    ensures
        !acquired ==> (action matches Action::Respond(r) && is_text_reply(r, 503, "Server Busy"@)),
        acquired && (p.vw == 0 || p.vh == 0 || p.ow == 0 || p.frames == 0) ==> (action matches Action::Respond(r)
            && is_text_reply(r, 400, "Invalid Image Dimension"@)),
        acquired && p.vw != 0 && p.vh != 0 && p.ow != 0 && p.frames != 0 && p.timeout_ms == 0 ==> (
        action matches Action::Respond(r) && is_text_reply(r, 400, "Invalid Timeout"@)),
        acquired && p.vw != 0 && p.vh != 0 && p.ow != 0 && p.frames != 0 && p.timeout_ms != 0 ==> (
        action matches Action::CreateDir { dir_name } && match p.host {
            Some(h) => dir_name@ == h@,
            None => dir_name@ == seq!['h', 'o', 's', 't'],
        }),
{
}

/// Once the directory exists, the browser is asked for the request's page,
/// viewport and format, with the frame count and timeout the request
/// asked for, each lowered to the server's limit when above it.
pub proof fn law_capture(config: Config, p: Params, names: Seq<Seq<char>>, action: Action)
    requires
        answers(config, p, names, Stage::CreatingDir, Event::DirCreated(Ok(())), action),
    ensures
        action matches Action::Capture(c) && c.url == p.url && c.width == p.vw && c.height == p.vh
            && c.format == p.format && c.frames <= p.frames && c.frames <= config.max_frames && (
        c.frames == p.frames || c.frames == config.max_frames) && c.timeout_ms <= p.timeout_ms
            && c.timeout_ms <= config.timeout_ms && (c.timeout_ms == p.timeout_ms || c.timeout_ms
            == config.timeout_ms),
{
}

/// Once the page is captured, the screenshot is inspected for the
/// request's output width.
pub proof fn law_inspect(config: Config, p: Params, names: Seq<Seq<char>>, action: Action)
    requires
        answers(config, p, names, Stage::Capturing, Event::Captured(Ok(())), action),
    ensures
        action matches Action::Inspect { output_width } && output_width == p.ow,
{
}

/// The screenshot is resized to the request's output width, in its
/// format: kept exactly when already that wide; otherwise a landscape or
/// square screenshot comes out exactly that wide and a portrait one,
/// whose long side is its height scaled to the output width, that wide or
/// one pixel narrower.
pub proof fn law_resize(
    config: Config,
    p: Params,
    names: Seq<Seq<char>>,
    d: Dimensions,
    portrait_long_side: u32,
    action: Action,
)
    requires
        answers(
            config,
            p,
            names,
            Stage::Inspecting,
            Event::Inspected { image: Ok(d), portrait_long_side },
            action,
        ),
        d.width > 0,
        d.height > 0,
        d.height > d.width ==> portrait_long_side * d.width <= d.height * p.ow
            < (portrait_long_side + 1) * d.width,
    ensures
        action matches Action::Resize { plan, format } && format == p.format && (plan
            == ResizePlan::Keep <==> d.width == p.ow) && p.ow - 1 <= resized_width(d, plan) <= p.ow
            && (d.height <= d.width ==> resized_width(d, plan) == p.ow) && (d.height > d.width
            && d.width != p.ow ==> plan == (ResizePlan::Thumbnail { long_side: portrait_long_side })),
{
    lemma_resize_reaches_width(d, p.ow, portrait_long_side);
}

/// Once resized, the frame height is measured from the request's output
/// width, viewport width and viewport height, in that order: the
/// viewport height scaled as the viewport width is scaled to the output
/// width.
pub proof fn law_measure(config: Config, p: Params, names: Seq<Seq<char>>, action: Action)
    requires
        answers(config, p, names, Stage::Resizing, Event::Resized(Ok(())), action),
    ensures
        action matches Action::Measure { output_width, viewport_width, viewport_height }
            && output_width == p.ow && viewport_width == p.vw && viewport_height == p.vh,
{
}

/// The frames written are the resized screenshot's top slices of the
/// frame height, full width, in order, in the request's format: frame `k`
/// starts `k` frame heights down and is named `frame_<k>` with the
/// format's suffix; all but the last are exactly the frame height, none
/// reaches past the bottom; there are no more than the request's frame
/// count nor the server's maximum, and when fewer than both, the last
/// ends at the bottom row.
pub proof fn law_write(
    config: Config,
    p: Params,
    names: Seq<Seq<char>>,
    frame_height: u32,
    d: Dimensions,
    action: Action,
)
    requires
        answers(
            config,
            p,
            names,
            Stage::Measuring,
            Event::Measured { frame_height, image: Ok(d) },
            action,
        ),
        frame_height > 0,
        d.width > 0,
        d.height > 0,
    ensures
        action matches Action::Write { frames, format } && p.format == format && frames.len()
            <= p.frames && frames.len() <= config.max_frames && (forall|k: int|
            0 <= k < frames.len() ==> {
                let r = (#[trigger] frames@[k]).region;
                &&& frames@[k].name@ == seq!['f', 'r', 'a', 'm', 'e', '_'] + decimal(k as nat)
                    + p.format.suffix_chars()
                &&& r.left == 0
                &&& r.width == d.width
                &&& r.top == k * frame_height
                &&& 0 < r.height <= frame_height
                &&& (k < frames.len() - 1 ==> r.height == frame_height)
                &&& r.top + r.height <= d.height
            }) && (frames.len() < p.frames && frames.len() < config.max_frames ==> frames.len()
            > 0 && frames@.last().region.top + frames@.last().region.height == d.height),
{
    let limit = if p.frames < config.max_frames {
        p.frames
    } else {
        config.max_frames
    };
    let c = frame_height as int;
    let h = d.height as int;
    if let Action::Write { format, frames } = action {
        let jobs = frames@;
        lemma_frame_jobs(jobs, d, c, format, limit as int);
        lemma_chunk_count(h, c, 0);
        assert forall|k: int| 0 <= k < jobs.len() implies #[trigger] jobs[k].region.top
            + jobs[k].region.height <= h by {
            assert(is_chunk(jobs[k].region, d, c, k));
            lemma_chunk_count(h, c, k);
        }
        assert forall|k: int| 0 <= k < jobs.len() implies (#[trigger] jobs[k]).region.top == k * c
            by {
            assert(is_chunk(jobs[k].region, d, c, k));
        }
    }
}

/// A failure of the directory, the browser or the image library ends the
/// request with that very error.
pub proof fn law_failures(
    config: Config,
    p: Params,
    names: Seq<Seq<char>>,
    e: Error,
    portrait_long_side: u32,
    frame_height: u32,
    action: Action,
)
    ensures
        answers(config, p, names, Stage::CreatingDir, Event::DirCreated(Err(e)), action) ==> action
            == Action::Fail(e),
        answers(config, p, names, Stage::Capturing, Event::Captured(Err(e)), action) ==> action
            == Action::Fail(e),
        answers(
            config,
            p,
            names,
            Stage::Inspecting,
            Event::Inspected { image: Err(e), portrait_long_side },
            action,
        ) ==> action == Action::Fail(e),
        answers(config, p, names, Stage::Resizing, Event::Resized(Err(e)), action) ==> action
            == Action::Fail(e),
        frame_height > 0 && answers(
            config,
            p,
            names,
            Stage::Measuring,
            Event::Measured { frame_height, image: Err(e) },
            action,
        ) ==> action == Action::Fail(e),
{
}

/// Frames of zero rows, or an empty resized screenshot, end the request
/// with an image error saying so; the frame height is checked first.
pub proof fn law_empty_frames(
    config: Config,
    p: Params,
    names: Seq<Seq<char>>,
    frame_height: u32,
    image: Result<Dimensions, Error>,
    action: Action,
)
    requires
        answers(config, p, names, Stage::Measuring, Event::Measured { frame_height, image }, action),
    ensures
        frame_height == 0 ==> (action matches Action::Fail(Error::Image(m)) && m@
            == "chunk height must be > 0"@),
        frame_height > 0 && (image matches Ok(d) && (d.width == 0 || d.height == 0)) ==> (
        action matches Action::Fail(Error::Image(m)) && m@ == "image width and height must be > 0"@),
{
}

/// An event that does not answer the pending action, or outcomes that do
/// not answer the frames asked for, end the request with the generic
/// internal error.
pub proof fn law_unanswered(
    config: Config,
    p: Params,
    names: Seq<Seq<char>>,
    outcomes: Vec<Result<String, Error>>,
    action: Action,
)
    ensures
        answers(config, p, names, Stage::Done, Event::Permit(true), action) ==> (action matches Action::Respond(r)
            && is_internal_error_reply(r)),
        answers(config, p, names, Stage::Admission, Event::Resized(Ok(())), action) ==> (action matches Action::Respond(r)
            && is_internal_error_reply(r)),
        answers(config, p, names, Stage::Writing, Event::Written(outcomes), action)
            && outcomes@.len() != names.len() ==> (action matches Action::Respond(r)
            && is_internal_error_reply(r)),
{
}

/// Once every frame has an outcome, each written path ending with its
/// frame's name, the reply is `200` and lists exactly the frames written,
/// in the order `String`s sort in.
pub proof fn law_reply(
    config: Config,
    p: Params,
    names: Seq<Seq<char>>,
    outcomes: Vec<Result<String, Error>>,
    action: Action,
)
    requires
        answers(config, p, names, Stage::Writing, Event::Written(outcomes), action),
        outcomes@.len() == names.len(),
        forall|k: int|
            0 <= k < outcomes@.len() ==> (#[trigger] outcomes@[k] matches Ok(path) ==> ends_with(
                path@,
                names[k],
            )),
    ensures
        match action {
            Action::Respond(r) => r.status == 200 && match r.body {
                Body::Frames(paths) => {
                    &&& forall|i: int, j: int|
                        0 <= i < j < paths.len() ==> lex_le(
                            #[trigger] paths@[i]@,
                            #[trigger] paths@[j]@,
                        )
                    &&& forall|k: int|
                        0 <= k < outcomes@.len() && (#[trigger] outcomes@[k]) is Ok
                            ==> views(paths@).contains(outcomes@[k]->Ok_0@)
                    &&& paths.len() == outcomes@.filter(|o: Result<String, Error>| o is Ok).len()
                },
                _ => false,
            },
            _ => false,
        },
{
    if let Action::Respond(r) = action {
        if let Body::Frames(paths) = r.body {
            law_written_frames(outcomes@, paths@);
        }
    }
}

} // verus!
