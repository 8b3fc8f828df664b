use webshotd::error::Error;
use webshotd::image::{Dimensions, ImageFormat, Region, ResizePlan};
use webshotd::reply::{Body, Reply};
use webshotd::routes::config::Config;
use webshotd::routes::screenshot::{written_frames, Action, Capture, Event, Params, Screenshot, Stage};
use webshotd::routes::status::status;

const INTERNAL: &str = "Internal server error. Try again later.";

fn config() -> Config {
    Config { concurrency: 20, timeout_ms: 20000, max_frames: 20 }
}

fn params() -> Params {
    Params {
        url: "https://example.com/news".to_string(),
        host: Some("example.com".to_string()),
        vw: 1080,
        vh: 1080,
        ow: 600,
        frames: 10,
        format: ImageFormat::Webp,
        timeout_ms: 10000,
    }
}

/// The browser's screenshot: 1080 wide, 3000 high.
fn inspected() -> Event {
    Event::Inspected { image: Ok(Dimensions { width: 1080, height: 3000 }), portrait_long_side: 1666 }
}

fn text(action: Action) -> (u16, &'static str) {
    match action {
        Action::Respond(Reply { status, body: Body::Text(t) }) => (status, t),
        other => panic!("not a text reply: {other:?}"),
    }
}

/// Drive a request to the frame-writing stage.
fn to_writing(frame_height: u32, width: u32, height: u32) -> (Screenshot, Action) {
    let mut s = Screenshot::new(config(), params());
    s.step(Event::Permit(true));
    s.step(Event::DirCreated(Ok(())));
    s.step(Event::Captured(Ok(())));
    s.step(inspected());
    s.step(Event::Resized(Ok(())));
    let a = s.step(Event::Measured { frame_height, image: Ok(Dimensions { width, height }) });
    (s, a)
}

#[test]
fn status_is_ok() {
    let r = status();
    assert_eq!(r.status, 200);
    assert!(matches!(r.body, Body::Text("OK")));
}

#[test]
fn every_error_is_a_generic_internal_error() {
    let errors = [
        Error::Io("disk full".to_string()),
        Error::Url("bad".to_string()),
        Error::Chromiumoxide("cdp".to_string()),
        Error::BrowserConfig("cfg".to_string()),
        Error::Screenshot("shot".to_string()),
        Error::Libvips("vips".to_string()),
        Error::Image("img".to_string()),
        Error::ChannelSend,
        Error::OneshotRecv("recv".to_string()),
        Error::Join("join".to_string()),
        Error::Other("other".to_string()),
    ];
    for e in errors {
        let r = e.response();
        assert_eq!(r.status, 500);
        assert!(matches!(r.body, Body::Text(INTERNAL)));
    }
}

#[test]
fn busy_server_rejects() {
    let mut s = Screenshot::new(config(), params());
    assert_eq!(text(s.step(Event::Permit(false))), (503, "Server Busy"));
    assert_eq!(s.stage, Stage::Done);
}

#[test]
fn busy_is_checked_before_validation() {
    let mut p = params();
    p.vw = 0;
    let mut s = Screenshot::new(config(), p);
    assert_eq!(text(s.step(Event::Permit(false))), (503, "Server Busy"));
}

#[test]
fn zero_dimensions_are_rejected() {
    for k in 0..4 {
        let mut p = params();
        match k {
            0 => p.vw = 0,
            1 => p.vh = 0,
            2 => p.ow = 0,
            _ => p.frames = 0,
        }
        p.timeout_ms = 0;
        let mut s = Screenshot::new(config(), p);
        assert_eq!(text(s.step(Event::Permit(true))), (400, "Invalid Image Dimension"));
        assert_eq!(s.stage, Stage::Done);
    }
}

#[test]
fn zero_timeout_is_rejected() {
    let mut p = params();
    p.timeout_ms = 0;
    let mut s = Screenshot::new(config(), p);
    assert_eq!(text(s.step(Event::Permit(true))), (400, "Invalid Timeout"));
}

#[test]
fn directory_named_after_host() {
    let mut s = Screenshot::new(config(), params());
    match s.step(Event::Permit(true)) {
        Action::CreateDir { dir_name } => assert_eq!(dir_name, "example.com"),
        other => panic!("{other:?}"),
    }
    assert_eq!(s.stage, Stage::CreatingDir);
}

#[test]
fn directory_without_host() {
    let mut p = params();
    p.host = None;
    let mut s = Screenshot::new(config(), p);
    match s.step(Event::Permit(true)) {
        Action::CreateDir { dir_name } => assert_eq!(dir_name, "host"),
        other => panic!("{other:?}"),
    }
}

#[test]
fn capture_request_is_capped() {
    let mut p = params();
    p.frames = 50;
    p.timeout_ms = 60000;
    let mut s = Screenshot::new(config(), p);
    s.step(Event::Permit(true));
    match s.step(Event::DirCreated(Ok(()))) {
        Action::Capture(c) => assert_eq!(
            c,
            Capture {
                url: "https://example.com/news".to_string(),
                width: 1080,
                height: 1080,
                frames: 20,
                format: ImageFormat::Webp,
                timeout_ms: 20000,
            }
        ),
        other => panic!("{other:?}"),
    }
}

#[test]
fn capture_request_within_limits_is_kept() {
    let mut s = Screenshot::new(config(), params());
    s.step(Event::Permit(true));
    match s.step(Event::DirCreated(Ok(()))) {
        Action::Capture(c) => assert_eq!(
            c,
            Capture {
                url: "https://example.com/news".to_string(),
                width: 1080,
                height: 1080,
                frames: 10,
                format: ImageFormat::Webp,
                timeout_ms: 10000,
            }
        ),
        other => panic!("{other:?}"),
    }
    assert_eq!(s.stage, Stage::Capturing);
}

fn to_inspecting() -> Screenshot {
    let mut s = Screenshot::new(config(), params());
    s.step(Event::Permit(true));
    s.step(Event::DirCreated(Ok(())));
    match s.step(Event::Captured(Ok(()))) {
        Action::Inspect { output_width } => assert_eq!(output_width, 600),
        other => panic!("{other:?}"),
    }
    assert_eq!(s.stage, Stage::Inspecting);
    s
}

fn resize_action(image: Result<Dimensions, Error>, portrait_long_side: u32) -> Action {
    let mut s = to_inspecting();
    s.step(Event::Inspected { image, portrait_long_side })
}

#[test]
fn resize_then_measure() {
    let mut s = to_inspecting();
    match s.step(inspected()) {
        Action::Resize { plan, format } => {
            assert_eq!(plan, ResizePlan::Thumbnail { long_side: 1666 });
            assert_eq!(format, ImageFormat::Webp);
        }
        other => panic!("{other:?}"),
    }
    match s.step(Event::Resized(Ok(()))) {
        Action::Measure { output_width, viewport_width, viewport_height } => {
            assert_eq!((output_width, viewport_width, viewport_height), (600, 1080, 1080));
        }
        other => panic!("{other:?}"),
    }
    assert_eq!(s.stage, Stage::Measuring);
}

#[test]
fn screenshot_of_the_output_width_is_kept() {
    for height in [100, 600, 5000] {
        match resize_action(Ok(Dimensions { width: 600, height }), 9999) {
            Action::Resize { plan, .. } => assert_eq!(plan, ResizePlan::Keep),
            other => panic!("{other:?}"),
        }
    }
}

#[test]
fn landscape_and_square_screenshots_target_the_output_width() {
    for (width, height) in [(1080, 500), (1080, 1080), (300, 300), (200, 100)] {
        match resize_action(Ok(Dimensions { width, height }), 9999) {
            Action::Resize { plan, .. } => assert_eq!(plan, ResizePlan::Thumbnail { long_side: 600 }),
            other => panic!("{other:?}"),
        }
    }
}

#[test]
fn portrait_screenshots_target_the_scaled_height() {
    match resize_action(Ok(Dimensions { width: 1080, height: 1081 }), 600) {
        Action::Resize { plan, .. } => assert_eq!(plan, ResizePlan::Thumbnail { long_side: 600 }),
        other => panic!("{other:?}"),
    }
    match resize_action(Ok(Dimensions { width: 100, height: 200 }), 1200) {
        Action::Resize { plan, .. } => assert_eq!(plan, ResizePlan::Thumbnail { long_side: 1200 }),
        other => panic!("{other:?}"),
    }
}

#[test]
fn undecodable_screenshot_fails() {
    let e = Error::Libvips("unable to load from buffer".to_string());
    assert_eq!(failure(resize_action(Err(Error::Libvips("unable to load from buffer".to_string())), 0)), e);
}

#[test]
fn frames_to_write() {
    let (s, a) = to_writing(600, 600, 1500);
    assert_eq!(s.stage, Stage::Writing);
    match a {
        Action::Write { format, frames } => {
            assert_eq!(format, ImageFormat::Webp);
            let names: Vec<&str> = frames.iter().map(|f| f.name.as_str()).collect();
            assert_eq!(names, ["frame_0.webp", "frame_1.webp", "frame_2.webp"]);
            let regions: Vec<Region> = frames.iter().map(|f| f.region).collect();
            assert_eq!(
                regions,
                [
                    Region { left: 0, top: 0, width: 600, height: 600 },
                    Region { left: 0, top: 600, width: 600, height: 600 },
                    Region { left: 0, top: 1200, width: 600, height: 300 },
                ]
            );
        }
        other => panic!("{other:?}"),
    }
}

fn failure(action: Action) -> Error {
    match action {
        Action::Fail(e) => e,
        other => panic!("not a failure: {other:?}"),
    }
}

#[test]
fn zero_frame_height_fails() {
    let (s, a) = to_writing(0, 600, 1500);
    let e = failure(a);
    assert_eq!(e, Error::Image("chunk height must be > 0".to_string()));
    assert_eq!(e.response().status, 500);
    assert_eq!(s.stage, Stage::Done);
}

#[test]
fn empty_resized_image_fails() {
    let (_, a) = to_writing(600, 600, 0);
    assert_eq!(failure(a), Error::Image("image width and height must be > 0".to_string()));
}

#[test]
fn frame_count_is_capped() {
    // A 1000x333 viewport scaled to 600 wide gives frames 199 rows high; a
    // resized page of 600x599 holds four chunks, but three were asked for.
    let mut p = params();
    p.vw = 1000;
    p.vh = 333;
    p.ow = 600;
    p.frames = 3;
    let mut s = Screenshot::new(config(), p);
    s.step(Event::Permit(true));
    s.step(Event::DirCreated(Ok(())));
    s.step(Event::Captured(Ok(())));
    s.step(inspected());
    s.step(Event::Resized(Ok(())));
    let a = s.step(Event::Measured { frame_height: 199, image: Ok(Dimensions { width: 600, height: 599 }) });
    match a {
        Action::Write { frames, .. } => {
            let names: Vec<&str> = frames.iter().map(|f| f.name.as_str()).collect();
            assert_eq!(names, ["frame_0.webp", "frame_1.webp", "frame_2.webp"]);
            assert!(frames.iter().all(|f| f.region.height == 199));
        }
        other => panic!("{other:?}"),
    }
}

#[test]
fn frame_count_is_capped_by_server() {
    let mut p = params();
    p.frames = 50;
    let mut s = Screenshot::new(Config { concurrency: 1, timeout_ms: 1000, max_frames: 2 }, p);
    s.step(Event::Permit(true));
    s.step(Event::DirCreated(Ok(())));
    s.step(Event::Captured(Ok(())));
    s.step(inspected());
    s.step(Event::Resized(Ok(())));
    let a = s.step(Event::Measured { frame_height: 10, image: Ok(Dimensions { width: 600, height: 1000 }) });
    match a {
        Action::Write { frames, .. } => assert_eq!(frames.len(), 2),
        other => panic!("{other:?}"),
    }
}

fn path(i: usize) -> String {
    format!("/tmp/webshotd/example.com/frame_{i}.webp")
}

#[test]
fn reply_lists_written_frames_sorted() {
    // 12 chunks of 100 rows, capped at the 10 frames asked for
    let (mut s, a) = to_writing(100, 600, 1200);
    match a {
        Action::Write { frames, .. } => assert_eq!(frames.len(), 10),
        other => panic!("{other:?}"),
    }
    let mut outcomes: Vec<Result<String, Error>> = (0..10).map(|i| Ok(path(i))).collect();
    outcomes[3] = Err(Error::Io("disk full".to_string()));
    match s.step(Event::Written(outcomes)) {
        Action::Respond(Reply { status: 200, body: Body::Frames(paths) }) => {
            let mut expected: Vec<String> = [0, 1, 2, 4, 5, 6, 7, 8, 9].iter().map(|&i| path(i)).collect();
            expected.sort();
            assert_eq!(paths, expected);
            assert_eq!(paths[1], path(1));
            assert_eq!(paths[2], path(2));
        }
        other => panic!("{other:?}"),
    }
    assert_eq!(s.stage, Stage::Done);
}

#[test]
fn readme_example_reply() {
    let (mut s, a) = to_writing(600, 600, 1200);
    match a {
        Action::Write { frames, .. } => assert_eq!(frames.len(), 2),
        other => panic!("{other:?}"),
    }
    match s.step(Event::Written(vec![Ok(path(0)), Ok(path(1))])) {
        Action::Respond(Reply { status: 200, body: Body::Frames(paths) }) => {
            assert_eq!(paths, [path(0), path(1)]);
        }
        other => panic!("{other:?}"),
    }
}

#[test]
fn outcomes_for_other_frames_are_refused() {
    // Too few outcomes
    let (mut s, _) = to_writing(600, 600, 1200);
    assert_eq!(text(s.step(Event::Written(vec![Ok(path(0))]))), (500, INTERNAL));
    // A path that is not its frame's
    let (mut s, _) = to_writing(600, 600, 1200);
    assert_eq!(text(s.step(Event::Written(vec![Ok(path(1)), Ok(path(1))]))), (500, INTERNAL));
    // Failed writes need no path
    let (mut s, _) = to_writing(600, 600, 1200);
    match s.step(Event::Written(vec![Err(Error::ChannelSend), Ok(path(1))])) {
        Action::Respond(Reply { status: 200, body: Body::Frames(paths) }) => assert_eq!(paths, [path(1)]),
        other => panic!("{other:?}"),
    }
}

#[test]
fn listing_ignores_completion_order() {
    let a = written_frames(vec![Ok("b".to_string()), Ok("a".to_string()), Ok("c".to_string())]);
    let b = written_frames(vec![Ok("c".to_string()), Err(Error::ChannelSend), Ok("b".to_string()), Ok("a".to_string())]);
    assert_eq!(a, b);
    assert_eq!(a, ["a", "b", "c"]);
}

#[test]
fn failures_end_with_their_error() {
    let err = || Err(Error::Other("failed".to_string()));
    let failed = Error::Other("failed".to_string());
    let mut s = Screenshot::new(config(), params());
    s.step(Event::Permit(true));
    assert_eq!(failure(s.step(Event::DirCreated(err()))), failed);
    assert_eq!(s.stage, Stage::Done);

    let mut s = Screenshot::new(config(), params());
    s.step(Event::Permit(true));
    s.step(Event::DirCreated(Ok(())));
    assert_eq!(failure(s.step(Event::Captured(err()))), failed);

    let mut s = Screenshot::new(config(), params());
    s.step(Event::Permit(true));
    s.step(Event::DirCreated(Ok(())));
    s.step(Event::Captured(Ok(())));
    s.step(inspected());
    assert_eq!(failure(s.step(Event::Resized(err()))), failed);

    let mut s = Screenshot::new(config(), params());
    s.step(Event::Permit(true));
    s.step(Event::DirCreated(Ok(())));
    s.step(Event::Captured(Ok(())));
    s.step(inspected());
    s.step(Event::Resized(Ok(())));
    let a = s.step(Event::Measured { frame_height: 600, image: Err(Error::Libvips("decode".to_string())) });
    assert_eq!(failure(a), Error::Libvips("decode".to_string()));
    assert_eq!(s.stage, Stage::Done);
}

#[test]
fn unexpected_event_ends_with_internal_error() {
    let mut s = Screenshot::new(config(), params());
    assert_eq!(text(s.step(Event::Resized(Ok(())))), (500, INTERNAL));
    assert_eq!(s.stage, Stage::Done);
    assert_eq!(text(s.step(Event::Permit(true))), (500, INTERNAL));
}
