use hyper::header::{HeaderMap, HeaderValue};
use reverse_proxy::body_recorder::{
    BodyAction, BodyEnd, BodyEvent, BodyRecorder, MAX_CACHE_SIZE,
};

fn with_length(length: &'static str) -> HeaderMap {
    let mut headers = HeaderMap::new();
    headers.insert("content-length", HeaderValue::from_static(length));
    headers
}

fn stored(headers: &HeaderMap) -> bool {
    let mut recorder = BodyRecorder::new(true, headers);
    recorder.record(b"abc");
    recorder.finish(true).is_some()
}

#[test]
fn whole_body_is_recorded() {
    let mut recorder = BodyRecorder::new(true, &HeaderMap::new());
    recorder.record(b"abc");
    recorder.record(b"");
    recorder.record(b"def");
    assert_eq!(recorder.finish(true), Some(b"abcdef".to_vec()));
}

#[test]
fn empty_body_is_not_recorded() {
    let recorder = BodyRecorder::new(true, &HeaderMap::new());
    assert_eq!(recorder.finish(true), None);
    let mut recorder = BodyRecorder::new(true, &HeaderMap::new());
    recorder.record(b"");
    assert_eq!(recorder.finish(true), None);
}

#[test]
fn uncacheable_request_is_not_recorded() {
    let mut recorder = BodyRecorder::new(false, &HeaderMap::new());
    recorder.record(b"abc");
    assert_eq!(recorder.finish(true), None);
}

#[test]
fn broken_off_body_is_not_recorded() {
    let mut recorder = BodyRecorder::new(true, &HeaderMap::new());
    recorder.record(b"abc");
    assert_eq!(recorder.finish(false), None);
}

#[test]
fn body_of_the_largest_size_is_recorded() {
    assert_eq!(MAX_CACHE_SIZE, 10 * 1024 * 1024);
    let mut recorder = BodyRecorder::new(true, &HeaderMap::new());
    recorder.record(&vec![1; MAX_CACHE_SIZE - 1]);
    recorder.record(&[2]);
    let body = recorder.finish(true).unwrap();
    assert_eq!(body.len(), MAX_CACHE_SIZE);
    assert_eq!(body[MAX_CACHE_SIZE - 1], 2);
}

#[test]
fn larger_body_is_not_recorded() {
    let mut recorder = BodyRecorder::new(true, &HeaderMap::new());
    recorder.record(&vec![1; MAX_CACHE_SIZE]);
    recorder.record(&[2]);
    recorder.record(&[]);
    assert_eq!(recorder.finish(true), None);
}

#[test]
fn declared_length_decides_early() {
    assert!(stored(&with_length("3")));
    assert!(stored(&with_length("10485760")));
    assert!(!stored(&with_length("10485761")));
    assert!(!stored(&with_length("+10485761")));
    assert!(!stored(&with_length("99999999999999999999999999")));
}

#[test]
fn unreadable_length_decides_nothing() {
    assert!(stored(&with_length("-1")));
    assert!(stored(&with_length("many")));
    assert!(stored(&with_length("")));
    let mut headers = HeaderMap::new();
    headers.insert("content-length", HeaderValue::from_bytes(b"\xff99999999").unwrap());
    assert!(stored(&headers));
}

#[test]
fn only_a_body_that_came_to_its_end_is_complete() {
    for (end, expected) in [
        (BodyEnd::LastFrame, Some(b"abc".to_vec())),
        (BodyEnd::Broken, None),
        (BodyEnd::ClientGone, None),
    ] {
        let mut recorder = BodyRecorder::new(true, &HeaderMap::new());
        recorder.record(b"abc");
        assert_eq!(recorder.finish_after(end), expected);
    }
    let mut recorder = BodyRecorder::new(false, &HeaderMap::new());
    recorder.record(b"abc");
    assert_eq!(recorder.finish_after(BodyEnd::LastFrame), None);
}

#[test]
fn body_is_taken_down_and_passed_on_step_by_step() {
    let mut recorder = BodyRecorder::new(true, &HeaderMap::new());
    assert_eq!(recorder.step(BodyEvent::Data(b"abc")), BodyAction::ForwardData);
    assert_eq!(recorder.step(BodyEvent::Data(b"de")), BodyAction::ForwardData);
    assert_eq!(recorder.step(BodyEvent::Trailers), BodyAction::ForwardTrailers);
    assert_eq!(recorder.step(BodyEvent::End), BodyAction::Stop(BodyEnd::LastFrame));
    assert_eq!(recorder.finish_after(BodyEnd::LastFrame), Some(b"abcde".to_vec()));
}

#[test]
fn interrupted_body_stops() {
    let mut recorder = BodyRecorder::new(true, &HeaderMap::new());
    assert_eq!(recorder.step(BodyEvent::Data(b"abc")), BodyAction::ForwardData);
    assert_eq!(recorder.step(BodyEvent::ClientGone), BodyAction::Stop(BodyEnd::ClientGone));
    assert_eq!(recorder.step(BodyEvent::Broken), BodyAction::Stop(BodyEnd::Broken));
    assert_eq!(recorder.finish_after(BodyEnd::Broken), None);
}
