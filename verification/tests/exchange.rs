use hyper::header::{HeaderMap, HeaderValue};
use reverse_proxy::exchange::{Action, Answer, Event, Exchange, Phase};
use reverse_proxy::request::RequestHead;

fn begin(method: &str) -> Exchange {
    let mut headers = HeaderMap::new();
    headers.insert("host", HeaderValue::from_static("images.example.com"));
    Exchange::begin(&RequestHead {
        method: method.to_string(),
        path: "/p".to_string(),
        query: None,
        path_and_query: Some("/p".to_string()),
        headers,
    })
}

#[test]
fn exchange_holds_what_was_read() {
    let exchange = begin("GET");
    assert_eq!(exchange.awaits(), Phase::Verdict);
    assert!(exchange.is_cacheable());
    assert_eq!(exchange.key().method, "GET");
    assert_eq!(exchange.key().host, "images.example.com");
    assert_eq!(exchange.key().path, "/p");
    assert_eq!(exchange.key().query, None);
    assert_eq!(exchange.backend_uri(), "http://127.0.0.1:9002/p");
    assert!(!begin("POST").is_cacheable());
}

#[test]
fn refused_request_is_answered_with_429() {
    for method in ["GET", "POST"] {
        let mut exchange = begin(method);
        let action: Action<u8> = exchange.advance(Event::Verdict(Some(false)));
        match action {
            Action::Reply(answer) => {
                assert_eq!(answer.status(), 429);
                assert_eq!(answer.text(), Some("429 Too many Requests\n"));
            }
            _ => panic!("not answered"),
        }
        assert_eq!(exchange.awaits(), Phase::Done);
    }
}

#[test]
fn cacheable_request_asks_the_cache() {
    for verdict in [Some(true), None] {
        let mut exchange = begin("GET");
        let action: Action<u8> = exchange.advance(Event::Verdict(verdict));
        assert!(matches!(action, Action::AskCache));
        assert_eq!(exchange.awaits(), Phase::Lookup);
    }
}

#[test]
fn uncacheable_request_asks_the_backend() {
    for verdict in [Some(true), None] {
        let mut exchange = begin("POST");
        let action: Action<u8> = exchange.advance(Event::Verdict(verdict));
        assert!(matches!(action, Action::AskBackend));
        assert_eq!(exchange.awaits(), Phase::Backend);
    }
}

#[test]
fn cache_hit_is_answered_with_200() {
    let mut exchange = begin("GET");
    let _: Action<u8> = exchange.advance(Event::Verdict(Some(true)));
    match exchange.advance(Event::Lookup(Some(7u8))) {
        Action::Reply(answer) => {
            assert_eq!(answer.status(), 200);
            assert_eq!(answer.text(), None);
            assert!(matches!(answer, Answer::Cached(7)));
        }
        _ => panic!("not answered"),
    }
    assert_eq!(exchange.awaits(), Phase::Done);
}

#[test]
fn cache_miss_goes_to_the_backend_and_is_passed_on() {
    let mut exchange = begin("GET");
    let _: Action<u8> = exchange.advance(Event::Verdict(Some(true)));
    let action: Action<u8> = exchange.advance(Event::Lookup(None));
    assert!(matches!(action, Action::AskBackend));
    let action: Action<u8> = exchange.advance(Event::BackendAnswered);
    assert!(matches!(action, Action::PassOn));
    assert_eq!(exchange.awaits(), Phase::Streaming);
}

#[test]
fn unreachable_backend_is_answered_with_502() {
    let mut exchange = begin("DELETE");
    let _: Action<u8> = exchange.advance(Event::Verdict(Some(true)));
    let action: Action<u8> = exchange.advance(Event::BackendFailed);
    match action {
        Action::Reply(answer) => {
            assert_eq!(answer.status(), 502);
            assert_eq!(answer.text(), Some("502 Bad Gateway\n"));
        }
        _ => panic!("not answered"),
    }
    assert_eq!(exchange.awaits(), Phase::Done);
}
