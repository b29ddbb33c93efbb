use hyper::header::{HeaderMap, HeaderName, HeaderValue};
use reverse_proxy::headers::{forward_headers, header_mentions, header_text, TooManyHeaders};

fn headers(fields: &[(&'static str, &'static str)]) -> HeaderMap {
    let mut map = HeaderMap::new();
    for (name, value) in fields {
        map.append(*name, HeaderValue::from_static(value));
    }
    map
}

#[test]
fn hop_by_hop_headers_are_not_forwarded() {
    let mut map = headers(&[
        ("connection", "keep-alive"),
        ("connection", "x-other"),
        ("keep-alive", "timeout=5"),
        ("proxy-authenticate", "Basic"),
        ("proxy-authorization", "Basic abc"),
        ("te", "trailers"),
        ("trailers", "expires"),
        ("transfer-encoding", "chunked"),
        ("upgrade", "websocket"),
        ("host", "api.example.com"),
    ]);
    assert_eq!(forward_headers(&mut map, "127.0.0.1"), Ok(()));
    assert_eq!(map.len(), 1);
    assert_eq!(map.get("x-forwarded-for").unwrap(), "127.0.0.1");
}

#[test]
fn other_headers_are_forwarded_unchanged() {
    let mut map = headers(&[
        ("accept", "text/html"),
        ("cookie", "a=1"),
        ("cookie", "b=2"),
        ("trailer", "expires"),
        ("host", "x"),
    ]);
    assert_eq!(forward_headers(&mut map, "10.1.2.3"), Ok(()));
    assert_eq!(map.len(), 5);
    assert_eq!(map.get("accept").unwrap(), "text/html");
    let cookies: Vec<&HeaderValue> = map.get_all("cookie").iter().collect();
    assert_eq!(cookies, vec!["a=1", "b=2"]);
    assert_eq!(map.get("trailer").unwrap(), "expires");
    assert!(!map.contains_key("host"));
}

#[test]
fn claimed_client_address_is_replaced() {
    let mut map = headers(&[
        ("x-forwarded-for", "1.2.3.4"),
        ("x-forwarded-for", "5.6.7.8"),
    ]);
    assert_eq!(forward_headers(&mut map, "::1"), Ok(()));
    let values: Vec<&HeaderValue> = map.get_all("x-forwarded-for").iter().collect();
    assert_eq!(values, vec!["::1"]);
}

#[test]
fn forwarding_twice_changes_nothing_more() {
    let mut once = headers(&[("accept", "a"), ("te", "b"), ("host", "c")]);
    assert_eq!(forward_headers(&mut once, "127.0.0.1"), Ok(()));
    let mut twice = once.clone();
    assert_eq!(forward_headers(&mut twice, "127.0.0.1"), Ok(()));
    assert_eq!(once, twice);
}

#[test]
fn six_thousand_names_leave_room() {
    let mut map = HeaderMap::new();
    for i in 0..6553 {
        let name = HeaderName::from_bytes(format!("n{}", i).as_bytes()).unwrap();
        map.insert(name, HeaderValue::from_static("v"));
    }
    assert_eq!(map.keys_len(), 6553);
    assert_eq!(forward_headers(&mut map, "127.0.0.1"), Ok(()));
    assert_eq!(map.keys_len(), 6554);
}

#[test]
fn full_header_map_is_an_error() {
    let mut map = HeaderMap::new();
    let mut i = 0;
    loop {
        let name = HeaderName::from_bytes(format!("n{}", i).as_bytes()).unwrap();
        if map.try_insert(name, HeaderValue::from_static("v")).is_err() {
            break;
        }
        i += 1;
    }
    let names = map.keys_len();
    assert_eq!(forward_headers(&mut map, "127.0.0.1"), Err(TooManyHeaders));
    assert_eq!(map.keys_len(), names);
    assert!(!map.contains_key("x-forwarded-for"));
}

#[test]
fn text_of_the_first_field() {
    let map = headers(&[("host", "one"), ("host", "two"), ("accept", "three")]);
    assert_eq!(header_text(&map, "host"), Some("one"));
    assert_eq!(header_text(&map, "accept"), Some("three"));
    assert_eq!(header_text(&map, "cookie"), None);
}

#[test]
fn invisible_bytes_have_no_text() {
    let mut map = HeaderMap::new();
    map.insert("host", HeaderValue::from_bytes(b"caf\xe9").unwrap());
    assert_eq!(header_text(&map, "host"), None);
    map.insert("host", HeaderValue::from_bytes(b"a\tb ~").unwrap());
    assert_eq!(header_text(&map, "host"), Some("a\tb ~"));
    map.insert("host", HeaderValue::from_static(""));
    assert_eq!(header_text(&map, "host"), Some(""));
}

#[test]
fn words_are_found_in_every_field() {
    let map = headers(&[("cache-control", "max-age=0"), ("cache-control", "No-Store")]);
    assert!(header_mentions(&map, "cache-control", "no-store"));
    assert!(header_mentions(&map, "cache-control", "max-age"));
    assert!(!header_mentions(&map, "cache-control", "private"));
    assert!(!header_mentions(&map, "pragma", "no-store"));
}

#[test]
fn words_are_found_among_invisible_bytes() {
    let mut map = HeaderMap::new();
    map.insert("cache-control", HeaderValue::from_bytes(b"\xff, NO-STORE").unwrap());
    assert!(header_mentions(&map, "cache-control", "no-store"));
}
