use hyper::header::{HeaderMap, HeaderValue};
use reverse_proxy::cache_key::CacheKey;
use reverse_proxy::request::RequestHead;
use reverse_proxy::routing::resolve_backend;

fn head(method: &str, fields: &[(&'static str, &'static str)]) -> RequestHead {
    let mut headers = HeaderMap::new();
    for (name, value) in fields {
        headers.append(*name, HeaderValue::from_static(value));
    }
    RequestHead {
        method: method.to_string(),
        path: "/a/b".to_string(),
        query: Some("x=1".to_string()),
        path_and_query: Some("/a/b?x=1".to_string()),
        headers,
    }
}

#[test]
fn backends_by_host() {
    assert_eq!(resolve_backend("api.example.com"), "http://127.0.0.1:9001");
    assert_eq!(resolve_backend("images.example.com"), "http://127.0.0.1:9002");
    assert_eq!(resolve_backend("blog.example.com"), "http://127.0.0.1:9003");
    assert_eq!(resolve_backend("other.example.com"), "http://127.0.0.1:9000");
    assert_eq!(resolve_backend("API.example.com"), "http://127.0.0.1:9000");
    assert_eq!(resolve_backend(""), "http://127.0.0.1:9000");
}

#[test]
fn backend_uri_keeps_path_and_query() {
    let request = head("GET", &[("host", "api.example.com")]);
    assert_eq!(request.backend_uri(), "http://127.0.0.1:9001/a/b?x=1");
    let request = head("GET", &[]);
    assert_eq!(request.backend_uri(), "http://127.0.0.1:9000/a/b?x=1");
    let mut request = head("GET", &[("host", "blog.example.com")]);
    request.path_and_query = None;
    assert_eq!(request.backend_uri(), "http://127.0.0.1:9003");
}

#[test]
fn cache_key_is_read_from_the_request() {
    let request = head("HEAD", &[("host", "api.example.com")]);
    let expected = CacheKey {
        method: "HEAD".to_string(),
        host: "api.example.com".to_string(),
        path: "/a/b".to_string(),
        query: Some("x=1".to_string()),
    };
    assert_eq!(request.cache_key(), expected);
    let mut request = head("GET", &[]);
    request.query = None;
    let expected = CacheKey {
        method: "GET".to_string(),
        host: String::new(),
        path: "/a/b".to_string(),
        query: None,
    };
    assert_eq!(request.cache_key(), expected);
}

#[test]
fn invisible_host_counts_as_none() {
    let mut request = head("GET", &[]);
    request.headers.insert("host", HeaderValue::from_bytes(b"\xe9.example.com").unwrap());
    assert_eq!(request.cache_key().host, "");
    assert_eq!(request.backend_uri(), "http://127.0.0.1:9000/a/b?x=1");
}

#[test]
fn get_and_head_are_cacheable() {
    assert!(head("GET", &[]).is_cacheable());
    assert!(head("HEAD", &[("accept", "no-store")]).is_cacheable());
    assert!(head("GET", &[("cache-control", "no-cache")]).is_cacheable());
}

#[test]
fn other_methods_are_not_cacheable() {
    for method in ["POST", "PUT", "DELETE", "PATCH", "OPTIONS", "get", "GETS", ""] {
        assert!(!head(method, &[]).is_cacheable());
    }
}

#[test]
fn cookies_are_not_cacheable() {
    assert!(!head("GET", &[("cookie", "a=1")]).is_cacheable());
    assert!(!head("GET", &[("cookie", "")]).is_cacheable());
}

#[test]
fn no_store_is_not_cacheable() {
    assert!(!head("GET", &[("cache-control", "no-store")]).is_cacheable());
    assert!(!head("GET", &[("cache-control", "max-age=0, No-Store")]).is_cacheable());
    assert!(!head(
        "GET",
        &[("cache-control", "max-age=0"), ("cache-control", "no-store")]
    )
    .is_cacheable());
}
