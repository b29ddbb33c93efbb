//! What the proxy reads from a client's request: the key that a response to it
//! is cached under, whether it may be cached at all, and where it is sent on to.
use crate::cache_key::{text_of, CacheKey, CacheKeyView};
use crate::headers::{
    header_contains, header_fields, header_mentions, header_text, lemma_plain_names,
    mentioned_under, text_under,
};
use crate::routing::{backend_of, resolve_backend};
use crate::text::same_text;
use hyper::header::{HeaderMap, HeaderValue};
use vstd::prelude::*;
use vstd::string::StringExecFns;

verus! {

/// A client's request but for its body.
pub struct RequestHead {
    /// The method, such as `GET`.
    pub method: String,
    /// The path of the URI that is asked for.
    pub path: String,
    /// The query of the URI, if it has one.
    pub query: Option<String>,
    /// The path and the query as they stand in the URI, if they do.
    pub path_and_query: Option<String>,
    /// The header fields.
    pub headers: HeaderMap<HeaderValue>,
}

/// The host that is asked for; no text at all if the request does not say, or
/// not in visible characters.
pub open spec fn host_in(fields: Map<Seq<char>, Seq<Seq<u8>>>) -> Seq<char> {
    match text_under(fields, "host"@) {
        Some(host) => host,
        None => Seq::empty(),
    }
}

/// The client asks that nothing of the exchange be stored.
pub open spec fn forbids_storing(fields: Map<Seq<char>, Seq<Seq<u8>>>) -> bool {
    mentioned_under(fields, "cache-control"@, "no-store"@)
}

/// A response to such a request may come from the cache and go to it: the
/// request is a `GET` or a `HEAD`, carries no cookie, and does not forbid it.
pub open spec fn may_be_cached(method: Seq<char>, fields: Map<Seq<char>, Seq<Seq<u8>>>) -> bool {
    &&& method == "GET"@ || method == "HEAD"@
    &&& !fields.contains_key("cookie"@)
    &&& !forbids_storing(fields)
}

impl RequestHead {
    /// The key that a response is cached under.
    pub open spec fn key(&self) -> CacheKeyView {
        CacheKeyView {
            method: self.method@,
            host: host_in(header_fields(self.headers)),
            path: self.path@,
            query: text_of(self.query),
        }
    }

    /// The response may come from the cache and go to it.
    pub open spec fn cacheable(&self) -> bool {
        may_be_cached(self.method@, header_fields(self.headers))
    }

    /// The URI that the request is sent on to: path and query as they are, at
    /// the backend that serves the host.
    pub open spec fn target(&self) -> Seq<char> {
        backend_of(host_in(header_fields(self.headers))) + match text_of(self.path_and_query) {
            Some(text) => text,
            None => Seq::empty(),
        }
    }

    /// The host that is asked for.
    fn host(&self) -> (host: String)
        ensures
            host@ == host_in(header_fields(self.headers)),
    {
        proof {
            lemma_plain_names();
        }
        match header_text(&self.headers, "host") {
            Some(host) => host.to_owned(),
            None => {
                let host = String::new();
                assert(host@ =~= Seq::empty());
                host
            },
        }
    }

    /// The key that a response is cached under.
    pub fn cache_key(&self) -> (key: CacheKey)
        ensures
            key@ == self.key(),
    {
        CacheKey {
            method: self.method.clone(),
            host: self.host(),
            path: self.path.clone(),
            query: match &self.query {
                Some(query) => Some(query.clone()),
                None => None,
            },
        }
    }

    /// Whether the response may come from the cache and go to it.
    pub fn is_cacheable(&self) -> (cacheable: bool)
        ensures
            cacheable == self.cacheable(),
    {
        proof {
            lemma_plain_names();
        }
        let is_get_or_head = same_text(self.method.as_str(), "GET") || same_text(
            self.method.as_str(),
            "HEAD",
        );
        let has_cookie = header_contains(&self.headers, "cookie");
        let has_no_store = header_mentions(&self.headers, "cache-control", "no-store");
        is_get_or_head && !has_cookie && !has_no_store
    }

    /// The URI that the request is sent on to.
    pub fn backend_uri(&self) -> (uri: String)
        ensures
            uri@ == self.target(),
    {
        let host = self.host();
        let mut uri = resolve_backend(host.as_str()).to_owned();
        match &self.path_and_query {
            Some(text) => {
                uri.append(text.as_str());
            },
            None => {
                assert(uri@ + Seq::<char>::empty() =~= uri@);
            },
        }
        uri
    }
}

} // verus!
