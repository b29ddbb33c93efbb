//! Which backend serves a host.
use crate::text::same_text;
use vstd::prelude::*;

verus! {

/// The address of the backend that serves a host.
pub open spec fn backend_of(host: Seq<char>) -> Seq<char> {
    if host == "api.example.com"@ {
        "http://127.0.0.1:9001"@
    } else if host == "images.example.com"@ {
        "http://127.0.0.1:9002"@
    } else if host == "blog.example.com"@ {
        "http://127.0.0.1:9003"@
    } else {
        "http://127.0.0.1:9000"@
    }
}

/// The address of the backend that serves a host.
pub fn resolve_backend(host: &str) -> (backend: &'static str)
    ensures
        backend@ == backend_of(host@),
{
    if same_text(host, "api.example.com") {
        "http://127.0.0.1:9001"
    } else if same_text(host, "images.example.com") {
        "http://127.0.0.1:9002"
    } else if same_text(host, "blog.example.com") {
        "http://127.0.0.1:9003"
    } else {
        "http://127.0.0.1:9000"
    }
}

} // verus!
