//! The decisions of an HTTP reverse proxy.
//!
//! - The response cache: `lru_cache` over `recency_list` and `slot_index`, stated
//!   over `lru_model`, with the messages that it takes in `cache_actor`.
//! - The rate limiter: `leaky_bucket`, one for each client in `bucket_table`, with
//!   the messages that it takes in `rate_limiter`.
//! - The exchange with a client: `request` and `headers` read and rewrite what is
//!   sent, `routing` picks the backend, `exchange` says what happens next, and
//!   `body_recorder` keeps what goes into the cache.
//! - The end of the server: `shutdown`.
//!
//! What holds of them as a whole is proved in the modules whose names end in
//! `laws`.
pub mod body_recorder;
pub mod bucket_laws;
pub mod bucket_table;
pub mod cache_actor;
pub mod cache_key;
pub mod cache_laws;
pub mod exchange;
pub mod headers;
pub mod leaky_bucket;
pub mod limiter_laws;
pub mod lru_cache;
pub mod lru_key;
pub mod lru_laws;
pub mod lru_model;
pub mod proxy_laws;
pub mod rate_limiter;
pub mod recency_list;
pub mod request;
pub mod request_laws;
pub mod routing;
pub mod seq_lemmas;
pub mod shutdown;
pub mod slot_index;
pub mod text;
pub mod text_laws;
pub mod time;
