use reverse_proxy::cache_actor::{CacheAction, CacheActor, CacheMessage, CACHE_CAPACITY, CACHE_TTL};
use reverse_proxy::cache_key::CacheKey;
use reverse_proxy::lru_key::LruKey;

fn key(path: &str) -> CacheKey {
    CacheKey {
        method: "GET".to_string(),
        host: "h".to_string(),
        path: path.to_string(),
        query: None,
    }
}

fn put(cache: &mut CacheActor<u64>, key: CacheKey, value: u64, now: u128) {
    assert!(matches!(
        cache.handle_at(CacheMessage::Put { key, value }, now),
        CacheAction::Stored
    ));
}

fn get(cache: &mut CacheActor<u64>, key: CacheKey, now: u128) -> Option<u64> {
    match cache.handle_at(CacheMessage::Get { key }, now) {
        CacheAction::Reply(found) => found.copied(),
        _ => panic!("no reply"),
    }
}

#[test]
fn stored_response_is_served_for_sixty_seconds() {
    assert_eq!(CACHE_TTL, 60_000_000_000);
    let mut cache = CacheActor::new();
    put(&mut cache, key("/a"), 1, 10);
    assert_eq!(get(&mut cache, key("/a"), 10), Some(1));
    assert_eq!(get(&mut cache, key("/a"), 10 + CACHE_TTL - 1), Some(1));
    assert_eq!(get(&mut cache, key("/a"), 10 + CACHE_TTL), None);
}

#[test]
fn every_part_of_the_key_tells_responses_apart() {
    let mut cache = CacheActor::new();
    put(&mut cache, key("/a"), 1, 0);
    let mut other = key("/a");
    other.method = "HEAD".to_string();
    assert_eq!(get(&mut cache, other, 1), None);
    let mut other = key("/a");
    other.host = "i".to_string();
    assert_eq!(get(&mut cache, other, 1), None);
    assert_eq!(get(&mut cache, key("/b"), 1), None);
    let mut other = key("/a");
    other.query = Some(String::new());
    assert_eq!(get(&mut cache, other.clone(), 1), None);
    put(&mut cache, other.clone(), 2, 1);
    assert_eq!(get(&mut cache, other, 2), Some(2));
    assert_eq!(get(&mut cache, key("/a"), 2), Some(1));
}

#[test]
fn parts_of_the_key_do_not_run_together() {
    let mut cache = CacheActor::new();
    let mut one = key("bc");
    one.host = "a".to_string();
    let mut other = key("c");
    other.host = "ab".to_string();
    put(&mut cache, one.clone(), 1, 0);
    assert_eq!(get(&mut cache, other.clone(), 1), None);
    put(&mut cache, other.clone(), 2, 1);
    assert_eq!(get(&mut cache, one, 2), Some(1));
    assert_eq!(get(&mut cache, other, 2), Some(2));
}

#[test]
fn last_stored_response_is_served() {
    let mut cache = CacheActor::new();
    put(&mut cache, key("/a"), 1, 0);
    put(&mut cache, key("/a"), 2, 5);
    assert_eq!(get(&mut cache, key("/a"), CACHE_TTL + 4), Some(2));
    assert_eq!(get(&mut cache, key("/a"), CACHE_TTL + 5), None);
}

#[test]
fn a_thousand_responses_are_kept() {
    assert_eq!(CACHE_CAPACITY, 1000);
    let mut cache = CacheActor::new();
    for i in 0..1000u64 {
        put(&mut cache, key(&format!("/{}", i)), i, 0);
    }
    assert_eq!(get(&mut cache, key("/0"), 1), Some(0));
    put(&mut cache, key("/1000"), 1000, 1);
    assert_eq!(get(&mut cache, key("/1"), 2), None);
    assert_eq!(get(&mut cache, key("/0"), 2), Some(0));
    assert_eq!(get(&mut cache, key("/1000"), 2), Some(1000));
}

#[test]
fn expired_responses_are_evicted() {
    let mut cache = CacheActor::new();
    put(&mut cache, key("/a"), 1, 0);
    put(&mut cache, key("/b"), 2, 10);
    assert!(matches!(
        cache.handle_at(CacheMessage::EvictExpired, CACHE_TTL),
        CacheAction::Evicted(1)
    ));
    assert!(matches!(
        cache.handle_at(CacheMessage::EvictExpired, CACHE_TTL),
        CacheAction::Evicted(0)
    ));
    assert_eq!(get(&mut cache, key("/b"), CACHE_TTL), Some(2));
}

#[test]
fn cache_takes_messages_by_the_clock() {
    let mut cache = CacheActor::new();
    assert!(matches!(
        cache.handle(CacheMessage::Put { key: key("/a"), value: 1u64 }),
        CacheAction::Stored
    ));
    assert!(matches!(
        cache.handle(CacheMessage::Get { key: key("/a") }),
        CacheAction::Reply(Some(1))
    ));
    assert!(matches!(
        cache.handle(CacheMessage::Get { key: key("/b") }),
        CacheAction::Reply(None)
    ));
    assert!(matches!(cache.handle(CacheMessage::EvictExpired), CacheAction::Evicted(0)));
    assert!(matches!(cache.handle(CacheMessage::Shutdown), CacheAction::Stop));
}

#[test]
fn splits_of_one_text_have_digests_of_their_own() {
    let mut digests = Vec::new();
    for split in 0..=6 {
        let mut one = key(&"abcdef"[..split]);
        one.query = Some("abcdef"[split..].to_string());
        digests.push(one.digest());
    }
    digests.push(key("abcdef").digest());
    let mut other = key("bcdef");
    other.host = "ha".to_string();
    digests.push(other.digest());
    digests.sort();
    digests.dedup();
    assert_eq!(digests.len(), 9);
}

#[test]
fn stored_response_outlives_any_number_of_messages_on_few_keys() {
    let mut cache = CacheActor::new();
    put(&mut cache, key("/a"), 1, 0);
    for round in 0..3000u64 {
        put(&mut cache, key("/b"), round, 1);
        assert_eq!(get(&mut cache, key("/b"), 1), Some(round));
        cache.handle_at(CacheMessage::EvictExpired, 1);
    }
    assert_eq!(get(&mut cache, key("/a"), 2), Some(1));
}
