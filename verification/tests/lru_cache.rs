use reverse_proxy::lru_cache::LruCache;

const LONG: u128 = 1_000_000;

#[test]
fn new_cache_is_empty() {
    let cache: LruCache<u64, u64> = LruCache::new(3);
    assert_eq!(cache.len(), 0);
    assert_eq!(cache.capacity(), 3);
}

#[test]
fn basic_put_and_get() {
    let mut cache: LruCache<u64, &str> = LruCache::new(2);
    cache.put_at(1, "one", LONG, 0);
    cache.put_at(2, "two", LONG, 0);
    assert_eq!(cache.get_at(&1, 1), Some(&"one"));
    assert_eq!(cache.get_at(&2, 1), Some(&"two"));
    assert_eq!(cache.get_at(&3, 1), None);
    assert_eq!(cache.len(), 2);
}

#[test]
fn least_recently_used_is_evicted() {
    let mut cache: LruCache<u64, u64> = LruCache::new(2);
    cache.put_at(1, 10, LONG, 0);
    cache.put_at(2, 20, LONG, 0);
    cache.put_at(3, 30, LONG, 0);
    assert_eq!(cache.len(), 2);
    assert_eq!(cache.get_at(&1, 1), None);
    assert_eq!(cache.get_at(&2, 1), Some(&20));
    assert_eq!(cache.get_at(&3, 1), Some(&30));
}

#[test]
fn access_promotes() {
    let mut cache: LruCache<u64, u64> = LruCache::new(2);
    cache.put_at(1, 10, LONG, 0);
    cache.put_at(2, 20, LONG, 0);
    assert_eq!(cache.get_at(&1, 1), Some(&10));
    cache.put_at(3, 30, LONG, 2);
    assert_eq!(cache.get_at(&1, 3), Some(&10));
    assert_eq!(cache.get_at(&2, 3), None);
    assert_eq!(cache.get_at(&3, 3), Some(&30));
}

#[test]
fn update_promotes_and_replaces() {
    let mut cache: LruCache<u64, u64> = LruCache::new(2);
    cache.put_at(1, 10, LONG, 0);
    cache.put_at(2, 20, LONG, 0);
    cache.put_at(1, 11, LONG, 0);
    assert_eq!(cache.len(), 2);
    cache.put_at(3, 30, LONG, 0);
    assert_eq!(cache.get_at(&1, 1), Some(&11));
    assert_eq!(cache.get_at(&2, 1), None);
}

#[test]
fn entry_expires_at_its_time() {
    let mut cache: LruCache<u64, u64> = LruCache::new(2);
    cache.put_at(1, 10, 100, 50);
    assert_eq!(cache.get_at(&1, 149), Some(&10));
    assert_eq!(cache.len(), 1);
    assert_eq!(cache.get_at(&1, 150), None);
    assert_eq!(cache.len(), 0);
    assert_eq!(cache.get_at(&1, 0), None);
}

#[test]
fn update_refreshes_the_time_to_live() {
    let mut cache: LruCache<u64, u64> = LruCache::new(2);
    cache.put_at(1, 10, 100, 0);
    cache.put_at(1, 11, 100, 90);
    assert_eq!(cache.get_at(&1, 150), Some(&11));
    assert_eq!(cache.get_at(&1, 190), None);
}

#[test]
fn sweep_drops_all_that_have_expired() {
    let mut cache: LruCache<u64, u64> = LruCache::new(5);
    cache.put_at(1, 10, 100, 0);
    cache.put_at(2, 20, 200, 0);
    cache.put_at(3, 30, 100, 0);
    cache.put_at(4, 40, 300, 0);
    assert_eq!(cache.evict_expired_at(99), 0);
    assert_eq!(cache.evict_expired_at(100), 2);
    assert_eq!(cache.evict_expired_at(100), 0);
    assert_eq!(cache.len(), 2);
    assert_eq!(cache.get_at(&2, 101), Some(&20));
    assert_eq!(cache.get_at(&4, 101), Some(&40));
    assert_eq!(cache.get_at(&1, 101), None);
    assert_eq!(cache.evict_expired_at(1000), 2);
    assert_eq!(cache.len(), 0);
}

#[test]
fn sweep_keeps_the_order() {
    let mut cache: LruCache<u64, u64> = LruCache::new(3);
    cache.put_at(1, 10, LONG, 0);
    cache.put_at(2, 20, 10, 0);
    cache.put_at(3, 30, LONG, 0);
    assert_eq!(cache.evict_expired_at(10), 1);
    cache.put_at(4, 40, LONG, 11);
    cache.put_at(5, 50, LONG, 11);
    assert_eq!(cache.get_at(&1, 12), None);
    assert_eq!(cache.get_at(&3, 12), Some(&30));
}

#[test]
fn single_capacity() {
    let mut cache: LruCache<u64, u64> = LruCache::new(1);
    cache.put_at(1, 10, LONG, 0);
    assert_eq!(cache.get_at(&1, 1), Some(&10));
    cache.put_at(2, 20, LONG, 1);
    assert_eq!(cache.len(), 1);
    assert_eq!(cache.get_at(&1, 2), None);
    assert_eq!(cache.get_at(&2, 2), Some(&20));
    cache.put_at(2, 21, LONG, 3);
    assert_eq!(cache.get_at(&2, 4), Some(&21));
}

#[test]
fn string_keys_and_values() {
    let mut cache: LruCache<String, String> = LruCache::new(2);
    cache.put_at("a".to_string(), "apple".to_string(), LONG, 0);
    cache.put_at("b".to_string(), "banana".to_string(), LONG, 0);
    cache.put_at("c".to_string(), "cherry".to_string(), LONG, 0);
    assert_eq!(cache.get_at(&"a".to_string(), 1), None);
    assert_eq!(cache.get_at(&"b".to_string(), 1), Some(&"banana".to_string()));
    assert_eq!(cache.get_at(&"c".to_string(), 1), Some(&"cherry".to_string()));
}

#[test]
fn recently_used_survives_fewer_puts_than_the_capacity() {
    let mut cache: LruCache<u64, u64> = LruCache::new(4);
    for key in 0..4 {
        cache.put_at(key, key, LONG, 0);
    }
    assert_eq!(cache.get_at(&0, 1), Some(&0));
    for key in 10..13 {
        cache.put_at(key, key, LONG, 2);
    }
    assert_eq!(cache.get_at(&0, 3), Some(&0));
    for key in 20..24 {
        cache.put_at(key, key, LONG, 4);
    }
    assert_eq!(cache.get_at(&0, 5), None);
}

#[test]
fn slots_are_used_again() {
    let mut cache: LruCache<u64, u64> = LruCache::new(3);
    for key in 0..1000 {
        cache.put_at(key, key * 2, 5, key as u128);
        assert!(cache.len() <= 3);
        assert_eq!(cache.get_at(&key, key as u128), Some(&(key * 2)));
    }
    assert_eq!(cache.evict_expired_at(2000), 3);
    assert_eq!(cache.len(), 0);
}

#[test]
fn puts_and_gets_by_the_clock() {
    let mut cache: LruCache<u64, u64> = LruCache::new(2);
    cache.put(1, 10, 3_600_000_000_000);
    cache.put(2, 20, 0);
    assert_eq!(cache.get(&1), Some(&10));
    assert_eq!(cache.get(&2), None);
    assert_eq!(cache.len(), 1);
    cache.put(3, 30, 0);
    assert_eq!(cache.evict_expired(), 1);
    assert_eq!(cache.get(&1), Some(&10));
}

#[test]
fn recently_used_survives_any_use_of_few_other_keys() {
    let mut cache: LruCache<u64, u64> = LruCache::new(3);
    cache.put_at(1, 10, LONG, 0);
    for round in 1..100u128 {
        cache.put_at(2, 20, LONG, round);
        assert_eq!(cache.get_at(&3, round), if round == 1 { None } else { Some(&30) });
        cache.put_at(3, 30, LONG, round);
        assert_eq!(cache.get_at(&2, round), Some(&20));
        assert_eq!(cache.evict_expired_at(round), 0);
    }
    assert_eq!(cache.get_at(&1, 100), Some(&10));
    cache.put_at(2, 20, LONG, 100);
    cache.put_at(3, 30, LONG, 100);
    cache.put_at(4, 40, LONG, 100);
    assert_eq!(cache.get_at(&1, 100), None);
}
