use reverse_proxy::lru_cache::LruCache;
use reverse_proxy::time::Clock;

#[test]
fn clock_starts_near_zero_and_advances() {
    let clock = Clock::start();
    let first = clock.now();
    assert!(first < 10_000_000_000);
    while clock.now() < first + 2_000_000 {}
    assert!(clock.now() >= 2_000_000);
}

#[test]
fn time_to_live_runs_out_by_the_clock() {
    let mut cache: LruCache<u64, u64> = LruCache::new(2);
    cache.put(1, 10, 5_000_000);
    let clock = Clock::start();
    while clock.now() < 6_000_000 {}
    assert_eq!(cache.get(&1), None);
    assert_eq!(cache.len(), 0);
}

#[test]
fn readings_on_record_never_go_back() {
    let mut clock = Clock::start();
    let mut latest = 0;
    for _ in 0..1000 {
        let now = clock.tick();
        assert!(now >= latest);
        assert!(clock.now() >= now);
        latest = now;
    }
    while clock.tick() == latest {}
    assert!(clock.now() > latest);
}
