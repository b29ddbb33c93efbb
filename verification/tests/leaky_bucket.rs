use reverse_proxy::leaky_bucket::{BucketLimits, LeakyBucket, BUCKET_IDLE_TTL};
use reverse_proxy::time::Clock;

const SECOND: u128 = 1_000_000_000;

const DEFAULT: BucketLimits = BucketLimits { capacity: 30_000_000_000, leak_rate: 5_000_000_000 };

#[test]
fn burst_of_thirty() {
    let mut bucket = LeakyBucket::new(DEFAULT, 0);
    for _ in 0..30 {
        assert!(bucket.allow_at(0));
    }
    assert!(!bucket.allow_at(0));
    assert!(!bucket.allow_at(0));
}

#[test]
fn one_drop_leaks_in_a_fifth_of_a_second() {
    let mut bucket = LeakyBucket::new(DEFAULT, 0);
    for _ in 0..30 {
        assert!(bucket.allow_at(0));
    }
    assert!(!bucket.allow_at(SECOND / 5 - 1));
    assert!(bucket.allow_at(SECOND / 5));
    assert!(!bucket.allow_at(SECOND / 5));
}

#[test]
fn sustained_rate_is_five_per_second() {
    let mut bucket = LeakyBucket::new(DEFAULT, 0);
    for _ in 0..30 {
        assert!(bucket.allow_at(0));
    }
    let mut admitted = 0;
    for tick in 1..=1000u128 {
        if bucket.allow_at(tick * SECOND / 100) {
            admitted += 1;
        }
    }
    assert_eq!(admitted, 50);
}

#[test]
fn six_seconds_of_silence_drain_the_bucket() {
    let mut bucket = LeakyBucket::new(DEFAULT, 0);
    for _ in 0..30 {
        assert!(bucket.allow_at(0));
    }
    for _ in 0..30 {
        assert!(bucket.allow_at(6 * SECOND));
    }
    assert!(!bucket.allow_at(6 * SECOND));
}

#[test]
fn paced_requests_are_never_refused() {
    let limits = BucketLimits { capacity: 1_000_000_000, leak_rate: 5_000_000_000 };
    let mut bucket = LeakyBucket::new(limits, 0);
    for tick in 0..100u128 {
        assert!(bucket.allow_at(tick * SECOND / 5));
    }
}

#[test]
fn bucket_smaller_than_a_request_refuses_all() {
    let limits = BucketLimits { capacity: 999_999_999, leak_rate: 5_000_000_000 };
    let mut bucket = LeakyBucket::new(limits, 0);
    assert!(!bucket.allow_at(0));
    assert!(!bucket.allow_at(1000 * SECOND));
}

#[test]
fn fractions_of_a_request_count() {
    let limits = BucketLimits { capacity: 1_500_000_000, leak_rate: 500_000_000 };
    let mut bucket = LeakyBucket::new(limits, 0);
    assert!(bucket.allow_at(0));
    assert!(!bucket.allow_at(SECOND - 1));
    assert!(bucket.allow_at(SECOND));
}

#[test]
fn a_clock_that_goes_back_leaks_nothing() {
    let limits = BucketLimits { capacity: 1_000_000_000, leak_rate: 1_000_000_000 };
    let mut bucket = LeakyBucket::new(limits, 10 * SECOND);
    assert!(bucket.allow_at(10 * SECOND));
    assert!(!bucket.allow_at(5 * SECOND));
    assert!(bucket.allow_at(6 * SECOND));
}

#[test]
fn idle_after_three_hundred_seconds() {
    let mut bucket = LeakyBucket::new(DEFAULT, 0);
    assert_eq!(BUCKET_IDLE_TTL, 300 * SECOND);
    assert!(!bucket.is_idle(300 * SECOND - 1));
    assert!(bucket.is_idle(300 * SECOND));
    bucket.allow_at(100 * SECOND);
    assert!(!bucket.is_idle(300 * SECOND));
    assert!(bucket.is_idle(400 * SECOND));
}

#[test]
fn no_overflow_at_the_limits() {
    let limits = BucketLimits { capacity: u64::MAX, leak_rate: u64::MAX };
    let mut bucket = LeakyBucket::new(limits, 0);
    assert!(bucket.allow_at(0));
    assert!(bucket.allow_at(u128::MAX));
}

#[test]
fn allows_by_the_clock() {
    let mut clock = Clock::start();
    let limits = BucketLimits { capacity: 2_000_000_000, leak_rate: 0 };
    let mut bucket = LeakyBucket::new(limits, clock.now());
    assert!(bucket.allow(&mut clock));
    assert!(bucket.allow(&mut clock));
    assert!(!bucket.allow(&mut clock));
}
