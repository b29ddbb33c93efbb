use reverse_proxy::leaky_bucket::BucketLimits;
use reverse_proxy::rate_limiter::{ClientIp, RateLimitAction, RateLimitMessage, RateLimiter, CLEANUP_INTERVAL};

const SECOND: u128 = 1_000_000_000;

const DEFAULT: BucketLimits = BucketLimits { capacity: 30_000_000_000, leak_rate: 5_000_000_000 };

fn allow(limiter: &mut RateLimiter, ip: ClientIp, now: u128) -> bool {
    match limiter.handle_at(RateLimitMessage::Allow { ip }, now) {
        RateLimitAction::Reply(allowed) => allowed,
        _ => panic!("no reply"),
    }
}

fn clean(limiter: &mut RateLimiter, now: u128) -> u128 {
    match limiter.handle_at(RateLimitMessage::CleanExpired, now) {
        RateLimitAction::Cleaned(removed) => removed,
        _ => panic!("not cleaned"),
    }
}

#[test]
fn clients_have_buckets_of_their_own() {
    let mut limiter = RateLimiter::new(DEFAULT);
    let one = ClientIp::V4(0x7f00_0001);
    let other = ClientIp::V4(0x7f00_0002);
    let third = ClientIp::V6(0x7f00_0001);
    for _ in 0..30 {
        assert!(allow(&mut limiter, one, 0));
    }
    assert!(!allow(&mut limiter, one, 0));
    assert!(allow(&mut limiter, other, 0));
    assert!(allow(&mut limiter, third, 0));
    assert!(!allow(&mut limiter, one, 0));
}

#[test]
fn first_request_needs_a_whole_request_of_room() {
    let mut small = RateLimiter::new(BucketLimits { capacity: 999_999_999, leak_rate: 1 });
    assert!(!allow(&mut small, ClientIp::V4(1), 0));
    let mut exact = RateLimiter::new(BucketLimits { capacity: 1_000_000_000, leak_rate: 1 });
    assert!(allow(&mut exact, ClientIp::V4(1), 0));
    assert!(!allow(&mut exact, ClientIp::V4(1), 0));
}

#[test]
fn cleanup_drops_idle_buckets_of_both_kinds() {
    let mut limiter = RateLimiter::new(DEFAULT);
    allow(&mut limiter, ClientIp::V4(1), 0);
    allow(&mut limiter, ClientIp::V4(2), 100 * SECOND);
    allow(&mut limiter, ClientIp::V6(1), 0);
    allow(&mut limiter, ClientIp::V6(2), 0);
    assert_eq!(clean(&mut limiter, 300 * SECOND - 1), 0);
    assert_eq!(clean(&mut limiter, 300 * SECOND), 3);
    assert_eq!(clean(&mut limiter, 300 * SECOND), 0);
    assert_eq!(clean(&mut limiter, 400 * SECOND), 1);
}

#[test]
fn cleanup_forgets_what_has_not_drained() {
    let limits = BucketLimits { capacity: 1_000_000_000, leak_rate: 0 };
    let mut limiter = RateLimiter::new(limits);
    let ip = ClientIp::V4(1);
    assert!(allow(&mut limiter, ip, 0));
    assert!(!allow(&mut limiter, ip, 0));
    assert_eq!(clean(&mut limiter, 300 * SECOND), 1);
    assert!(allow(&mut limiter, ip, 300 * SECOND));
}

#[test]
fn cleanup_goes_unnoticed_with_the_default_limits() {
    let mut cleaned = RateLimiter::new(DEFAULT);
    let mut kept = RateLimiter::new(DEFAULT);
    let ip = ClientIp::V6(7);
    for _ in 0..31 {
        assert_eq!(allow(&mut cleaned, ip, 0), allow(&mut kept, ip, 0));
    }
    assert_eq!(clean(&mut cleaned, 300 * SECOND), 1);
    for _ in 0..35 {
        assert_eq!(allow(&mut cleaned, ip, 300 * SECOND), allow(&mut kept, ip, 300 * SECOND));
    }
}

#[test]
fn cleanups_come_every_five_minutes() {
    assert_eq!(CLEANUP_INTERVAL, 300);
}

#[test]
fn shutdown_stops() {
    let mut limiter = RateLimiter::new(DEFAULT);
    assert_eq!(limiter.handle_at(RateLimitMessage::Shutdown, 5), RateLimitAction::Stop);
}

#[test]
fn takes_messages_by_the_clock() {
    let mut limiter = RateLimiter::new(BucketLimits { capacity: 1_000_000_000, leak_rate: 0 });
    let ip = ClientIp::V4(1);
    assert_eq!(limiter.handle(RateLimitMessage::Allow { ip }), RateLimitAction::Reply(true));
    assert_eq!(limiter.handle(RateLimitMessage::Allow { ip }), RateLimitAction::Reply(false));
    assert_eq!(limiter.handle(RateLimitMessage::CleanExpired), RateLimitAction::Cleaned(0));
    assert_eq!(limiter.handle(RateLimitMessage::Shutdown), RateLimitAction::Stop);
}

#[test]
fn client_is_held_to_its_limits_over_cleanups() {
    let mut limiter = RateLimiter::new(DEFAULT);
    let ip = ClientIp::V4(9);
    let mut let_through = 0;
    for tick in 0..=10_000u128 {
        let now = tick * SECOND / 10;
        if allow(&mut limiter, ip, now) {
            let_through += 1;
        }
        if allow(&mut limiter, ip, now) {
            let_through += 1;
        }
        if tick % 3000 == 0 {
            clean(&mut limiter, now);
        }
    }
    assert_eq!(let_through, 30 + 5 * 1000);
}

#[test]
fn other_clients_make_no_difference_over_cleanups() {
    let limits = BucketLimits { capacity: 2_000_000_000, leak_rate: 1_000_000 };
    let mut busy = RateLimiter::new(limits);
    let mut alone = RateLimiter::new(limits);
    let ip = ClientIp::V4(1);
    for tick in 0..40u128 {
        let now = tick * 50 * SECOND;
        for other in 2..5 {
            allow(&mut busy, ClientIp::V4(other), now);
            allow(&mut busy, ClientIp::V6(other as u128), now);
        }
        if tick % 13 < 4 {
            assert_eq!(allow(&mut busy, ip, now), allow(&mut alone, ip, now));
        }
        if tick % 5 == 0 {
            clean(&mut busy, now);
            clean(&mut alone, now);
        }
    }
}
