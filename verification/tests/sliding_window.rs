use ratelimit::algorithm::sliding_window::SlidingWindowRateLimiter;
use ratelimit::algorithm::{AlgorithmConfig, RateLimiter};
use ratelimit::time::Duration;

#[test]
fn test_sliding_window_basic() {
    let config = AlgorithmConfig::sliding_window(10, Duration::from_secs(1));
    let mut limiter = SlidingWindowRateLimiter::new(config);
    let now = 1000000;

    for i in 0..10 {
        let result = limiter.check("test", 1, now + i * 50);
        assert!(result.allowed, "request {} should be allowed", i);
    }

    let result = limiter.check("test", 1, now + 500);
    assert!(!result.allowed);
    assert_eq!(result.remaining, 0);
}

#[test]
fn test_sliding_window_rollover() {
    let config = AlgorithmConfig::sliding_window(10, Duration::from_secs(1));
    let mut limiter = SlidingWindowRateLimiter::new(config);
    let now = 1000000;

    for i in 0..10 {
        limiter.check("test", 1, now + i * 50);
    }

    let result = limiter.check("test", 1, now + 1500);
    assert!(result.allowed);
}

use ratelimit::algorithm::sliding_window::RingBuffer;

#[test]
fn ring_buffer_forgets_slots_that_leave_the_window() {
    let mut ring = RingBuffer::new(10);
    ring.add(3, 1_000_000); // slot 10000
    ring.add(2, 1_000_450); // slot 10004
    assert_eq!(ring.get_total(1_000_900), 5); // slot 10009: both inside
    assert_eq!(ring.get_total(1_001_000), 2); // slot 10010: slot 10000 left
    assert_eq!(ring.get_total(1_001_450), 0); // slot 10014: slot 10004 left
    ring.add(1, 1_001_460);
    assert_eq!(ring.get_total(1_003_000), 0); // far ahead: everything left
}

#[test]
fn ring_buffer_ignores_earlier_times() {
    let mut ring = RingBuffer::new(5);
    ring.add(4, 2_000_000);
    assert_eq!(ring.get_total(1_000_000), 4);
    ring.add(1, 1_500_000);
    assert_eq!(ring.get_total(2_000_000), 5);
}

#[test]
fn sliding_window_refusal_and_peek() {
    let config = AlgorithmConfig::sliding_window(2, Duration::from_secs(1));
    let mut limiter = SlidingWindowRateLimiter::new(config);
    let r = limiter.check("k", 2, 10_050);
    assert!(r.allowed);
    assert_eq!(r.remaining, 0);
    assert_eq!(r.reset_at, 11_000);
    let r = limiter.check("k", 1, 10_120);
    assert!(!r.allowed);
    assert_eq!(r.retry_after, Some(Duration::from_millis(980)));
    let p = limiter.peek("k", 10_130);
    assert!(!p.allowed);
    assert_eq!(p.remaining, 0);
    let p = limiter.peek("other", 10_130);
    assert!(p.allowed);
    assert_eq!(p.remaining, 2);
    assert_eq!(p.retry_after, None);
    // one full window later the slot of the first requests has left
    assert!(limiter.check("k", 2, 11_050).allowed);
}

#[test]
fn sliding_window_short_window_retry_is_at_least_one_slot() {
    let config = AlgorithmConfig::sliding_window(0, Duration::from_millis(50));
    let mut limiter = SlidingWindowRateLimiter::new(config);
    let r = limiter.check("k", 1, 10_090);
    assert!(!r.allowed);
    assert_eq!(r.reset_at, 10_050);
    assert_eq!(r.retry_after, Some(Duration::from_millis(100)));
}

#[test]
fn sliding_window_peek_does_not_consume() {
    let config = AlgorithmConfig::sliding_window(5, Duration::from_secs(1));
    let mut peeked = SlidingWindowRateLimiter::new(config);
    let mut plain = SlidingWindowRateLimiter::new(config);
    assert!(peeked.check("k", 3, 20_000).allowed);
    assert!(plain.check("k", 3, 20_000).allowed);
    let p = peeked.peek("k", 20_400);
    assert_eq!(p.remaining, 2);
    let a = peeked.check("k", 2, 20_400);
    let b = plain.check("k", 2, 20_400);
    assert_eq!(a, b);
    assert!(a.allowed);
    assert_eq!(a.remaining, 0);
    // after the check, a peek at the same instant reports what it left
    assert_eq!(peeked.peek("k", 20_400).remaining, a.remaining);
}
