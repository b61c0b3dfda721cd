use ratelimit::algorithm::fixed_window::FixedWindowRateLimiter;
use ratelimit::algorithm::{AlgorithmConfig, AlgorithmType, RateLimiter};
use ratelimit::time::Duration;

#[test]
fn fixed_window_counts_within_window() {
    let mut limiter = FixedWindowRateLimiter::new(AlgorithmConfig::fixed_window(3, Duration::from_secs(1)));
    let now = 1_000_250;
    let r = limiter.check("k", 2, now);
    assert!(r.allowed);
    assert_eq!(r.remaining, 1);
    assert_eq!(r.reset_at, 1_001_000);
    assert_eq!(r.retry_after, None);

    let r = limiter.check("k", 2, now + 10);
    assert!(!r.allowed);
    assert_eq!(r.remaining, 0);
    assert_eq!(r.retry_after, Some(Duration::from_millis(740)));

    let r = limiter.check("k", 1, now + 20);
    assert!(r.allowed);
    assert_eq!(r.remaining, 0);

    let p = limiter.peek("k", now + 30);
    assert!(!p.allowed);
    assert_eq!(p.remaining, 0);
    assert_eq!(p.retry_after, Some(Duration::from_millis(720)));
}

#[test]
fn fixed_window_resets_in_next_window_and_keys_are_separate() {
    let mut limiter = FixedWindowRateLimiter::new(AlgorithmConfig::fixed_window(1, Duration::from_secs(1)));
    assert!(limiter.check("a", 1, 5_000).allowed);
    assert!(!limiter.check("a", 1, 5_999).allowed);
    assert!(limiter.check("b", 1, 5_999).allowed);
    assert!(limiter.check("a", 1, 6_000).allowed);
    let p = limiter.peek("c", 6_000);
    assert!(p.allowed);
    assert_eq!(p.remaining, 1);
    assert_eq!(p.reset_at, 7_000);
}

#[test]
fn fixed_window_huge_count_is_refused_not_wrapped() {
    let mut limiter = FixedWindowRateLimiter::new(AlgorithmConfig::fixed_window(u64::MAX, Duration::from_secs(60)));
    assert!(limiter.check("k", 5, 120_000).allowed);
    let r = limiter.check("k", u64::MAX, 120_001);
    assert!(!r.allowed);
}

#[test]
fn token_bucket_config_shape() {
    let c = AlgorithmConfig::token_bucket(5, 20, Some(Duration::from_secs(10)));
    assert_eq!(c.algorithm, AlgorithmType::TokenBucket);
    assert_eq!(c.limit, 20);
    assert_eq!(c.window_size, Duration::from_secs(1));
    assert_eq!(c.rate, Some(5));
    assert_eq!(c.capacity, Some(20));
    assert_eq!(c.window_millis(), 1000);
}

#[test]
fn durations() {
    let d = Duration::from_millis(1_234);
    assert_eq!(d.as_secs(), 1);
    assert_eq!(d.as_millis(), 1_234);
    assert_eq!(Duration::from_secs(u64::MAX).as_millis(), (u64::MAX as u128) * 1000);
}
