use ratelimit::algorithm::AlgorithmConfig;
use ratelimit::store::memory::config_fingerprint;
use ratelimit::store::redis_store::{
    fixed_window_peek, prefix_key, result_from_script, sliding_window_peek, unavailable_result,
};
use ratelimit::store::StoreBackend;
use ratelimit::time::Duration;

#[test]
fn redis_keys_and_results() {
    assert_eq!(prefix_key("rule", "1.2.3.4"), "ratelimit:rule:1.2.3.4");
    let r = result_from_script(&vec![1, 7, 1_000, 0]);
    assert!(r.allowed);
    assert_eq!(r.remaining, 7);
    assert_eq!(r.retry_after, None);
    let r = result_from_script(&vec![0, 0, 1_000, 0]);
    assert!(!r.allowed);
    assert_eq!(r.retry_after, Some(Duration::from_millis(1)));
    let r = result_from_script(&vec![0, 0, 1_000, 250]);
    assert_eq!(r.retry_after, Some(Duration::from_millis(250)));
    let c = AlgorithmConfig::fixed_window(5, Duration::from_secs(1));
    let u = unavailable_result(&c, 10);
    assert!(u.allowed);
    assert_eq!(u.remaining, 5);
    assert_eq!(u.reset_at, 1_010);
}

#[test]
fn peeks_from_counts() {
    let c = AlgorithmConfig::fixed_window(5, Duration::from_secs(1));
    let p = fixed_window_peek(&c, 2_300, Some(5));
    assert!(!p.allowed);
    assert_eq!(p.reset_at, 3_000);
    assert_eq!(p.retry_after, Some(Duration::from_millis(700)));
    let p = fixed_window_peek(&c, 2_300, None);
    assert!(p.allowed);
    assert_eq!(p.remaining, 5);
    let s = AlgorithmConfig::sliding_window(5, Duration::from_secs(2));
    let p = sliding_window_peek(&s, 10_000, 6);
    assert!(!p.allowed);
    assert_eq!(p.reset_at, 12_000);
    assert_eq!(p.retry_after, Some(Duration::from_millis(2_000)));
}

#[test]
fn fingerprints_follow_parameters() {
    let a = AlgorithmConfig::fixed_window(5, Duration::from_secs(1));
    let b = AlgorithmConfig::fixed_window(5, Duration::from_secs(1));
    let c = AlgorithmConfig::fixed_window(6, Duration::from_secs(1));
    let d = AlgorithmConfig::sliding_window(5, Duration::from_secs(1));
    assert_eq!(config_fingerprint(&a), config_fingerprint(&b));
    assert_ne!(config_fingerprint(&a), config_fingerprint(&c));
    assert_ne!(config_fingerprint(&a), config_fingerprint(&d));
    assert_eq!(StoreBackend::Memory, StoreBackend::Memory);
}
