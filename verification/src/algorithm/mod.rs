pub mod fixed_window;
pub mod sliding_window;

use crate::time::Duration;
use vstd::prelude::*;

verus! {

/// The concurrent map of the `dashmap` crate, which holds the per-key state of
/// the limiters. Its contents are named per table (see the limiter modules).
#[verifier::external_type_specification]
#[verifier::external_body]
#[verifier::reject_recursive_types(K)]
#[verifier::reject_recursive_types(V)]
#[verifier::reject_recursive_types(S)]
pub struct ExDashMap<K, V, S>(dashmap::DashMap<K, V, S>);

/// Which counting scheme a limiter uses.
#[derive(Debug, Clone, Copy, PartialEq, Eq, Structural)]
pub enum AlgorithmType {
    FixedWindow,
    SlidingWindow,
    TokenBucket,
}

/// Parameters of one limiter.
#[derive(Debug, Clone, Copy, PartialEq, Eq, Structural)]
pub struct AlgorithmConfig {
    pub algorithm: AlgorithmType,
    pub limit: u64,
    pub window_size: Duration,
    pub warmup_period: Option<Duration>,
    pub rate: Option<u64>,
    pub capacity: Option<u64>,
}

/// The answer of a limiter to one check or peek.
#[derive(Debug, Clone, Copy, PartialEq, Eq, Structural)]
pub struct RateLimitResult {
    pub allowed: bool,
    pub remaining: u64,
    pub reset_at: u64,
    pub retry_after: Option<Duration>,
}

/// A limiter keeps per-key state and answers checks (which consume) and peeks.
pub trait RateLimiter {
    /// Whether the limiter state is well formed and it can answer at `now_ms` without an arithmetic overflow.
    spec fn can_answer(&self, now_ms: u64) -> bool;

    fn check(&mut self, key: &str, count: u64, now_ms: u64) -> RateLimitResult
        requires
            old(self).can_answer(now_ms),
    ;

    fn peek(&mut self, key: &str, now_ms: u64) -> RateLimitResult
        requires
            old(self).can_answer(now_ms),
    ;
}

impl AlgorithmConfig {
    /// The window length in milliseconds, truncated to 64 bits.
    pub open spec fn window_ms(self) -> u64 {
        self.window_size.millis() as u64
    }

    pub fn window_millis(&self) -> (m: u64)
        ensures
            m == self.window_ms(),
    {
        self.window_size.as_millis() as u64
    }

    pub fn fixed_window(limit: u64, window_size: Duration) -> (c: Self)
        ensures
            c == (AlgorithmConfig {
                algorithm: AlgorithmType::FixedWindow,
                limit,
                window_size,
                warmup_period: None,
                rate: None,
                capacity: None,
            }),
    {
        AlgorithmConfig {
            algorithm: AlgorithmType::FixedWindow,
            limit,
            window_size,
            warmup_period: None,
            rate: None,
            capacity: None,
        }
    }

    pub fn sliding_window(limit: u64, window_size: Duration) -> (c: Self)
        ensures
            c == (AlgorithmConfig {
                algorithm: AlgorithmType::SlidingWindow,
                limit,
                window_size,
                warmup_period: None,
                rate: None,
                capacity: None,
            }),
    {
        AlgorithmConfig {
            algorithm: AlgorithmType::SlidingWindow,
            limit,
            window_size,
            warmup_period: None,
            rate: None,
            capacity: None,
        }
    }

    /// A token bucket: the limit is the capacity and the window is one second.
    pub fn token_bucket(rate: u64, capacity: u64, warmup_period: Option<Duration>) -> (c: Self)
        ensures
            c == (AlgorithmConfig {
                algorithm: AlgorithmType::TokenBucket,
                limit: capacity,
                window_size: Duration { secs: 1, nanos: 0 },
                warmup_period,
                rate: Some(rate),
                capacity: Some(capacity),
            }),
    {
        AlgorithmConfig {
            algorithm: AlgorithmType::TokenBucket,
            limit: capacity,
            window_size: Duration::from_secs(1),
            warmup_period,
            rate: Some(rate),
            capacity: Some(capacity),
        }
    }
}

} // verus!
