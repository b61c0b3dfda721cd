//! What the Redis-backed store computes around its scripts and reads.
use crate::algorithm::{AlgorithmConfig, RateLimitResult};
use crate::time::Duration;
use vstd::prelude::*;

verus! {

/// The Redis key of `key` under rule `rule_id`: `ratelimit:<rule>:<key>`.
pub fn prefix_key(rule_id: &str, key: &str) -> (r: String)
    ensures
        r@ == "ratelimit:"@ + rule_id@ + ":"@ + key@,
{
    let mut s = String::from_str("ratelimit:");
    s.append(rule_id);
    s.append(":");
    s.append(key);
    s
}

/// The result a limiter script returns as `[allowed, remaining, reset_at,
/// retry_after_ms]`: allowed when the first value is 1; a refusal waits at
/// least one millisecond. Negative values wrap as `as u64` does.
pub fn result_from_script(values: &Vec<i64>) -> (r: RateLimitResult)
    requires
        values@.len() >= 4,
    ensures
        r.allowed == (values@[0] == 1),
        r.remaining == values@[1] as u64,
        r.reset_at == values@[2] as u64,
        r.retry_after == (if r.allowed {
            None
        } else {
            Some(
                Duration::from_millis_spec(
                    if values@[3] as u64 >= 1 {
                        values@[3] as u64
                    } else {
                        1
                    },
                ),
            )
        }),
{
    let allowed = values[0] == 1;
    let remaining = values[1] as u64;
    let reset_at = values[2] as u64;
    let retry_after_ms = values[3] as u64;
    RateLimitResult {
        allowed,
        remaining,
        reset_at,
        retry_after: if allowed {
            None
        } else {
            Some(Duration::from_millis(if retry_after_ms >= 1 { retry_after_ms } else { 1 }))
        },
    }
}

/// The answer when the store cannot be reached: let the request through with
/// the whole limit left, resetting in one second.
pub fn unavailable_result(config: &AlgorithmConfig, now_ms: u64) -> (r: RateLimitResult)
    requires
        now_ms + 1000 <= u64::MAX,
    ensures
        r == (RateLimitResult {
            allowed: true,
            remaining: config.limit,
            reset_at: (now_ms + 1000) as u64,
            retry_after: None,
        }),
{
    RateLimitResult { allowed: true, remaining: config.limit, reset_at: now_ms + 1000, retry_after: None }
}

/// A fixed-window peek from the count stored for the current window (none
/// counts as zero).
pub fn fixed_window_peek(config: &AlgorithmConfig, now_ms: u64, current: Option<u64>) -> (r:
    RateLimitResult)
    requires
        config.window_ms() > 0,
        (now_ms / config.window_ms()) * config.window_ms() + config.window_ms() <= u64::MAX,
    ensures
        ({
            let used: u64 = match current {
                Some(c) => c,
                None => 0,
            };
            let w = config.window_ms();
            let reset_at = (now_ms / w) * w + w;
            &&& r.allowed == (used < config.limit)
            &&& r.remaining == (if used < config.limit { config.limit - used } else { 0 })
            &&& r.reset_at == reset_at
            &&& r.retry_after == (if used >= config.limit {
                Some(Duration::from_millis_spec((reset_at - now_ms) as u64))
            } else {
                None
            })
        }),
{
    let window_ms = config.window_millis();
    proof {
        crate::algorithm::fixed_window::lemma_window_bounds(now_ms, window_ms);
    }
    let window_start = (now_ms / window_ms) * window_ms;
    let used = match current {
        Some(c) => c,
        None => 0,
    };
    RateLimitResult {
        allowed: used < config.limit,
        remaining: config.limit.saturating_sub(used),
        reset_at: window_start + window_ms,
        retry_after: if used >= config.limit {
            Some(Duration::from_millis(window_start + window_ms - now_ms))
        } else {
            None
        },
    }
}

/// A sliding-window peek from the number of requests left in the window.
pub fn sliding_window_peek(config: &AlgorithmConfig, now_ms: u64, count: u64) -> (r: RateLimitResult)
    requires
        now_ms + config.window_ms() <= u64::MAX,
    ensures
        r.allowed == (count < config.limit),
        r.remaining == (if count < config.limit {
            config.limit - count
        } else {
            0
        }),
        r.reset_at == now_ms + config.window_ms(),
        r.retry_after == (if count >= config.limit {
            Some(Duration::from_millis_spec(config.window_ms()))
        } else {
            None
        }),
{
    let window_ms = config.window_millis();
    RateLimitResult {
        allowed: count < config.limit,
        remaining: config.limit.saturating_sub(count),
        reset_at: now_ms + window_ms,
        retry_after: if count >= config.limit {
            Some(Duration::from_millis(window_ms))
        } else {
            None
        },
    }
}

} // verus!
