use super::{AlgorithmConfig, RateLimitResult, RateLimiter};
use crate::time::Duration;
use dashmap::DashMap;
use vstd::prelude::*;

verus! {

/// The count taken in one window of one key.
#[derive(Debug, Clone, Copy, PartialEq, Eq, Structural)]
pub struct WindowState {
    pub count: u64,
    pub window_start: u64,
}

/// What the window table of a fixed-window limiter holds, by key.
pub uninterp spec fn window_table(m: DashMap<String, WindowState>) -> Map<Seq<char>, WindowState>;

/// `DashMap::new`: the new table holds nothing.
#[verifier::external_body]
fn window_table_new() -> (table: DashMap<String, WindowState>)
    ensures
        window_table(table).dom() == Set::<Seq<char>>::empty(),
{
    DashMap::new()
}

/// `DashMap::get`, with the guard it returns copied out: the state stored under
/// `key`, if there is one.
#[verifier::external_body]
fn window_table_get(m: &DashMap<String, WindowState>, key: &str) -> (r: Option<WindowState>)
    ensures
        r == (if window_table(*m).dom().contains(key@) {
            Some(window_table(*m)[key@])
        } else {
            None::<WindowState>
        }),
{
    m.get(key).map(|e| *e)
}

/// `DashMap::insert`: `key` now maps to `state`, every other key is unchanged.
#[verifier::external_body]
fn window_table_insert(m: &mut DashMap<String, WindowState>, key: String, state: WindowState)
    ensures
        window_table(*final(m)) == window_table(*old(m)).insert(key@, state),
{
    m.insert(key, state);
}

/// A limiter that counts per key in consecutive windows of `config.window_size`.
pub struct FixedWindowRateLimiter {
    pub config: AlgorithmConfig,
    pub windows: DashMap<String, WindowState>,
}

/// Start of the window that holds `now_ms`.
pub open spec fn window_start_of(now_ms: u64, window_ms: u64) -> int {
    (now_ms / window_ms) * window_ms
}

/// The window that holds `now_ms` starts at or before it and ends after it.
pub proof fn lemma_window_bounds(now_ms: u64, window_ms: u64)
    requires
        window_ms > 0,
    ensures
        0 <= window_start_of(now_ms, window_ms) <= now_ms,
        now_ms < window_start_of(now_ms, window_ms) + window_ms,
        window_start_of(now_ms, window_ms) % window_ms as int == 0,
{
    let q = now_ms / window_ms;
    let r = now_ms % window_ms;
    vstd::arithmetic::div_mod::lemma_fundamental_div_mod(now_ms as int, window_ms as int);
    vstd::arithmetic::mul::lemma_mul_is_commutative(q as int, window_ms as int);
    vstd::arithmetic::div_mod::lemma_mod_multiples_basic(q as int, window_ms as int);
    assert(0 <= q * window_ms) by (nonlinear_arith)
        requires
            q >= 0,
            window_ms > 0,
    ;
}

/// The count already taken by `key` in the window of `window_ms` that holds
/// `now_ms`, according to `table`.
pub open spec fn used_in(table: Map<Seq<char>, WindowState>, key: Seq<char>, now_ms: u64, window_ms: u64) -> int {
    if table.dom().contains(key) && table[key].window_start == window_start_of(now_ms, window_ms) {
        table[key].count as int
    } else {
        0
    }
}

/// The answer to a check of `count` requests under `key` at `now_ms`, and the
/// table after it: the requests are allowed when they fit in what is left of
/// the limit in the current window, and then count against it.
pub open spec fn check_outcome(
    config: AlgorithmConfig,
    table: Map<Seq<char>, WindowState>,
    key: Seq<char>,
    count: u64,
    now_ms: u64,
) -> (RateLimitResult, Map<Seq<char>, WindowState>) {
    let w = config.window_ms();
    let used = used_in(table, key, now_ms, w);
    let allowed = used + count <= config.limit;
    let reset_at = window_start_of(now_ms, w) + w;
    (
        RateLimitResult {
            allowed,
            remaining: (if allowed {
                config.limit - (used + count)
            } else {
                0
            }) as u64,
            reset_at: reset_at as u64,
            retry_after: if allowed {
                None
            } else {
                Some(Duration::from_millis_spec((reset_at - now_ms) as u64))
            },
        },
        table.insert(
            key,
            WindowState {
                count: (if allowed {
                    used + count
                } else {
                    used
                }) as u64,
                window_start: window_start_of(now_ms, w) as u64,
            },
        ),
    )
}

/// The answer to a peek at `key` at `now_ms`.
pub open spec fn peek_outcome(
    config: AlgorithmConfig,
    table: Map<Seq<char>, WindowState>,
    key: Seq<char>,
    now_ms: u64,
) -> RateLimitResult {
    let w = config.window_ms();
    let used = used_in(table, key, now_ms, w);
    let reset_at = window_start_of(now_ms, w) + w;
    RateLimitResult {
        allowed: used < config.limit,
        remaining: (if used < config.limit {
            config.limit - used
        } else {
            0
        }) as u64,
        reset_at: reset_at as u64,
        retry_after: if used >= config.limit {
            Some(Duration::from_millis_spec((reset_at - now_ms) as u64))
        } else {
            None
        },
    }
}

/// Within one window a key is never granted more than the limit: when the
/// count taken so far is within the limit, it still is after a check, grows
/// by the requested count when the check is allowed, and stays put when it is
/// refused.
pub proof fn law_fixed_window_never_exceeds_limit(
    config: AlgorithmConfig,
    table: Map<Seq<char>, WindowState>,
    key: Seq<char>,
    count: u64,
    now_ms: u64,
)
    requires
        config.window_ms() > 0,
        used_in(table, key, now_ms, config.window_ms()) <= config.limit,
    ensures
        ({
            let (r, after) = check_outcome(config, table, key, count, now_ms);
            let before_used = used_in(table, key, now_ms, config.window_ms());
            let after_used = used_in(after, key, now_ms, config.window_ms());
            &&& after_used <= config.limit
            &&& after_used == (if r.allowed {
                before_used + count
            } else {
                before_used
            })
            &&& r.allowed ==> r.remaining == config.limit - after_used
        }),
{
    lemma_window_bounds(now_ms, config.window_ms());
}

/// A check touches only its own key: the count of every other key is unchanged.
pub proof fn law_fixed_window_keys_independent(
    config: AlgorithmConfig,
    table: Map<Seq<char>, WindowState>,
    key: Seq<char>,
    other: Seq<char>,
    count: u64,
    now_ms: u64,
    later_ms: u64,
)
    requires
        key != other,
    ensures
        used_in(check_outcome(config, table, key, count, now_ms).1, other, later_ms, config.window_ms())
            == used_in(table, other, later_ms, config.window_ms()),
{
}

/// A peek in the window of a check sees what the check left: the remaining
/// count the check reported when it was allowed.
pub proof fn law_fixed_window_peek_sees_check(
    config: AlgorithmConfig,
    table: Map<Seq<char>, WindowState>,
    key: Seq<char>,
    count: u64,
    now_ms: u64,
    later_ms: u64,
)
    requires
        config.window_ms() > 0,
        now_ms <= later_ms,
        window_start_of(later_ms, config.window_ms()) == window_start_of(now_ms, config.window_ms()),
        check_outcome(config, table, key, count, now_ms).0.allowed,
    ensures
        peek_outcome(config, check_outcome(config, table, key, count, now_ms).1, key, later_ms).remaining
            == check_outcome(config, table, key, count, now_ms).0.remaining,
{
    lemma_window_bounds(now_ms, config.window_ms());
}

/// A new window starts afresh: in a later window, nothing counts until a
/// check in that window.
pub proof fn law_fixed_window_resets(
    config: AlgorithmConfig,
    table: Map<Seq<char>, WindowState>,
    key: Seq<char>,
    count: u64,
    now_ms: u64,
    later_ms: u64,
)
    requires
        config.window_ms() > 0,
        window_start_of(later_ms, config.window_ms()) != window_start_of(now_ms, config.window_ms()),
    ensures
        used_in(check_outcome(config, table, key, count, now_ms).1, key, later_ms, config.window_ms()) == 0,
{
    lemma_window_bounds(now_ms, config.window_ms());
    lemma_window_bounds(later_ms, config.window_ms());
}

impl FixedWindowRateLimiter {
    /// Per-key states, by key.
    pub open spec fn table(&self) -> Map<Seq<char>, WindowState> {
        window_table(self.windows)
    }

    /// End of the window that holds `now_ms`.
    pub open spec fn reset_at_of(&self, now_ms: u64) -> int {
        window_start_of(now_ms, self.config.window_ms()) + self.config.window_ms()
    }

    pub fn new(config: AlgorithmConfig) -> (l: Self)
        ensures
            l.config == config,
            l.table().dom() == Set::<Seq<char>>::empty(),
    {
        FixedWindowRateLimiter { config, windows: window_table_new() }
    }

    fn get_window(&self, now_ms: u64) -> (s: u64)
        requires
            self.config.window_ms() > 0,
        ensures
            s == window_start_of(now_ms, self.config.window_ms()),
    {
        let window_ms = self.config.window_millis();
        proof {
            lemma_window_bounds(now_ms, window_ms);
        }
        (now_ms / window_ms) * window_ms
    }
}

impl RateLimiter for FixedWindowRateLimiter {
    open spec fn can_answer(&self, now_ms: u64) -> bool {
        self.config.window_ms() > 0 && self.reset_at_of(now_ms) <= u64::MAX
    }

    fn check(&mut self, key: &str, count: u64, now_ms: u64) -> (r: RateLimitResult)
        ensures
            final(self).config == old(self).config,
            (r, final(self).table()) == check_outcome(old(self).config, old(self).table(), key@, count, now_ms),
    {
        let window_start = self.get_window(now_ms);
        let window_ms = self.config.window_millis();
        proof {
            lemma_window_bounds(now_ms, window_ms);
        }
        let reset_at = window_start + window_ms;
        let used = match window_table_get(&self.windows, key) {
            Some(state) => if state.window_start == window_start { state.count } else { 0 },
            None => 0,
        };
        let limit = self.config.limit;
        if count <= limit && used <= limit - count {
            window_table_insert(
                &mut self.windows,
                key.to_string(),
                WindowState { count: used + count, window_start },
            );
            RateLimitResult {
                allowed: true,
                remaining: limit - (used + count),
                reset_at,
                retry_after: None,
            }
        } else {
            window_table_insert(&mut self.windows, key.to_string(), WindowState { count: used, window_start });
            RateLimitResult {
                allowed: false,
                remaining: 0,
                reset_at,
                retry_after: Some(Duration::from_millis(reset_at - now_ms)),
            }
        }
    }

    fn peek(&mut self, key: &str, now_ms: u64) -> (r: RateLimitResult)
        ensures
            *final(self) == *old(self),
            r == peek_outcome(old(self).config, old(self).table(), key@, now_ms),
    {
        let window_start = self.get_window(now_ms);
        let window_ms = self.config.window_millis();
        proof {
            lemma_window_bounds(now_ms, window_ms);
        }
        let reset_at = window_start + window_ms;
        let used = match window_table_get(&self.windows, key) {
            Some(state) => if state.window_start == window_start { state.count } else { 0 },
            None => 0,
        };
        let limit = self.config.limit;
        RateLimitResult {
            allowed: used < limit,
            remaining: limit.saturating_sub(used),
            reset_at,
            retry_after: if used >= limit { Some(Duration::from_millis(reset_at - now_ms)) } else { None },
        }
    }
}

} // verus!
