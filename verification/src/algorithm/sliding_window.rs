use super::{AlgorithmConfig, RateLimitResult, RateLimiter};
use crate::time::Duration;
use dashmap::DashMap;
use vstd::prelude::*;

verus! {

/// Width of one counting slot, in milliseconds.
pub const SLOT_MS: u64 = 100;

/// Sum of a sequence of counts.
pub open spec fn seq_sum(s: Seq<u64>) -> int
    decreases s.len(),
{
    if s.len() == 0 {
        0
    } else {
        seq_sum(s.drop_last()) + s.last()
    }
}

pub proof fn lemma_sum_nonneg(s: Seq<u64>)
    ensures
        seq_sum(s) >= 0,
    decreases s.len(),
{
    if s.len() > 0 {
        lemma_sum_nonneg(s.drop_last());
    }
}

pub proof fn lemma_elem_le_sum(s: Seq<u64>, i: int)
    requires
        0 <= i < s.len(),
    ensures
        s[i] <= seq_sum(s),
    decreases s.len(),
{
    lemma_sum_nonneg(s.drop_last());
    if i < s.len() - 1 {
        lemma_elem_le_sum(s.drop_last(), i);
    }
}

pub proof fn lemma_sum_update(s: Seq<u64>, i: int, v: u64)
    requires
        0 <= i < s.len(),
    ensures
        seq_sum(s.update(i, v)) == seq_sum(s) - s[i] + v,
    decreases s.len(),
{
    if i == s.len() - 1 {
        assert(s.update(i, v).drop_last() =~= s.drop_last());
    } else {
        lemma_sum_update(s.drop_last(), i, v);
        assert(s.update(i, v).drop_last() =~= s.drop_last().update(i, v));
    }
}

pub proof fn lemma_sum_zeros(s: Seq<u64>)
    requires
        forall|i: int| 0 <= i < s.len() ==> s[i] == 0,
    ensures
        seq_sum(s) == 0,
    decreases s.len(),
{
    if s.len() > 0 {
        lemma_sum_zeros(s.drop_last());
    }
}

/// Abstract state of a ring of per-slot counts.
pub struct RingState {
    pub counts: Seq<u64>,
    pub last_slot: u64,
    pub total_count: u64,
    pub size: nat,
}

impl RingState {
    pub open spec fn wf(self) -> bool {
        &&& self.size > 0
        &&& self.counts.len() == self.size
        &&& self.total_count == seq_sum(self.counts)
    }

    /// A ring of `size` empty slots that has not seen any time yet.
    pub open spec fn fresh(size: nat) -> RingState {
        RingState { counts: Seq::new(size, |i: int| 0u64), last_slot: 0, total_count: 0, size }
    }

    /// Whether the slot kept at index `j` has left the window once the window
    /// ends at slot `now_slot`.
    pub open spec fn expires(self, j: int, now_slot: int) -> bool {
        let k = (j - self.last_slot) % (self.size as int);
        now_slot - self.last_slot >= self.size || (0 < k && k <= now_slot - self.last_slot)
    }

    /// The ring moved forward to the slot of `now_ms`. A ring that never saw a
    /// time (last slot 0) only records the slot; a time at or before the last
    /// slot changes nothing.
    pub open spec fn advanced(self, now_ms: u64) -> RingState {
        let now_slot = now_ms / SLOT_MS;
        if self.last_slot == 0 {
            RingState {
                counts: self.counts,
                last_slot: now_slot,
                total_count: self.total_count,
                size: self.size,
            }
        } else if now_slot <= self.last_slot {
            self
        } else {
            let counts = Seq::new(
                self.size,
                |j: int|
                    if self.expires(j, now_slot as int) {
                        0u64
                    } else {
                        self.counts[j]
                    },
            );
            RingState { counts, last_slot: now_slot, total_count: seq_sum(counts) as u64, size: self.size }
        }
    }

    /// The ring moved forward to `now_ms`, with `count` added to the current slot.
    pub open spec fn added(self, count: u64, now_ms: u64) -> RingState {
        let a = self.advanced(now_ms);
        let idx = a.last_slot as int % (a.size as int);
        RingState {
            counts: a.counts.update(idx, (a.counts[idx] + count) as u64),
            last_slot: a.last_slot,
            total_count: (a.total_count + count) as u64,
            size: a.size,
        }
    }

    /// Count recorded for slot `s`: the slots of the window are the `size` slots
    /// ending at the last slot; every other slot counts nothing.
    pub open spec fn slot_value(self, s: int) -> int {
        if self.last_slot - self.size < s <= self.last_slot {
            self.counts[s % (self.size as int)] as int
        } else {
            0
        }
    }
}

/// Moving a ring forward to a later slot forgets exactly the slots that left
/// the window and keeps the count of every slot still inside it.
pub proof fn lemma_advance_forgets_old_slots(r: RingState, now_ms: u64, s: int)
    requires
        r.wf(),
        r.last_slot != 0,
        now_ms / SLOT_MS > r.last_slot,
    ensures
        r.advanced(now_ms).slot_value(s) == (if s > (now_ms / SLOT_MS) - r.size {
            r.slot_value(s)
        } else {
            0
        }),
{
    let ns = (now_ms / SLOT_MS) as int;
    let m = r.size as int;
    let last = r.last_slot as int;
    let a = r.advanced(now_ms);
    if ns - m < s <= ns {
        let j = s % m;
        vstd::arithmetic::div_mod::lemma_mod_bound(s, m);
        vstd::arithmetic::div_mod::lemma_add_mod_noop_right(-last, s, m);
        assert((j - last) % m == (s - last) % m);
        if ns - last < m {
            if s <= last {
                if s == last {
                    vstd::arithmetic::div_mod::lemma_small_mod(0, m as nat);
                } else {
                    vstd::arithmetic::div_mod::lemma_fundamental_div_mod_converse_mod(
                        s - last,
                        m,
                        -1,
                        s - last + m,
                    );
                }
            } else {
                vstd::arithmetic::div_mod::lemma_small_mod((s - last) as nat, m as nat);
            }
        }
    }
}

/// Moving a ring forward twice to the same instant is moving it once.
pub proof fn lemma_advance_idempotent(r: RingState, now_ms: u64)
    requires
        r.wf(),
    ensures
        r.advanced(now_ms).advanced(now_ms) == r.advanced(now_ms),
{
}

/// Sum of `c[s % c.len()]` over the `n` slots `s` ending at `hi`.
pub open spec fn span_sum(c: Seq<u64>, hi: int, n: nat) -> int
    decreases n,
{
    if n == 0 {
        0
    } else {
        span_sum(c, hi - 1, (n - 1) as nat) + c[hi % (c.len() as int)]
    }
}

/// Sum of the recorded counts of the `n` slots ending at `hi`.
pub open spec fn window_sum(r: RingState, hi: int, n: nat) -> int
    decreases n,
{
    if n == 0 {
        0
    } else {
        window_sum(r, hi - 1, (n - 1) as nat) + r.slot_value(hi)
    }
}

proof fn lemma_span_prefix(c: Seq<u64>, n: nat)
    requires
        0 < c.len(),
        n <= c.len(),
    ensures
        span_sum(c, n - 1, n) == seq_sum(c.take(n as int)),
    decreases n,
{
    if n > 0 {
        lemma_span_prefix(c, (n - 1) as nat);
        vstd::arithmetic::div_mod::lemma_small_mod((n - 1) as nat, c.len());
        assert(c.take(n as int).drop_last() =~= c.take(n - 1));
    }
}

proof fn lemma_span_shift(c: Seq<u64>, hi: int, n: nat)
    requires
        0 < c.len(),
    ensures
        span_sum(c, hi, n) == span_sum(c, hi - 1, n) + c[hi % (c.len() as int)] - c[(hi - n) % (
        c.len() as int)],
    decreases n,
{
    if n > 0 {
        lemma_span_shift(c, hi - 1, (n - 1) as nat);
    }
}

proof fn lemma_span_full(c: Seq<u64>, hi: int)
    requires
        0 < c.len(),
    ensures
        span_sum(c, hi, c.len()) == seq_sum(c),
    decreases (if hi >= c.len() - 1 {
        hi - (c.len() - 1)
    } else {
        (c.len() - 1) - hi
    }),
{
    let m = c.len() as int;
    if hi == m - 1 {
        lemma_span_prefix(c, c.len());
        assert(c.take(m) =~= c);
    } else if hi > m - 1 {
        lemma_span_full(c, hi - 1);
        lemma_span_shift(c, hi, c.len());
        vstd::arithmetic::div_mod::lemma_mod_sub_multiples_vanish(hi, m);
    } else {
        lemma_span_full(c, hi + 1);
        lemma_span_shift(c, hi + 1, c.len());
        vstd::arithmetic::div_mod::lemma_mod_sub_multiples_vanish(hi + 1, m);
    }
}

proof fn lemma_window_span(r: RingState, hi: int, n: nat)
    requires
        r.wf(),
        hi <= r.last_slot,
        r.last_slot - r.size <= hi - n,
    ensures
        window_sum(r, hi, n) == span_sum(r.counts, hi, n),
    decreases n,
{
    if n > 0 {
        lemma_window_span(r, hi - 1, (n - 1) as nat);
    }
}

/// The total of a ring is the sum of the counts recorded for the `size`
/// slots of its window.
pub proof fn lemma_total_is_window_sum(r: RingState)
    requires
        r.wf(),
    ensures
        r.total_count == window_sum(r, r.last_slot as int, r.size),
{
    lemma_window_span(r, r.last_slot as int, r.size);
    lemma_span_full(r.counts, r.last_slot as int);
}

/// Per-slot request counts over a window of `size` slots of `SLOT_MS` each.
pub struct RingBuffer {
    pub counts: Vec<u64>,
    pub last_slot: u64,
    pub total_count: u64,
    pub size: usize,
}

impl View for RingBuffer {
    type V = RingState;

    open spec fn view(&self) -> RingState {
        RingState {
            counts: self.counts@,
            last_slot: self.last_slot,
            total_count: self.total_count,
            size: self.size as nat,
        }
    }
}

impl RingBuffer {
    pub fn new(size: usize) -> (r: Self)
        requires
            size > 0,
        ensures
            r@ == RingState::fresh(size as nat),
            r@.wf(),
    {
        let r = RingBuffer { counts: vec![0; size], last_slot: 0, total_count: 0, size };
        proof {
            assert(r.counts@ =~= Seq::new(size as nat, |i: int| 0u64));
            lemma_sum_zeros(r.counts@);
        }
        r
    }

    /// Moves the ring forward to the slot of `now_ms`, emptying the slots that
    /// leave the window.
    pub fn advance(&mut self, now_ms: u64)
        requires
            old(self)@.wf(),
        ensures
            final(self)@ == old(self)@.advanced(now_ms),
            final(self)@.wf(),
            final(self).total_count <= old(self).total_count,
    {
        let now_slot = now_ms / SLOT_MS;
        if self.last_slot == 0 {
            self.last_slot = now_slot;
            return;
        }
        let elapsed = now_slot.saturating_sub(self.last_slot);
        if elapsed == 0 {
            return;
        }
        let ghost old_counts = self.counts@;
        let ghost old_total = self.total_count;
        let ghost last = self.last_slot as int;
        let ghost m = self.size as int;
        let size_u64 = self.size as u64;
        if elapsed >= size_u64 {
            let mut j: usize = 0;
            while j < self.size
                invariant
                    0 <= j <= self.size,
                    self.size == m,
                    self.counts@.len() == m,
                    forall|k: int| 0 <= k < j ==> self.counts@[k] == 0,
                decreases self.size - j,
            {
                self.counts.set(j, 0);
                j += 1;
            }
            self.total_count = 0;
            self.last_slot = now_slot;
            proof {
                lemma_sum_zeros(self.counts@);
                let target = old(self)@.advanced(now_ms);
                assert(self.counts@ =~= target.counts);
            }
            return;
        }
        let mut i: u64 = 1;
        while i <= elapsed
            invariant
                1 <= i <= elapsed + 1,
                elapsed < m,
                self.size == m,
                m > 0,
                size_u64 == m,
                self.last_slot == last,
                last + elapsed <= u64::MAX,
                self.counts@.len() == m,
                old_counts.len() == m,
                self.total_count == seq_sum(self.counts@),
                self.total_count <= old_total,
                forall|j: int|
                    0 <= j < m ==> self.counts@[j] == (if 0 < (j - last) % m && (j - last) % m < i {
                        0u64
                    } else {
                        old_counts[j]
                    }),
            decreases elapsed + 1 - i,
        {
            let slot_idx = ((self.last_slot + i) % size_u64) as usize;
            proof {
                let x = last + i;
                vstd::arithmetic::div_mod::lemma_add_mod_noop_right(-last, x, m);
                vstd::arithmetic::div_mod::lemma_small_mod(i as nat, m as nat);
                assert((slot_idx - last) % m == i as int);
                lemma_elem_le_sum(self.counts@, slot_idx as int);
                lemma_sum_update(self.counts@, slot_idx as int, 0);
            }
            self.total_count = self.total_count.saturating_sub(self.counts[slot_idx]);
            self.counts.set(slot_idx, 0);
            i += 1;
            proof {
                assert forall|j: int| 0 <= j < m implies #[trigger] self.counts@[j] == (if 0 < (j
                    - last) % m && (j - last) % m < i {
                    0u64
                } else {
                    old_counts[j]
                }) by {
                    if j != slot_idx {
                        vstd::arithmetic::div_mod::lemma_add_mod_noop_right(last, j - last, m);
                        vstd::arithmetic::div_mod::lemma_small_mod(j as nat, m as nat);
                    }
                }
            }
        }
        self.last_slot = now_slot;
        proof {
            let target = old(self)@.advanced(now_ms);
            assert(self.counts@ =~= target.counts);
            lemma_sum_nonneg(self.counts@);
        }
    }

    /// Adds `count` to the current slot after moving forward to `now_ms`.
    pub fn add(&mut self, count: u64, now_ms: u64)
        requires
            old(self)@.wf(),
            old(self).total_count + count <= u64::MAX,
        ensures
            final(self)@ == old(self)@.added(count, now_ms),
            final(self)@.wf(),
    {
        self.advance(now_ms);
        let slot_idx = (self.last_slot % (self.size as u64)) as usize;
        proof {
            lemma_elem_le_sum(self.counts@, slot_idx as int);
        }
        let c = self.counts[slot_idx];
        proof {
            lemma_sum_update(self.counts@, slot_idx as int, (c + count) as u64);
        }
        self.counts.set(slot_idx, c + count);
        self.total_count = self.total_count + count;
    }

    /// The count over the window that ends at the slot of `now_ms`.
    pub fn get_total(&mut self, now_ms: u64) -> (t: u64)
        requires
            old(self)@.wf(),
        ensures
            final(self)@ == old(self)@.advanced(now_ms),
            final(self)@.wf(),
            t == final(self).total_count,
    {
        self.advance(now_ms);
        self.total_count
    }
}

} // verus!

verus! {

/// What the ring table of a sliding-window limiter holds, by key.
pub uninterp spec fn ring_table(m: DashMap<String, RingBuffer>) -> Map<Seq<char>, RingBuffer>;

/// `DashMap::new`: the new table holds nothing.
#[verifier::external_body]
fn ring_table_new() -> (table: DashMap<String, RingBuffer>)
    ensures
        ring_table(table).dom() == Set::<Seq<char>>::empty(),
{
    DashMap::new()
}

/// `DashMap::remove`, keeping the value: the ring stored under `key`, if there
/// is one; the key is no longer in the table.
#[verifier::external_body]
fn ring_table_remove(m: &mut DashMap<String, RingBuffer>, key: &str) -> (r: Option<RingBuffer>)
    ensures
        r == (if ring_table(*old(m)).dom().contains(key@) {
            Some(ring_table(*old(m))[key@])
        } else {
            None::<RingBuffer>
        }),
        ring_table(*final(m)) == ring_table(*old(m)).remove(key@),
{
    m.remove(key).map(|(_, ring)| ring)
}

/// `DashMap::insert`: `key` now maps to `ring`, every other key is unchanged.
#[verifier::external_body]
fn ring_table_insert(m: &mut DashMap<String, RingBuffer>, key: String, ring: RingBuffer)
    ensures
        ring_table(*final(m)) == ring_table(*old(m)).insert(key@, ring),
{
    m.insert(key, ring);
}

/// A limiter that counts per key over a window that slides by slots of `SLOT_MS`.
pub struct SlidingWindowRateLimiter {
    pub config: AlgorithmConfig,
    pub slots: DashMap<String, RingBuffer>,
}

/// End of the window that starts with the slot of `now_ms`.
pub open spec fn sliding_reset_at(config: AlgorithmConfig, now_ms: u64) -> int {
    (now_ms / SLOT_MS) * SLOT_MS + config.window_ms()
}

/// The wait announced to a refused request: until the reset, at least one slot.
pub open spec fn sliding_retry_after(config: AlgorithmConfig, now_ms: u64) -> Duration {
    let reset_at = sliding_reset_at(config, now_ms);
    let wait = if reset_at > now_ms {
        reset_at - now_ms
    } else {
        0
    };
    Duration::from_millis_spec((if wait > SLOT_MS { wait } else { SLOT_MS as int }) as u64)
}

/// The answer to a check of `count` requests against `ring` at `now_ms`, and
/// the ring after it: the ring moves to `now_ms`, and the requests are allowed
/// when they fit in what the window leaves of the limit, and then count in the
/// current slot.
pub open spec fn sliding_check_outcome(config: AlgorithmConfig, ring: RingState, count: u64, now_ms: u64) -> (
    RateLimitResult,
    RingState,
) {
    let moved = ring.advanced(now_ms);
    let allowed = moved.total_count + count <= config.limit;
    (
        RateLimitResult {
            allowed,
            remaining: (if allowed {
                config.limit - (moved.total_count + count)
            } else {
                0
            }) as u64,
            reset_at: sliding_reset_at(config, now_ms) as u64,
            retry_after: if allowed {
                None
            } else {
                Some(sliding_retry_after(config, now_ms))
            },
        },
        if allowed {
            ring.added(count, now_ms)
        } else {
            moved
        },
    )
}

/// Over any window a key is never granted more than the limit: a ring whose
/// window holds at most the limit still does after a check; an allowed check
/// adds exactly its count to the window, a refused one adds nothing.
pub proof fn law_sliding_window_never_exceeds_limit(
    config: AlgorithmConfig,
    ring: RingState,
    count: u64,
    now_ms: u64,
)
    requires
        ring.wf(),
        ring.total_count <= config.limit,
    ensures
        ({
            let (r, after) = sliding_check_outcome(config, ring, count, now_ms);
            let moved = ring.advanced(now_ms);
            &&& after.wf()
            &&& after.total_count <= config.limit
            &&& after.total_count == (if r.allowed {
                moved.total_count + count
            } else {
                moved.total_count as int
            })
            &&& after.last_slot == moved.last_slot
        }),
{
    lemma_advance_total_le(ring, now_ms);
    let moved = ring.advanced(now_ms);
    if moved.total_count + count <= config.limit {
        lemma_advance_idempotent(ring, now_ms);
        let idx = moved.last_slot as int % (moved.size as int);
        lemma_elem_le_sum(moved.counts, idx);
        lemma_sum_update(moved.counts, idx, (moved.counts[idx] + count) as u64);
    }
}

/// A peek does not consume: checking a ring that a peek at the same instant
/// moved forward gives the same answer and the same ring as checking the ring
/// the peek found.
pub proof fn law_sliding_window_peek_does_not_consume(
    config: AlgorithmConfig,
    ring: RingState,
    count: u64,
    now_ms: u64,
)
    requires
        ring.wf(),
    ensures
        sliding_check_outcome(config, ring.advanced(now_ms), count, now_ms) == sliding_check_outcome(
            config,
            ring,
            count,
            now_ms,
        ),
{
    lemma_advance_idempotent(ring, now_ms);
}

/// A peek at the instant of an allowed check sees what the check left: the
/// count in the window, and so the remaining count the check reported.
pub proof fn law_sliding_window_peek_sees_check(
    config: AlgorithmConfig,
    ring: RingState,
    count: u64,
    now_ms: u64,
)
    requires
        ring.wf(),
        sliding_check_outcome(config, ring, count, now_ms).0.allowed,
    ensures
        ({
            let (r, after) = sliding_check_outcome(config, ring, count, now_ms);
            let total = after.advanced(now_ms).total_count;
            &&& total == config.limit - r.remaining
            &&& (if total < config.limit {
                config.limit - total
            } else {
                0
            }) == r.remaining
        }),
{
    let a = ring.advanced(now_ms);
    let after = sliding_check_outcome(config, ring, count, now_ms).1;
    assert(a.last_slot >= now_ms / SLOT_MS);
    assert(after.last_slot == a.last_slot);
    assert(after.advanced(now_ms) == after);
}

/// Moving a ring forward keeps it well formed and never grows its total.
pub proof fn lemma_advance_total_le(r: RingState, now_ms: u64)
    requires
        r.wf(),
    ensures
        r.advanced(now_ms).wf(),
        r.advanced(now_ms).total_count <= r.total_count,
{
    let ns = now_ms / SLOT_MS;
    if r.last_slot != 0 && ns > r.last_slot {
        let a = r.advanced(now_ms);
        lemma_sum_le_pointwise(a.counts, r.counts);
        lemma_sum_nonneg(a.counts);
    }
}

proof fn lemma_sum_le_pointwise(a: Seq<u64>, b: Seq<u64>)
    requires
        a.len() == b.len(),
        forall|i: int| 0 <= i < a.len() ==> #[trigger] a[i] <= b[i],
    ensures
        seq_sum(a) <= seq_sum(b),
    decreases a.len(),
{
    if a.len() > 0 {
        lemma_sum_le_pointwise(a.drop_last(), b.drop_last());
    }
}

impl SlidingWindowRateLimiter {
    /// Per-key rings, by key.
    pub open spec fn table(&self) -> Map<Seq<char>, RingBuffer> {
        ring_table(self.slots)
    }

    /// Number of slots in a window: the window divided by the slot width, at least one.
    pub open spec fn slots_per_window(&self) -> int {
        let n = self.config.window_ms() / SLOT_MS;
        if n >= 1 {
            n as int
        } else {
            1
        }
    }

    /// Every stored ring is well formed.
    pub open spec fn wf(&self) -> bool {
        &&& self.slots_per_window() <= usize::MAX
        &&& forall|k: Seq<char>| #[trigger] self.table().dom().contains(k) ==> self.table()[k]@.wf()
    }

    /// The ring of `key` before a check: the stored one or a fresh one.
    pub open spec fn ring_of(&self, key: Seq<char>) -> RingState {
        if self.table().dom().contains(key) {
            self.table()[key]@
        } else {
            RingState::fresh(self.slots_per_window() as nat)
        }
    }

    /// End of the window that starts with the current slot.
    pub open spec fn reset_at_of(&self, now_ms: u64) -> int {
        sliding_reset_at(self.config, now_ms)
    }

    /// The wait announced to a refused request.
    pub open spec fn retry_after_of(&self, now_ms: u64) -> Duration {
        sliding_retry_after(self.config, now_ms)
    }

    /// The table is the old one with `key` mapped to a ring whose state is `state`.
    pub open spec fn table_updated(
        new: Map<Seq<char>, RingBuffer>,
        old: Map<Seq<char>, RingBuffer>,
        key: Seq<char>,
        state: RingState,
    ) -> bool {
        &&& new.dom() =~= old.dom().insert(key)
        &&& forall|k: Seq<char>| k != key && #[trigger] old.dom().contains(k) ==> new[k] == old[k]
        &&& new[key]@ == state
    }

    pub fn new(config: AlgorithmConfig) -> (l: Self)
        ensures
            l.config == config,
            l.table().dom() == Set::<Seq<char>>::empty(),
    {
        SlidingWindowRateLimiter { config, slots: ring_table_new() }
    }

    fn slot_count(&self) -> (n: usize)
        requires
            self.slots_per_window() <= usize::MAX,
        ensures
            n == self.slots_per_window(),
    {
        let window_ms = self.config.window_millis();
        let n = window_ms / SLOT_MS;
        if n >= 1 {
            n as usize
        } else {
            1
        }
    }

    fn get_reset_at(&self, now_ms: u64) -> (r: u64)
        requires
            self.reset_at_of(now_ms) <= u64::MAX,
        ensures
            r == self.reset_at_of(now_ms),
    {
        let window_ms = self.config.window_millis();
        let current_slot_start = (now_ms / SLOT_MS) * SLOT_MS;
        current_slot_start + window_ms
    }
}

impl RateLimiter for SlidingWindowRateLimiter {
    open spec fn can_answer(&self, now_ms: u64) -> bool {
        self.wf() && self.reset_at_of(now_ms) <= u64::MAX
    }

    fn check(&mut self, key: &str, count: u64, now_ms: u64) -> (r: RateLimitResult)
        ensures
            final(self).config == old(self).config,
            final(self).wf(),
            r == sliding_check_outcome(old(self).config, old(self).ring_of(key@), count, now_ms).0,
            SlidingWindowRateLimiter::table_updated(
                final(self).table(),
                old(self).table(),
                key@,
                sliding_check_outcome(old(self).config, old(self).ring_of(key@), count, now_ms).1,
            ),
    {
        let reset_at = self.get_reset_at(now_ms);
        let slot_count = self.slot_count();
        let mut ring = match ring_table_remove(&mut self.slots, key) {
            Some(ring) => ring,
            None => RingBuffer::new(slot_count),
        };
        proof {
            assert(ring@ == old(self).ring_of(key@));
        }
        let current_total = ring.get_total(now_ms);
        let limit = self.config.limit;
        let result = if count <= limit && current_total <= limit - count {
            proof {
                lemma_advance_idempotent(old(self).ring_of(key@), now_ms);
            }
            ring.add(count, now_ms);
            RateLimitResult {
                allowed: true,
                remaining: limit - (current_total + count),
                reset_at,
                retry_after: None,
            }
        } else {
            let wait = reset_at.saturating_sub(now_ms);
            RateLimitResult {
                allowed: false,
                remaining: 0,
                reset_at,
                retry_after: Some(Duration::from_millis(if wait > SLOT_MS { wait } else { SLOT_MS })),
            }
        };
        ring_table_insert(&mut self.slots, key.to_string(), ring);
        proof {
            assert forall|k: Seq<char>| #[trigger] self.table().dom().contains(k) implies self.table()[k]@.wf() by {
                if k != key@ {
                    assert(old(self).table().dom().contains(k));
                }
            }
        }
        result
    }

    fn peek(&mut self, key: &str, now_ms: u64) -> (r: RateLimitResult)
        ensures
            ({
                let present = old(self).table().dom().contains(key@);
                let total: int = if present {
                    old(self).table()[key@]@.advanced(now_ms).total_count as int
                } else {
                    0
                };
                let allowed = total < old(self).config.limit;
                &&& final(self).config == old(self).config
                &&& final(self).wf()
                &&& r.allowed == allowed
                &&& r.remaining == (if allowed { old(self).config.limit - total } else { 0 })
                &&& r.reset_at == old(self).reset_at_of(now_ms)
                &&& r.retry_after == (if allowed {
                    None
                } else {
                    Some(old(self).retry_after_of(now_ms))
                })
                &&& (if present {
                    SlidingWindowRateLimiter::table_updated(
                        final(self).table(),
                        old(self).table(),
                        key@,
                        old(self).table()[key@]@.advanced(now_ms),
                    )
                } else {
                    final(self).table() == old(self).table()
                })
            }),
    {
        let reset_at = self.get_reset_at(now_ms);
        let current_total = match ring_table_remove(&mut self.slots, key) {
            Some(ring) => {
                let mut ring = ring;
                proof {
                    assert(old(self).table().dom().contains(key@));
                    assert(ring@.wf());
                }
                let t = ring.get_total(now_ms);
                ring_table_insert(&mut self.slots, key.to_string(), ring);
                t
            },
            None => 0,
        };
        proof {
            assert forall|k: Seq<char>| #[trigger] self.table().dom().contains(k) implies self.table()[k]@.wf() by {
                if k != key@ {
                    assert(old(self).table().dom().contains(k));
                }
            }
            if !old(self).table().dom().contains(key@) {
                assert(self.table() =~= old(self).table());
            }
        }
        let limit = self.config.limit;
        let allowed = current_total < limit;
        let wait = reset_at.saturating_sub(now_ms);
        RateLimitResult {
            allowed,
            remaining: limit.saturating_sub(current_total),
            reset_at,
            retry_after: if allowed {
                None
            } else {
                Some(Duration::from_millis(if wait > SLOT_MS { wait } else { SLOT_MS }))
            },
        }
    }
}

} // verus!
