//! Rate-limit rules and their counters.
use crate::algorithm::AlgorithmConfig;
use crate::key_extractor::KeyExtractor;
use crate::text::{ends_with_char, same_text, starts_with};
use crate::time::{chrono_nanos, Duration, UtcTime};
use vstd::prelude::*;

verus! {

/// What a rule applies to.
#[derive(Debug, Clone, Copy, PartialEq, Eq, Structural)]
pub enum RuleType {
    Global,
    PathPrefix,
    IpBlacklist,
    IpWhitelist,
    IpGraylist,
}

/// A named group of rules. The threshold multiplier is a floating-point number
/// kept as its IEEE-754 bit pattern.
#[derive(Debug)]
pub struct GroupConfig {
    pub enabled: bool,
    pub threshold_multiplier_bits: Option<u64>,
    pub description: Option<String>,
}

/// Where alerts about blocked requests go, and when they are raised.
#[derive(Debug)]
pub struct AlertConfig {
    pub enabled: bool,
    pub block_threshold: u64,
    pub window: Duration,
    pub webhooks: Vec<WebhookConfig>,
}

/// Block threshold of an alert configuration that does not name one.
pub fn default_block_threshold() -> (t: u64)
    ensures
        t == 100,
{
    100
}

/// Alert window of an alert configuration that does not name one: five minutes.
pub fn default_alert_window() -> (w: Duration)
    ensures
        w == (Duration { secs: 300, nanos: 0 }),
{
    Duration::from_secs(300)
}

/// One alert destination.
#[derive(Debug)]
pub struct WebhookConfig {
    pub webhook_type: WebhookType,
    pub url: String,
    pub secret: Option<String>,
}

/// The message format of an alert destination.
#[derive(Debug, Clone, Copy, PartialEq, Eq, Structural)]
pub enum WebhookType {
    Feishu,
    Dingtalk,
    Slack,
    Generic,
}

/// Counters of one rule.
#[derive(Debug, Clone, Copy, PartialEq, Eq, Structural)]
pub struct RuleStats {
    pub total_calls: u64,
    pub allowed_calls: u64,
    pub blocked_calls: u64,
    pub last_triggered_at: Option<u64>,
    pub current_window_blocked: u64,
}

impl Default for RuleStats {
    fn default() -> (s: Self)
        ensures
            s == RuleStats::zero(),
    {
        RuleStats {
            total_calls: 0,
            allowed_calls: 0,
            blocked_calls: 0,
            last_triggered_at: None,
            current_window_blocked: 0,
        }
    }
}

/// Rule type of a rule that does not name one.
pub fn default_rule_type() -> (t: RuleType)
    ensures
        t == RuleType::Global,
{
    RuleType::Global
}

impl RuleStats {
    /// Counters that have seen nothing.
    pub open spec fn zero() -> RuleStats {
        RuleStats {
            total_calls: 0,
            allowed_calls: 0,
            blocked_calls: 0,
            last_triggered_at: None,
            current_window_blocked: 0,
        }
    }

    /// Counters after one more decision: `allowed` says whether it let the
    /// request through.
    pub open spec fn recorded(self, allowed: bool, now_ms: u64) -> RuleStats {
        RuleStats {
            total_calls: (self.total_calls + 1) as u64,
            allowed_calls: (if allowed {
                self.allowed_calls + 1
            } else {
                self.allowed_calls as int
            }) as u64,
            blocked_calls: (if allowed {
                self.blocked_calls as int
            } else {
                self.blocked_calls + 1
            }) as u64,
            last_triggered_at: Some(now_ms),
            current_window_blocked: (if allowed {
                self.current_window_blocked as int
            } else {
                self.current_window_blocked + 1
            }) as u64,
        }
    }

    /// The counters that `recorded` increments stay below `u64::MAX`.
    pub open spec fn can_record(self, allowed: bool) -> bool {
        &&& self.total_calls < u64::MAX
        &&& allowed ==> self.allowed_calls < u64::MAX
        &&& !allowed ==> self.blocked_calls < u64::MAX && self.current_window_blocked < u64::MAX
    }

    /// Every call was either allowed or blocked.
    pub open spec fn balanced(self) -> bool {
        self.total_calls == self.allowed_calls + self.blocked_calls
    }

    pub fn record(&mut self, allowed: bool, now_ms: u64)
        requires
            old(self).can_record(allowed),
        ensures
            *final(self) == old(self).recorded(allowed, now_ms),
    {
        self.total_calls += 1;
        self.last_triggered_at = Some(now_ms);
        if allowed {
            self.allowed_calls += 1;
        } else {
            self.blocked_calls += 1;
            self.current_window_blocked += 1;
        }
    }

    pub fn reset_window(&mut self)
        ensures
            *final(self) == (RuleStats { current_window_blocked: 0, ..*old(self) }),
    {
        self.current_window_blocked = 0;
    }
}

/// Recording a decision keeps the calls split between allowed and blocked.
pub proof fn lemma_record_keeps_balance(s: RuleStats, allowed: bool, now_ms: u64)
    requires
        s.balanced(),
        s.can_record(allowed),
    ensures
        s.recorded(allowed, now_ms).balanced(),
        s.recorded(allowed, now_ms).total_calls == s.total_calls + 1,
{
}

/// A rate-limit rule. The graylist multiplier is a floating-point number kept
/// as its IEEE-754 bit pattern.
#[derive(Debug)]
pub struct Rule {
    pub id: String,
    pub name: Option<String>,
    pub description: Option<String>,
    pub rule_type: RuleType,
    pub enabled: bool,
    pub priority: i32,
    pub algorithm: AlgorithmConfig,
    pub key_extractor: KeyExtractor,
    pub path_prefix: Option<String>,
    pub ip_list: Option<Vec<String>>,
    pub graylist_multiplier_bits: Option<u64>,
    pub group: Option<String>,
    pub start_at: Option<UtcTime>,
    pub end_at: Option<UtcTime>,
    pub stats: RuleStats,
}

fn clone_opt_string(s: &Option<String>) -> (r: Option<String>)
    ensures
        r == *s,
{
    match s {
        Some(v) => Some(v.clone()),
        None => None,
    }
}

fn clone_strings(v: &Vec<String>) -> (r: Vec<String>)
    ensures
        r@ == v@,
{
    let mut out: Vec<String> = Vec::new();
    let mut i: usize = 0;
    while i < v.len()
        invariant
            0 <= i <= v@.len(),
            out@ == v@.take(i as int),
        decreases v@.len() - i,
    {
        out.push(v[i].clone());
        proof {
            assert(v@.take(i + 1) =~= v@.take(i as int).push(v@[i as int]));
        }
        i += 1;
    }
    assert(v@.take(v@.len() as int) =~= v@);
    out
}

/// The rule's start or end instant in nanoseconds since the epoch, with an
/// instant that has no such count taken as the epoch.
pub open spec fn bound_nanos(t: UtcTime) -> int {
    match chrono_nanos(t.secs, t.nanos) {
        Some(n) => n as int,
        None => 0,
    }
}

/// Whether `ip` matches `pattern`: equal text, or a pattern ending in `*` whose
/// text before the star is a prefix of `ip`.
pub open spec fn ip_matches_spec(pattern: Seq<char>, ip: Seq<char>) -> bool {
    pattern == ip || (pattern.len() > 0 && pattern.last() == '*' && pattern.drop_last().is_prefix_of(
        ip,
    ))
}

pub fn ip_matches(pattern: &str, ip: &str) -> (r: bool)
    ensures
        r == ip_matches_spec(pattern@, ip@),
{
    if same_text(pattern, ip) {
        return true;
    }
    if ends_with_char(pattern, '*') {
        let n = pattern.unicode_len();
        let prefix = pattern.substring_char(0, n - 1);
        proof {
            assert(prefix@ =~= pattern@.drop_last());
        }
        return starts_with(ip, prefix);
    }
    false
}

/// The text of an optional string.
pub open spec fn opt_text(s: Option<String>) -> Option<Seq<char>> {
    match s {
        Some(v) => Some(v@),
        None => None,
    }
}

/// The texts of a list of strings.
pub open spec fn texts(v: Seq<String>) -> Seq<Seq<char>> {
    v.map_values(|s: String| s@)
}

/// A rule as a value: every string by its text.
pub struct RuleView {
    pub id: Seq<char>,
    pub name: Option<Seq<char>>,
    pub description: Option<Seq<char>>,
    pub rule_type: RuleType,
    pub enabled: bool,
    pub priority: i32,
    pub algorithm: AlgorithmConfig,
    pub key_extractor: KeyExtractor,
    pub path_prefix: Option<Seq<char>>,
    pub ip_list: Option<Seq<Seq<char>>>,
    pub graylist_multiplier_bits: Option<u64>,
    pub group: Option<Seq<char>>,
    pub start_at: Option<UtcTime>,
    pub end_at: Option<UtcTime>,
    pub stats: RuleStats,
}

impl View for Rule {
    type V = RuleView;

    open spec fn view(&self) -> RuleView {
        RuleView {
            id: self.id@,
            name: opt_text(self.name),
            description: opt_text(self.description),
            rule_type: self.rule_type,
            enabled: self.enabled,
            priority: self.priority,
            algorithm: self.algorithm,
            key_extractor: self.key_extractor,
            path_prefix: opt_text(self.path_prefix),
            ip_list: match self.ip_list {
                Some(list) => Some(texts(list@)),
                None => None,
            },
            graylist_multiplier_bits: self.graylist_multiplier_bits,
            group: opt_text(self.group),
            start_at: self.start_at,
            end_at: self.end_at,
            stats: self.stats,
        }
    }
}

impl Clone for Rule {
    fn clone(&self) -> (r: Self)
        ensures
            r@ == self@,
    {
        let ip_list = match &self.ip_list {
            Some(list) => {
                let c = clone_strings(list);
                proof {
                    assert(texts(c@) =~= texts(list@));
                }
                Some(c)
            },
            None => None,
        };
        Rule {
            id: self.id.clone(),
            name: clone_opt_string(&self.name),
            description: clone_opt_string(&self.description),
            rule_type: self.rule_type,
            enabled: self.enabled,
            priority: self.priority,
            algorithm: self.algorithm,
            key_extractor: self.key_extractor.clone(),
            path_prefix: clone_opt_string(&self.path_prefix),
            ip_list,
            graylist_multiplier_bits: self.graylist_multiplier_bits,
            group: clone_opt_string(&self.group),
            start_at: self.start_at,
            end_at: self.end_at,
            stats: self.stats,
        }
    }
}

/// `now_ms` in nanoseconds, as a rule compares it: the milliseconds cast to
/// `i64`, times one million.
pub open spec fn now_nanos(now_ms: u64) -> int {
    (now_ms as i64) * 1_000_000
}

impl RuleView {
    /// Enabled, and `now_ms` is not before the start nor after the end.
    pub open spec fn active_at(self, now_ms: u64) -> bool {
        &&& self.enabled
        &&& (self.start_at matches Some(t) ==> bound_nanos(t) <= now_nanos(now_ms))
        &&& (self.end_at matches Some(t) ==> bound_nanos(t) >= now_nanos(now_ms))
    }

    /// Whether the rule is an IP list rule whose list matches `ip`.
    pub open spec fn ip_rule_matches(self, ip: Seq<char>) -> bool {
        &&& (self.rule_type == RuleType::IpBlacklist || self.rule_type == RuleType::IpWhitelist
            || self.rule_type == RuleType::IpGraylist)
        &&& self.ip_list matches Some(list)
        &&& exists|i: int| 0 <= i < list.len() && ip_matches_spec(#[trigger] list[i], ip)
    }

    /// Whether the rule is a path rule whose prefix starts `path`.
    pub open spec fn path_rule_matches(self, path: Seq<char>) -> bool {
        &&& self.rule_type == RuleType::PathPrefix
        &&& self.path_prefix matches Some(p)
        &&& p.is_prefix_of(path)
    }
}

/// Each bound of a rule's time window is checked on its own: a rule whose
/// end lies before `now_ms` is not active then, whatever its start; a rule
/// whose start lies after `now_ms` is not active then, whatever its end; a
/// disabled rule is never active; and an enabled rule is active exactly when
/// neither bound excludes `now_ms`.
pub proof fn law_rule_window_bounds_apply_independently(r: RuleView, now_ms: u64)
    ensures
        (r.end_at matches Some(t) && bound_nanos(t) < now_nanos(now_ms)) ==> !r.active_at(now_ms),
        (r.start_at matches Some(t) && bound_nanos(t) > now_nanos(now_ms)) ==> !r.active_at(now_ms),
        !r.enabled ==> !r.active_at(now_ms),
        (r.enabled && (r.start_at is None || bound_nanos(r.start_at->0) <= now_nanos(now_ms)) && (
        r.end_at is None || bound_nanos(r.end_at->0) >= now_nanos(now_ms))) ==> r.active_at(now_ms),
{
}

impl Rule {
    pub fn is_active(&self, now_ms: u64) -> (r: bool)
        requires
            i64::MIN <= now_nanos(now_ms) <= i64::MAX,
        ensures
            r == self@.active_at(now_ms),
    {
        if !self.enabled {
            return false;
        }
        let now = (now_ms as i64) * 1_000_000;
        if let Some(start) = &self.start_at {
            let nanos = match start.timestamp_nanos_opt() {
                Some(n) => n,
                None => 0,
            };
            if nanos > now {
                return false;
            }
        }
        if let Some(end) = &self.end_at {
            let nanos = match end.timestamp_nanos_opt() {
                Some(n) => n,
                None => 0,
            };
            if nanos < now {
                return false;
            }
        }
        true
    }

    #[verifier::loop_isolation(false)]
    pub fn matches_ip(&self, ip: &str) -> (r: bool)
        ensures
            r == self@.ip_rule_matches(ip@),
    {
        match self.rule_type {
            RuleType::IpBlacklist | RuleType::IpWhitelist | RuleType::IpGraylist => {
                match &self.ip_list {
                    Some(list) => {
                        let mut i: usize = 0;
                        while i < list.len()
                            invariant
                                0 <= i <= list@.len(),
                                forall|k: int| 0 <= k < i ==> !ip_matches_spec(#[trigger] list@[k]@, ip@),
                            decreases list@.len() - i,
                        {
                            if ip_matches(list[i].as_str(), ip) {
                                proof {
                                    assert(texts(list@)[i as int] == list@[i as int]@);
                                    assert(ip_matches_spec(texts(list@)[i as int], ip@));
                                    assert(texts(list@).len() == list@.len());
                                }
                                return true;
                            }
                            i += 1;
                        }
                        proof {
                            assert forall|k: int| 0 <= k < texts(list@).len() implies !ip_matches_spec(
                                #[trigger] texts(list@)[k],
                                ip@,
                            ) by {
                                assert(texts(list@)[k] == list@[k]@);
                            }
                        }
                        false
                    },
                    None => false,
                }
            },
            _ => false,
        }
    }

    pub fn matches_path(&self, path: &str) -> (r: bool)
        ensures
            r == self@.path_rule_matches(path@),
    {
        match self.rule_type {
            RuleType::PathPrefix => match &self.path_prefix {
                Some(prefix) => starts_with(path, prefix.as_str()),
                None => false,
            },
            _ => false,
        }
    }
}

} // verus!
