//! Choosing the rule that governs a request.
use crate::config::rule::{now_nanos, Rule, RuleType, RuleView};
use crate::config::{rule_views, Config};
use vstd::prelude::*;

verus! {

/// What to do with a request once its rule is known.
#[derive(Debug, Clone, Copy, PartialEq, Eq, Structural)]
pub enum MatchAction {
    Allow,
    Deny,
    RateLimit,
}

/// The governing rule of a request and what it says to do.
#[derive(Debug)]
pub struct MatchResult {
    pub action: MatchAction,
    pub rule: Rule,
}

/// Among the first `n` rules, the index of the one satisfying `pred` with the
/// highest priority; among equal priorities, the earliest.
pub open spec fn best_rule(rules: Seq<RuleView>, pred: spec_fn(RuleView) -> bool, n: int) -> Option<
    int,
>
    decreases n,
{
    if n <= 0 {
        None
    } else {
        let b = best_rule(rules, pred, n - 1);
        if pred(rules[n - 1]) && (b is None || rules[n - 1].priority > rules[b->0].priority) {
            Some(n - 1)
        } else {
            b
        }
    }
}

/// Active IP list rules whose list matches `ip`.
pub open spec fn ip_pass(now_ms: u64, ip: Seq<char>) -> spec_fn(RuleView) -> bool {
    |r: RuleView| r.active_at(now_ms) && r.ip_rule_matches(ip)
}

/// Active path rules whose prefix starts `path`.
pub open spec fn path_pass(now_ms: u64, path: Seq<char>) -> spec_fn(RuleView) -> bool {
    |r: RuleView| r.active_at(now_ms) && r.path_rule_matches(path)
}

/// Active global rules.
pub open spec fn global_pass(now_ms: u64) -> spec_fn(RuleView) -> bool {
    |r: RuleView| r.active_at(now_ms) && r.rule_type == RuleType::Global
}

/// The action an IP list rule takes.
pub open spec fn ip_action(t: RuleType) -> MatchAction {
    match t {
        RuleType::IpBlacklist => MatchAction::Deny,
        RuleType::IpWhitelist => MatchAction::Allow,
        _ => MatchAction::RateLimit,
    }
}

/// The governing rule of a request, as an action and an index into `rules`:
/// a matching IP list rule first, then a matching path rule, then a global
/// rule; within each kind the highest priority, earliest first.
pub open spec fn match_spec(rules: Seq<RuleView>, ip: Seq<char>, path: Seq<char>, now_ms: u64) -> Option<
    (MatchAction, int),
> {
    let n = rules.len() as int;
    match best_rule(rules, ip_pass(now_ms, ip), n) {
        Some(i) => Some((ip_action(rules[i].rule_type), i)),
        None => match best_rule(rules, path_pass(now_ms, path), n) {
            Some(i) => Some((MatchAction::RateLimit, i)),
            None => match best_rule(rules, global_pass(now_ms), n) {
                Some(i) => Some((MatchAction::RateLimit, i)),
                None => None,
            },
        },
    }
}

/// The rule `best_rule` picks satisfies the predicate and comes first when the
/// qualifying rules are ordered by descending priority, keeping their order
/// among equal priorities; there is none only when no rule qualifies.
pub proof fn lemma_best_rule_is_first_by_priority(
    rules: Seq<RuleView>,
    pred: spec_fn(RuleView) -> bool,
    n: int,
)
    requires
        0 <= n <= rules.len(),
    ensures
        match best_rule(rules, pred, n) {
            Some(i) => {
                &&& 0 <= i < n
                &&& pred(rules[i])
                &&& forall|j: int|
                    0 <= j < n && #[trigger] pred(rules[j]) ==> rules[j].priority < rules[i].priority
                        || (rules[j].priority == rules[i].priority && j >= i)
            },
            None => forall|j: int| 0 <= j < n ==> !#[trigger] pred(rules[j]),
        },
    decreases n,
{
    if n > 0 {
        lemma_best_rule_is_first_by_priority(rules, pred, n - 1);
    }
}

/// The rule that governs a request from `ip` to `path` at `now_ms`.
pub fn match_rules(config: &Config, ip: &str, path: &str, now_ms: u64) -> (r: Option<MatchResult>)
    requires
        i64::MIN <= now_nanos(now_ms) <= i64::MAX,
    ensures
        match r {
            Some(m) => match_spec(rule_views(config.rules@), ip@, path@, now_ms) matches Some((a, i))
                && m.action == a && m.rule@ == rule_views(config.rules@)[i],
            None => match_spec(rule_views(config.rules@), ip@, path@, now_ms) is None,
        },
{
    let rules = &config.rules;
    let ghost views = rule_views(rules@);
    let mut best_ip: Option<usize> = None;
    let mut best_path: Option<usize> = None;
    let mut best_global: Option<usize> = None;
    let mut i: usize = 0;
    while i < rules.len()
        invariant
            0 <= i <= rules@.len(),
            views == rule_views(rules@),
            views.len() == rules@.len(),
            i64::MIN <= now_nanos(now_ms) <= i64::MAX,
            best_ip matches Some(b) ==> b < i,
            best_path matches Some(b) ==> b < i,
            best_global matches Some(b) ==> b < i,
            (match best_ip {
                Some(b) => Some(b as int),
                None => None,
            }) == best_rule(views, ip_pass(now_ms, ip@), i as int),
            (match best_path {
                Some(b) => Some(b as int),
                None => None,
            }) == best_rule(views, path_pass(now_ms, path@), i as int),
            (match best_global {
                Some(b) => Some(b as int),
                None => None,
            }) == best_rule(views, global_pass(now_ms), i as int),
        decreases rules@.len() - i,
    {
        let rule = &rules[i];
        proof {
            assert(views[i as int] == rule@);
        }
        if rule.is_active(now_ms) {
            let prio = rule.priority;
            if rule.matches_ip(ip) {
                let better = match best_ip {
                    Some(b) => prio > rules[b].priority,
                    None => true,
                };
                proof {
                    if let Some(b) = best_ip {
                        assert(views[b as int] == rules@[b as int]@);
                    }
                }
                if better {
                    best_ip = Some(i);
                }
            }
            if rule.rule_type == RuleType::PathPrefix && rule.matches_path(path) {
                let better = match best_path {
                    Some(b) => prio > rules[b].priority,
                    None => true,
                };
                proof {
                    if let Some(b) = best_path {
                        assert(views[b as int] == rules@[b as int]@);
                    }
                }
                if better {
                    best_path = Some(i);
                }
            }
            if rule.rule_type == RuleType::Global {
                let better = match best_global {
                    Some(b) => prio > rules[b].priority,
                    None => true,
                };
                proof {
                    if let Some(b) = best_global {
                        assert(views[b as int] == rules@[b as int]@);
                    }
                }
                if better {
                    best_global = Some(i);
                }
            }
        }
        i += 1;
    }
    let (action, chosen) = match best_ip {
        Some(b) => {
            let action = match rules[b].rule_type {
                RuleType::IpBlacklist => MatchAction::Deny,
                RuleType::IpWhitelist => MatchAction::Allow,
                _ => MatchAction::RateLimit,
            };
            (action, b)
        },
        None => match best_path {
            Some(b) => (MatchAction::RateLimit, b),
            None => match best_global {
                Some(b) => (MatchAction::RateLimit, b),
                None => {
                    return None;
                },
            },
        },
    };
    proof {
        assert(views[chosen as int] == rules@[chosen as int]@);
    }
    Some(MatchResult { action, rule: rules[chosen].clone() })
}

} // verus!

verus! {

/// The rule a request falls under is active at the time of the request and
/// applies to it; an IP list rule matching the client always takes precedence
/// over path and global rules, and a path rule matching the request over
/// global rules. No rule is chosen only when none applies.
pub proof fn law_match_precedence(rules: Seq<RuleView>, ip: Seq<char>, path: Seq<char>, now_ms: u64)
    ensures
        match match_spec(rules, ip, path, now_ms) {
            Some((action, i)) => {
                &&& 0 <= i < rules.len()
                &&& rules[i].active_at(now_ms)
                &&& ((exists|j: int| 0 <= j < rules.len() && #[trigger] ip_pass(now_ms, ip)(rules[j]))
                    ==> rules[i].ip_rule_matches(ip) && action == ip_action(rules[i].rule_type))
                &&& (!(exists|j: int| 0 <= j < rules.len() && #[trigger] ip_pass(now_ms, ip)(rules[j]))
                    && (exists|j: int| 0 <= j < rules.len() && #[trigger] path_pass(now_ms, path)(rules[j])))
                    ==> rules[i].path_rule_matches(path) && action == MatchAction::RateLimit
                &&& (rules[i].ip_rule_matches(ip) || rules[i].path_rule_matches(path) || rules[i].rule_type
                    == RuleType::Global)
            },
            None => forall|j: int|
                0 <= j < rules.len() ==> !(#[trigger] rules[j]).active_at(now_ms) || (!rules[j].ip_rule_matches(
                    ip,
                ) && !rules[j].path_rule_matches(path) && rules[j].rule_type != RuleType::Global),
        },
{
    let n = rules.len() as int;
    lemma_best_rule_is_first_by_priority(rules, ip_pass(now_ms, ip), n);
    lemma_best_rule_is_first_by_priority(rules, path_pass(now_ms, path), n);
    lemma_best_rule_is_first_by_priority(rules, global_pass(now_ms), n);
    match match_spec(rules, ip, path, now_ms) {
        Some((action, i)) => {},
        None => {
            assert forall|j: int| 0 <= j < rules.len() implies !(#[trigger] rules[j]).active_at(now_ms) || (
            !rules[j].ip_rule_matches(ip) && !rules[j].path_rule_matches(path) && rules[j].rule_type
                != RuleType::Global) by {
                assert(!ip_pass(now_ms, ip)(rules[j]));
                assert(!path_pass(now_ms, path)(rules[j]));
                assert(!global_pass(now_ms)(rules[j]));
            }
        },
    }
}

} // verus!
