//! Deciding which rules to raise an alert for.
use crate::assoc::{
    assoc_index, assoc_map, distinct_keys, lemma_assoc_absent, lemma_assoc_lookup, lemma_assoc_push,
    lemma_assoc_update,
};
use crate::config::manager::ConfigManager;
use crate::config::rule::{RuleStats, RuleView};
use crate::config::rule_views;
use vstd::prelude::*;

verus! {

/// An alert to send: the rule and how many requests it blocked in the window.
#[derive(Debug)]
pub struct PendingAlert {
    pub rule_id: String,
    pub blocked_count: u64,
}

/// When each rule was last alerted about, by rule id.
pub struct AlertManager {
    pub last_alert_times: Vec<(String, u64)>,
}

/// The alerts raised for the rules from index `i` on, and the last alert
/// times after them: an enabled rule whose counters show at least `threshold`
/// blocked requests is alerted about when more than `window_ms` passed since
/// its last alert (the epoch when it never had one).
pub open spec fn alerts_from(
    rules: Seq<RuleView>,
    i: int,
    stats: Map<Seq<char>, RuleStats>,
    last: Map<Seq<char>, u64>,
    threshold: u64,
    window_ms: u64,
    now_ms: u64,
) -> (Seq<(Seq<char>, u64)>, Map<Seq<char>, u64>)
    decreases rules.len() - i,
{
    if i >= rules.len() || i < 0 {
        (Seq::empty(), last)
    } else {
        let r = rules[i];
        let previous = if last.dom().contains(r.id) {
            last[r.id]
        } else {
            0
        };
        if r.enabled && stats.dom().contains(r.id) && stats[r.id].current_window_blocked >= threshold
            && now_ms - previous > window_ms {
            let rest = alerts_from(
                rules,
                i + 1,
                stats,
                last.insert(r.id, now_ms),
                threshold,
                window_ms,
                now_ms,
            );
            (seq![(r.id, stats[r.id].current_window_blocked)] + rest.0, rest.1)
        } else {
            alerts_from(rules, i + 1, stats, last, threshold, window_ms, now_ms)
        }
    }
}

/// The alerts as texts.
pub open spec fn alert_views(v: Seq<PendingAlert>) -> Seq<(Seq<char>, u64)> {
    v.map_values(|a: PendingAlert| (a.rule_id@, a.blocked_count))
}

impl AlertManager {
    pub open spec fn last_view(&self) -> Map<Seq<char>, u64> {
        assoc_map(self.last_alert_times@)
    }

    /// Each rule has at most one last alert time.
    pub open spec fn wf(&self) -> bool {
        distinct_keys(self.last_alert_times@)
    }

    /// No rule was alerted about after `now_ms`.
    pub open spec fn not_after(&self, now_ms: u64) -> bool {
        forall|k: Seq<char>| #[trigger] self.last_view().dom().contains(k) ==> self.last_view()[k] <= now_ms
    }

    pub fn new() -> (m: Self)
        ensures
            m.wf(),
            m.last_view().dom() == Set::<Seq<char>>::empty(),
    {
        AlertManager { last_alert_times: Vec::new() }
    }

    /// The alerts due at `now_ms` under the manager's alert settings, oldest
    /// rule first; their rules are marked as alerted at `now_ms`. Nothing is
    /// due when alerts are off.
    pub fn check_and_alert(&mut self, manager: &ConfigManager, now_ms: u64) -> (r: Vec<PendingAlert>)
        requires
            old(self).wf(),
            manager.wf(),
            old(self).not_after(now_ms),
        ensures
            final(self).wf(),
            final(self).not_after(now_ms),
            match manager.config.alert {
                Some(a) if a.enabled => {
                    let out = alerts_from(
                        manager.rules(),
                        0,
                        manager.stats_view(),
                        old(self).last_view(),
                        a.block_threshold,
                        a.window.millis() as u64,
                        now_ms,
                    );
                    alert_views(r@) == out.0 && final(self).last_view() == out.1
                },
                _ => r@.len() == 0 && final(self).last_view() == old(self).last_view(),
            },
    {
        let mut out: Vec<PendingAlert> = Vec::new();
        let alert_cfg = match &manager.config.alert {
            Some(a) => {
                if !a.enabled {
                    return out;
                }
                a
            },
            None => {
                return out;
            },
        };
        let threshold = alert_cfg.block_threshold;
        let window_ms = alert_cfg.window.as_millis() as u64;
        let rules = &manager.config.rules;
        let ghost views = rule_views(rules@);
        let ghost stats = manager.stats_view();
        let ghost start_last = self.last_view();
        let mut i: usize = 0;
        while i < rules.len()
            invariant
                0 <= i <= rules@.len(),
                views == rule_views(rules@),
                views.len() == rules@.len(),
                stats == manager.stats_view(),
                manager.wf(),
                self.wf(),
                self.not_after(now_ms),
                alerts_from(views, 0, stats, start_last, threshold, window_ms, now_ms) == ({
                    let rest = alerts_from(
                        views,
                        i as int,
                        stats,
                        self.last_view(),
                        threshold,
                        window_ms,
                        now_ms,
                    );
                    (alert_views(out@) + rest.0, rest.1)
                }),
            decreases rules@.len() - i,
        {
            let rule = &rules[i];
            proof {
                assert(views[i as int] == rule@);
            }
            if rule.enabled {
                if let Some(stats_now) = manager.get_stats(rule.id.as_str()) {
                    if stats_now.current_window_blocked >= threshold {
                        let last = match assoc_index(&self.last_alert_times, rule.id.as_str()) {
                            Some(j) => {
                                proof {
                                    lemma_assoc_lookup(self.last_alert_times@, j as int);
                                }
                                self.last_alert_times[j].1
                            },
                            None => {
                                proof {
                                    lemma_assoc_absent(self.last_alert_times@, rule.id@);
                                }
                                0
                            },
                        };
                        if now_ms - last > window_ms {
                            let ghost before = out@;
                            out.push(
                                PendingAlert {
                                    rule_id: rule.id.clone(),
                                    blocked_count: stats_now.current_window_blocked,
                                },
                            );
                            proof {
                                assert(alert_views(out@) =~= alert_views(before).push(
                                    (rule.id@, stats_now.current_window_blocked),
                                ));
                            }
                            match assoc_index(&self.last_alert_times, rule.id.as_str()) {
                                Some(j) => {
                                    let key = self.last_alert_times[j].0.clone();
                                    proof {
                                        lemma_assoc_update(self.last_alert_times@, j as int, now_ms);
                                    }
                                    self.last_alert_times.set(j, (key, now_ms));
                                },
                                None => {
                                    let key = rule.id.clone();
                                    proof {
                                        lemma_assoc_absent(self.last_alert_times@, rule.id@);
                                        lemma_assoc_push(self.last_alert_times@, key, now_ms);
                                    }
                                    self.last_alert_times.push((key, now_ms));
                                },
                            }
                        }
                    }
                }
            }
            i += 1;
        }
        out
    }
}

} // verus!

verus! {

/// Whether an alert for `id` is among `alerts`.
pub open spec fn alerted(alerts: Seq<(Seq<char>, u64)>, id: Seq<char>) -> bool {
    exists|k: int| 0 <= k < alerts.len() && (#[trigger] alerts[k]).0 == id
}

proof fn lemma_alerts_mark_time(
    rules: Seq<RuleView>,
    i: int,
    stats: Map<Seq<char>, RuleStats>,
    last: Map<Seq<char>, u64>,
    threshold: u64,
    window_ms: u64,
    now_ms: u64,
    id: Seq<char>,
)
    requires
        last.dom().contains(id) && last[id] == now_ms || alerted(
            alerts_from(rules, i, stats, last, threshold, window_ms, now_ms).0,
            id,
        ),
    ensures
        ({
            let m = alerts_from(rules, i, stats, last, threshold, window_ms, now_ms).1;
            m.dom().contains(id) && m[id] == now_ms
        }),
    decreases rules.len() - i,
{
    if !(i >= rules.len() || i < 0) {
        let r = rules[i];
        let previous = if last.dom().contains(r.id) {
            last[r.id]
        } else {
            0
        };
        if r.enabled && stats.dom().contains(r.id) && stats[r.id].current_window_blocked >= threshold
            && now_ms - previous > window_ms {
            let next = last.insert(r.id, now_ms);
            let rest = alerts_from(rules, i + 1, stats, next, threshold, window_ms, now_ms);
            let all = alerts_from(rules, i, stats, last, threshold, window_ms, now_ms).0;
            if r.id == id {
            } else if last.dom().contains(id) && last[id] == now_ms {
            } else {
                let k = choose|k: int| 0 <= k < all.len() && (#[trigger] all[k]).0 == id;
                assert(k > 0);
                assert(rest.0[k - 1] == all[k]);
            }
            lemma_alerts_mark_time(rules, i + 1, stats, next, threshold, window_ms, now_ms, id);
        } else {
            lemma_alerts_mark_time(rules, i + 1, stats, last, threshold, window_ms, now_ms, id);
        }
    }
}

proof fn lemma_recent_not_alerted(
    rules: Seq<RuleView>,
    i: int,
    stats: Map<Seq<char>, RuleStats>,
    last: Map<Seq<char>, u64>,
    threshold: u64,
    window_ms: u64,
    now_ms: u64,
    id: Seq<char>,
)
    requires
        last.dom().contains(id),
        last[id] <= now_ms,
        now_ms - last[id] <= window_ms,
    ensures
        !alerted(alerts_from(rules, i, stats, last, threshold, window_ms, now_ms).0, id),
    decreases rules.len() - i,
{
    if !(i >= rules.len() || i < 0) {
        let r = rules[i];
        let previous = if last.dom().contains(r.id) {
            last[r.id]
        } else {
            0
        };
        if r.enabled && stats.dom().contains(r.id) && stats[r.id].current_window_blocked >= threshold
            && now_ms - previous > window_ms {
            let next = last.insert(r.id, now_ms);
            lemma_recent_not_alerted(rules, i + 1, stats, next, threshold, window_ms, now_ms, id);
            let rest = alerts_from(rules, i + 1, stats, next, threshold, window_ms, now_ms);
            let all = alerts_from(rules, i, stats, last, threshold, window_ms, now_ms).0;
            assert(r.id != id);
            assert forall|k: int| 0 <= k < all.len() implies (#[trigger] all[k]).0 != id by {
                if k > 0 {
                    assert(all[k] == rest.0[k - 1]);
                }
            }
        } else {
            lemma_recent_not_alerted(rules, i + 1, stats, last, threshold, window_ms, now_ms, id);
        }
    }
}

/// A rule is alerted about at most once per alert window: a rule alerted
/// about at `now_ms` is not alerted about again by a later pass within the
/// window, whatever the counters then say.
pub proof fn law_alert_once_per_window(
    rules: Seq<RuleView>,
    stats: Map<Seq<char>, RuleStats>,
    later_stats: Map<Seq<char>, RuleStats>,
    last: Map<Seq<char>, u64>,
    threshold: u64,
    window_ms: u64,
    now_ms: u64,
    later_ms: u64,
    id: Seq<char>,
)
    requires
        alerted(alerts_from(rules, 0, stats, last, threshold, window_ms, now_ms).0, id),
        now_ms <= later_ms,
        later_ms - now_ms <= window_ms,
    ensures
        !alerted(
            alerts_from(
                rules,
                0,
                later_stats,
                alerts_from(rules, 0, stats, last, threshold, window_ms, now_ms).1,
                threshold,
                window_ms,
                later_ms,
            ).0,
            id,
        ),
{
    lemma_alerts_mark_time(rules, 0, stats, last, threshold, window_ms, now_ms, id);
    let m = alerts_from(rules, 0, stats, last, threshold, window_ms, now_ms).1;
    lemma_recent_not_alerted(rules, 0, later_stats, m, threshold, window_ms, later_ms, id);
}

} // verus!
