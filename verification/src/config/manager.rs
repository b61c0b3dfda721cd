//! The live rule set and the per-rule counters.
use super::rule::{Rule, RuleStats, RuleView};
use super::{first_with_id, lemma_first_with_id, position_of, rule_views, Config};
use crate::assoc::{
    assoc_index, assoc_map, distinct_keys, lemma_assoc_absent, lemma_assoc_lookup, lemma_assoc_push,
    lemma_assoc_remove, lemma_assoc_update,
};
use vstd::prelude::*;

verus! {

} // verus!

verus! {

/// The live rule set, the counters of each rule, and the file the rules came from.
pub struct ConfigManager {
    pub config: Config,
    pub stats: Vec<(String, RuleStats)>,
    pub config_path: String,
}

/// `rule` with its counters taken from `stats` when `stats` has them.
pub open spec fn with_stats(rule: RuleView, stats: Map<Seq<char>, RuleStats>) -> RuleView {
    if stats.dom().contains(rule.id) {
        RuleView { stats: stats[rule.id], ..rule }
    } else {
        rule
    }
}

/// Counters for the ids of `rules`: the ones `prev` has, fresh ones for the rest.
pub open spec fn carried_stats(rules: Seq<RuleView>, prev: Map<Seq<char>, RuleStats>) -> Map<
    Seq<char>,
    RuleStats,
> {
    Map::new(
        |k: Seq<char>| exists|i: int| 0 <= i < rules.len() && #[trigger] rules[i].id == k,
        |k: Seq<char>|
            if prev.dom().contains(k) {
                prev[k]
            } else {
                RuleStats::zero()
            },
    )
}

proof fn lemma_carried_push(rules: Seq<RuleView>, r: RuleView, old: Map<Seq<char>, RuleStats>)
    ensures
        carried_stats(rules.push(r), old) =~= carried_stats(rules, old).insert(
            r.id,
            if old.dom().contains(r.id) {
                old[r.id]
            } else {
                RuleStats::zero()
            },
        ),
{
    let a = carried_stats(rules.push(r), old);
    let b = carried_stats(rules, old);
    assert forall|k: Seq<char>| a.dom().contains(k) <==> b.dom().contains(k) || k == r.id by {
        if a.dom().contains(k) {
            let i = choose|i: int| 0 <= i < rules.push(r).len() && #[trigger] rules.push(r)[i].id == k;
            if i < rules.len() {
                assert(rules[i].id == k);
            }
        }
        if b.dom().contains(k) {
            let i = choose|i: int| 0 <= i < rules.len() && #[trigger] rules[i].id == k;
            assert(rules.push(r)[i].id == k);
        }
        if k == r.id {
            assert(rules.push(r)[rules.len() as int].id == k);
        }
    }
}

/// Rule ids with their call counts, as values.
pub open spec fn call_counts(v: Seq<(String, u64)>) -> Seq<(Seq<char>, u64)> {
    v.map_values(|e: (String, u64)| (e.0@, e.1))
}

/// The counter list as rule ids with their call counts.
pub open spec fn stats_call_counts(v: Seq<(String, RuleStats)>) -> Seq<(String, u64)> {
    v.map_values(|e: (String, RuleStats)| (e.0, e.1.total_calls))
}

/// The rules after adding `rule`: it replaces the first rule with its id, or
/// comes last when there is none.
pub open spec fn upserted(rules: Seq<RuleView>, rule: RuleView) -> Seq<RuleView> {
    match first_with_id(rules, rule.id) {
        Some(p) => rules.update(p, rule),
        None => rules.push(rule),
    }
}

/// The rules after deleting the first rule with id `id`, if any.
pub open spec fn without_first(rules: Seq<RuleView>, id: Seq<char>) -> Seq<RuleView> {
    match first_with_id(rules, id) {
        Some(p) => rules.remove(p),
        None => rules,
    }
}

/// A rule that was just added is the one found under its id, and the rule
/// found under any other id is unchanged.
pub proof fn law_get_after_add(rules: Seq<RuleView>, rule: RuleView, other: Seq<char>)
    requires
        other != rule.id,
    ensures
        first_with_id(upserted(rules, rule), rule.id) matches Some(i) && upserted(rules, rule)[i] == rule,
        match first_with_id(rules, other) {
            Some(j) => first_with_id(upserted(rules, rule), other) == Some(j) && upserted(rules, rule)[j]
                == rules[j],
            None => first_with_id(upserted(rules, rule), other) is None,
        },
{
    lemma_first_with_id(rules, rule.id);
    lemma_first_with_id(rules, other);
    let u = upserted(rules, rule);
    lemma_first_with_id(u, rule.id);
    lemma_first_with_id(u, other);
    match first_with_id(rules, rule.id) {
        Some(p) => {
            assert(u[p].id == rule.id);
            match first_with_id(u, rule.id) {
                Some(q) => {
                    if q < p {
                        assert(u[q] == rules[q]);
                    } else if q > p {
                    }
                },
                None => {},
            }
        },
        None => {
            assert(u[rules.len() as int].id == rule.id);
            match first_with_id(u, rule.id) {
                Some(q) => {
                    if q < rules.len() {
                        assert(u[q] == rules[q]);
                    }
                },
                None => {},
            }
        },
    }
    match first_with_id(rules, other) {
        Some(j) => {
            assert(u[j].id == other) by {
                if first_with_id(rules, rule.id) is Some {
                    assert(first_with_id(rules, rule.id)->0 != j);
                }
            }
            match first_with_id(u, other) {
                Some(q) => {
                    if q < j {
                        assert(u[q].id == other);
                        if first_with_id(rules, rule.id) is Some {
                            if q != first_with_id(rules, rule.id)->0 {
                                assert(u[q] == rules[q]);
                            }
                        } else {
                            assert(u[q] == rules[q]);
                        }
                    } else if q > j {
                    }
                },
                None => {},
            }
            if first_with_id(rules, rule.id) is Some {
                assert(first_with_id(rules, rule.id)->0 != j);
            }
        },
        None => {
            match first_with_id(u, other) {
                Some(q) => {
                    if first_with_id(rules, rule.id) is Some {
                        if q != first_with_id(rules, rule.id)->0 {
                            assert(u[q] == rules[q]);
                        }
                    } else {
                        if q < rules.len() {
                            assert(u[q] == rules[q]);
                        }
                    }
                },
                None => {},
            }
        },
    }
}

/// When rule ids are distinct, a deleted rule is no longer found.
pub proof fn law_get_after_delete(rules: Seq<RuleView>, id: Seq<char>)
    requires
        forall|i: int, j: int| 0 <= i < j < rules.len() ==> #[trigger] rules[i].id != #[trigger] rules[j].id,
    ensures
        first_with_id(without_first(rules, id), id) is None,
{
    lemma_first_with_id(rules, id);
    let w = without_first(rules, id);
    lemma_first_with_id(w, id);
    match first_with_id(rules, id) {
        Some(p) => {
            match first_with_id(w, id) {
                Some(q) => {
                    if q < p {
                        assert(w[q] == rules[q]);
                    } else {
                        assert(w[q] == rules[q + 1]);
                    }
                },
                None => {},
            }
        },
        None => {},
    }
}

/// Deleting removes exactly one rule, the first with the id, and keeps every
/// other rule in its order; with no rule of that id nothing changes. So the
/// rule found under any other id is the same before and after.
pub proof fn law_delete_removes_exactly_one(rules: Seq<RuleView>, id: Seq<char>, other: Seq<char>)
    requires
        other != id,
    ensures
        match first_with_id(rules, id) {
            Some(p) => {
                &&& rules[p].id == id
                &&& without_first(rules, id).len() == rules.len() - 1
                &&& forall|k: int| 0 <= k < p ==> #[trigger] without_first(rules, id)[k] == rules[k]
                &&& forall|k: int|
                    p <= k < rules.len() - 1 ==> #[trigger] without_first(rules, id)[k] == rules[k + 1]
            },
            None => without_first(rules, id) == rules,
        },
        match first_with_id(rules, other) {
            Some(i) => first_with_id(without_first(rules, id), other) matches Some(j) && without_first(
                rules,
                id,
            )[j] == rules[i],
            None => first_with_id(without_first(rules, id), other) is None,
        },
{
    lemma_first_with_id(rules, id);
    lemma_first_with_id(rules, other);
    let w = without_first(rules, id);
    lemma_first_with_id(w, other);
    match first_with_id(rules, id) {
        Some(p) => {
            assert forall|k: int| 0 <= k < w.len() implies #[trigger] w[k] == (if k < p {
                rules[k]
            } else {
                rules[k + 1]
            }) by {}
            match first_with_id(rules, other) {
                Some(i) => {
                    match first_with_id(w, other) {
                        Some(j) => {
                            if i < p {
                                assert(w[i].id == other);
                                if j < i {
                                    assert(rules[j].id == other);
                                }
                            } else {
                                assert(w[i - 1].id == other);
                                if j < p {
                                    assert(rules[j].id == other);
                                } else if j < i - 1 {
                                    assert(rules[j + 1].id == other);
                                }
                            }
                        },
                        None => {
                            if i < p {
                                assert(w[i].id == other);
                            } else {
                                assert(w[i - 1].id == other);
                            }
                        },
                    }
                },
                None => {
                    match first_with_id(w, other) {
                        Some(j) => {
                            if j < p {
                                assert(rules[j].id == other);
                            } else {
                                assert(rules[j + 1].id == other);
                            }
                        },
                        None => {},
                    }
                },
            }
        },
        None => {},
    }
}

impl ConfigManager {
    /// The rules, as values.
    pub open spec fn rules(&self) -> Seq<RuleView> {
        rule_views(self.config.rules@)
    }

    /// The counters, by rule id.
    pub open spec fn stats_view(&self) -> Map<Seq<char>, RuleStats> {
        assoc_map(self.stats@)
    }

    /// Each rule id has at most one entry of counters.
    pub open spec fn wf(&self) -> bool {
        distinct_keys(self.stats@)
    }

    /// Fresh counters for every rule of `config`.
    pub fn new(config: Config, config_path: String) -> (m: Self)
        ensures
            m.wf(),
            m.rules() == rule_views(config.rules@),
            m.stats_view() == carried_stats(rule_views(config.rules@), Map::empty()),
            m.config_path == config_path,
            m.config.groups == config.groups,
            m.config.alert == config.alert,
    {
        let mut m = ConfigManager { config, stats: Vec::new(), config_path };
        let empty: Vec<(String, RuleStats)> = Vec::new();
        m.reset_stats_from(&empty);
        m
    }

    /// The rule set.
    pub fn get_config(&self) -> (c: &Config)
        ensures
            c == &self.config,
    {
        &self.config
    }

    /// A copy of the first rule with id `id`.
    pub fn get_rule(&self, id: &str) -> (r: Option<Rule>)
        ensures
            match r {
                Some(rule) => first_with_id(self.rules(), id@) matches Some(i) && rule@ == self.rules()[i],
                None => first_with_id(self.rules(), id@) is None,
            },
    {
        proof {
            lemma_first_with_id(self.rules(), id@);
        }
        match position_of(&self.config.rules, id) {
            Some(i) => Some(self.config.rules[i].clone()),
            None => None,
        }
    }

    /// The counters of rule `id`, if it has any.
    pub fn get_stats(&self, rule_id: &str) -> (r: Option<RuleStats>)
        requires
            self.wf(),
        ensures
            r == (if self.stats_view().dom().contains(rule_id@) {
                Some(self.stats_view()[rule_id@])
            } else {
                None::<RuleStats>
            }),
    {
        match assoc_index(&self.stats, rule_id) {
            Some(i) => {
                proof {
                    lemma_assoc_lookup(self.stats@, i as int);
                }
                Some(self.stats[i].1)
            },
            None => {
                proof {
                    lemma_assoc_absent(self.stats@, rule_id@);
                }
                None
            },
        }
    }

    /// Copies of all rules, each carrying its current counters.
    pub fn get_all_rules(&self) -> (r: Vec<Rule>)
        requires
            self.wf(),
        ensures
            r@.len() == self.rules().len(),
            forall|i: int|
                0 <= i < r@.len() ==> #[trigger] r@[i]@ == with_stats(self.rules()[i], self.stats_view()),
    {
        let mut out: Vec<Rule> = Vec::new();
        let mut i: usize = 0;
        while i < self.config.rules.len()
            invariant
                0 <= i <= self.config.rules@.len(),
                self.wf(),
                out@.len() == i,
                forall|k: int|
                    0 <= k < i ==> #[trigger] out@[k]@ == with_stats(self.rules()[k], self.stats_view()),
            decreases self.config.rules@.len() - i,
        {
            let mut rule = self.config.rules[i].clone();
            proof {
                assert(self.rules()[i as int] == self.config.rules@[i as int]@);
            }
            match self.get_stats(rule.id.as_str()) {
                Some(s) => {
                    rule.stats = s;
                },
                None => {},
            }
            out.push(rule);
            i += 1;
        }
        out
    }

    /// Counts one decision of rule `rule_id`, creating its counters if needed.
    pub fn record_stat(&mut self, rule_id: &str, allowed: bool, now_ms: u64)
        requires
            old(self).wf(),
            (if old(self).stats_view().dom().contains(rule_id@) {
                old(self).stats_view()[rule_id@]
            } else {
                RuleStats::zero()
            }).can_record(allowed),
        ensures
            final(self).wf(),
            final(self).config == old(self).config,
            final(self).config_path == old(self).config_path,
            final(self).stats_view() == old(self).stats_view().insert(
                rule_id@,
                (if old(self).stats_view().dom().contains(rule_id@) {
                    old(self).stats_view()[rule_id@]
                } else {
                    RuleStats::zero()
                }).recorded(allowed, now_ms),
            ),
    {
        match assoc_index(&self.stats, rule_id) {
            Some(i) => {
                proof {
                    lemma_assoc_lookup(self.stats@, i as int);
                }
                let mut s = self.stats[i].1;
                s.record(allowed, now_ms);
                let key = self.stats[i].0.clone();
                proof {
                    lemma_assoc_update(self.stats@, i as int, s);
                }
                self.stats.set(i, (key, s));
            },
            None => {
                proof {
                    lemma_assoc_absent(self.stats@, rule_id@);
                }
                let mut s = RuleStats::default();
                s.record(allowed, now_ms);
                let key = String::from_str(rule_id);
                proof {
                    lemma_assoc_push(self.stats@, key, s);
                }
                self.stats.push((key, s));
            },
        }
    }

    /// Adds `rule`, replacing the first rule with the same id if there is one;
    /// the rule gets fresh counters unless its id already has some.
    pub fn add_rule(&mut self, rule: Rule)
        requires
            old(self).wf(),
        ensures
            final(self).wf(),
            final(self).rules() == upserted(old(self).rules(), rule@),
            final(self).stats_view() == (if old(self).stats_view().dom().contains(rule.id@) {
                old(self).stats_view()
            } else {
                old(self).stats_view().insert(rule.id@, RuleStats::zero())
            }),
            final(self).config.groups == old(self).config.groups,
            final(self).config.alert == old(self).config.alert,
            final(self).config_path == old(self).config_path,
    {
        proof {
            lemma_first_with_id(self.rules(), rule.id@);
        }
        let key = rule.id.clone();
        match position_of(&self.config.rules, rule.id.as_str()) {
            Some(pos) => {
                self.config.rules.set(pos, rule);
                proof {
                    assert(self.rules() =~= old(self).rules().update(pos as int, self.config.rules@[pos as int]@));
                }
            },
            None => {
                self.config.rules.push(rule);
                proof {
                    assert(self.rules() =~= old(self).rules().push(self.config.rules@.last()@));
                }
            },
        }
        match assoc_index(&self.stats, key.as_str()) {
            Some(i) => {
                proof {
                    lemma_assoc_lookup(self.stats@, i as int);
                }
            },
            None => {
                proof {
                    lemma_assoc_absent(self.stats@, key@);
                    lemma_assoc_push(self.stats@, key, RuleStats::zero());
                }
                self.stats.push((key, RuleStats::default()));
            },
        }
    }

    /// Replaces the first rule with the id of `rule`; `false`, with nothing
    /// changed, when there is no such rule.
    pub fn update_rule(&mut self, rule: Rule) -> (r: bool)
        ensures
            r == (first_with_id(old(self).rules(), rule.id@) is Some),
            final(self).rules() == (match first_with_id(old(self).rules(), rule.id@) {
                Some(p) => old(self).rules().update(p, rule@),
                None => old(self).rules(),
            }),
            final(self).stats == old(self).stats,
            final(self).config.groups == old(self).config.groups,
            final(self).config.alert == old(self).config.alert,
            final(self).config_path == old(self).config_path,
    {
        proof {
            lemma_first_with_id(self.rules(), rule.id@);
        }
        match position_of(&self.config.rules, rule.id.as_str()) {
            Some(pos) => {
                self.config.rules.set(pos, rule);
                proof {
                    assert(self.rules() =~= old(self).rules().update(pos as int, self.config.rules@[pos as int]@));
                }
                true
            },
            None => false,
        }
    }

    /// Removes the first rule with id `id` and the counters of that id;
    /// `false`, with nothing changed, when there is no such rule.
    pub fn delete_rule(&mut self, id: &str) -> (r: bool)
        requires
            old(self).wf(),
        ensures
            final(self).wf(),
            r == (first_with_id(old(self).rules(), id@) is Some),
            final(self).rules() == without_first(old(self).rules(), id@),
            final(self).stats_view() == (if r {
                old(self).stats_view().remove(id@)
            } else {
                old(self).stats_view()
            }),
            final(self).config.groups == old(self).config.groups,
            final(self).config.alert == old(self).config.alert,
            final(self).config_path == old(self).config_path,
    {
        proof {
            lemma_first_with_id(self.rules(), id@);
        }
        match position_of(&self.config.rules, id) {
            Some(pos) => {
                self.config.rules.remove(pos);
                proof {
                    assert(self.rules() =~= old(self).rules().remove(pos as int));
                }
                match assoc_index(&self.stats, id) {
                    Some(i) => {
                        proof {
                            lemma_assoc_remove(self.stats@, i as int);
                        }
                        self.stats.remove(i);
                    },
                    None => {
                        proof {
                            lemma_assoc_absent(self.stats@, id@);
                            assert(self.stats_view().remove(id@) =~= self.stats_view());
                        }
                    },
                }
                true
            },
            None => false,
        }
    }

    /// Takes a freshly loaded rule set: rules that keep their id keep their
    /// counters, new ids get fresh ones, and counters of vanished ids go.
    pub fn replace_config(&mut self, new_config: Config)
        requires
            old(self).wf(),
        ensures
            final(self).wf(),
            final(self).rules() == rule_views(new_config.rules@),
            final(self).stats_view() == carried_stats(rule_views(new_config.rules@), old(self).stats_view()),
            final(self).config.groups == new_config.groups,
            final(self).config.alert == new_config.alert,
            final(self).config_path == old(self).config_path,
    {
        let mut previous: Vec<(String, RuleStats)> = Vec::new();
        std::mem::swap(&mut previous, &mut self.stats);
        self.config = new_config;
        self.reset_stats_from(&previous);
    }

    /// Keys most often blocked; no key is tracked, so the list is empty.
    pub fn get_top_blocked_keys(&self, n: usize) -> (r: Vec<(String, u64)>)
        ensures
            r@.len() == 0,
    {
        Vec::new()
    }

    /// Every rule id with counters and its number of calls, most called
    /// first; ids with equal counts keep the order of the counter list.
    pub fn get_rule_frequency_rank(&self) -> (r: Vec<(String, u64)>)
        ensures
            call_counts(r@).to_multiset() == call_counts(stats_call_counts(self.stats@)).to_multiset(),
            forall|i: int, j: int| 0 <= i < j < r@.len() ==> #[trigger] r@[i].1 >= #[trigger] r@[j].1,
    {
        let mut out: Vec<(String, u64)> = Vec::new();
        let mut i: usize = 0;
        let ghost all = call_counts(stats_call_counts(self.stats@));
        proof {
            assert(call_counts(out@) =~= all.take(0));
        }
        while i < self.stats.len()
            invariant
                0 <= i <= self.stats@.len(),
                all == call_counts(stats_call_counts(self.stats@)),
                all.len() == self.stats@.len(),
                call_counts(out@).to_multiset() == all.take(i as int).to_multiset(),
                forall|a: int, b: int| 0 <= a < b < out@.len() ==> #[trigger] out@[a].1 >= #[trigger] out@[b].1,
            decreases self.stats@.len() - i,
        {
            let calls = self.stats[i].1.total_calls;
            let id = self.stats[i].0.clone();
            let mut p: usize = 0;
            while p < out.len() && out[p].1 >= calls
                invariant
                    0 <= p <= out@.len(),
                    forall|k: int| 0 <= k < p ==> #[trigger] out@[k].1 >= calls,
                decreases out@.len() - p,
            {
                p += 1;
            }
            let ghost before = out@;
            proof {
                assert(all[i as int] == (id@, calls));
                assert(all.take(i + 1) =~= all.take(i as int).push(all[i as int]));
                vstd::seq_lib::to_multiset_build(all.take(i as int), all[i as int]);
                vstd::seq_lib::to_multiset_insert(call_counts(before), p as int, (id@, calls));
                assert(call_counts(before.insert(p as int, (id, calls))) =~= call_counts(before).insert(
                    p as int,
                    (id@, calls),
                ));
            }
            out.insert(p, (id, calls));
            proof {
                assert forall|a: int, b: int| 0 <= a < b < out@.len() implies #[trigger] out@[a].1
                    >= #[trigger] out@[b].1 by {
                    if a < p as int && b > p as int {
                        assert(out@[a] == before[a]);
                        assert(out@[b] == before[b - 1]);
                        assert(before[a].1 >= calls);
                        if p < before.len() {
                            assert(before[p as int].1 < calls);
                            if b - 1 > p {
                                assert(before[p as int].1 >= before[b - 1].1);
                            }
                        }
                    } else if a < p as int && b == p as int {
                        assert(out@[a] == before[a]);
                    } else if a == p as int {
                        assert(out@[b] == before[b - 1]);
                        if p < before.len() {
                            assert(before[p as int].1 < calls);
                            if b - 1 > p {
                                assert(before[p as int].1 >= before[b - 1].1);
                            }
                        }
                    } else if b < p as int {
                        assert(out@[a] == before[a]);
                        assert(out@[b] == before[b]);
                    } else {
                        assert(out@[a] == before[a - 1]);
                        assert(out@[b] == before[b - 1]);
                    }
                }
            }
            i += 1;
        }
        proof {
            assert(all.take(all.len() as int) =~= all);
        }
        out
    }

    /// Rebuilds the counters for the current rules, keeping those `old` holds.
    fn reset_stats_from(&mut self, previous: &Vec<(String, RuleStats)>)
        requires
            distinct_keys(previous@),
        ensures
            final(self).wf(),
            final(self).config == old(self).config,
            final(self).config_path == old(self).config_path,
            final(self).stats_view() == carried_stats(old(self).rules(), assoc_map(previous@)),
    {
        let ghost views = rule_views(self.config.rules@);
        let mut stats: Vec<(String, RuleStats)> = Vec::new();
        let mut i: usize = 0;
        while i < self.config.rules.len()
            invariant
                0 <= i <= self.config.rules@.len(),
                views == rule_views(self.config.rules@),
                views.len() == self.config.rules@.len(),
                distinct_keys(previous@),
                distinct_keys(stats@),
                assoc_map(stats@) =~= carried_stats(views.take(i as int), assoc_map(previous@)),
            decreases self.config.rules@.len() - i,
        {
            let id = &self.config.rules[i].id;
            proof {
                assert(views[i as int].id == id@);
                assert(views.take(i + 1) =~= views.take(i as int).push(views[i as int]));
            }
            proof {
                lemma_carried_push(views.take(i as int), views[i as int], assoc_map(previous@));
            }
            match assoc_index(&stats, id.as_str()) {
                Some(j) => {
                    proof {
                        lemma_assoc_lookup(stats@, j as int);
                        assert(assoc_map(stats@).insert(id@, assoc_map(stats@)[id@]) =~= assoc_map(
                            stats@,
                        ));
                    }
                },
                None => {
                    let s = match assoc_index(previous, id.as_str()) {
                        Some(j) => {
                            proof {
                                lemma_assoc_lookup(previous@, j as int);
                            }
                            previous[j].1
                        },
                        None => {
                            proof {
                                lemma_assoc_absent(previous@, id@);
                            }
                            RuleStats::default()
                        },
                    };
                    let key = id.clone();
                    proof {
                        lemma_assoc_absent(stats@, id@);
                        lemma_assoc_push(stats@, key, s);
                    }
                    stats.push((key, s));
                },
            }
            i += 1;
        }
        proof {
            assert(views.take(views.len() as int) =~= views);
        }
        self.stats = stats;
    }
}

} // verus!
