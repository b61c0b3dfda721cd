pub mod rule;
pub mod manager;

use crate::text::same_text;
use rule::{AlertConfig, GroupConfig, Rule, RuleView};
use vstd::prelude::*;

verus! {

/// The rules of the service, the rule groups by name, and the alert settings.
#[derive(Debug)]
pub struct Config {
    pub rules: Vec<Rule>,
    pub groups: Option<Vec<(String, GroupConfig)>>,
    pub alert: Option<AlertConfig>,
}

/// The rules as values.
pub open spec fn rule_views(rules: Seq<Rule>) -> Seq<RuleView> {
    rules.map_values(|r: Rule| r@)
}

/// Index of the first rule with id `id`, if any.
pub open spec fn first_with_id(rules: Seq<RuleView>, id: Seq<char>) -> Option<int>
    decreases rules.len(),
{
    if rules.len() == 0 {
        None
    } else if rules[0].id == id {
        Some(0)
    } else {
        match first_with_id(rules.drop_first(), id) {
            Some(i) => Some(i + 1),
            None => None,
        }
    }
}

pub proof fn lemma_first_with_id(rules: Seq<RuleView>, id: Seq<char>)
    ensures
        match first_with_id(rules, id) {
            Some(i) => 0 <= i < rules.len() && rules[i].id == id && forall|k: int|
                0 <= k < i ==> #[trigger] rules[k].id != id,
            None => forall|k: int| 0 <= k < rules.len() ==> #[trigger] rules[k].id != id,
        },
    decreases rules.len(),
{
    if rules.len() > 0 && rules[0].id != id {
        lemma_first_with_id(rules.drop_first(), id);
        match first_with_id(rules.drop_first(), id) {
            Some(i) => {
                assert forall|k: int| 0 <= k < i + 1 implies #[trigger] rules[k].id != id by {
                    if k > 0 {
                        assert(rules[k] == rules.drop_first()[k - 1]);
                    }
                }
            },
            None => {
                assert forall|k: int| 0 <= k < rules.len() implies #[trigger] rules[k].id != id by {
                    if k > 0 {
                        assert(rules[k] == rules.drop_first()[k - 1]);
                    }
                }
            },
        }
    }
}

/// Index of the first rule with id `id`.
pub fn position_of(rules: &Vec<Rule>, id: &str) -> (r: Option<usize>)
    ensures
        match r {
            Some(i) => first_with_id(rule_views(rules@), id@) == Some(i as int),
            None => first_with_id(rule_views(rules@), id@) is None,
        },
{
    let ghost views = rule_views(rules@);
    proof {
        lemma_first_with_id(views, id@);
    }
    let mut i: usize = 0;
    while i < rules.len()
        invariant
            0 <= i <= rules@.len(),
            views == rule_views(rules@),
            views.len() == rules@.len(),
            forall|k: int| 0 <= k < i ==> #[trigger] views[k].id != id@,
            match first_with_id(views, id@) {
                Some(j) => 0 <= j < views.len() && views[j].id == id@ && forall|k: int|
                    0 <= k < j ==> #[trigger] views[k].id != id@,
                None => forall|k: int| 0 <= k < views.len() ==> #[trigger] views[k].id != id@,
            },
        decreases rules@.len() - i,
    {
        proof {
            assert(views[i as int] == rules@[i as int]@);
        }
        if same_text(rules[i].id.as_str(), id) {
            proof {
                assert(views[i as int].id == id@);
                match first_with_id(views, id@) {
                    Some(j) => {
                        if j > i {
                            assert(views[i as int].id != id@);
                        } else if j < i {
                            assert(views[j].id != id@);
                        }
                    },
                    None => {
                        assert(views[i as int].id != id@);
                    },
                }
            }
            return Some(i);
        }
        i += 1;
    }
    proof {
        match first_with_id(views, id@) {
            Some(j) => {
                assert(views[j].id == id@);
            },
            None => {},
        }
    }
    None
}

impl Default for Config {
    fn default() -> (c: Self)
        ensures
            c.rules@.len() == 0,
            c.groups is None,
            c.alert is None,
    {
        Config { rules: Vec::new(), groups: None, alert: None }
    }
}

impl Config {
    /// The first rule with id `id`.
    pub fn get_rule(&self, id: &str) -> (r: Option<&Rule>)
        ensures
            match r {
                Some(rule) => exists|i: int|
                    first_with_id(rule_views(self.rules@), id@) == Some(i) && *rule == self.rules@[i],
                None => first_with_id(rule_views(self.rules@), id@) is None,
            },
    {
        proof {
            lemma_first_with_id(rule_views(self.rules@), id@);
        }
        match position_of(&self.rules, id) {
            Some(i) => Some(&self.rules[i]),
            None => None,
        }
    }
}

} // verus!
