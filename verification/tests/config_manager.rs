use ratelimit::algorithm::AlgorithmConfig;
use ratelimit::config::manager::ConfigManager;
use ratelimit::config::rule::{
    default_alert_window, default_block_threshold, default_rule_type, ip_matches, Rule, RuleStats,
    RuleType,
};
use ratelimit::config::Config;
use ratelimit::key_extractor::KeyExtractor;
use ratelimit::time::{Duration, UtcTime};

fn rule(id: &str, priority: i32) -> Rule {
    Rule {
        id: id.to_string(),
        name: Some(format!("rule {}", id)),
        description: None,
        rule_type: RuleType::Global,
        enabled: true,
        priority,
        algorithm: AlgorithmConfig::fixed_window(10, Duration::from_secs(1)),
        key_extractor: KeyExtractor::ip(),
        path_prefix: None,
        ip_list: Some(vec!["1.1.1.1".to_string()]),
        graylist_multiplier_bits: Some(2.5f64.to_bits()),
        group: None,
        start_at: Some(UtcTime { secs: 10, nanos: 5 }),
        end_at: None,
        stats: RuleStats::default(),
    }
}

fn manager(ids: &[&str]) -> ConfigManager {
    let config = Config {
        rules: ids.iter().map(|id| rule(id, 1)).collect(),
        groups: None,
        alert: None,
    };
    ConfigManager::new(config, "./config.yaml".to_string())
}

#[test]
fn new_manager_has_fresh_counters_for_each_rule() {
    let m = manager(&["a", "b", "a"]);
    assert_eq!(m.get_stats("a"), Some(RuleStats::default()));
    assert_eq!(m.get_stats("b"), Some(RuleStats::default()));
    assert_eq!(m.get_stats("c"), None);
    assert_eq!(m.stats.len(), 2);
    assert_eq!(m.config_path, "./config.yaml");
}

#[test]
fn add_get_update_delete() {
    let mut m = manager(&["a"]);
    let mut b = rule("b", 7);
    m.add_rule(b.clone());
    assert_eq!(m.get_rule("b").unwrap().priority, 7);
    assert_eq!(m.get_stats("b"), Some(RuleStats::default()));

    b.priority = 9;
    assert!(m.update_rule(b.clone()));
    assert_eq!(m.get_rule("b").unwrap().priority, 9);
    assert!(!m.update_rule(rule("zzz", 1)));
    assert!(m.get_rule("zzz").is_none());

    m.add_rule(rule("b", 3));
    assert_eq!(m.get_config().rules.len(), 2);
    assert_eq!(m.get_rule("b").unwrap().priority, 3);

    assert!(m.delete_rule("b"));
    assert!(m.get_rule("b").is_none());
    assert_eq!(m.get_stats("b"), None);
    assert!(!m.delete_rule("b"));
}

#[test]
fn clone_keeps_every_field() {
    let r = rule("x", 4);
    let c = r.clone();
    assert_eq!(c.id, "x");
    assert_eq!(c.name, Some("rule x".to_string()));
    assert_eq!(c.ip_list, Some(vec!["1.1.1.1".to_string()]));
    assert_eq!(c.graylist_multiplier_bits, Some(2.5f64.to_bits()));
    assert_eq!(c.start_at, Some(UtcTime { secs: 10, nanos: 5 }));
}

#[test]
fn record_stat_counts_and_creates() {
    let mut m = manager(&["a"]);
    m.record_stat("a", true, 100);
    m.record_stat("a", false, 200);
    m.record_stat("ghost", false, 300);
    let s = m.get_stats("a").unwrap();
    assert_eq!(s.total_calls, 2);
    assert_eq!(s.allowed_calls, 1);
    assert_eq!(s.blocked_calls, 1);
    assert_eq!(s.current_window_blocked, 1);
    assert_eq!(s.last_triggered_at, Some(200));
    let g = m.get_stats("ghost").unwrap();
    assert_eq!(g.total_calls, 1);
    assert_eq!(g.blocked_calls, 1);

    let all = m.get_all_rules();
    assert_eq!(all.len(), 1);
    assert_eq!(all[0].stats.total_calls, 2);
}

#[test]
fn frequency_rank_is_sorted_and_stable() {
    let mut m = manager(&["a", "b", "c"]);
    m.record_stat("b", true, 1);
    m.record_stat("b", true, 2);
    m.record_stat("c", true, 3);
    m.record_stat("a", true, 4);
    m.record_stat("b", true, 5);
    let rank = m.get_rule_frequency_rank();
    assert_eq!(
        rank,
        vec![("b".to_string(), 3), ("a".to_string(), 1), ("c".to_string(), 1)]
    );
    assert!(m.get_top_blocked_keys(10).is_empty());
}

#[test]
fn replace_config_carries_counters_of_kept_rules() {
    let mut m = manager(&["a", "b"]);
    m.record_stat("a", true, 1);
    m.record_stat("b", false, 2);
    let new_config = Config {
        rules: vec![rule("a", 1), rule("c", 1)],
        groups: None,
        alert: None,
    };
    m.replace_config(new_config);
    assert_eq!(m.get_stats("a").unwrap().total_calls, 1);
    assert_eq!(m.get_stats("b"), None);
    assert_eq!(m.get_stats("c"), Some(RuleStats::default()));
    assert_eq!(m.get_config().rules.len(), 2);
}

#[test]
fn rule_defaults_and_stats() {
    assert_eq!(default_block_threshold(), 100);
    assert_eq!(default_alert_window(), Duration::from_secs(300));
    assert_eq!(default_rule_type(), RuleType::Global);
    let mut s = RuleStats::default();
    s.record(false, 9);
    s.record(true, 10);
    assert_eq!(s.total_calls, s.allowed_calls + s.blocked_calls);
    s.reset_window();
    assert_eq!(s.current_window_blocked, 0);
    assert_eq!(s.blocked_calls, 1);
}

#[test]
fn ip_patterns() {
    assert!(ip_matches("10.0.0.1", "10.0.0.1"));
    assert!(ip_matches("10.0.*", "10.0.3.4"));
    assert!(ip_matches("*", "anything"));
    assert!(!ip_matches("10.0.*", "10.1.0.1"));
    assert!(!ip_matches("10.0.0.1", "10.0.0.12"));
}

#[test]
fn rule_matchers_and_activity() {
    let mut r = rule("p", 1);
    r.rule_type = RuleType::PathPrefix;
    r.path_prefix = Some("/api/".to_string());
    assert!(r.matches_path("/api/x"));
    assert!(!r.matches_path("/other"));
    assert!(!r.matches_ip("1.1.1.1"));
    r.rule_type = RuleType::IpWhitelist;
    assert!(r.matches_ip("1.1.1.1"));
    assert!(!r.matches_path("/api/x"));
    // start at 10 s + 5 ns
    assert!(!r.is_active(10_000));
    assert!(r.is_active(10_001));
    r.enabled = false;
    assert!(!r.is_active(10_001));
    // a start outside what chrono accepts counts as the epoch
    let mut q = rule("q", 1);
    q.start_at = Some(UtcTime { secs: 10, nanos: 1_500_000_000 });
    assert!(q.is_active(0));
    q.start_at = Some(UtcTime { secs: 59, nanos: 1_500_000_000 });
    assert!(!q.is_active(60_000));
    assert!(q.is_active(60_500));
}
