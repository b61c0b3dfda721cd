use ratelimit::algorithm::AlgorithmConfig;
use ratelimit::api::matcher::{match_rules, MatchAction};
use ratelimit::config::rule::{Rule, RuleStats, RuleType};
use ratelimit::config::Config;
use ratelimit::key_extractor::KeyExtractor;
use ratelimit::time::{Duration, UtcTime};
use std::sync::Arc;

fn rule(
    id: &str,
    rule_type: RuleType,
    priority: i32,
    algorithm: AlgorithmConfig,
    path_prefix: Option<&str>,
    ip_list: Option<Vec<&str>>,
) -> Rule {
    Rule {
        id: id.to_string(),
        name: None,
        description: None,
        rule_type,
        enabled: true,
        priority,
        algorithm,
        key_extractor: KeyExtractor::ip(),
        path_prefix: path_prefix.map(|p| p.to_string()),
        ip_list: ip_list.map(|l| l.into_iter().map(|s| s.to_string()).collect()),
        graylist_multiplier_bits: None,
        group: None,
        start_at: None,
        end_at: None,
        stats: Default::default(),
    }
}

fn create_test_config() -> Config {
    let mut rules = vec![];

    rules.push(rule(
        "blacklist",
        RuleType::IpBlacklist,
        200,
        AlgorithmConfig::fixed_window(0, Duration::from_secs(1)),
        None,
        Some(vec!["10.0.0.1"]),
    ));

    rules.push(rule(
        "whitelist",
        RuleType::IpWhitelist,
        200,
        AlgorithmConfig::fixed_window(u64::MAX, Duration::from_secs(1)),
        None,
        Some(vec!["10.0.0.2"]),
    ));

    rules.push(rule(
        "api-path",
        RuleType::PathPrefix,
        100,
        AlgorithmConfig::fixed_window(100, Duration::from_secs(60)),
        Some("/api/"),
        None,
    ));

    rules.push(rule(
        "global",
        RuleType::Global,
        1,
        AlgorithmConfig::fixed_window(1000, Duration::from_secs(60)),
        None,
        None,
    ));

    Config {
        rules,
        groups: None,
        alert: None,
    }
}

#[test]
fn test_ip_blacklist() {
    let config = Arc::new(create_test_config());
    let result = match_rules(&config, "10.0.0.1", "/test", 1000000);

    assert!(result.is_some());
    assert_eq!(result.unwrap().action, MatchAction::Deny);
}

#[test]
fn test_ip_whitelist() {
    let config = Arc::new(create_test_config());
    let result = match_rules(&config, "10.0.0.2", "/test", 1000000);

    assert!(result.is_some());
    assert_eq!(result.unwrap().action, MatchAction::Allow);
}

#[test]
fn test_path_prefix() {
    let config = Arc::new(create_test_config());
    let result = match_rules(&config, "192.168.1.1", "/api/users", 1000000);

    assert!(result.is_some());
    let r = result.unwrap();
    assert_eq!(r.action, MatchAction::RateLimit);
    assert_eq!(r.rule.id, "api-path");
}

#[test]
fn test_global_fallback() {
    let config = Arc::new(create_test_config());
    let result = match_rules(&config, "192.168.1.1", "/other/path", 1000000);

    assert!(result.is_some());
    let r = result.unwrap();
    assert_eq!(r.action, MatchAction::RateLimit);
    assert_eq!(r.rule.id, "global");
}

#[test]
fn ip_rule_wins_over_path_and_global() {
    let config = create_test_config();
    let result = match_rules(&config, "10.0.0.1", "/api/users", 1000000).unwrap();
    assert_eq!(result.action, MatchAction::Deny);
    assert_eq!(result.rule.id, "blacklist");
}

#[test]
fn higher_priority_wins_and_ties_keep_order() {
    let mut config = create_test_config();
    config.rules.push(rule(
        "global-high",
        RuleType::Global,
        5,
        AlgorithmConfig::fixed_window(10, Duration::from_secs(1)),
        None,
        None,
    ));
    config.rules.push(rule(
        "global-high-later",
        RuleType::Global,
        5,
        AlgorithmConfig::fixed_window(10, Duration::from_secs(1)),
        None,
        None,
    ));
    let r = match_rules(&config, "1.2.3.4", "/x", 1000000).unwrap();
    assert_eq!(r.rule.id, "global-high");
}

#[test]
fn wildcard_ip_pattern_matches_prefix() {
    let mut config = create_test_config();
    config.rules.push(rule(
        "gray",
        RuleType::IpGraylist,
        300,
        AlgorithmConfig::fixed_window(5, Duration::from_secs(1)),
        None,
        Some(vec!["172.16.*"]),
    ));
    let r = match_rules(&config, "172.16.9.9", "/x", 1000000).unwrap();
    assert_eq!(r.action, MatchAction::RateLimit);
    assert_eq!(r.rule.id, "gray");
    let r = match_rules(&config, "172.17.0.1", "/x", 1000000).unwrap();
    assert_eq!(r.rule.id, "global");
}

#[test]
fn disabled_and_expired_rules_are_skipped() {
    let mut config = create_test_config();
    config.rules[3].enabled = false;
    assert!(match_rules(&config, "192.168.1.1", "/other", 1000000).is_none());

    let mut config = create_test_config();
    // ends at 999 seconds after the epoch: before now = 1000 s
    config.rules[3].end_at = Some(UtcTime { secs: 999, nanos: 0 });
    assert!(match_rules(&config, "192.168.1.1", "/other", 1000000).is_none());

    let mut config = create_test_config();
    // starts at 1000 s exactly: active at now = 1000 s
    config.rules[3].start_at = Some(UtcTime { secs: 1000, nanos: 0 });
    assert!(match_rules(&config, "192.168.1.1", "/other", 1000000).is_some());

    let mut config = create_test_config();
    // starts one nanosecond later: not yet active
    config.rules[3].start_at = Some(UtcTime { secs: 1000, nanos: 1 });
    assert!(match_rules(&config, "192.168.1.1", "/other", 1000000).is_none());
}

#[test]
fn no_rules_no_match() {
    let config = Config::default();
    assert!(match_rules(&config, "1.1.1.1", "/", 1000000).is_none());
    let s = RuleStats::default();
    assert_eq!(s.total_calls, 0);
}
