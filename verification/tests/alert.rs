use ratelimit::alert::AlertManager;
use ratelimit::algorithm::AlgorithmConfig;
use ratelimit::config::manager::ConfigManager;
use ratelimit::config::rule::{AlertConfig, Rule, RuleStats, RuleType, WebhookConfig, WebhookType};
use ratelimit::config::Config;
use ratelimit::key_extractor::KeyExtractor;
use ratelimit::time::Duration;

fn rule(id: &str, enabled: bool) -> Rule {
    Rule {
        id: id.to_string(),
        name: None,
        description: None,
        rule_type: RuleType::Global,
        enabled,
        priority: 1,
        algorithm: AlgorithmConfig::fixed_window(1, Duration::from_secs(1)),
        key_extractor: KeyExtractor::ip(),
        path_prefix: None,
        ip_list: None,
        graylist_multiplier_bits: None,
        group: None,
        start_at: None,
        end_at: None,
        stats: RuleStats::default(),
    }
}

fn manager(enabled: bool) -> ConfigManager {
    let config = Config {
        rules: vec![rule("a", true), rule("b", true), rule("off", false)],
        groups: None,
        alert: Some(AlertConfig {
            enabled,
            block_threshold: 2,
            window: Duration::from_secs(60),
            webhooks: vec![WebhookConfig {
                webhook_type: WebhookType::Generic,
                url: "http://example".to_string(),
                secret: None,
            }],
        }),
    };
    ConfigManager::new(config, "c.yaml".to_string())
}

#[test]
fn alerts_once_per_window() {
    let mut m = manager(true);
    for t in 0..3 {
        m.record_stat("a", false, t);
        m.record_stat("off", false, t);
    }
    m.record_stat("b", false, 1);
    let mut alerts = AlertManager::new();
    let due = alerts.check_and_alert(&m, 100_000);
    assert_eq!(due.len(), 1);
    assert_eq!(due[0].rule_id, "a");
    assert_eq!(due[0].blocked_count, 3);
    assert!(alerts.check_and_alert(&m, 160_000).is_empty());
    let due = alerts.check_and_alert(&m, 160_001);
    assert_eq!(due.len(), 1);
}

#[test]
fn no_alerts_when_disabled() {
    let mut m = manager(false);
    for t in 0..5 {
        m.record_stat("a", false, t);
    }
    let mut alerts = AlertManager::new();
    assert!(alerts.check_and_alert(&m, 100_000).is_empty());
}
