use ratelimit::algorithm::{AlgorithmConfig, RateLimitResult};
use ratelimit::api::handlers::{
    client_ip, decided_reply, default_count, default_rule_id, limit_reply, plan_check, CheckBody,
    CheckPlan, CheckRequest, RuleStatsResponse,
};
use ratelimit::config::rule::{Rule, RuleStats, RuleType};
use ratelimit::config::Config;
use ratelimit::key_extractor::{HeaderList, KeyExtractor};
use ratelimit::time::Duration;

fn rule(id: &str, rule_type: RuleType, priority: i32, key: KeyExtractor, ips: Option<Vec<&str>>) -> Rule {
    Rule {
        id: id.to_string(),
        name: None,
        description: None,
        rule_type,
        enabled: true,
        priority,
        algorithm: AlgorithmConfig::fixed_window(10, Duration::from_secs(1)),
        key_extractor: key,
        path_prefix: None,
        ip_list: ips.map(|l| l.into_iter().map(|s| s.to_string()).collect()),
        graylist_multiplier_bits: None,
        group: None,
        start_at: None,
        end_at: None,
        stats: RuleStats::default(),
    }
}

fn config() -> Config {
    Config {
        rules: vec![
            rule("deny", RuleType::IpBlacklist, 10, KeyExtractor::ip(), Some(vec!["6.6.6.6"])),
            rule("allow", RuleType::IpWhitelist, 10, KeyExtractor::ip(), Some(vec!["7.7.7.7"])),
            rule("global", RuleType::Global, 1, KeyExtractor::cookie("sid"), None),
        ],
        groups: None,
        alert: None,
    }
}

fn request(rule_id: Option<&str>, key: Option<&str>, ip: Option<&str>) -> CheckRequest {
    CheckRequest {
        rule_id: rule_id.map(|s| s.to_string()),
        key: key.map(|s| s.to_string()),
        count: default_count(),
        path: None,
        ip: ip.map(|s| s.to_string()),
    }
}

#[test]
fn defaults() {
    assert_eq!(default_rule_id(), None);
    assert_eq!(default_count(), Some(1));
}

#[test]
fn client_ip_from_forwarded_header() {
    let headers: HeaderList = vec![("x-forwarded-for".to_string(), Some(" 9.9.9.9 , 10.0.0.1".to_string()))];
    assert_eq!(client_ip(&None, &headers), "9.9.9.9");
    assert_eq!(client_ip(&Some("1.2.3.4".to_string()), &headers), "1.2.3.4");
    assert_eq!(client_ip(&None, &HeaderList::new()), "unknown");
}

#[test]
fn plans() {
    let c = config();
    let h = HeaderList::new();
    match plan_check(&c, &request(Some("missing"), None, None), &h, 1_000_000) {
        CheckPlan::RuleNotFound => {},
        other => panic!("{:?}", other),
    }
    match plan_check(&c, &request(None, None, Some("6.6.6.6")), &h, 1_000_000) {
        CheckPlan::Decided { rule_id, allowed, key } => {
            assert_eq!(rule_id, "deny");
            assert!(!allowed);
            assert_eq!(key, "6.6.6.6");
        },
        other => panic!("{:?}", other),
    }
    match plan_check(&c, &request(None, None, Some("7.7.7.7")), &h, 1_000_000) {
        CheckPlan::Decided { rule_id, allowed, .. } => {
            assert_eq!(rule_id, "allow");
            assert!(allowed);
        },
        other => panic!("{:?}", other),
    }
    let cookies: HeaderList = vec![("cookie".to_string(), Some("sid=abc".to_string()))];
    match plan_check(&c, &request(None, None, Some("1.1.1.1")), &cookies, 1_000_000) {
        CheckPlan::Limit { rule, key, count } => {
            assert_eq!(rule.id, "global");
            assert_eq!(key, "abc");
            assert_eq!(count, 1);
        },
        other => panic!("{:?}", other),
    }
    match plan_check(&c, &request(None, None, Some("1.1.1.1")), &h, 1_000_000) {
        CheckPlan::Limit { key, .. } => assert_eq!(key, "default"),
        other => panic!("{:?}", other),
    }
    // a named rule is limited even when it is a blacklist
    match plan_check(&c, &request(Some("deny"), Some("k"), None), &h, 1_000_000) {
        CheckPlan::Limit { rule, key, .. } => {
            assert_eq!(rule.id, "deny");
            assert_eq!(key, "k");
        },
        other => panic!("{:?}", other),
    }
    let empty = Config::default();
    match plan_check(&empty, &request(None, None, None), &h, 1_000_000) {
        CheckPlan::NoRule => {},
        other => panic!("{:?}", other),
    }
}

#[test]
fn immediate_replies() {
    let r = decided_reply(&CheckPlan::RuleNotFound, 5);
    assert_eq!(r.status, 404);
    match r.body {
        CheckBody::Error(m) => assert_eq!(m, "rule not found"),
        other => panic!("{:?}", other),
    }
    let r = decided_reply(&CheckPlan::Decided { rule_id: "deny".to_string(), allowed: false, key: "6.6.6.6".to_string() }, 5);
    assert_eq!(r.status, 403);
    assert_eq!(
        r.headers,
        vec![
            ("X-RateLimit-Limit".to_string(), 0),
            ("X-RateLimit-Remaining".to_string(), 0),
            ("Retry-After".to_string(), 86400)
        ]
    );
    match r.body {
        CheckBody::Verdict { response, reason } => {
            assert!(!response.allowed);
            assert_eq!(response.reset_at, 86_400_005);
            assert_eq!(response.retry_after, Some(86400));
            assert_eq!(reason, Some("ip blacklisted".to_string()));
        },
        other => panic!("{:?}", other),
    }
    let r = decided_reply(&CheckPlan::Decided { rule_id: "allow".to_string(), allowed: true, key: "7".to_string() }, 5);
    assert_eq!(r.status, 200);
    match r.body {
        CheckBody::Verdict { response, .. } => assert_eq!(response.remaining, u64::MAX),
        other => panic!("{:?}", other),
    }
    let r = decided_reply(&CheckPlan::NoRule, 5);
    match r.body {
        CheckBody::Verdict { response, .. } => {
            assert!(response.allowed);
            assert_eq!(response.rule_id, "");
        },
        other => panic!("{:?}", other),
    }
}

#[test]
fn limited_replies() {
    let g = rule("global", RuleType::Global, 1, KeyExtractor::ip(), None);
    let ok = RateLimitResult { allowed: true, remaining: 4, reset_at: 12_345, retry_after: None };
    let r = limit_reply(&g, &"k".to_string(), &ok);
    assert_eq!(r.status, 200);
    assert_eq!(r.headers.len(), 3);
    assert_eq!(r.headers[2], ("X-RateLimit-Reset".to_string(), 12));
    let refused = RateLimitResult {
        allowed: false,
        remaining: 0,
        reset_at: 12_345,
        retry_after: Some(Duration::from_millis(300)),
    };
    let r = limit_reply(&g, &"k".to_string(), &refused);
    assert_eq!(r.status, 429);
    assert_eq!(r.headers[3], ("Retry-After".to_string(), 1));
    match r.body {
        CheckBody::Verdict { response, .. } => assert_eq!(response.retry_after, Some(1)),
        other => panic!("{:?}", other),
    }
    let refused = RateLimitResult { retry_after: Some(Duration::from_millis(2_500)), ..refused };
    let r = limit_reply(&g, &"k".to_string(), &refused);
    assert_eq!(r.headers[3], ("Retry-After".to_string(), 2));
}

#[test]
fn stats_response() {
    let mut s = RuleStats::default();
    s.record(true, 3);
    let r = RuleStatsResponse::from_stats(&s);
    assert_eq!(r.total_calls, 1);
    assert_eq!(r.last_triggered_at, Some(3));
}
