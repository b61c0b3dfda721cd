use ratelimit::algorithm::{AlgorithmConfig, AlgorithmType, RateLimitResult};
use ratelimit::api::grpc::{
    algorithm_from_str, grpc_decided_response, grpc_limit_response, plan_grpc_check, proto_to_rule,
    rule_to_proto, GrpcCheckRequest,
};
use ratelimit::api::handlers::CheckPlan;
use ratelimit::config::rule::{Rule, RuleStats, RuleType};
use ratelimit::config::Config;
use ratelimit::key_extractor::{HeaderList, JsonMember, JsonValue, KeyExtractor, KeySource, PairList};
use ratelimit::time::{Duration, UtcTime};

fn rule() -> Rule {
    Rule {
        id: "r1".to_string(),
        name: Some("Rule".to_string()),
        description: None,
        rule_type: RuleType::IpGraylist,
        enabled: true,
        priority: 3,
        algorithm: AlgorithmConfig::token_bucket(5, 10, Some(Duration::from_secs(30))),
        key_extractor: KeyExtractor::body("$.user"),
        path_prefix: None,
        ip_list: Some(vec!["1.2.*".to_string()]),
        graylist_multiplier_bits: Some(0.5f64.to_bits()),
        group: Some("g".to_string()),
        start_at: Some(UtcTime { secs: 1_700_000_000, nanos: 0 }),
        end_at: None,
        stats: RuleStats::default(),
    }
}

#[test]
fn names() {
    assert_eq!(algorithm_from_str("sliding_window"), AlgorithmType::SlidingWindow);
    assert_eq!(algorithm_from_str("token_bucket"), AlgorithmType::TokenBucket);
    assert_eq!(algorithm_from_str("fixed_window"), AlgorithmType::FixedWindow);
    assert_eq!(algorithm_from_str("other"), AlgorithmType::FixedWindow);
}

#[test]
fn rule_message_round_trip() {
    let r = rule();
    let p = rule_to_proto(&r);
    assert_eq!(p.rule_type, "ip_graylist");
    assert_eq!(p.description, "");
    assert_eq!(p.start_at, Some(1_700_000_000));
    let a = p.algorithm.as_ref().unwrap();
    assert_eq!(a.algorithm, "token_bucket");
    assert_eq!(a.window_size_seconds, 1);
    assert_eq!(a.warmup_period_seconds, Some(30));
    assert_eq!(p.key_extractor.as_ref().unwrap().source, "body");
    let back = proto_to_rule(&p);
    assert_eq!(back.id, r.id);
    assert_eq!(back.name, r.name);
    assert_eq!(back.description, None);
    assert_eq!(back.rule_type, r.rule_type);
    assert_eq!(back.algorithm, r.algorithm);
    assert_eq!(back.key_extractor.source, KeySource::Body);
    assert_eq!(back.key_extractor.expression, "$.user");
    assert_eq!(back.ip_list, r.ip_list);
    assert_eq!(back.graylist_multiplier_bits, r.graylist_multiplier_bits);
    assert_eq!(back.group, r.group);
    assert_eq!(back.start_at, None);
}

#[test]
fn grpc_plan_and_responses() {
    let config = Config { rules: vec![rule()], groups: None, alert: None };
    let body = JsonValue::Object(vec![JsonMember { key: "user".to_string(), value: JsonValue::String("u7".to_string()) }]);
    let req = GrpcCheckRequest {
        rule_id: String::new(),
        key: String::new(),
        count: 0,
        path: String::new(),
        ip: "1.2.3.4".to_string(),
        headers: HeaderList::new(),
        query: PairList::new(),
        cookies: PairList::new(),
        body: Some(body),
    };
    // the graylist rule starts in 2023
    let now = 1_800_000_000_000;
    match plan_grpc_check(&config, &req, now) {
        CheckPlan::Limit { rule, key, count } => {
            assert_eq!(rule.id, "r1");
            assert_eq!(key, "u7");
            assert_eq!(count, 1);
        },
        other => panic!("{:?}", other),
    }
    match plan_grpc_check(&config, &req, 1_000) {
        CheckPlan::NoRule => {},
        other => panic!("{:?}", other),
    }
    assert_eq!(grpc_decided_response(&CheckPlan::NoRule, "", 1).unwrap_err(), "no matching rule found");
    assert_eq!(grpc_decided_response(&CheckPlan::RuleNotFound, "x", 1).unwrap_err(), "rule x not found");
    let d = grpc_decided_response(
        &CheckPlan::Decided { rule_id: "b".to_string(), allowed: false, key: "ip".to_string() },
        "",
        1,
    )
    .unwrap();
    assert_eq!(d.reset_at, 86_400_001);
    assert_eq!(d.retry_after_ms, Some(86_400_000));
    let res = RateLimitResult { allowed: false, remaining: 0, reset_at: 9, retry_after: Some(Duration::from_millis(1_500)) };
    let g = grpc_limit_response(&rule(), &"k".to_string(), &res);
    assert_eq!(g.retry_after_ms, Some(1_500));
}
