//! The rule messages of the gRPC interface and their conversion to rules.
use super::handlers::CheckPlan;
use super::matcher::{match_rules, match_spec, MatchAction};
use crate::algorithm::{AlgorithmConfig, AlgorithmType, RateLimitResult};
use crate::config::rule::{now_nanos, opt_text, texts, Rule, RuleStats, RuleType, RuleView};
use crate::config::{first_with_id, lemma_first_with_id, position_of, rule_views, Config};
use crate::key_extractor::{
    extracted_key, pair_views, HeaderList, JsonValue, KeyExtractor, KeySource, PairList,
};
use crate::text::same_text;
use crate::time::Duration;
use vstd::prelude::*;

verus! {

/// The limiter parameters of a rule message.
#[derive(Debug)]
pub struct ProtoAlgorithmConfig {
    pub algorithm: String,
    pub limit: u64,
    pub window_size_seconds: u64,
    pub warmup_period_seconds: Option<u64>,
    pub rate: Option<u64>,
    pub capacity: Option<u64>,
}

/// The key source of a rule message.
#[derive(Debug)]
pub struct ProtoKeyExtractor {
    pub source: String,
    pub expression: String,
}

/// A rule message. Empty texts stand for absent names and descriptions; the
/// graylist multiplier is a floating-point number kept as its bit pattern;
/// instants are Unix seconds.
#[derive(Debug)]
pub struct ProtoRule {
    pub id: String,
    pub name: String,
    pub description: String,
    pub rule_type: String,
    pub enabled: bool,
    pub priority: i32,
    pub algorithm: Option<ProtoAlgorithmConfig>,
    pub key_extractor: Option<ProtoKeyExtractor>,
    pub path_prefix: Option<String>,
    pub ip_list: Vec<String>,
    pub graylist_multiplier_bits: Option<u64>,
    pub group: Option<String>,
    pub start_at: Option<i64>,
    pub end_at: Option<i64>,
}

/// The algorithm a name stands for; unknown names stand for the fixed window.
pub open spec fn algorithm_of(s: Seq<char>) -> AlgorithmType {
    if s == "sliding_window"@ {
        AlgorithmType::SlidingWindow
    } else if s == "token_bucket"@ {
        AlgorithmType::TokenBucket
    } else {
        AlgorithmType::FixedWindow
    }
}

/// The name of an algorithm.
pub open spec fn algorithm_name(a: AlgorithmType) -> Seq<char> {
    match a {
        AlgorithmType::FixedWindow => "fixed_window"@,
        AlgorithmType::SlidingWindow => "sliding_window"@,
        AlgorithmType::TokenBucket => "token_bucket"@,
    }
}

/// The rule type a name stands for; unknown names stand for a global rule.
pub open spec fn rule_type_of(s: Seq<char>) -> RuleType {
    if s == "path_prefix"@ {
        RuleType::PathPrefix
    } else if s == "ip_blacklist"@ {
        RuleType::IpBlacklist
    } else if s == "ip_whitelist"@ {
        RuleType::IpWhitelist
    } else if s == "ip_graylist"@ {
        RuleType::IpGraylist
    } else {
        RuleType::Global
    }
}

/// The name of a rule type.
pub open spec fn rule_type_name(t: RuleType) -> Seq<char> {
    match t {
        RuleType::Global => "global"@,
        RuleType::PathPrefix => "path_prefix"@,
        RuleType::IpBlacklist => "ip_blacklist"@,
        RuleType::IpWhitelist => "ip_whitelist"@,
        RuleType::IpGraylist => "ip_graylist"@,
    }
}

/// The key source a name stands for; unknown names stand for the global key.
pub open spec fn key_source_of(s: Seq<char>) -> KeySource {
    if s == "header"@ {
        KeySource::Header
    } else if s == "query"@ {
        KeySource::Query
    } else if s == "body"@ {
        KeySource::Body
    } else if s == "cookie"@ {
        KeySource::Cookie
    } else if s == "ip"@ {
        KeySource::Ip
    } else if s == "path"@ {
        KeySource::Path
    } else {
        KeySource::Global
    }
}

/// The name of a key source.
pub open spec fn key_source_name(k: KeySource) -> Seq<char> {
    match k {
        KeySource::Header => "header"@,
        KeySource::Query => "query"@,
        KeySource::Body => "body"@,
        KeySource::Cookie => "cookie"@,
        KeySource::Ip => "ip"@,
        KeySource::Path => "path"@,
        KeySource::Global => "global"@,
    }
}

pub fn algorithm_from_str(s: &str) -> (a: AlgorithmType)
    ensures
        a == algorithm_of(s@),
{
    proof {
        reveal_strlit("fixed_window");
        reveal_strlit("sliding_window");
        reveal_strlit("token_bucket");
        assert("fixed_window"@.len() != "sliding_window"@.len());
        assert("fixed_window"@.len() != "token_bucket"@.len() || "fixed_window"@[0] != "token_bucket"@[0]);
    }
    if same_text(s, "fixed_window") {
        AlgorithmType::FixedWindow
    } else if same_text(s, "sliding_window") {
        AlgorithmType::SlidingWindow
    } else if same_text(s, "token_bucket") {
        AlgorithmType::TokenBucket
    } else {
        AlgorithmType::FixedWindow
    }
}

fn algorithm_to_str(a: AlgorithmType) -> (s: String)
    ensures
        s@ == algorithm_name(a),
{
    match a {
        AlgorithmType::FixedWindow => String::from_str("fixed_window"),
        AlgorithmType::SlidingWindow => String::from_str("sliding_window"),
        AlgorithmType::TokenBucket => String::from_str("token_bucket"),
    }
}

fn rule_type_from_str(s: &str) -> (t: RuleType)
    ensures
        t == rule_type_of(s@),
{
    proof {
        reveal_strlit("global");
        reveal_strlit("path_prefix");
        reveal_strlit("ip_blacklist");
        reveal_strlit("ip_whitelist");
        reveal_strlit("ip_graylist");
        assert("global"@.len() != "path_prefix"@.len());
        assert("global"@.len() != "ip_blacklist"@.len());
        assert("global"@.len() != "ip_whitelist"@.len());
        assert("global"@.len() != "ip_graylist"@.len());
        assert("path_prefix"@[0] != "ip_blacklist"@[0]);
        assert("path_prefix"@[0] != "ip_whitelist"@[0]);
        assert("path_prefix"@[0] != "ip_graylist"@[0]);
        assert("ip_blacklist"@[3] != "ip_whitelist"@[3]);
        assert("ip_blacklist"@[3] != "ip_graylist"@[3]);
        assert("ip_whitelist"@[3] != "ip_graylist"@[3]);
    }
    if same_text(s, "global") {
        RuleType::Global
    } else if same_text(s, "path_prefix") {
        RuleType::PathPrefix
    } else if same_text(s, "ip_blacklist") {
        RuleType::IpBlacklist
    } else if same_text(s, "ip_whitelist") {
        RuleType::IpWhitelist
    } else if same_text(s, "ip_graylist") {
        RuleType::IpGraylist
    } else {
        RuleType::Global
    }
}

fn rule_type_to_str(t: RuleType) -> (s: String)
    ensures
        s@ == rule_type_name(t),
{
    match t {
        RuleType::Global => String::from_str("global"),
        RuleType::PathPrefix => String::from_str("path_prefix"),
        RuleType::IpBlacklist => String::from_str("ip_blacklist"),
        RuleType::IpWhitelist => String::from_str("ip_whitelist"),
        RuleType::IpGraylist => String::from_str("ip_graylist"),
    }
}

fn key_source_from_str(s: &str) -> (k: KeySource)
    ensures
        k == key_source_of(s@),
{
    proof {
        reveal_strlit("header");
        reveal_strlit("query");
        reveal_strlit("body");
        reveal_strlit("cookie");
        reveal_strlit("ip");
        reveal_strlit("path");
        reveal_strlit("global");
    }
    if same_text(s, "header") {
        KeySource::Header
    } else if same_text(s, "query") {
        KeySource::Query
    } else if same_text(s, "body") {
        KeySource::Body
    } else if same_text(s, "cookie") {
        KeySource::Cookie
    } else if same_text(s, "ip") {
        KeySource::Ip
    } else if same_text(s, "path") {
        KeySource::Path
    } else if same_text(s, "global") {
        KeySource::Global
    } else {
        KeySource::Global
    }
}

fn key_source_to_str(k: KeySource) -> (s: String)
    ensures
        s@ == key_source_name(k),
{
    match k {
        KeySource::Header => String::from_str("header"),
        KeySource::Query => String::from_str("query"),
        KeySource::Body => String::from_str("body"),
        KeySource::Cookie => String::from_str("cookie"),
        KeySource::Ip => String::from_str("ip"),
        KeySource::Path => String::from_str("path"),
        KeySource::Global => String::from_str("global"),
    }
}

/// A text, or the empty text for none.
pub open spec fn text_or_empty(s: Option<Seq<char>>) -> Seq<char> {
    match s {
        Some(v) => v,
        None => Seq::empty(),
    }
}

/// None for the empty text.
pub open spec fn empty_as_none(s: Seq<char>) -> Option<Seq<char>> {
    if s.len() == 0 {
        None
    } else {
        Some(s)
    }
}

fn opt_or_empty(s: &Option<String>) -> (r: String)
    ensures
        r@ == text_or_empty(opt_text(*s)),
{
    match s {
        Some(v) => v.clone(),
        None => String::new(),
    }
}

fn none_if_empty(s: &String) -> (r: Option<String>)
    ensures
        opt_text(r) == empty_as_none(s@),
{
    if s.unicode_len() == 0 {
        None
    } else {
        Some(s.clone())
    }
}

fn clone_opt_text(s: &Option<String>) -> (r: Option<String>)
    ensures
        opt_text(r) == opt_text(*s),
{
    match s {
        Some(v) => Some(v.clone()),
        None => None,
    }
}

fn clone_texts(v: &Vec<String>) -> (r: Vec<String>)
    ensures
        texts(r@) == texts(v@),
{
    let mut out: Vec<String> = Vec::new();
    let mut i: usize = 0;
    while i < v.len()
        invariant
            0 <= i <= v@.len(),
            texts(out@) =~= texts(v@.take(i as int)),
        decreases v@.len() - i,
    {
        let ghost before = out@;
        out.push(v[i].clone());
        proof {
            assert(v@.take(i + 1) =~= v@.take(i as int).push(v@[i as int]));
            assert(texts(out@) =~= texts(before).push(v@[i as int]@));
            assert(texts(v@.take(i + 1)) =~= texts(v@.take(i as int)).push(v@[i as int]@));
        }
        i += 1;
    }
    assert(v@.take(v@.len() as int) =~= v@);
    out
}

/// The rule message of a rule.
pub fn rule_to_proto(rule: &Rule) -> (p: ProtoRule)
    ensures
        p.id@ == rule.id@,
        p.name@ == text_or_empty(rule@.name),
        p.description@ == text_or_empty(rule@.description),
        p.rule_type@ == rule_type_name(rule.rule_type),
        p.enabled == rule.enabled,
        p.priority == rule.priority,
        p.algorithm matches Some(a) && a.algorithm@ == algorithm_name(rule.algorithm.algorithm)
            && a.limit == rule.algorithm.limit && a.window_size_seconds == rule.algorithm.window_size.secs
            && a.warmup_period_seconds == (match rule.algorithm.warmup_period {
            Some(d) => Some(d.secs),
            None => None,
        }) && a.rate == rule.algorithm.rate && a.capacity == rule.algorithm.capacity,
        p.key_extractor matches Some(k) && k.source@ == key_source_name(rule.key_extractor.source)
            && k.expression@ == rule.key_extractor.expression@,
        opt_text(p.path_prefix) == rule@.path_prefix,
        texts(p.ip_list@) == (match rule@.ip_list {
            Some(l) => l,
            None => Seq::empty(),
        }),
        p.graylist_multiplier_bits == rule.graylist_multiplier_bits,
        opt_text(p.group) == rule@.group,
        p.start_at == (match rule.start_at {
            Some(t) => Some(t.secs),
            None => None,
        }),
        p.end_at == (match rule.end_at {
            Some(t) => Some(t.secs),
            None => None,
        }),
{
    ProtoRule {
        id: rule.id.clone(),
        name: opt_or_empty(&rule.name),
        description: opt_or_empty(&rule.description),
        rule_type: rule_type_to_str(rule.rule_type),
        enabled: rule.enabled,
        priority: rule.priority,
        algorithm: Some(
            ProtoAlgorithmConfig {
                algorithm: algorithm_to_str(rule.algorithm.algorithm),
                limit: rule.algorithm.limit,
                window_size_seconds: rule.algorithm.window_size.as_secs(),
                warmup_period_seconds: match rule.algorithm.warmup_period {
                    Some(d) => Some(d.as_secs()),
                    None => None,
                },
                rate: rule.algorithm.rate,
                capacity: rule.algorithm.capacity,
            },
        ),
        key_extractor: Some(
            ProtoKeyExtractor {
                source: key_source_to_str(rule.key_extractor.source),
                expression: rule.key_extractor.expression.clone(),
            },
        ),
        path_prefix: clone_opt_text(&rule.path_prefix),
        ip_list: match &rule.ip_list {
            Some(list) => clone_texts(list),
            None => {
                let v: Vec<String> = Vec::new();
                proof {
                    assert(texts(v@) =~= Seq::<Seq<char>>::empty());
                }
                v
            },
        },
        graylist_multiplier_bits: rule.graylist_multiplier_bits,
        group: clone_opt_text(&rule.group),
        start_at: match rule.start_at {
            Some(t) => Some(t.secs),
            None => None,
        },
        end_at: match rule.end_at {
            Some(t) => Some(t.secs),
            None => None,
        },
    }
}

/// The rule a rule message describes, with fresh counters and no start or
/// end instant.
pub fn proto_to_rule(proto: &ProtoRule) -> (r: Rule)
    requires
        proto.algorithm is Some,
        proto.key_extractor is Some,
    ensures
        r@ == (RuleView {
            id: proto.id@,
            name: empty_as_none(proto.name@),
            description: empty_as_none(proto.description@),
            rule_type: rule_type_of(proto.rule_type@),
            enabled: proto.enabled,
            priority: proto.priority,
            algorithm: AlgorithmConfig {
                algorithm: algorithm_of(proto.algorithm->0.algorithm@),
                limit: proto.algorithm->0.limit,
                window_size: Duration::from_secs_spec(proto.algorithm->0.window_size_seconds),
                warmup_period: match proto.algorithm->0.warmup_period_seconds {
                    Some(s) => Some(Duration::from_secs_spec(s)),
                    None => None,
                },
                rate: proto.algorithm->0.rate,
                capacity: proto.algorithm->0.capacity,
            },
            key_extractor: r.key_extractor,
            path_prefix: opt_text(proto.path_prefix),
            ip_list: if proto.ip_list@.len() == 0 {
                None
            } else {
                Some(texts(proto.ip_list@))
            },
            graylist_multiplier_bits: proto.graylist_multiplier_bits,
            group: opt_text(proto.group),
            start_at: None,
            end_at: None,
            stats: RuleStats::zero(),
        }),
        r.key_extractor.source == key_source_of(proto.key_extractor->0.source@),
        r.key_extractor.expression@ == proto.key_extractor->0.expression@,
{
    let algo = proto.algorithm.as_ref().unwrap();
    let key_ext = proto.key_extractor.as_ref().unwrap();
    Rule {
        id: proto.id.clone(),
        name: none_if_empty(&proto.name),
        description: none_if_empty(&proto.description),
        rule_type: rule_type_from_str(proto.rule_type.as_str()),
        enabled: proto.enabled,
        priority: proto.priority,
        algorithm: AlgorithmConfig {
            algorithm: algorithm_from_str(algo.algorithm.as_str()),
            limit: algo.limit,
            window_size: Duration::from_secs(algo.window_size_seconds),
            warmup_period: match algo.warmup_period_seconds {
                Some(s) => Some(Duration::from_secs(s)),
                None => None,
            },
            rate: algo.rate,
            capacity: algo.capacity,
        },
        key_extractor: KeyExtractor {
            source: key_source_from_str(key_ext.source.as_str()),
            expression: key_ext.expression.clone(),
        },
        path_prefix: clone_opt_text(&proto.path_prefix),
        ip_list: if proto.ip_list.len() == 0 {
            None
        } else {
            let list = clone_texts(&proto.ip_list);
            Some(list)
        },
        graylist_multiplier_bits: proto.graylist_multiplier_bits,
        group: clone_opt_text(&proto.group),
        start_at: None,
        end_at: None,
        stats: RuleStats::default(),
    }
}

} // verus!

verus! {

/// A check over gRPC, with the request parts already read: empty texts stand
/// for absent values, a zero count for one request.
#[derive(Debug)]
pub struct GrpcCheckRequest {
    pub rule_id: String,
    pub key: String,
    pub count: u64,
    pub path: String,
    pub ip: String,
    pub headers: HeaderList,
    pub query: PairList,
    pub cookies: PairList,
    pub body: Option<JsonValue>,
}

/// The verdict on a gRPC check; waits are in milliseconds.
#[derive(Debug)]
pub struct GrpcCheckResponse {
    pub allowed: bool,
    pub remaining: u64,
    pub reset_at: u64,
    pub retry_after_ms: Option<u64>,
    pub rule_id: String,
    pub key: String,
}

/// A text, or `fallback` when it is empty.
pub open spec fn or_default(s: Seq<char>, fallback: Seq<char>) -> Seq<char> {
    if s.len() == 0 {
        fallback
    } else {
        s
    }
}

/// The key a gRPC check counts under: the one it names, else what the rule's
/// extractor reads from the request parts, else `default`.
pub open spec fn grpc_key_spec(rule: RuleView, req: GrpcCheckRequest) -> Seq<char> {
    let ip = or_default(req.ip@, "unknown"@);
    let path = or_default(req.path@, "/"@);
    if req.key@.len() > 0 {
        req.key@
    } else {
        match extracted_key(
            rule.key_extractor,
            req.headers@,
            pair_views(req.query@),
            req.body,
            pair_views(req.cookies@),
            ip,
            path,
        ) {
            Some(k) => k,
            None => "default"@,
        }
    }
}

/// The plan for a gRPC check.
pub open spec fn grpc_plan_spec(rules: Seq<RuleView>, req: GrpcCheckRequest, now_ms: u64, plan: CheckPlan) -> bool {
    let ip = or_default(req.ip@, "unknown"@);
    let path = or_default(req.path@, "/"@);
    let count: u64 = if req.count == 0 {
        1
    } else {
        req.count
    };
    if req.rule_id@.len() > 0 {
        match first_with_id(rules, req.rule_id@) {
            None => plan is RuleNotFound,
            Some(i) => plan matches CheckPlan::Limit { rule, key, count: c } && rule@ == rules[i]
                && key@ == grpc_key_spec(rules[i], req) && c == count,
        }
    } else {
        match match_spec(rules, ip, path, now_ms) {
            None => plan is NoRule,
            Some((MatchAction::Allow, i)) => plan matches CheckPlan::Decided {
                rule_id,
                allowed,
                key,
            } && rule_id@ == rules[i].id && allowed && key@ == ip,
            Some((MatchAction::Deny, i)) => plan matches CheckPlan::Decided {
                rule_id,
                allowed,
                key,
            } && rule_id@ == rules[i].id && !allowed && key@ == ip,
            Some((MatchAction::RateLimit, i)) => plan matches CheckPlan::Limit {
                rule,
                key,
                count: c,
            } && rule@ == rules[i] && key@ == grpc_key_spec(rules[i], req) && c == count,
        }
    }
}

/// A planned gRPC limiter check consumes the count the call names, and one
/// request when the call's count is zero.
pub proof fn law_grpc_plan_counts_what_the_call_names(
    rules: Seq<RuleView>,
    req: GrpcCheckRequest,
    now_ms: u64,
    plan: CheckPlan,
)
    requires
        grpc_plan_spec(rules, req, now_ms, plan),
    ensures
        plan matches CheckPlan::Limit { count, .. } ==> (req.count != 0 ==> count == req.count) && (req.count
            == 0 ==> count == 1),
{
}

/// Every rule type, algorithm and key source reads back from its name as
/// itself, so a rule sent as a message and read back keeps them; no two rule
/// types share a name; and the wire names of the rule types read as the
/// types they name.
pub proof fn law_names_read_back()
    ensures
        forall|t: RuleType| #[trigger] rule_type_of(rule_type_name(t)) == t,
        forall|a: AlgorithmType| #[trigger] algorithm_of(algorithm_name(a)) == a,
        forall|k: KeySource| #[trigger] key_source_of(key_source_name(k)) == k,
        forall|t: RuleType, u: RuleType| t != u ==> rule_type_name(t) != rule_type_name(u),
        rule_type_of("ip_blacklist"@) == RuleType::IpBlacklist,
        rule_type_of("ip_whitelist"@) == RuleType::IpWhitelist,
        rule_type_of("ip_graylist"@) == RuleType::IpGraylist,
        rule_type_of("path_prefix"@) == RuleType::PathPrefix,
        rule_type_of("global"@) == RuleType::Global,
{
    reveal_strlit("global");
    reveal_strlit("path_prefix");
    reveal_strlit("ip_blacklist");
    reveal_strlit("ip_whitelist");
    reveal_strlit("ip_graylist");
    reveal_strlit("fixed_window");
    reveal_strlit("sliding_window");
    reveal_strlit("token_bucket");
    reveal_strlit("header");
    reveal_strlit("query");
    reveal_strlit("body");
    reveal_strlit("cookie");
    reveal_strlit("ip");
    reveal_strlit("path");
    assert("global"@.len() != "path_prefix"@.len());
    assert("global"@.len() != "ip_blacklist"@.len());
    assert("global"@.len() != "ip_whitelist"@.len());
    assert("global"@.len() != "ip_graylist"@.len());
    assert("path_prefix"@[0] != "ip_blacklist"@[0]);
    assert("path_prefix"@[0] != "ip_whitelist"@[0]);
    assert("path_prefix"@[0] != "ip_graylist"@[0]);
    assert("ip_blacklist"@[3] != "ip_whitelist"@[3]);
    assert("ip_blacklist"@[3] != "ip_graylist"@[3]);
    assert("ip_whitelist"@[3] != "ip_graylist"@[3]);
    assert("fixed_window"@.len() != "sliding_window"@.len());
    assert("fixed_window"@[0] != "token_bucket"@[0]);
    assert("sliding_window"@.len() != "token_bucket"@.len());
    assert("header"@.len() != "query"@.len());
    assert("header"@.len() != "body"@.len());
    assert("header"@[0] != "cookie"@[0]);
    assert("header"@.len() != "ip"@.len());
    assert("header"@.len() != "path"@.len());
    assert("query"@.len() != "body"@.len());
    assert("query"@[0] != "cookie"@[0]);
    assert("query"@.len() != "ip"@.len());
    assert("query"@.len() != "path"@.len());
    assert("body"@.len() != "cookie"@.len());
    assert("body"@.len() != "ip"@.len());
    assert("body"@[0] != "path"@[0]);
    assert("cookie"@.len() != "ip"@.len());
    assert("cookie"@.len() != "path"@.len());
    assert("ip"@.len() != "path"@.len());
    assert("global"@[0] != "header"@[0]);
    assert("global"@[0] != "query"@[0]);
    assert("global"@.len() != "body"@.len());
    assert("global"@[0] != "cookie"@[0]);
    assert("global"@.len() != "ip"@.len());
    assert("global"@.len() != "path"@.len());
}

fn text_or(s: &String, fallback: &str) -> (r: String)
    ensures
        r@ == or_default(s@, fallback@),
{
    if s.unicode_len() == 0 {
        String::from_str(fallback)
    } else {
        s.clone()
    }
}

fn grpc_key(rule: &Rule, req: &GrpcCheckRequest) -> (r: String)
    ensures
        r@ == grpc_key_spec(rule@, *req),
{
    if req.key.unicode_len() > 0 {
        return req.key.clone();
    }
    let ip = text_or(&req.ip, "unknown");
    let path = text_or(&req.path, "/");
    let body = match &req.body {
        Some(b) => Some(b),
        None => None,
    };
    match rule.key_extractor.extract(&req.headers, &req.query, body, &req.cookies, ip.as_str(), path.as_str()) {
        Some(k) => k,
        None => String::from_str("default"),
    }
}

/// Decides which rule and key a gRPC check falls under.
pub fn plan_grpc_check(config: &Config, req: &GrpcCheckRequest, now_ms: u64) -> (r: CheckPlan)
    requires
        i64::MIN <= now_nanos(now_ms) <= i64::MAX,
    ensures
        grpc_plan_spec(rule_views(config.rules@), *req, now_ms, r),
{
    let ip = text_or(&req.ip, "unknown");
    let path = text_or(&req.path, "/");
    let count: u64 = if req.count == 0 {
        1
    } else {
        req.count
    };
    let ghost rules = rule_views(config.rules@);
    if req.rule_id.unicode_len() > 0 {
        proof {
            lemma_first_with_id(rules, req.rule_id@);
        }
        match position_of(&config.rules, req.rule_id.as_str()) {
            None => CheckPlan::RuleNotFound,
            Some(i) => {
                let rule = config.rules[i].clone();
                proof {
                    assert(rules[i as int] == config.rules@[i as int]@);
                }
                let key = grpc_key(&rule, req);
                CheckPlan::Limit { rule, key, count }
            },
        }
    } else {
        match match_rules(config, ip.as_str(), path.as_str(), now_ms) {
            None => CheckPlan::NoRule,
            Some(m) => match m.action {
                MatchAction::Allow => CheckPlan::Decided { rule_id: m.rule.id, allowed: true, key: ip },
                MatchAction::Deny => CheckPlan::Decided { rule_id: m.rule.id, allowed: false, key: ip },
                MatchAction::RateLimit => {
                    let key = grpc_key(&m.rule, req);
                    CheckPlan::Limit { rule: m.rule, key, count }
                },
            },
        }
    }
}

/// How long a blacklisted client is told to wait, in milliseconds: one day.
pub const BLACKLIST_RETRY_MS: u64 = 86_400_000;

/// The answer to a gRPC check that needs no limiter, or the not-found
/// message: `rule <id> not found` for an unknown rule, `no matching rule
/// found` when no rule governs the request.
pub fn grpc_decided_response(plan: &CheckPlan, rule_id: &str, now_ms: u64) -> (r: Result<
    GrpcCheckResponse,
    String,
>)
    requires
        !(*plan is Limit),
        (*plan matches CheckPlan::Decided { allowed, .. } && !allowed) ==> now_ms + BLACKLIST_RETRY_MS
            <= u64::MAX,
    ensures
        match *plan {
            CheckPlan::RuleNotFound => r matches Err(msg) && msg@ == "rule "@ + rule_id@ + " not found"@,
            CheckPlan::NoRule => r matches Err(msg) && msg@ == "no matching rule found"@,
            CheckPlan::Decided { rule_id: id, allowed, key } => r matches Ok(resp) && resp.allowed
                == allowed && resp.rule_id@ == id@ && resp.key@ == key@ && (if allowed {
                resp.remaining == u64::MAX && resp.reset_at == now_ms && resp.retry_after_ms is None
            } else {
                resp.remaining == 0 && resp.reset_at == now_ms + BLACKLIST_RETRY_MS
                    && resp.retry_after_ms == Some(BLACKLIST_RETRY_MS)
            }),
            CheckPlan::Limit { .. } => false,
        },
{
    match plan {
        CheckPlan::RuleNotFound => {
            let mut msg = String::from_str("rule ");
            msg.append(rule_id);
            msg.append(" not found");
            Err(msg)
        },
        CheckPlan::NoRule => Err(String::from_str("no matching rule found")),
        CheckPlan::Decided { rule_id: id, allowed, key } => {
            if *allowed {
                Ok(
                    GrpcCheckResponse {
                        allowed: true,
                        remaining: u64::MAX,
                        reset_at: now_ms,
                        retry_after_ms: None,
                        rule_id: id.clone(),
                        key: key.clone(),
                    },
                )
            } else {
                Ok(
                    GrpcCheckResponse {
                        allowed: false,
                        remaining: 0,
                        reset_at: now_ms + BLACKLIST_RETRY_MS,
                        retry_after_ms: Some(BLACKLIST_RETRY_MS),
                        rule_id: id.clone(),
                        key: key.clone(),
                    },
                )
            }
        },
        CheckPlan::Limit { .. } => {
            proof {
                assert(false);
            }
            Err(String::new())
        },
    }
}

/// The answer to a gRPC check that the limiter of `rule` answered with
/// `result`; the wait is in whole milliseconds, truncated to 64 bits.
pub fn grpc_limit_response(rule: &Rule, key: &String, result: &RateLimitResult) -> (r: GrpcCheckResponse)
    ensures
        r.allowed == result.allowed,
        r.remaining == result.remaining,
        r.reset_at == result.reset_at,
        r.retry_after_ms == (match result.retry_after {
            Some(d) => Some(d.millis() as u64),
            None => None,
        }),
        r.rule_id@ == rule.id@,
        r.key@ == key@,
{
    GrpcCheckResponse {
        allowed: result.allowed,
        remaining: result.remaining,
        reset_at: result.reset_at,
        retry_after_ms: match result.retry_after {
            Some(d) => Some(d.as_millis() as u64),
            None => None,
        },
        rule_id: rule.id.clone(),
        key: key.clone(),
    }
}

} // verus!
