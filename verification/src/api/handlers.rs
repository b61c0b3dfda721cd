//! The decisions behind the HTTP check endpoint: which rule and key a
//! request falls under, and the reply it gets.
use super::matcher::{match_rules, match_spec, MatchAction};
use crate::algorithm::RateLimitResult;
use crate::time::Duration;
use crate::config::rule::{now_nanos, Rule, RuleStats, RuleView};
use crate::config::{first_with_id, lemma_first_with_id, position_of, rule_views, Config};
use crate::key_extractor::{
    extracted_key, first_header, pair_views, parse_cookies, request_cookies, HeaderList, PairList,
};
use crate::text::{split, split_spec, trim, trim_spec};
use vstd::prelude::*;

verus! {

/// A check request. Without a rule id the rule is matched from the client IP
/// and path; without a key the rule's extractor reads it.
#[derive(Debug)]
pub struct CheckRequest {
    pub rule_id: Option<String>,
    pub key: Option<String>,
    pub count: Option<u64>,
    pub path: Option<String>,
    pub ip: Option<String>,
}

/// Rule id of a check request that does not name one.
pub fn default_rule_id() -> (r: Option<String>)
    ensures
        r is None,
{
    None
}

/// Count of a check request that does not name one.
pub fn default_count() -> (r: Option<u64>)
    ensures
        r == Some(1u64),
{
    Some(1)
}

/// The verdict on a check.
#[derive(Debug)]
pub struct CheckResponse {
    pub allowed: bool,
    pub remaining: u64,
    pub reset_at: u64,
    pub retry_after: Option<u64>,
    pub rule_id: String,
    pub key: String,
}

/// The counters of a rule as reported by the rule endpoints.
#[derive(Debug, Clone, Copy, PartialEq, Eq, Structural)]
pub struct RuleStatsResponse {
    pub total_calls: u64,
    pub allowed_calls: u64,
    pub blocked_calls: u64,
    pub last_triggered_at: Option<u64>,
}

impl RuleStatsResponse {
    pub fn from_stats(s: &RuleStats) -> (r: Self)
        ensures
            r.total_calls == s.total_calls,
            r.allowed_calls == s.allowed_calls,
            r.blocked_calls == s.blocked_calls,
            r.last_triggered_at == s.last_triggered_at,
    {
        RuleStatsResponse {
            total_calls: s.total_calls,
            allowed_calls: s.allowed_calls,
            blocked_calls: s.blocked_calls,
            last_triggered_at: s.last_triggered_at,
        }
    }
}

/// What a check request leads to before any limiter is asked.
#[derive(Debug)]
pub enum CheckPlan {
    /// The request names a rule that does not exist.
    RuleNotFound,
    /// No rule governs the request.
    NoRule,
    /// An IP list rule lets the request through or refuses it outright.
    Decided { rule_id: String, allowed: bool, key: String },
    /// The limiter of `rule` decides on `count` requests under `key`.
    Limit { rule: Rule, key: String, count: u64 },
}

/// The client address: the one the request names, else the first entry of
/// the first `X-Forwarded-For` header, trimmed, else `unknown`.
pub open spec fn client_ip_spec(req_ip: Option<Seq<char>>, headers: Seq<(String, Option<String>)>) -> Seq<
    char,
> {
    match req_ip {
        Some(ip) => ip,
        None => match first_header(headers, "x-forwarded-for"@) {
            Some(Some(v)) => trim_spec(split_spec(v, ',')[0]),
            _ => "unknown"@,
        },
    }
}

/// The path the request names, else `/`.
pub open spec fn request_path_spec(req_path: Option<Seq<char>>) -> Seq<char> {
    match req_path {
        Some(p) => p,
        None => "/"@,
    }
}

/// The key a check counts under: the one the request names, else what the
/// rule's extractor reads from the headers and cookies, else `default`.
pub open spec fn request_key_spec(
    rule: RuleView,
    req_key: Option<Seq<char>>,
    headers: Seq<(String, Option<String>)>,
    ip: Seq<char>,
    path: Seq<char>,
) -> Seq<char> {
    match req_key {
        Some(k) => k,
        None => match extracted_key(
            rule.key_extractor,
            headers,
            Seq::empty(),
            None,
            request_cookies(headers),
            ip,
            path,
        ) {
            Some(k) => k,
            None => "default"@,
        },
    }
}

pub open spec fn opt_view(s: Option<String>) -> Option<Seq<char>> {
    match s {
        Some(v) => Some(v@),
        None => None,
    }
}

/// The plan for a check request, over the rules of the configuration.
pub open spec fn plan_spec(
    rules: Seq<RuleView>,
    req: CheckRequest,
    headers: Seq<(String, Option<String>)>,
    now_ms: u64,
    plan: CheckPlan,
) -> bool {
    let ip = client_ip_spec(opt_view(req.ip), headers);
    let path = request_path_spec(opt_view(req.path));
    let count: u64 = match req.count {
        Some(c) => c,
        None => 1,
    };
    match req.rule_id {
        Some(id) => match first_with_id(rules, id@) {
            None => plan is RuleNotFound,
            Some(i) => plan matches CheckPlan::Limit { rule, key, count: c } && rule@ == rules[i]
                && key@ == request_key_spec(rules[i], opt_view(req.key), headers, ip, path) && c
                == count,
        },
        None => match match_spec(rules, ip, path, now_ms) {
            None => plan is NoRule,
            Some((MatchAction::Allow, i)) => plan matches CheckPlan::Decided {
                rule_id,
                allowed,
                key,
            } && rule_id@ == rules[i].id && allowed && key@ == ip,
            Some((MatchAction::Deny, i)) => plan matches CheckPlan::Decided {
                rule_id,
                allowed,
                key,
            } && rule_id@ == rules[i].id && !allowed && key@ == ip,
            Some((MatchAction::RateLimit, i)) => plan matches CheckPlan::Limit {
                rule,
                key,
                count: c,
            } && rule@ == rules[i] && key@ == request_key_spec(
                rules[i],
                opt_view(req.key),
                headers,
                ip,
                path,
            ) && c == count,
        },
    }
}

/// A planned limiter check consumes the count the request names, and one
/// request when it names none; a request naming an existing rule is always
/// planned against that rule.
pub proof fn law_plan_counts_what_the_request_names(
    rules: Seq<RuleView>,
    req: CheckRequest,
    headers: Seq<(String, Option<String>)>,
    now_ms: u64,
    plan: CheckPlan,
)
    requires
        plan_spec(rules, req, headers, now_ms, plan),
    ensures
        plan matches CheckPlan::Limit { count, .. } ==> (req.count matches Some(c) ==> count == c) && (
        req.count is None ==> count == 1),
        (req.rule_id is Some && first_with_id(rules, req.rule_id.unwrap()@) is Some) ==> (
        plan matches CheckPlan::Limit { rule, .. } && rule@.id == req.rule_id.unwrap()@),
{
    if let Some(id) = req.rule_id {
        crate::config::lemma_first_with_id(rules, id@);
    }
}

proof fn lemma_split_nonempty(s: Seq<char>, c: char)
    ensures
        split_spec(s, c).len() >= 1,
{
    match crate::text::find_spec(s, c) {
        Some(i) => {},
        None => {},
    }
}

/// The client address of a check request.
pub fn client_ip(req_ip: &Option<String>, headers: &HeaderList) -> (r: String)
    ensures
        r@ == client_ip_spec(opt_view(*req_ip), headers@),
{
    match req_ip {
        Some(ip) => ip.clone(),
        None => {
            let mut i: usize = 0;
            let ghost name = "x-forwarded-for"@;
            assert(headers@.skip(0) =~= headers@);
            while i < headers.len()
                invariant
                    0 <= i <= headers@.len(),
                    *req_ip is None,
                    name == "x-forwarded-for"@,
                    first_header(headers@, name) == first_header(headers@.skip(i as int), name),
                decreases headers@.len() - i,
            {
                proof {
                    assert(headers@.skip(i as int)[0] == headers@[i as int]);
                    assert(headers@.skip(i as int).drop_first() =~= headers@.skip(i + 1));
                }
                if crate::text::same_text(headers[i].0.as_str(), "x-forwarded-for") {
                    return match &headers[i].1 {
                        Some(v) => {
                            let parts = split(v.as_str(), ',');
                            proof {
                                lemma_split_nonempty(v@, ',');
                            }
                            String::from_str(trim(parts[0].as_str()))
                        },
                        None => String::from_str("unknown"),
                    };
                }
                i += 1;
            }
            String::from_str("unknown")
        },
    }
}

fn request_key(rule: &Rule, req_key: &Option<String>, headers: &HeaderList, ip: &str, path: &str) -> (r:
    String)
    ensures
        r@ == request_key_spec(rule@, opt_view(*req_key), headers@, ip@, path@),
{
    match req_key {
        Some(k) => k.clone(),
        None => {
            let query_params: PairList = Vec::new();
            let cookies = parse_cookies(headers);
            proof {
                assert(pair_views(query_params@) =~= Seq::<(Seq<char>, Seq<char>)>::empty());
            }
            match rule.key_extractor.extract(headers, &query_params, None, &cookies, ip, path) {
                Some(k) => k,
                None => String::from_str("default"),
            }
        },
    }
}

/// Decides which rule and key a check request falls under.
pub fn plan_check(config: &Config, req: &CheckRequest, headers: &HeaderList, now_ms: u64) -> (r:
    CheckPlan)
    requires
        i64::MIN <= now_nanos(now_ms) <= i64::MAX,
    ensures
        plan_spec(rule_views(config.rules@), *req, headers@, now_ms, r),
{
    let ip = client_ip(&req.ip, headers);
    let path = match &req.path {
        Some(p) => p.clone(),
        None => String::from_str("/"),
    };
    let count: u64 = match req.count {
        Some(c) => c,
        None => 1,
    };
    let ghost rules = rule_views(config.rules@);
    match &req.rule_id {
        Some(rule_id) => {
            proof {
                lemma_first_with_id(rules, rule_id@);
            }
            match position_of(&config.rules, rule_id.as_str()) {
                None => CheckPlan::RuleNotFound,
                Some(i) => {
                    let rule = config.rules[i].clone();
                    proof {
                        assert(rules[i as int] == config.rules@[i as int]@);
                    }
                    let key = request_key(&rule, &req.key, headers, ip.as_str(), path.as_str());
                    CheckPlan::Limit { rule, key, count }
                },
            }
        },
        None => match match_rules(config, ip.as_str(), path.as_str(), now_ms) {
            None => CheckPlan::NoRule,
            Some(m) => match m.action {
                MatchAction::Allow => CheckPlan::Decided { rule_id: m.rule.id, allowed: true, key: ip },
                MatchAction::Deny => CheckPlan::Decided { rule_id: m.rule.id, allowed: false, key: ip },
                MatchAction::RateLimit => {
                    let key = request_key(&m.rule, &req.key, headers, ip.as_str(), path.as_str());
                    CheckPlan::Limit { rule: m.rule, key, count }
                },
            },
        },
    }
}

} // verus!

verus! {

/// Body of a check reply.
#[derive(Debug)]
pub enum CheckBody {
    /// An error message.
    Error(String),
    /// A verdict, with the reason when an IP list refused the request.
    Verdict { response: CheckResponse, reason: Option<String> },
}

/// HTTP status, numeric headers and body of a check reply.
#[derive(Debug)]
pub struct CheckReply {
    pub status: u16,
    pub headers: Vec<(String, u64)>,
    pub body: CheckBody,
}

/// How long a blacklisted client is told to wait, in seconds: one day.
pub const BLACKLIST_RETRY_SECS: u64 = 86400;

/// Names and values of a header list, as texts.
pub open spec fn header_views(h: Seq<(String, u64)>) -> Seq<(Seq<char>, u64)> {
    h.map_values(|e: (String, u64)| (e.0@, e.1))
}

/// The whole seconds of a wait, at least one.
pub open spec fn retry_secs(d: Duration) -> u64 {
    if d.secs >= 1 {
        d.secs
    } else {
        1
    }
}

/// A verdict body.
pub open spec fn verdict_is(
    body: CheckBody,
    allowed: bool,
    remaining: u64,
    reset_at: u64,
    retry_after: Option<u64>,
    rule_id: Seq<char>,
    key: Seq<char>,
    reason: Option<Seq<char>>,
) -> bool {
    body matches CheckBody::Verdict { response, reason: rs } && response.allowed == allowed
        && response.remaining == remaining && response.reset_at == reset_at && response.retry_after
        == retry_after && response.rule_id@ == rule_id && response.key@ == key && opt_view(rs)
        == reason
}

fn header(name: &str, value: u64) -> (h: (String, u64))
    ensures
        h.0@ == name@,
        h.1 == value,
{
    (String::from_str(name), value)
}

/// The reply to a check that needs no limiter: an unknown rule (404), no
/// governing rule (allowed, 200), a whitelisted client (allowed, 200) or a
/// blacklisted one (refused for a day, 403).
pub fn decided_reply(plan: &CheckPlan, now_ms: u64) -> (r: CheckReply)
    requires
        !(*plan is Limit),
        (*plan matches CheckPlan::Decided { allowed, .. } && !allowed) ==> now_ms + BLACKLIST_RETRY_SECS
            * 1000 <= u64::MAX,
    ensures
        match *plan {
            CheckPlan::RuleNotFound => r.status == 404 && r.headers@.len() == 0 && (r.body matches CheckBody::Error(
                msg
            ) && msg@ == "rule not found"@),
            CheckPlan::NoRule => r.status == 200 && r.headers@.len() == 0 && verdict_is(
                r.body,
                true,
                0,
                now_ms,
                None,
                Seq::empty(),
                Seq::empty(),
                None,
            ),
            CheckPlan::Decided { rule_id, allowed, key } => if allowed {
                r.status == 200 && r.headers@.len() == 0 && verdict_is(
                    r.body,
                    true,
                    u64::MAX,
                    now_ms,
                    None,
                    rule_id@,
                    key@,
                    None,
                )
            } else {
                r.status == 403 && header_views(r.headers@) == seq![
                    ("X-RateLimit-Limit"@, 0u64),
                    ("X-RateLimit-Remaining"@, 0u64),
                    ("Retry-After"@, BLACKLIST_RETRY_SECS),
                ] && verdict_is(
                    r.body,
                    false,
                    0,
                    (now_ms + BLACKLIST_RETRY_SECS * 1000) as u64,
                    Some(BLACKLIST_RETRY_SECS),
                    rule_id@,
                    key@,
                    Some("ip blacklisted"@),
                )
            },
            CheckPlan::Limit { .. } => false,
        },
{
    match plan {
        CheckPlan::RuleNotFound => CheckReply {
            status: 404,
            headers: Vec::new(),
            body: CheckBody::Error(String::from_str("rule not found")),
        },
        CheckPlan::NoRule => CheckReply {
            status: 200,
            headers: Vec::new(),
            body: CheckBody::Verdict {
                response: CheckResponse {
                    allowed: true,
                    remaining: 0,
                    reset_at: now_ms,
                    retry_after: None,
                    rule_id: String::new(),
                    key: String::new(),
                },
                reason: None,
            },
        },
        CheckPlan::Decided { rule_id, allowed, key } => {
            if *allowed {
                CheckReply {
                    status: 200,
                    headers: Vec::new(),
                    body: CheckBody::Verdict {
                        response: CheckResponse {
                            allowed: true,
                            remaining: u64::MAX,
                            reset_at: now_ms,
                            retry_after: None,
                            rule_id: rule_id.clone(),
                            key: key.clone(),
                        },
                        reason: None,
                    },
                }
            } else {
                let mut headers: Vec<(String, u64)> = Vec::new();
                headers.push(header("X-RateLimit-Limit", 0));
                headers.push(header("X-RateLimit-Remaining", 0));
                headers.push(header("Retry-After", BLACKLIST_RETRY_SECS));
                proof {
                    assert(header_views(headers@) =~= seq![
                        ("X-RateLimit-Limit"@, 0u64),
                        ("X-RateLimit-Remaining"@, 0u64),
                        ("Retry-After"@, BLACKLIST_RETRY_SECS),
                    ]);
                }
                CheckReply {
                    status: 403,
                    headers,
                    body: CheckBody::Verdict {
                        response: CheckResponse {
                            allowed: false,
                            remaining: 0,
                            reset_at: now_ms + BLACKLIST_RETRY_SECS * 1000,
                            retry_after: Some(BLACKLIST_RETRY_SECS),
                            rule_id: rule_id.clone(),
                            key: key.clone(),
                        },
                        reason: Some(String::from_str("ip blacklisted")),
                    },
                }
            }
        },
        CheckPlan::Limit { .. } => {
            proof {
                assert(false);
            }
            CheckReply { status: 500, headers: Vec::new(), body: CheckBody::Error(String::new()) }
        },
    }
}

/// The reply to a check that the limiter of `rule` answered with `result`:
/// 200 when allowed, else 429 with a `Retry-After` of the wait in whole
/// seconds, at least one.
pub fn limit_reply(rule: &Rule, key: &String, result: &RateLimitResult) -> (r: CheckReply)
    ensures
        r.status == (if result.allowed {
            200u16
        } else {
            429u16
        }),
        header_views(r.headers@) == seq![
            ("X-RateLimit-Limit"@, rule.algorithm.limit),
            ("X-RateLimit-Remaining"@, result.remaining),
            ("X-RateLimit-Reset"@, result.reset_at / 1000),
        ] + (if !result.allowed && result.retry_after is Some {
            seq![("Retry-After"@, retry_secs(result.retry_after->0))]
        } else {
            Seq::empty()
        }),
        verdict_is(
            r.body,
            result.allowed,
            result.remaining,
            result.reset_at,
            match result.retry_after {
                Some(d) => Some(retry_secs(d)),
                None => None,
            },
            rule.id@,
            key@,
            None,
        ),
{
    let mut headers: Vec<(String, u64)> = Vec::new();
    headers.push(header("X-RateLimit-Limit", rule.algorithm.limit));
    headers.push(header("X-RateLimit-Remaining", result.remaining));
    headers.push(header("X-RateLimit-Reset", result.reset_at / 1000));
    let ghost base = header_views(headers@);
    let retry_after = match result.retry_after {
        Some(d) => {
            let s = d.as_secs();
            Some(if s >= 1 { s } else { 1 })
        },
        None => None,
    };
    if !result.allowed {
        if let Some(secs) = retry_after {
            headers.push(header("Retry-After", secs));
        }
    }
    proof {
        assert(header_views(headers@) =~= seq![
            ("X-RateLimit-Limit"@, rule.algorithm.limit),
            ("X-RateLimit-Remaining"@, result.remaining),
            ("X-RateLimit-Reset"@, result.reset_at / 1000),
        ] + (if !result.allowed && result.retry_after is Some {
            seq![("Retry-After"@, retry_secs(result.retry_after->0))]
        } else {
            Seq::empty()
        }));
    }
    CheckReply {
        status: if result.allowed { 200 } else { 429 },
        headers,
        body: CheckBody::Verdict {
            response: CheckResponse {
                allowed: result.allowed,
                remaining: result.remaining,
                reset_at: result.reset_at,
                retry_after,
                rule_id: rule.id.clone(),
                key: key.clone(),
            },
            reason: None,
        },
    }
}

} // verus!
