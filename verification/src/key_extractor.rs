//! Where the rate-limit key of a request comes from, and how it is read.
use crate::text::{
    all_digits, digits_value, find_spec, parse_usize, parse_usize_spec, same_text, split, split_once,
    split_once_spec, split_spec, strip_all_prefix, strip_all_prefix_spec, trim, trim_spec,
};
use vstd::prelude::*;

verus! {

/// The part of a request that holds the key.
#[derive(Debug, Clone, Copy, PartialEq, Eq, Structural)]
pub enum KeySource {
    Header,
    Query,
    Body,
    Cookie,
    Ip,
    Path,
    Global,
}

/// A key source with its expression: a header, query or cookie name, or a
/// `$.a.b` path into a JSON body.
#[derive(Debug)]
pub struct KeyExtractor {
    pub source: KeySource,
    pub expression: String,
}

impl Clone for KeyExtractor {
    fn clone(&self) -> (r: Self)
        ensures
            r == *self,
    {
        KeyExtractor { source: self.source, expression: self.expression.clone() }
    }
}

/// A JSON document as the key extractor reads it. Numbers are kept as the
/// text that prints them; object members keep their keys distinct.
#[derive(Debug)]
pub enum JsonValue {
    Null,
    Bool(bool),
    Number(String),
    String(String),
    Array(Vec<JsonValue>),
    Object(Vec<JsonMember>),
}

/// One member of a JSON object.
#[derive(Debug)]
pub struct JsonMember {
    pub key: String,
    pub value: JsonValue,
}

/// The header lists handed to the extractor: each header name as `http`
/// normalizes it, with its value as text when the value is visible ASCII.
pub type HeaderList = Vec<(String, Option<String>)>;

/// Name/value pairs such as query parameters or cookies. When a name occurs
/// more than once, the later pair counts.
pub type PairList = Vec<(String, String)>;

/// Header name as `http::HeaderName::from_bytes` normalizes it, or `None` when
/// `http` refuses the name.
pub uninterp spec fn http_header_key(name: Seq<char>) -> Option<Seq<char>>;

/// `http::HeaderName::from_bytes` on the bytes of `name`, then `as_str`: the
/// normalized name, or `None` when `http` refuses it.
#[verifier::external_body]
fn header_key(name: &str) -> (r: Option<String>)
    ensures
        match r {
            Some(k) => http_header_key(name@) == Some(k@),
            None => http_header_key(name@) is None,
        },
{
    http::HeaderName::from_bytes(name.as_bytes()).ok().map(|n| n.as_str().to_string())
}

/// Value of the first header named `name` (`HeaderMap::get`), if any; inside,
/// `None` when that value is not text.
pub open spec fn first_header(headers: Seq<(String, Option<String>)>, name: Seq<char>) -> Option<
    Option<Seq<char>>,
>
    decreases headers.len(),
{
    if headers.len() == 0 {
        None
    } else if headers[0].0@ == name {
        Some(
            match headers[0].1 {
                Some(v) => Some(v@),
                None => None,
            },
        )
    } else {
        first_header(headers.drop_first(), name)
    }
}

/// Name/value pairs as texts.
pub open spec fn pair_views(pairs: Seq<(String, String)>) -> Seq<(Seq<char>, Seq<char>)> {
    pairs.map_values(|p: (String, String)| (p.0@, p.1@))
}

/// Value of the last pair named `name`, if any.
pub open spec fn last_pair(pairs: Seq<(Seq<char>, Seq<char>)>, name: Seq<char>) -> Option<Seq<char>>
    decreases pairs.len(),
{
    if pairs.len() == 0 {
        None
    } else if pairs.last().0 == name {
        Some(pairs.last().1)
    } else {
        last_pair(pairs.drop_last(), name)
    }
}

/// Value of the first member keyed `key` of a JSON object, if any.
pub open spec fn member_value(members: Seq<JsonMember>, key: Seq<char>) -> Option<JsonValue>
    decreases members.len(),
{
    if members.len() == 0 {
        None
    } else if members[0].key@ == key {
        Some(members[0].value)
    } else {
        member_value(members.drop_first(), key)
    }
}

/// One step of a JSON path: an object member by key, or an array element by
/// decimal index.
pub open spec fn json_step(v: JsonValue, part: Seq<char>) -> Option<JsonValue> {
    match v {
        JsonValue::Object(members) => member_value(members@, part),
        JsonValue::Array(items) => match parse_usize_spec(part) {
            Some(i) => if i < items@.len() {
                Some(items@[i as int])
            } else {
                None
            },
            None => None,
        },
        _ => None,
    }
}

/// The value reached from `v` along `parts`.
pub open spec fn json_walk(v: JsonValue, parts: Seq<Seq<char>>) -> Option<JsonValue>
    decreases parts.len(),
{
    if parts.len() == 0 {
        Some(v)
    } else {
        match json_step(v, parts[0]) {
            Some(c) => json_walk(c, parts.drop_first()),
            None => None,
        }
    }
}

/// The text of a string, number or boolean; nothing for other values.
pub open spec fn json_text(v: JsonValue) -> Option<Seq<char>> {
    match v {
        JsonValue::String(s) => Some(s@),
        JsonValue::Number(n) => Some(n@),
        JsonValue::Bool(b) => Some(if b {
            "true"@
        } else {
            "false"@
        }),
        _ => None,
    }
}

/// The text at a `$.a.b.0` path: leading `$.` are dropped, the rest is split
/// at dots.
pub open spec fn json_path_text(v: JsonValue, path: Seq<char>) -> Option<Seq<char>> {
    match json_walk(v, split_spec(strip_all_prefix_spec(path, "$."@), '.')) {
        Some(target) => json_text(target),
        None => None,
    }
}

/// The key that `extractor` reads from a request.
pub open spec fn extracted_key(
    extractor: KeyExtractor,
    headers: Seq<(String, Option<String>)>,
    query_params: Seq<(Seq<char>, Seq<char>)>,
    body: Option<JsonValue>,
    cookies: Seq<(Seq<char>, Seq<char>)>,
    client_ip: Seq<char>,
    request_path: Seq<char>,
) -> Option<Seq<char>> {
    match extractor.source {
        KeySource::Global => Some("global"@),
        KeySource::Ip => Some(client_ip),
        KeySource::Path => Some(request_path),
        KeySource::Header => match http_header_key(extractor.expression@) {
            Some(k) => match first_header(headers, k) {
                Some(Some(v)) => Some(v),
                _ => None,
            },
            None => None,
        },
        KeySource::Query => last_pair(query_params, extractor.expression@),
        KeySource::Cookie => last_pair(cookies, extractor.expression@),
        KeySource::Body => match body {
            Some(b) => json_path_text(b, extractor.expression@),
            None => None,
        },
    }
}

fn find_first_header(headers: &HeaderList, name: &str) -> (r: Option<Option<String>>)
    ensures
        match r {
            Some(Some(v)) => first_header(headers@, name@) == Some(Some(v@)),
            Some(None) => first_header(headers@, name@) == Some(None::<Seq<char>>),
            None => first_header(headers@, name@) is None,
        },
{
    let mut i: usize = 0;
    assert(headers@.skip(0) =~= headers@);
    while i < headers.len()
        invariant
            0 <= i <= headers@.len(),
            first_header(headers@, name@) == first_header(headers@.skip(i as int), name@),
        decreases headers@.len() - i,
    {
        proof {
            assert(headers@.skip(i as int)[0] == headers@[i as int]);
            assert(headers@.skip(i as int).drop_first() =~= headers@.skip(i + 1));
        }
        if same_text(headers[i].0.as_str(), name) {
            return match &headers[i].1 {
                Some(v) => Some(Some(v.clone())),
                None => Some(None),
            };
        }
        i += 1;
    }
    None
}

fn find_last_pair(pairs: &PairList, name: &str) -> (r: Option<String>)
    ensures
        match r {
            Some(v) => last_pair(pair_views(pairs@), name@) == Some(v@),
            None => last_pair(pair_views(pairs@), name@) is None,
        },
{
    let ghost all = pair_views(pairs@);
    let mut i: usize = pairs.len();
    assert(all.take(i as int) =~= all);
    while i > 0
        invariant
            0 <= i <= pairs@.len(),
            all == pair_views(pairs@),
            all.len() == pairs@.len(),
            last_pair(all, name@) == last_pair(all.take(i as int), name@),
        decreases i,
    {
        proof {
            assert(all.take(i as int).last() == all[i - 1]);
            assert(all[i - 1] == (pairs@[i - 1].0@, pairs@[i - 1].1@));
            assert(all.take(i as int).drop_last() =~= all.take(i - 1));
        }
        if same_text(pairs[i - 1].0.as_str(), name) {
            return Some(pairs[i - 1].1.clone());
        }
        i -= 1;
    }
    None
}

fn find_member<'a>(members: &'a Vec<JsonMember>, key: &str) -> (r: Option<&'a JsonValue>)
    ensures
        match r {
            Some(v) => member_value(members@, key@) == Some(*v),
            None => member_value(members@, key@) is None,
        },
{
    let mut i: usize = 0;
    assert(members@.skip(0) =~= members@);
    while i < members.len()
        invariant
            0 <= i <= members@.len(),
            member_value(members@, key@) == member_value(members@.skip(i as int), key@),
        decreases members@.len() - i,
    {
        proof {
            assert(members@.skip(i as int)[0] == members@[i as int]);
            assert(members@.skip(i as int).drop_first() =~= members@.skip(i + 1));
        }
        if same_text(members[i].key.as_str(), key) {
            return Some(&members[i].value);
        }
        i += 1;
    }
    None
}

/// The text at a JSON path such as `$.user.id` or `$.items.0.name`.
pub fn extract_json_path(value: &JsonValue, path: &str) -> (r: Option<String>)
    ensures
        match r {
            Some(t) => json_path_text(*value, path@) == Some(t@),
            None => json_path_text(*value, path@) is None,
        },
{
    let stripped = strip_all_prefix(path, "$.");
    let parts = split(stripped, '.');
    let ghost all = split_spec(strip_all_prefix_spec(path@, "$."@), '.');
    let mut current = value;
    let mut i: usize = 0;
    proof {
        assert(all.skip(0) =~= all);
    }
    while i < parts.len()
        invariant
            0 <= i <= parts@.len(),
            parts@.len() == all.len(),
            all == split_spec(strip_all_prefix_spec(path@, "$."@), '.'),
            forall|k: int| 0 <= k < parts@.len() ==> #[trigger] parts@[k]@ == all[k],
            json_walk(*value, all) == json_walk(*current, all.skip(i as int)),
        decreases parts@.len() - i,
    {
        let part = parts[i].as_str();
        proof {
            assert(all.skip(i as int)[0] == all[i as int]);
            assert(all.skip(i as int).drop_first() =~= all.skip(i + 1));
        }
        let next = match current {
            JsonValue::Object(members) => find_member(members, part),
            JsonValue::Array(items) => match parse_usize(part) {
                Some(idx) => if idx < items.len() {
                    Some(&items[idx])
                } else {
                    None
                },
                None => None,
            },
            _ => None,
        };
        match next {
            Some(v) => {
                current = v;
            },
            None => {
                proof {
                    assert(json_step(*current, all[i as int]) is None);
                    assert(json_walk(*current, all.skip(i as int)) is None);
                }
                return None;
            },
        }
        i += 1;
    }
    proof {
        assert(all.skip(i as int) =~= Seq::<Seq<char>>::empty());
    }
    match current {
        JsonValue::String(s) => Some(s.clone()),
        JsonValue::Number(n) => Some(n.clone()),
        JsonValue::Bool(b) => Some(if *b { String::from_str("true") } else { String::from_str("false") }),
        _ => None,
    }
}

impl KeyExtractor {
    pub fn new(source: KeySource, expression: &str) -> (k: Self)
        ensures
            k.source == source,
            k.expression@ == expression@,
    {
        KeyExtractor { source, expression: String::from_str(expression) }
    }

    pub fn global() -> (k: Self)
        ensures
            k.source == KeySource::Global,
            k.expression@ == "global"@,
    {
        KeyExtractor { source: KeySource::Global, expression: String::from_str("global") }
    }

    pub fn ip() -> (k: Self)
        ensures
            k.source == KeySource::Ip,
            k.expression@ == "ip"@,
    {
        KeyExtractor { source: KeySource::Ip, expression: String::from_str("ip") }
    }

    pub fn header(name: &str) -> (k: Self)
        ensures
            k.source == KeySource::Header,
            k.expression@ == name@,
    {
        KeyExtractor { source: KeySource::Header, expression: String::from_str(name) }
    }

    pub fn query(name: &str) -> (k: Self)
        ensures
            k.source == KeySource::Query,
            k.expression@ == name@,
    {
        KeyExtractor { source: KeySource::Query, expression: String::from_str(name) }
    }

    pub fn body(path: &str) -> (k: Self)
        ensures
            k.source == KeySource::Body,
            k.expression@ == path@,
    {
        KeyExtractor { source: KeySource::Body, expression: String::from_str(path) }
    }

    pub fn cookie(name: &str) -> (k: Self)
        ensures
            k.source == KeySource::Cookie,
            k.expression@ == name@,
    {
        KeyExtractor { source: KeySource::Cookie, expression: String::from_str(name) }
    }

    /// Reads the key of a request from the source this extractor names.
    pub fn extract(
        &self,
        headers: &HeaderList,
        query_params: &PairList,
        body: Option<&JsonValue>,
        cookies: &PairList,
        client_ip: &str,
        request_path: &str,
    ) -> (r: Option<String>)
        ensures
            match r {
                Some(k) => extracted_key(
                    *self,
                    headers@,
                    pair_views(query_params@),
                    match body {
                        Some(b) => Some(*b),
                        None => None,
                    },
                    pair_views(cookies@),
                    client_ip@,
                    request_path@,
                ) == Some(k@),
                None => extracted_key(
                    *self,
                    headers@,
                    pair_views(query_params@),
                    match body {
                        Some(b) => Some(*b),
                        None => None,
                    },
                    pair_views(cookies@),
                    client_ip@,
                    request_path@,
                ) is None,
            },
    {
        match self.source {
            KeySource::Global => Some(String::from_str("global")),
            KeySource::Ip => Some(String::from_str(client_ip)),
            KeySource::Path => Some(String::from_str(request_path)),
            KeySource::Header => match header_key(self.expression.as_str()) {
                Some(k) => match find_first_header(headers, k.as_str()) {
                    Some(Some(v)) => Some(v),
                    _ => None,
                },
                None => None,
            },
            KeySource::Query => find_last_pair(query_params, self.expression.as_str()),
            KeySource::Cookie => find_last_pair(cookies, self.expression.as_str()),
            KeySource::Body => match body {
                Some(json_body) => extract_json_path(json_body, self.expression.as_str()),
                None => None,
            },
        }
    }
}

/// The cookies of a `Cookie` header value: each `;`-separated piece, trimmed,
/// that holds a `=`, as its trimmed name and trimmed value.
pub open spec fn cookie_pairs(pieces: Seq<Seq<char>>) -> Seq<(Seq<char>, Seq<char>)>
    decreases pieces.len(),
{
    if pieces.len() == 0 {
        Seq::empty()
    } else {
        let rest = cookie_pairs(pieces.drop_last());
        match split_once_spec(trim_spec(pieces.last()), '=') {
            Some((n, v)) => rest.push((trim_spec(n), trim_spec(v))),
            None => rest,
        }
    }
}

/// The cookies that a header list carries in its first `cookie` header.
pub open spec fn request_cookies(headers: Seq<(String, Option<String>)>) -> Seq<(Seq<char>, Seq<char>)> {
    match first_header(headers, "cookie"@) {
        Some(Some(v)) => cookie_pairs(split_spec(v, ';')),
        _ => Seq::empty(),
    }
}

/// The cookies of a request, read from its first `Cookie` header.
pub fn parse_cookies(headers: &HeaderList) -> (r: PairList)
    ensures
        pair_views(r@) == request_cookies(headers@),
{
    let mut cookies: PairList = Vec::new();
    let found = find_first_header(headers, "cookie");
    if let Some(Some(cookie_str)) = found {
        let pieces = split(cookie_str.as_str(), ';');
        let ghost all = split_spec(cookie_str@, ';');
        let mut i: usize = 0;
        proof {
            assert(all.take(0) =~= Seq::<Seq<char>>::empty());
        }
        while i < pieces.len()
            invariant
                0 <= i <= pieces@.len(),
                pieces@.len() == all.len(),
                forall|k: int| 0 <= k < pieces@.len() ==> #[trigger] pieces@[k]@ == all[k],
                pair_views(cookies@) =~= cookie_pairs(all.take(i as int)),
            decreases pieces@.len() - i,
        {
            let cookie = trim(pieces[i].as_str());
            proof {
                assert(all.take(i + 1).drop_last() =~= all.take(i as int));
                assert(all.take(i + 1).last() == all[i as int]);
            }
            let ghost before = cookies@;
            if let Some((name, value)) = split_once(cookie, '=') {
                let n = trim(name);
                let v = trim(value);
                cookies.push((String::from_str(n), String::from_str(v)));
                proof {
                    assert(pair_views(cookies@) =~= pair_views(before).push((n@, v@)));
                }
            }
            i += 1;
        }
        proof {
            assert(all.take(pieces@.len() as int) =~= all);
        }
    } else {
        proof {
            assert(pair_views(cookies@) =~= Seq::<(Seq<char>, Seq<char>)>::empty());
        }
    }
    cookies
}

} // verus!
