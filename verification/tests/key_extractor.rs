use ratelimit::key_extractor::{
    extract_json_path, parse_cookies, HeaderList, JsonMember, JsonValue, KeyExtractor, KeySource,
    PairList,
};

fn object(members: Vec<(&str, JsonValue)>) -> JsonValue {
    JsonValue::Object(
        members
            .into_iter()
            .map(|(k, v)| JsonMember { key: k.to_string(), value: v })
            .collect(),
    )
}

fn text(s: &str) -> JsonValue {
    JsonValue::String(s.to_string())
}

#[test]
fn test_extract_header() {
    // A header map holding `X-User-Id: 12345`, as http stores it.
    let headers: HeaderList = vec![("x-user-id".to_string(), Some("12345".to_string()))];

    let extractor = KeyExtractor::header("X-User-Id");
    let result = extractor.extract(
        &headers,
        &PairList::new(),
        None,
        &PairList::new(),
        "127.0.0.1",
        "/test",
    );

    assert_eq!(result, Some("12345".to_string()));
}

#[test]
fn test_extract_body_json() {
    let body = object(vec![("user", object(vec![("id", text("67890")), ("name", text("test"))]))]);

    let extractor = KeyExtractor::body("$.user.id");
    let result = extractor.extract(
        &HeaderList::new(),
        &PairList::new(),
        Some(&body),
        &PairList::new(),
        "127.0.0.1",
        "/test",
    );

    assert_eq!(result, Some("67890".to_string()));
}

#[test]
fn test_extract_body_nested_not_panic() {
    let body = object(vec![("user", object(vec![("id", text("67890"))]))]);

    let extractor = KeyExtractor::body("$.user.profile.name");
    let result = extractor.extract(
        &HeaderList::new(),
        &PairList::new(),
        Some(&body),
        &PairList::new(),
        "127.0.0.1",
        "/test",
    );

    assert_eq!(result, None);
}

#[test]
fn fixed_sources() {
    let h = HeaderList::new();
    let p = PairList::new();
    assert_eq!(KeyExtractor::global().extract(&h, &p, None, &p, "1.2.3.4", "/a"), Some("global".to_string()));
    assert_eq!(KeyExtractor::ip().extract(&h, &p, None, &p, "1.2.3.4", "/a"), Some("1.2.3.4".to_string()));
    assert_eq!(
        KeyExtractor::new(KeySource::Path, "path").extract(&h, &p, None, &p, "1.2.3.4", "/a"),
        Some("/a".to_string())
    );
    assert_eq!(KeyExtractor::body("$.a").extract(&h, &p, None, &p, "1.2.3.4", "/a"), None);
}

#[test]
fn header_missing_invalid_or_not_text() {
    let headers: HeaderList = vec![
        ("x-a".to_string(), None),
        ("x-b".to_string(), Some("one".to_string())),
        ("x-b".to_string(), Some("two".to_string())),
    ];
    let p = PairList::new();
    assert_eq!(KeyExtractor::header("X-A").extract(&headers, &p, None, &p, "", ""), None);
    assert_eq!(KeyExtractor::header("x-b").extract(&headers, &p, None, &p, "", ""), Some("one".to_string()));
    assert_eq!(KeyExtractor::header("x-c").extract(&headers, &p, None, &p, "", ""), None);
    assert_eq!(KeyExtractor::header("bad name").extract(&headers, &p, None, &p, "", ""), None);
}

#[test]
fn query_and_cookie_later_pair_wins() {
    let h = HeaderList::new();
    let pairs: PairList = vec![("u".to_string(), "1".to_string()), ("u".to_string(), "2".to_string())];
    assert_eq!(KeyExtractor::query("u").extract(&h, &pairs, None, &PairList::new(), "", ""), Some("2".to_string()));
    assert_eq!(KeyExtractor::cookie("u").extract(&h, &PairList::new(), None, &pairs, "", ""), Some("2".to_string()));
    assert_eq!(KeyExtractor::cookie("v").extract(&h, &PairList::new(), None, &pairs, "", ""), None);
}

#[test]
fn json_paths() {
    let body = object(vec![
        ("items", JsonValue::Array(vec![text("a"), JsonValue::Number("42".to_string()), JsonValue::Bool(true)])),
        ("n", JsonValue::Null),
    ]);
    assert_eq!(extract_json_path(&body, "$.items.0"), Some("a".to_string()));
    assert_eq!(extract_json_path(&body, "items.1"), Some("42".to_string()));
    assert_eq!(extract_json_path(&body, "$.items.+2"), Some("true".to_string()));
    assert_eq!(extract_json_path(&body, "$.$.items.0"), Some("a".to_string()));
    assert_eq!(extract_json_path(&body, "$.items.3"), None);
    assert_eq!(extract_json_path(&body, "$.items.x"), None);
    assert_eq!(extract_json_path(&body, "$.items"), None);
    assert_eq!(extract_json_path(&body, "$.n"), None);
    assert_eq!(extract_json_path(&text("z"), ""), None);
    assert_eq!(extract_json_path(&text("z"), "$."), None);
}

#[test]
fn cookies_are_split_and_trimmed() {
    let headers: HeaderList = vec![(
        "cookie".to_string(),
        Some(" session = abc ; theme=dark; broken; session=xyz ".to_string()),
    )];
    let cookies = parse_cookies(&headers);
    assert_eq!(
        cookies,
        vec![
            ("session".to_string(), "abc".to_string()),
            ("theme".to_string(), "dark".to_string()),
            ("session".to_string(), "xyz".to_string()),
        ]
    );
    let extractor = KeyExtractor::cookie("session");
    assert_eq!(
        extractor.extract(&headers, &PairList::new(), None, &cookies, "", ""),
        Some("xyz".to_string())
    );
    assert!(parse_cookies(&HeaderList::new()).is_empty());
    let not_text: HeaderList = vec![("cookie".to_string(), None)];
    assert!(parse_cookies(&not_text).is_empty());
}
