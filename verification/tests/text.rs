use ratelimit::text::{parse_usize, same_text, split, split_once, starts_with, strip_all_prefix, trim};

#[test]
fn trims_unicode_whitespace() {
    assert_eq!(trim("  a b \t\n"), "a b");
    assert_eq!(trim("\u{3000}x\u{a0}"), "x");
    assert_eq!(trim("   "), "");
    assert_eq!(trim(""), "");
}

#[test]
fn splits_on_every_separator() {
    assert_eq!(split("a.b..c", '.'), vec!["a", "b", "", "c"]);
    assert_eq!(split("", '.'), vec![""]);
    assert_eq!(split(".", '.'), vec!["", ""]);
    assert_eq!(split_once("k=v=w", '='), Some(("k", "v=w")));
    assert_eq!(split_once("kv", '='), None);
}

#[test]
fn prefixes_and_equality() {
    assert!(starts_with("/api/users", "/api/"));
    assert!(!starts_with("/ap", "/api/"));
    assert!(same_text("é", "é"));
    assert!(!same_text("a", "ab"));
    assert_eq!(strip_all_prefix("$.$.$.x", "$."), "x");
    assert_eq!(strip_all_prefix("x", ""), "x");
}

#[test]
fn parses_indices_like_std() {
    for s in ["0", "17", "+3", "007", "18446744073709551615", "", "+", "-1", "1a", "18446744073709551616"] {
        assert_eq!(parse_usize(s), s.parse::<usize>().ok(), "{}", s);
    }
}
