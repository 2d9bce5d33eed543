use std::time::{Duration, Instant};

use http::HeaderMap;
use stateform::clock::{millis_u64, nanos_since, now_ms, now_secs, time_since, unix_time};
use stateform::http_types::{header_text, visible_text};
use stateform::json::{find_member, find_optional_text, position_of};
use stateform::order::{not_after, sort};
use stateform::text::{
    char_to_lower, char_to_upper, chars_of, clone_texts, contains, decimal, eq_ignore_case, hex,
    join, join3, parse_u64, same, split, split_words, strip_prefix, substring, to_lower, to_upper,
    trim,
};

#[test]
fn texts_are_joined_and_cut() {
    assert_eq!(join("a", "b"), "ab");
    assert_eq!(join3("a", "", "c"), "ac");
    let chars = chars_of("h\u{e9}llo");
    assert_eq!(chars.len(), 5);
    assert_eq!(substring(&chars, 1, 3), "\u{e9}l");
    assert_eq!(strip_prefix("Bearer x", "Bearer "), Some("x".to_string()));
    assert_eq!(strip_prefix("bearer x", "Bearer "), None);
    let list = vec!["a".to_string(), "b".to_string()];
    assert_eq!(clone_texts(&list), list);
}

#[test]
fn only_ascii_letters_change_case() {
    assert_eq!(to_lower("ABC-\u{c9}z"), "abc-\u{c9}z");
    assert_eq!(to_upper("abc-\u{e9}Z"), "ABC-\u{e9}Z");
    assert_eq!(char_to_lower('Q'), 'q');
    assert_eq!(char_to_upper('['), '[');
    assert!(eq_ignore_case("GeT", "gEt"));
    assert!(!eq_ignore_case("get", "gets"));
    assert!(same("x", "x") && !same("x", "X"));
}

#[test]
fn texts_are_searched() {
    assert!(contains("abcabd", "abd"));
    assert!(contains("abc", ""));
    assert!(!contains("ab", "abc"));
}

#[test]
fn texts_are_trimmed_and_split() {
    assert_eq!(trim(" \t a b \u{a0}\n"), "a b");
    assert_eq!(trim("   "), "");
    assert_eq!(split("a,,b", ','), vec!["a", "", "b"]);
    assert_eq!(split("", ','), vec![""]);
    assert_eq!(split_words("  read \t write "), vec!["read", "write"]);
    assert!(split_words(" ").is_empty());
}

#[test]
fn numbers_are_read_and_written() {
    assert_eq!(parse_u64("0"), Some(0));
    assert_eq!(parse_u64("+7"), Some(7));
    assert_eq!(parse_u64("18446744073709551615"), Some(u64::MAX));
    assert_eq!(parse_u64("18446744073709551616"), None);
    for bad in ["", "+", "-1", " 1", "1x"] {
        assert_eq!(parse_u64(bad), None);
    }
    for n in [0, 9, 10, 1234567890, u64::MAX] {
        assert_eq!(decimal(n), format!("{n}"));
        assert_eq!(parse_u64(&decimal(n)), Some(n));
        assert_eq!(hex(n, 16), format!("{n:016x}"));
    }
}

#[test]
fn texts_are_sorted_as_bytes_are() {
    let words = ["b", "", "ab", "a", "\u{e9}", "z", "\u{1f600}", "\u{ffff}"];
    let given: Vec<String> = words.iter().map(|w| w.to_string()).collect();
    let mut expected = given.clone();
    expected.sort();
    assert_eq!(sort(&given), expected);
    assert!(not_after("a", "ab") && !not_after("b", "ab"));
}

#[test]
fn members_are_found_by_name() {
    let value: serde_json::Value =
        serde_json::from_str(r#"{"a":null,"b":"x","c":1}"#).unwrap();
    let list: Vec<(String, serde_json::Value)> = match value {
        serde_json::Value::Object(m) => m.into_iter().collect(),
        _ => panic!("no object"),
    };
    assert_eq!(position_of(&list, "b"), 1);
    assert_eq!(position_of(&list, "z"), 3);
    assert!(find_member(&list, "c").is_some());
    assert_eq!(find_optional_text(&list, "a").unwrap(), None);
    assert_eq!(find_optional_text(&list, "b").unwrap(), Some("x".to_string()));
    assert_eq!(find_optional_text(&list, "z").unwrap(), None);
    assert!(find_optional_text(&list, "c").is_err());
}

#[test]
fn header_values_are_read_as_text() {
    let mut headers = HeaderMap::new();
    headers.insert("x-a", "one".parse().unwrap());
    headers.append("x-a", "two".parse().unwrap());
    assert_eq!(header_text(&headers, "X-A"), Some("one".to_string()));
    assert_eq!(header_text(&headers, "x-b"), None);
    assert_eq!(header_text(&headers, "not a name"), None);
    assert_eq!(visible_text(b"a\tb"), Some("a\tb".to_string()));
    assert_eq!(visible_text(b"a\x7f"), None);
    assert_eq!(visible_text(&[0xe9]), None);
}

#[test]
fn the_clock_is_read() {
    assert!(unix_time() > Duration::from_secs(1_500_000_000));
    let secs = now_secs();
    let ms = now_ms();
    assert!(ms / 1000 >= secs && ms / 1000 <= secs + 5);
    assert_eq!(millis_u64(&Duration::from_micros(2999)), 2);
    assert_eq!(millis_u64(&Duration::MAX), u64::MAX);
    assert!(nanos_since(&Instant::now()) < 5_000_000_000);
}

#[test]
fn time_is_counted_from_the_start() {
    let before = Instant::now();
    let start = before.checked_sub(Duration::from_millis(10)).unwrap();
    assert!(time_since(&start) >= Duration::from_millis(10));
    assert!(time_since(&start) < Duration::from_secs(5));
    let nanos = nanos_since(&start);
    assert!(nanos >= 10_000_000 && nanos < 5_000_000_000);
    let later = before.checked_add(Duration::from_secs(3600)).unwrap();
    assert_eq!(time_since(&later), Duration::ZERO);
    assert_eq!(nanos_since(&later), 0);
}
