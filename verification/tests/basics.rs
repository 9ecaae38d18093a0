use cc_switch::hash::{hex_prefix, short_sha256};
use cc_switch::json::{parse_json, parse_json_bytes, Json, JsonNumber};
use cc_switch::numbers::{add_saturating, milliseconds, whole_seconds};
use cc_switch::paths::{
    file_name, holds_text, is_same_place, join_path, parent_name, path_parts, sort_texts,
    split_at_mark,
};
use cc_switch::text::{
    decimal_of, eq_ignore_ascii_case, is_before, is_blank, rsplit_once, split_once, strip_prefix,
    strip_suffix, take_chars, trim,
};

fn json(text: &str) -> Json {
    parse_json(text).unwrap()
}

#[test]
fn texts() {
    assert_eq!(trim(" \t\u{3000}a b\u{2028}\n"), "a b");
    assert!(is_blank("\u{a0}\u{85}") && !is_blank("\u{200b}"));
    assert_eq!(split_once("a=b=c", "="), Some(("a".to_string(), "b=c".to_string())));
    assert_eq!(rsplit_once("a=b=c", "="), Some(("a=b".to_string(), "c".to_string())));
    assert_eq!(split_once("abc", "="), None);
    assert_eq!(strip_prefix("abc", "ab").as_deref(), Some("c"));
    assert_eq!(strip_suffix("abc", "ab"), None);
    assert_eq!(take_chars("äöü", 2), "äö");
    assert!(eq_ignore_ascii_case("aBc", "AbC") && !eq_ignore_ascii_case("ä", "Ä"));
    assert_eq!(decimal_of(0), "0");
    assert_eq!(decimal_of(u64::MAX), "18446744073709551615");
    assert!(is_before("a", "b") && is_before("a", "aa") && !is_before("b", "a"));
    assert!(is_before("\u{ffff}", "\u{10000}") && !is_before("a", "a"));
}

#[test]
fn numbers() {
    assert_eq!(add_saturating(i64::MAX, 1), i64::MAX);
    assert_eq!(add_saturating(i64::MIN, -1), i64::MIN);
    assert_eq!(milliseconds(i64::MIN), i64::MIN);
    assert_eq!(milliseconds(-2), -2000);
    assert_eq!(whole_seconds(1999), 1);
    assert_eq!(whole_seconds(-1999), -1);
}

#[test]
fn paths() {
    assert_eq!(path_parts("/a//b/./c/"), vec!["a", "b", "c"]);
    assert_eq!(file_name("/a/b.txt/").as_deref(), Some("b.txt"));
    assert_eq!(file_name("/a/.."), None);
    assert_eq!(parent_name("/a/b/c").as_deref(), Some("b"));
    assert_eq!(parent_name("/c"), None);
    assert_eq!(join_path("/a", "b"), "/a/b");
    assert_eq!(join_path("/a/", "b"), "/a/b");
    assert_eq!(join_path("/a", "/b"), "/b");
    assert!(is_same_place("/a/./b", "/a//b/") && !is_same_place("a/b", "/a/b"));
    assert_eq!(split_at_mark("a.b.", '.'), vec!["a", "b", ""]);
    let mut names: Vec<String> = ["b", "a", "b"].iter().map(|name| name.to_string()).collect();
    assert!(holds_text(&names, "a") && !holds_text(&names, "c"));
    names = sort_texts(names);
    assert_eq!(names, vec!["a", "b", "b"]);
}

#[test]
fn hashes() {
    assert_eq!(short_sha256("hello"), "2cf24dba5fb0a30e");
    assert_eq!(hex_prefix(&vec![0, 255, 16], 2), "00ff");
}

#[test]
fn documents() {
    let value = json("{\"a\": [1, -2, 1.5, null, true, \"x\"], \"b\": {}}");
    match value.get("a") {
        Some(Json::Array(items)) => {
            assert_eq!(items[0].as_number(), Some(JsonNumber::Unsigned(1)));
            assert_eq!(items[1].as_number(), Some(JsonNumber::Negative(-2)));
            assert_eq!(items[2].as_number(), Some(JsonNumber::Real(1.5f64.to_bits())));
            assert!(matches!(items[3], Json::Null));
            assert!(matches!(items[4], Json::Bool(true)));
            assert_eq!(items[5].as_text(), Some("x"));
        }
        other => panic!("unexpected {other:?}"),
    }
    assert!(value.get("c").is_none());
    assert_eq!(json("{\"a\": 1, \"a\": 2}").get_u64("a"), Some(2));
    assert_eq!(json("{\"t\": -1}").get_i64("t"), Some(-1));
    assert_eq!(json("{\"t\": 1.0}").get_u64("t"), None);
    assert_eq!(json("{\"b\": \"y\"}").text_of_either("a", "b"), Some("y"));
    assert_eq!(json("{\"a\": 1, \"b\": \"y\"}").text_of_either("a", "b"), None);
    assert!(parse_json("{").unwrap_err().starts_with("EOF while parsing"));
    assert!(parse_json_bytes(b"\xff").is_err());
    assert!(matches!(parse_json_bytes(b"[]"), Ok(Json::Array(_))));
}

