use anpai::helpers::{compare_value, escape, find_duplicate, fmt_iter, fmt_map, fmt_vec, unescape};
use std::cmp::Ordering;

#[test]
fn test_string_escape_unescape() {
    let input = "abc\tdef\r\nte\"ck";
    let escaped = escape(input);
    assert_eq!(escaped, "abc\\tdef\\r\\nte\\\"ck");
    let unescaped = unescape(escaped.as_str());
    assert_eq!(unescaped.as_str(), input);
}

#[test]
fn unescape_drops_a_trailing_backslash() {
    assert_eq!(unescape("ab\\"), "ab");
    assert_eq!(unescape("a\\qb"), "aqb");
    // a backslash is not escaped, so it does not survive the round trip
    assert_eq!(unescape(escape("a\\tb").as_str()), "a\tb");
}

#[test]
fn compare_value_orders_integers_and_strings() {
    assert_eq!(compare_value(1, 2), Ordering::Less);
    assert_eq!(compare_value(2, 2), Ordering::Equal);
    assert_eq!(compare_value(3, 2), Ordering::Greater);
    assert_eq!(compare_value("abc", "abd"), Ordering::Less);
}

#[test]
fn fmt_helpers_join_items() {
    let items = vec!["a".to_owned(), "b".to_owned(), "c".to_owned()];
    assert_eq!(fmt_vec(&items, "[", "]"), "[a, b, c]");
    assert_eq!(fmt_iter(&items, " ", "(l ", ")"), "(l a b c)");
    assert_eq!(fmt_vec(&Vec::new(), "[", "]"), "[]");
    let entries = vec![("a".to_owned(), "1".to_owned()), ("b".to_owned(), "2".to_owned())];
    assert_eq!(fmt_map(&entries, "{", "}"), "{a:1, b:2}");
}

#[test]
fn find_duplicate_gives_the_first_repeat() {
    let names = vec!["a".to_owned(), "b".to_owned(), "b".to_owned(), "a".to_owned()];
    assert_eq!(find_duplicate(&names), Some("b".to_owned()));
    let unique = vec!["a".to_owned(), "b".to_owned()];
    assert_eq!(find_duplicate(&unique), None);
}
