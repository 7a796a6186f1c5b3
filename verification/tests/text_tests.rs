use srsglass::numbers::{parse_i32, parse_i64};
use srsglass::parser::members_of_text;
use srsglass::text::{join_commas_exec, replace_spaces, split_commas_exec, str_eq, trim_str,
    truncate_chars};
use srsglass::xml::resolve_entity;

#[test]
fn parse_i32_accepts_what_fits() {
    assert_eq!(parse_i32("0"), Some(0));
    assert_eq!(parse_i32("42"), Some(42));
    assert_eq!(parse_i32("+42"), Some(42));
    assert_eq!(parse_i32("-42"), Some(-42));
    assert_eq!(parse_i32("2147483647"), Some(i32::MAX));
    assert_eq!(parse_i32("-2147483648"), Some(i32::MIN));
    assert_eq!(parse_i32("0042"), Some(42));
}

#[test]
fn parse_i32_rejects_the_rest() {
    assert_eq!(parse_i32(""), None);
    assert_eq!(parse_i32("-"), None);
    assert_eq!(parse_i32("+"), None);
    assert_eq!(parse_i32("12a"), None);
    assert_eq!(parse_i32(" 12"), None);
    assert_eq!(parse_i32("2147483648"), None);
    assert_eq!(parse_i32("-2147483649"), None);
}

#[test]
fn parse_i64_covers_the_wider_range() {
    assert_eq!(parse_i64("9223372036854775807"), Some(i64::MAX));
    assert_eq!(parse_i64("-9223372036854775808"), Some(i64::MIN));
    assert_eq!(parse_i64("9223372036854775808"), None);
    assert_eq!(parse_i64("-9223372036854775809"), None);
    assert_eq!(parse_i64("1700000000"), Some(1700000000));
}

#[test]
fn split_keeps_order_and_empty_fields() {
    let parts = split_commas_exec("a,b,,c");
    assert_eq!(parts, vec!["a", "b", "", "c"]);
    assert_eq!(split_commas_exec("solo"), vec!["solo"]);
    assert_eq!(split_commas_exec(","), vec!["", ""]);
}

#[test]
fn members_of_empty_text_is_empty() {
    assert!(members_of_text("").is_empty());
    assert_eq!(members_of_text("a"), vec!["a"]);
}

#[test]
fn join_round_trips_split() {
    let list = vec!["a".to_string(), "b".to_string(), "c d".to_string()];
    let joined = join_commas_exec(&list);
    assert_eq!(joined, "a,b,c d");
    assert_eq!(split_commas_exec(&joined), list);
}

#[test]
fn trim_removes_unicode_whitespace_at_both_ends() {
    assert_eq!(trim_str("  hi  "), "hi");
    assert_eq!(trim_str("\n\t x y\u{00a0}\r\n"), "x y");
    assert_eq!(trim_str("   "), "");
    assert_eq!(trim_str("tight"), "tight");
}

#[test]
fn truncate_counts_characters_not_bytes() {
    assert_eq!(truncate_chars("hello", 10), "hello");
    assert_eq!(truncate_chars("hello", 3), "hel");
    assert_eq!(truncate_chars("ééééé", 3), "ééé");
}

#[test]
fn replace_spaces_touches_only_spaces() {
    assert_eq!(replace_spaces("the north pacific"), "the_north_pacific");
    assert_eq!(replace_spaces("no-spaces"), "no-spaces");
}

#[test]
fn str_eq_is_exact() {
    assert!(str_eq("abc", "abc"));
    assert!(!str_eq("abc", "abd"));
    assert!(!str_eq("abc", "ab"));
    assert!(str_eq("", ""));
}

#[test]
fn entities_resolve_like_the_reader() {
    assert_eq!(resolve_entity("amp"), Some('&'));
    assert_eq!(resolve_entity("lt"), Some('<'));
    assert_eq!(resolve_entity("gt"), Some('>'));
    assert_eq!(resolve_entity("apos"), Some('\''));
    assert_eq!(resolve_entity("quot"), Some('"'));
    assert_eq!(resolve_entity("#65"), Some('A'));
    assert_eq!(resolve_entity("#x41"), Some('A'));
    assert_eq!(resolve_entity("#x2603"), Some('\u{2603}'));
}

#[test]
fn bad_entities_do_not_resolve() {
    assert_eq!(resolve_entity("nbsp"), None);
    assert_eq!(resolve_entity(""), None);
    assert_eq!(resolve_entity("#"), None);
    assert_eq!(resolve_entity("#x"), None);
    assert_eq!(resolve_entity("#0"), None);
    assert_eq!(resolve_entity("#xD800"), None);
    assert_eq!(resolve_entity("#1114112"), None);
    assert_eq!(resolve_entity("#-5"), None);
    assert_eq!(resolve_entity("#99999999999999999999"), None);
}
