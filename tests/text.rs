use lanmsg::directory::split_once;
use lanmsg::text::{parse_u32, push_decimal, split_on};

#[test]
fn parse_u32_follows_from_str() {
    assert_eq!(parse_u32("0"), Some(0));
    assert_eq!(parse_u32("12345"), Some(12345));
    assert_eq!(parse_u32("+42"), Some(42));
    assert_eq!(parse_u32("4294967295"), Some(u32::MAX));
    assert_eq!(parse_u32("4294967296"), None);
    assert_eq!(parse_u32(""), None);
    assert_eq!(parse_u32("+"), None);
    assert_eq!(parse_u32("-1"), None);
    assert_eq!(parse_u32("1a"), None);
    assert_eq!(parse_u32(" 1"), None);
    for s in ["7", "007", "99999", "+0"] {
        assert_eq!(parse_u32(s), s.parse::<u32>().ok());
    }
}

#[test]
fn decimal_numerals() {
    let mut s = String::from("n=");
    push_decimal(&mut s, 0);
    assert_eq!(s, "n=0");
    let mut s = String::new();
    push_decimal(&mut s, 4294967295);
    assert_eq!(s, "4294967295");
    let mut s = String::new();
    push_decimal(&mut s, 100);
    assert_eq!(s, "100");
}

#[test]
fn split_on_matches_str_split() {
    for (text, sep) in [("a:b::c", ':'), ("", ':'), (":", ':'), ("abc", ':'), ("x\0y\0", '\0')] {
        let expected: Vec<String> = text.split(sep).map(|p| p.to_string()).collect();
        assert_eq!(split_on(text, sep), expected);
    }
}

#[test]
fn split_once_at_first_separator() {
    assert_eq!(split_once("alice@pc@lab", '@'), Some(("alice".to_string(), "pc@lab".to_string())));
    assert_eq!(split_once("@x", '@'), Some((String::new(), "x".to_string())));
    assert_eq!(split_once("nobody", '@'), None);
}
