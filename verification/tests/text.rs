use hosteld::text::{
    chars_of, comes_before, contains, copy, decimal_text, first_bytes, hex_text, join,
    listed, parse_port, same, split, split_lines, starts_with, strip, swap_char, text_before,
    text_of, trim, word_two,
};

#[test]
fn searching() {
    assert!(contains("hello", "ell"));
    assert!(!contains("hello", "elo"));
    assert!(contains("", ""));
    assert!(starts_with("hello", "he"));
    assert!(!starts_with("he", "hello"));
    assert!(same("a", "a"));
    assert!(!same("a", "b"));
}

#[test]
fn cutting() {
    assert_eq!(split("a:b::c", ':'), vec!["a", "b", "", "c"]);
    assert_eq!(split("", ':'), vec![""]);
    assert_eq!(split_lines("a\r\nb\n\nc"), vec!["a", "b", "", "c"]);
    assert_eq!(split_lines("a\n"), vec!["a"]);
    assert_eq!(text_before("a/b/c", '/'), "a");
    assert_eq!(text_before("abc", '/'), "abc");
    assert_eq!(trim("  a b\t\n"), "a b");
    assert_eq!(trim("\u{a0}x\u{3000}"), "x");
    assert_eq!(strip("\"\"a\"b\"", '"'), "a\"b");
    assert_eq!(word_two("inet6  fe80::1/64 x"), "fe80::1/64");
    assert_eq!(word_two("one"), "");
    assert_eq!(first_bytes("hello", 3), "hel");
    assert_eq!(first_bytes("hi", 3), "hi");
    assert_eq!(text_of(&chars_of("hello"), 1, 3), "el");
}

#[test]
fn building() {
    assert_eq!(decimal_text(0), "0");
    assert_eq!(decimal_text(1203), "1203");
    assert_eq!(hex_text(&[0x0f, 0xa0, 0xff], 2), "0fa0");
    assert_eq!(swap_char("a b c", ' ', '-'), "a-b-c");
    assert_eq!(join(&vec!["a".to_string(), "b".to_string()], ", "), "a, b");
    assert_eq!(join(&Vec::new(), ", "), "");
    assert_eq!(copy("h\u{e4}"), "h\u{e4}");
    assert!(listed(&vec!["x".to_string()], "x"));
}

#[test]
fn comparing() {
    assert!(comes_before("100", "99"));
    assert!(comes_before("a", "ab"));
    assert!(!comes_before("ab", "ab"));
}

#[test]
fn reading_ports() {
    assert_eq!(parse_port("0"), Some(0));
    assert_eq!(parse_port("65535"), Some(65535));
    assert_eq!(parse_port("65536"), None);
    assert_eq!(parse_port(""), None);
    assert_eq!(parse_port("+"), None);
    assert_eq!(parse_port("-1"), None);
    assert_eq!(parse_port(" 1"), None);
}
