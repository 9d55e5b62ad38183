use zerofbuf::text::{
    chars_of, decimal_string, hex_string, join_path, replace_str, str_eq, string_of, trim_is_empty,
};

#[test]
fn replace_str_replaces_every_match_left_to_right() {
    assert_eq!(replace_str("a{x}b{x}", "{x}", "Z").as_str(), "aZbZ");
    assert_eq!(replace_str("aaa", "aa", "b").as_str(), "ba");
    assert_eq!(replace_str("no match", "{x}", "Z").as_str(), "no match");
    assert_eq!(replace_str("12:34:56", ":", "").as_str(), "123456");
}

#[test]
fn replace_str_matches_std() {
    let cases = [("{class}{class}", "{class}", "k"), ("x{y}", "{y}", "{y}{y}"), ("", "a", "b")];
    for (s, p, r) in cases {
        assert_eq!(replace_str(s, p, r), s.replace(p, r));
    }
}

#[test]
fn numbers_format_like_std() {
    for n in [0u64, 7, 10, 255, 4096, u64::MAX] {
        assert_eq!(decimal_string(n), format!("{}", n));
    }
    for n in [0u32, 9, 10, 0x2e00017, u32::MAX] {
        assert_eq!(hex_string(n), format!("0x{:x}", n));
    }
}

#[test]
fn join_path_puts_one_separator() {
    assert_eq!(join_path("/home/u", "x.json").as_str(), "/home/u/x.json");
    assert_eq!(join_path("/home/u/", "x.json").as_str(), "/home/u/x.json");
    assert_eq!(join_path("", "x.json").as_str(), "x.json");
}

#[test]
fn trim_is_empty_only_for_white_space() {
    assert!(trim_is_empty(""));
    assert!(trim_is_empty(" \t\n\u{3000}"));
    assert!(!trim_is_empty("  a "));
}

#[test]
fn chars_round_trip_and_equality() {
    let v = chars_of("héllo");
    assert_eq!(v.len(), 5);
    assert_eq!(string_of(&v).as_str(), "héllo");
    assert!(str_eq("abc", "abc"));
    assert!(!str_eq("abc", "abd"));
}
