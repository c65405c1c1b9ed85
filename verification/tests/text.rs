use syncthing_select_sync::text::{
    append_decimal, append_signed_decimal, chars_of, contains_chars, find_from, is_white_space_char,
    matches_at, parse_u32_text, replace_str, same_chars, same_text, lies_below, text_less,
    trim_bounds, trim_start_matches_char,
};

fn cs(s: &str) -> Vec<char> {
    s.chars().collect()
}

#[test]
fn chars_and_matching() {
    assert_eq!(chars_of("héllo"), cs("héllo"));
    assert!(matches_at(&cs("abcabc"), &cs("ca"), 2));
    assert!(!matches_at(&cs("abcabc"), &cs("ca"), 3));
    assert!(!matches_at(&cs("ab"), &cs("abc"), 0));
    assert_eq!(find_from(&cs("abcabc"), &cs("bc"), 0), Some(1));
    assert_eq!(find_from(&cs("abcabc"), &cs("bc"), 2), Some(4));
    assert_eq!(find_from(&cs("abcabc"), &cs("bc"), 5), None);
    assert!(contains_chars(&cs("FILE_INFO_TYPE_FILE"), &cs("FILE")));
    assert!(!contains_chars(&cs("DIR"), &cs("FILE")));
}

#[test]
fn trimming() {
    assert_eq!(trim_bounds(&cs("  ab c \t"), 0, 8), (2, 6));
    assert_eq!(trim_bounds(&cs("   "), 0, 3).0, trim_bounds(&cs("   "), 0, 3).1);
    assert!(is_white_space_char('\u{3000}'));
    assert!(!is_white_space_char('x'));
    assert_eq!(trim_start_matches_char("//a/b", '/'), "a/b");
}

#[test]
fn replacing_like_str_replace() {
    assert_eq!(replace_str("a-b-c", "-", "+"), "a+b+c");
    assert_eq!(replace_str("aaa", "aa", "b"), "ba");
    assert_eq!(replace_str("ab", "", "-"), "-a-b-");
    assert_eq!(replace_str("xyz", "q", "r"), "xyz");
}

#[test]
fn comparing_texts() {
    assert!(same_text("abc", "abc"));
    assert!(!same_text("abc", "abd"));
    assert!(same_chars(&cs("x"), &cs("x")));
    assert!(text_less(&cs("Zeta"), &cs("alpha")));
    assert!(text_less(&cs("ab"), &cs("abc")));
    assert!(!text_less(&cs("abc"), &cs("abc")));
    assert!(lies_below(&cs("ab"), &cs("ab/c")));
    assert!(!lies_below(&cs("ab"), &cs("abc")));
    assert!(lies_below(&cs("ab"), &cs("ab/")));
    assert!(lies_below(&cs("ab/"), &cs("ab/c")));
    assert!(lies_below(&cs(""), &cs("x")));
    assert!(!lies_below(&cs("abc"), &cs("abc")));
}

#[test]
fn numbers_in_and_out() {
    let mut s = String::from("n=");
    append_decimal(&mut s, 0);
    append_decimal(&mut s, 1234567890123);
    append_signed_decimal(&mut s, -42);
    append_signed_decimal(&mut s, i64::MIN);
    assert_eq!(s, format!("n=01234567890123-42{}", i64::MIN));
    assert_eq!(parse_u32_text("42"), Some(42));
    assert_eq!(parse_u32_text("+7"), Some(7));
    assert_eq!(parse_u32_text("4294967295"), Some(u32::MAX));
    assert_eq!(parse_u32_text("4294967296"), None);
    assert_eq!(parse_u32_text("-1"), None);
    assert_eq!(parse_u32_text("+"), None);
    assert_eq!(parse_u32_text(""), None);
    assert_eq!(parse_u32_text("1 "), None);
}
