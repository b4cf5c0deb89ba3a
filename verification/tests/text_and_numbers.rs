use chat_proxy::numeral::{hex_string, parse_unsigned_chars, push_radix};

fn decimal_string(n: u64) -> String {
    let mut s = String::from("#");
    push_radix(&mut s, n, 10);
    assert!(s.starts_with('#'));
    s[1..].to_string()
}
use chat_proxy::text::{
    chars_of, contains, find_first, find_last, lower_chars, next_word, same_chars, starts_with,
    string_of, trim_chars,
};

fn cs(s: &str) -> Vec<char> {
    s.chars().collect()
}

#[test]
fn chars_and_strings_round_trip() {
    let v = chars_of("héllo wörld");
    assert_eq!(v, cs("héllo wörld"));
    assert_eq!(string_of(&v), "héllo wörld");
}

#[test]
fn trim_removes_unicode_whitespace_at_both_ends() {
    assert_eq!(trim_chars(&cs("\u{a0} 12 \t\r\n")), cs("12"));
    assert_eq!(trim_chars(&cs("\u{3000}a b\u{2028}")), cs("a b"));
    assert_eq!(trim_chars(&cs(" \r\n ")), cs(""));
    assert_eq!(trim_chars(&cs("")), cs(""));
}

#[test]
fn lower_only_folds_ascii_letters() {
    assert_eq!(lower_chars(&cs("Content-LENGTH: Ä9")), cs("content-length: Ä9"));
}

#[test]
fn prefix_and_substring_search() {
    assert!(starts_with(&cs("transfer-encoding: chunked"), &cs("transfer-encoding:")));
    assert!(!starts_with(&cs("x-transfer"), &cs("transfer")));
    assert!(starts_with(&cs("abc"), &cs("")));
    assert!(contains(&cs("HTTP/1.1 200 OK"), &cs(" 200 ")));
    assert!(!contains(&cs("HTTP/1.1 2000"), &cs(" 200 ")));
    assert!(contains(&cs(""), &cs("")));
    assert!(!contains(&cs("ab"), &cs("abc")));
    assert!(same_chars(&cs("POST"), &cs("POST")));
    assert!(!same_chars(&cs("POST"), &cs("post")));
}

#[test]
fn find_first_and_last() {
    let s = cs("a:b:c/d/e");
    assert_eq!(find_first(&s, '/'), Some(5));
    assert_eq!(find_last(&s, ':'), Some(3));
    assert_eq!(find_first(&s, '?'), None);
    assert_eq!(find_last(&cs(""), ':'), None);
}

#[test]
fn words_are_split_on_whitespace() {
    let s = cs("  POST\t/chat  HTTP/1.1\r\n");
    let (a, b) = next_word(&s, 0);
    assert_eq!(&s[a..b], &cs("POST")[..]);
    let (c, d) = next_word(&s, b);
    assert_eq!(&s[c..d], &cs("/chat")[..]);
    let e = cs("   ");
    let (x, y) = next_word(&e, 0);
    assert_eq!(x, y);
}

#[test]
fn numbers_are_written_without_leading_zeros() {
    assert_eq!(decimal_string(0), "0");
    assert_eq!(decimal_string(65535), "65535");
    assert_eq!(decimal_string(u64::MAX), u64::MAX.to_string());
    assert_eq!(hex_string(0), "0");
    assert_eq!(hex_string(255), "ff");
    assert_eq!(hex_string(4096), "1000");
    assert_eq!(hex_string(u64::MAX), "ffffffffffffffff");
}

#[test]
fn numbers_are_read_as_from_str_radix_reads_them() {
    assert_eq!(parse_unsigned_chars(&cs("8080"), 10, 65535), Some(8080));
    assert_eq!(parse_unsigned_chars(&cs("+12"), 10, 65535), Some(12));
    assert_eq!(parse_unsigned_chars(&cs("0007"), 10, 65535), Some(7));
    assert_eq!(parse_unsigned_chars(&cs("65535"), 10, 65535), Some(65535));
    assert_eq!(parse_unsigned_chars(&cs("65536"), 10, 65535), None);
    assert_eq!(parse_unsigned_chars(&cs("+"), 10, 65535), None);
    assert_eq!(parse_unsigned_chars(&cs(""), 10, 65535), None);
    assert_eq!(parse_unsigned_chars(&cs("-1"), 10, 65535), None);
    assert_eq!(parse_unsigned_chars(&cs("1 2"), 10, 65535), None);
    assert_eq!(parse_unsigned_chars(&cs("ff"), 10, 65535), None);
    assert_eq!(parse_unsigned_chars(&cs("ff"), 16, u64::MAX), Some(255));
    assert_eq!(parse_unsigned_chars(&cs("FF"), 16, u64::MAX), Some(255));
    assert_eq!(parse_unsigned_chars(&cs("1g"), 16, u64::MAX), None);
    assert_eq!(parse_unsigned_chars(&cs("ffffffffffffffff"), 16, u64::MAX), Some(u64::MAX));
    assert_eq!(parse_unsigned_chars(&cs("10000000000000000"), 16, u64::MAX), None);
    for n in [0u64, 1, 9, 10, 15, 16, 255, 65535, 1 << 40] {
        assert_eq!(parse_unsigned_chars(&cs(&decimal_string(n)), 10, u64::MAX), Some(n));
        assert_eq!(parse_unsigned_chars(&cs(&hex_string(n)), 16, u64::MAX), Some(n));
        assert_eq!(n.to_string().parse::<u64>().ok(), Some(n));
    }
}
