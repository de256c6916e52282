use rebotarm_control_rt::numeric::{parse_i64, parse_uint, usize_decimal};
use rebotarm_control_rt::text::{
    chars_of, find_chars, is_whitespace, lines, rfind_chars_before, split_char, split_whitespace,
    substring,
    to_ascii_lowercase, trim_text,
};

fn c(s: &str) -> Vec<char> {
    s.chars().collect()
}

#[test]
fn unsigned_parsing() {
    assert_eq!(parse_uint(&c("42"), 10, u64::MAX), Some(42));
    assert_eq!(parse_uint(&c("+7"), 10, 100), Some(7));
    assert_eq!(parse_uint(&c("ff"), 16, 0xffff), Some(255));
    assert_eq!(parse_uint(&c("FFFF"), 16, 0xffff), Some(0xffff));
    assert_eq!(parse_uint(&c("10000"), 16, 0xffff), None);
    assert_eq!(parse_uint(&c("18446744073709551615"), 10, u64::MAX), Some(u64::MAX));
    assert_eq!(parse_uint(&c("18446744073709551616"), 10, u64::MAX), None);
    assert_eq!(parse_uint(&c(""), 10, 9), None);
    assert_eq!(parse_uint(&c("+"), 10, 9), None);
    assert_eq!(parse_uint(&c("-1"), 10, 9), None);
    assert_eq!(parse_uint(&c("1 "), 10, 9), None);
    assert_eq!(parse_uint(&c("1a"), 10, 100), None);
}

#[test]
fn signed_parsing() {
    assert_eq!(parse_i64(&c("-12"), 10), Some(-12));
    assert_eq!(parse_i64(&c("+12"), 10), Some(12));
    assert_eq!(parse_i64(&c("-8000000000000000"), 16), Some(i64::MIN));
    assert_eq!(parse_i64(&c("7fffffffffffffff"), 16), Some(i64::MAX));
    assert_eq!(parse_i64(&c("8000000000000000"), 16), None);
    assert_eq!(parse_i64(&c("-"), 10), None);
    assert_eq!(parse_i64(&c("--1"), 10), None);
    assert_eq!(parse_i64(&c("-+1"), 10), None);
}

#[test]
fn decimal_text() {
    assert_eq!(usize_decimal(0), c("0"));
    assert_eq!(usize_decimal(907), c("907"));
    assert_eq!(usize_decimal(usize::MAX), c(&usize::MAX.to_string()));
}

#[test]
fn text_helpers() {
    assert_eq!(chars_of("añb"), vec!['a', 'ñ', 'b']);
    assert_eq!(substring("hello", 1, 3), "el");
    assert_eq!(trim_text("\u{3000} x y \n"), "x y");
    assert!(is_whitespace('\u{85}'));
    assert!(!is_whitespace('x'));
    assert_eq!(find_chars(&c("abcabc"), &c("ca")), Some(2));
    assert_eq!(find_chars(&c("abc"), &c("")), Some(0));
    assert_eq!(find_chars(&c("abc"), &c("d")), None);
    assert_eq!(rfind_chars_before(&c("<l a <l b"), &c("<l"), 9), Some(5));
    assert_eq!(rfind_chars_before(&c("<l a <l b"), &c("<l"), 5), Some(0));
    assert_eq!(to_ascii_lowercase("RoBstride-É"), c("robstride-É"));
    assert_eq!(lines("a\r\nb\n\nc"), vec!["a", "b", "", "c"]);
    assert_eq!(lines("a\n"), vec!["a"]);
    assert!(lines("").is_empty());
    assert_eq!(split_char("a,b,", ','), vec!["a", "b", ""]);
}

#[test]
fn whitespace_words() {
    assert_eq!(split_whitespace("  a  bc\td\n"), vec!["a", "bc", "d"]);
    assert_eq!(split_whitespace(""), Vec::<String>::new());
    assert_eq!(split_whitespace(" \u{3000} "), Vec::<String>::new());
    assert_eq!(split_whitespace("x"), vec!["x"]);
}
