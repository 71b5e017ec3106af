use lax::text::{
    ascii_lowercase, chars_of, dec_string, find_chars, join_chars, lex_le_chars, lines_of,
    parse_uint, replace_str, sort_chars, sort_keyed, split_chars, string_of, trim_str,
    words_chars, CharSet, Sep, trim_chars_set,
};

fn strs(v: &Vec<Vec<char>>) -> Vec<String> {
    v.iter().map(|x| string_of(x)).collect()
}

fn cv(xs: &[&str]) -> Vec<Vec<char>> {
    xs.iter().map(|x| chars_of(x)).collect()
}

#[test]
fn decimal_text() {
    assert_eq!(dec_string(0), "0");
    assert_eq!(dec_string(7), "7");
    assert_eq!(dec_string(3306), "3306");
    assert_eq!(dec_string(u64::MAX), "18446744073709551615");
}

#[test]
fn parse_unsigned_numbers() {
    assert_eq!(parse_uint(&chars_of("8080"), 65535), Some(8080));
    assert_eq!(parse_uint(&chars_of("+12"), 65535), Some(12));
    assert_eq!(parse_uint(&chars_of("65536"), 65535), None);
    assert_eq!(parse_uint(&chars_of(""), 65535), None);
    assert_eq!(parse_uint(&chars_of("+"), 65535), None);
    assert_eq!(parse_uint(&chars_of("-1"), 65535), None);
    assert_eq!(parse_uint(&chars_of("1a"), 65535), None);
    assert_eq!(parse_uint(&chars_of("18446744073709551615"), u64::MAX), Some(u64::MAX));
    assert_eq!(parse_uint(&chars_of("18446744073709551616"), u64::MAX), None);
}

#[test]
fn decimal_then_parse_round_trips() {
    for n in [0u64, 1, 9, 10, 443, 65535, 4294967295] {
        assert_eq!(parse_uint(&chars_of(&dec_string(n)), u64::MAX), Some(n));
    }
}

#[test]
fn lines_like_str_lines() {
    assert_eq!(strs(&lines_of("a\nb\r\nc")), vec!["a", "b", "c"]);
    assert_eq!(strs(&lines_of("a\n")), vec!["a"]);
    assert_eq!(strs(&lines_of("\n\n")), vec!["", ""]);
    assert!(lines_of("").is_empty());
    assert_eq!(strs(&lines_of("x\r")), vec!["x\r"]);
}

#[test]
fn trims_and_case() {
    assert_eq!(string_of(&trim_str(" \t a b \n")), "a b");
    assert_eq!(string_of(&trim_chars_set(&chars_of("\"x\""), CharSet::One('"'))), "x");
    assert_eq!(ascii_lowercase("PhP-ÄB"), "php-Äb");
}

#[test]
fn find_and_replace() {
    assert_eq!(find_chars(&chars_of("abcabc"), &chars_of("ca")), Some(2));
    assert_eq!(find_chars(&chars_of("abc"), &chars_of("x")), None);
    assert_eq!(find_chars(&chars_of("abc"), &chars_of("")), Some(0));
    assert_eq!(string_of(&replace_str(&chars_of("a-b-c"), "-", "--")), "a--b--c");
    assert_eq!(string_of(&replace_str(&chars_of("aaa"), "aa", "b")), "ba");
}

#[test]
fn splits_and_joins() {
    assert_eq!(strs(&split_chars(&chars_of("a/b\\c"), Sep::Slashes)), vec!["a", "b", "c"]);
    assert_eq!(strs(&split_chars(&chars_of("1.2.3"), Sep::NonDigit)), vec!["1", "2", "3"]);
    assert_eq!(strs(&split_chars(&chars_of(":a:"), Sep::Char(':'))), vec!["", "a", ""]);
    assert_eq!(strs(&words_chars(&chars_of("  tcp  0.0.0.0:80   LISTEN "))), vec!["tcp", "0.0.0.0:80", "LISTEN"]);
    assert_eq!(string_of(&join_chars(&cv(&["a", "b", "c"]), &chars_of(", "))), "a, b, c");
}

#[test]
fn lexicographic_order_and_sorting() {
    assert!(lex_le_chars(&chars_of("abc"), &chars_of("abd")));
    assert!(lex_le_chars(&chars_of("ab"), &chars_of("abc")));
    assert!(!lex_le_chars(&chars_of("b"), &chars_of("abc")));
    assert!(lex_le_chars(&chars_of("Z"), &chars_of("a")));
    let sorted = sort_chars(cv(&["php-8.2", "php-7.4", "php-8.10", "php-8.2"]));
    assert_eq!(strs(&sorted), vec!["php-7.4", "php-8.10", "php-8.2", "php-8.2"]);
    let keyed = sort_keyed(vec![(chars_of("b"), 1), (chars_of("a"), 2), (chars_of("b"), 0)]);
    let got: Vec<(String, i32)> = keyed.into_iter().map(|(k, x)| (string_of(&k), x)).collect();
    assert_eq!(got, vec![("a".to_string(), 2), ("b".to_string(), 1), ("b".to_string(), 0)]);
}
