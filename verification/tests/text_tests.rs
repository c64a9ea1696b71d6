use freight::text::{chars_of, i64_to_string, parse_integer, replace, trim_chars, u64_to_string};

#[test]
fn decimal_text() {
    assert_eq!(u64_to_string(0), "0");
    assert_eq!(u64_to_string(1234567890), "1234567890");
    assert_eq!(u64_to_string(u64::MAX), "18446744073709551615");
    assert_eq!(i64_to_string(-42), "-42");
    assert_eq!(i64_to_string(i64::MIN), "-9223372036854775808");
}

#[test]
fn replace_is_left_to_right_and_non_overlapping() {
    assert_eq!(replace("a{x}b{x}", "{x}", "Y"), "aYbY");
    assert_eq!(replace("aaa", "aa", "b"), "ba");
    assert_eq!(replace("abc", "zz", "y"), "abc");
    assert_eq!(replace("ab", "ab", ""), "");
}

#[test]
fn integers_parse_like_str_parse() {
    let p = |s: &str, lo: i64, hi: i64| parse_integer(&chars_of(s), lo, hi);
    assert_eq!(p("-128", -128, 127), Some(-128));
    assert_eq!(p("128", -128, 127), None);
    assert_eq!(p("007", -128, 127), Some(7));
    assert_eq!(p("+3", -128, 127), Some(3));
    assert_eq!(p("", -128, 127), None);
    assert_eq!(p("+", -128, 127), None);
    assert_eq!(p("1a", -128, 127), None);
    assert_eq!(p(" 1", -128, 127), None);
    assert_eq!(p("99999999999999999999", -128, 127), None);
    assert_eq!(p("2147483647", -2147483648, 2147483647), Some(2147483647));
}

#[test]
fn trim_removes_unicode_white_space() {
    let t: String = trim_chars(&chars_of("\u{3000} a b\t\n")).into_iter().collect();
    assert_eq!(t, "a b");
    let t: String = trim_chars(&chars_of("   ")).into_iter().collect();
    assert_eq!(t, "");
}
