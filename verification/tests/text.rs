use ira::text::{eq_ignore_ascii_case, i64_to_string, parse_i64, parse_u32, trim, u64_to_string};

#[test]
fn trim_removes_unicode_white_space_at_both_ends() {
    assert_eq!(trim("  a b \n"), "a b");
    assert_eq!(trim("\u{3000}x\u{a0}"), "x");
    assert_eq!(trim("   "), "");
    assert_eq!(trim(""), "");
}

#[test]
fn integers_render_in_decimal() {
    assert_eq!(u64_to_string(0), "0");
    assert_eq!(u64_to_string(18_446_744_073_709_551_615), "18446744073709551615");
    assert_eq!(i64_to_string(-42), "-42");
    assert_eq!(i64_to_string(i64::MIN), "-9223372036854775808");
}

#[test]
fn integers_parse_like_std() {
    for s in ["0", "+7", "4294967295", "4294967296", "", "+", "-1", " 1", "12a"] {
        assert_eq!(parse_u32(s), s.parse::<u32>().ok(), "{s}");
    }
    for s in ["-9223372036854775808", "9223372036854775807", "9223372036854775808", "-", "+-1", "-0"] {
        assert_eq!(parse_i64(s), s.parse::<i64>().ok(), "{s}");
    }
}

#[test]
fn ascii_case_insensitive_equality() {
    assert!(eq_ignore_ascii_case("PEGI", "pegi"));
    assert!(!eq_ignore_ascii_case("PEGI", "pegi "));
    assert!(!eq_ignore_ascii_case("É", "é"));
}
