use kwatcher::text::{parse_u64, trim_end_string, u64_to_string};

#[test]
fn renders_decimals() {
    assert_eq!(u64_to_string(0), "0");
    assert_eq!(u64_to_string(7), "7");
    assert_eq!(u64_to_string(42), "42");
    assert_eq!(u64_to_string(1024), "1024");
    assert_eq!(u64_to_string(u64::MAX), "18446744073709551615");
}

#[test]
fn parses_decimals() {
    assert_eq!(parse_u64("0"), Some(0));
    assert_eq!(parse_u64("42"), Some(42));
    assert_eq!(parse_u64("007"), Some(7));
    assert_eq!(parse_u64("18446744073709551615"), Some(u64::MAX));
}

#[test]
fn accepts_leading_plus() {
    assert_eq!(parse_u64("+42"), Some(42));
    assert_eq!(parse_u64("+"), None);
}

#[test]
fn rejects_garbage() {
    assert_eq!(parse_u64(""), None);
    assert_eq!(parse_u64("4x2"), None);
    assert_eq!(parse_u64("-1"), None);
    assert_eq!(parse_u64(" 42"), None);
    assert_eq!(parse_u64("42 "), None);
}

#[test]
fn rejects_overflow() {
    assert_eq!(parse_u64("18446744073709551616"), None);
    assert_eq!(parse_u64("99999999999999999999999"), None);
}

#[test]
fn round_trip_render_parse() {
    for n in [0u64, 1, 9, 10, 99, 1000, 123456789, u64::MAX] {
        assert_eq!(parse_u64(&u64_to_string(n)), Some(n));
    }
}

#[test]
fn trims_trailing_whitespace() {
    assert_eq!(trim_end_string("abc\n"), "abc");
    assert_eq!(trim_end_string("abc \t\r\n"), "abc");
    assert_eq!(trim_end_string("abc"), "abc");
    assert_eq!(trim_end_string("  abc"), "  abc");
    assert_eq!(trim_end_string("   "), "");
    assert_eq!(trim_end_string(""), "");
}
