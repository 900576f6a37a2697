use transdb::decimal::{format_thousands, parse_u64_str, u64_to_string};

#[test]
fn test_u64_to_string_values() {
    assert_eq!(u64_to_string(0), "0");
    assert_eq!(u64_to_string(7), "7");
    assert_eq!(u64_to_string(42), "42");
    assert_eq!(u64_to_string(1024), "1024");
    assert_eq!(u64_to_string(4194304), "4194304");
    assert_eq!(u64_to_string(u64::MAX), "18446744073709551615");
}

#[test]
fn test_parse_u64_str_accepts_decimals() {
    assert_eq!(parse_u64_str("0"), Some(0));
    assert_eq!(parse_u64_str("42"), Some(42));
    assert_eq!(parse_u64_str("+42"), Some(42));
    assert_eq!(parse_u64_str("007"), Some(7));
    assert_eq!(parse_u64_str("18446744073709551615"), Some(u64::MAX));
}

#[test]
fn test_parse_u64_str_rejects_everything_else() {
    assert_eq!(parse_u64_str(""), None);
    assert_eq!(parse_u64_str("+"), None);
    assert_eq!(parse_u64_str("-1"), None);
    assert_eq!(parse_u64_str("not-a-number"), None);
    assert_eq!(parse_u64_str("12 "), None);
    assert_eq!(parse_u64_str(" 12"), None);
    assert_eq!(parse_u64_str("1.5"), None);
    assert_eq!(parse_u64_str("18446744073709551616"), None); // one past u64::MAX
    assert_eq!(parse_u64_str("99999999999999999999999"), None);
}

#[test]
fn test_parse_inverts_rendering() {
    for n in [0u64, 1, 9, 10, 99, 100, 1023, 1024, 4194304, u64::MAX] {
        assert_eq!(parse_u64_str(&u64_to_string(n)), Some(n));
    }
}

#[test]
fn test_format_thousands_values() {
    assert_eq!(format_thousands(0), "0");
    assert_eq!(format_thousands(999), "999");
    assert_eq!(format_thousands(1000), "~1K");
    assert_eq!(format_thousands(1500), "~1K");
    assert_eq!(format_thousands(999999), "~999K");
    assert_eq!(format_thousands(1000000), "~1M");
    assert_eq!(format_thousands(2500000), "~2M");
}
