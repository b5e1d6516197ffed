use reclipse::text::{parse_u64, str_contains, str_le, str_starts_with, u64_to_decimal};

#[test]
fn decimal_rendering() {
    assert_eq!(u64_to_decimal(0), "0");
    assert_eq!(u64_to_decimal(7), "7");
    assert_eq!(u64_to_decimal(48925545), "48925545");
    assert_eq!(u64_to_decimal(u64::MAX), "18446744073709551615");
}

#[test]
fn decimal_parsing() {
    assert_eq!(parse_u64("48925545"), Some(48925545));
    assert_eq!(parse_u64("+12"), Some(12));
    assert_eq!(parse_u64("007"), Some(7));
    assert_eq!(parse_u64("18446744073709551615"), Some(u64::MAX));
    assert_eq!(parse_u64("18446744073709551616"), None);
    assert_eq!(parse_u64(""), None);
    assert_eq!(parse_u64("+"), None);
    assert_eq!(parse_u64("-1"), None);
    assert_eq!(parse_u64("12a"), None);
    assert_eq!(parse_u64(" 1"), None);
}

#[test]
fn decimal_round_trip() {
    for n in [0u64, 1, 9, 10, 99, 100, 123456789, u64::MAX - 1, u64::MAX] {
        assert_eq!(parse_u64(&u64_to_decimal(n)), Some(n));
        assert_eq!(u64_to_decimal(n), n.to_string());
    }
}

#[test]
fn text_tests() {
    assert!(str_starts_with("snapshot-1-a.tar.zst", "snapshot-"));
    assert!(!str_starts_with("snap", "snapshot-"));
    assert!(str_starts_with("abc", ""));
    assert!(str_contains("snapshot-48925545-x", "48925545"));
    assert!(!str_contains("snapshot-4892554-x", "48925545"));
    assert!(str_contains("abc", ""));
    assert!(str_le("block_plus_10.json", "block_plus_2.json"));
    assert!(!str_le("b", "a"));
    assert!(str_le("a", "ab"));
    assert!(!str_le("ab", "a"));
    assert!(str_le("same", "same"));
}
