use ghfetch::text::{chars_of, contains_text, decimal_string, parse_count, same_text};

#[test]
fn decimal_rendering() {
    assert_eq!(decimal_string(0), "0");
    assert_eq!(decimal_string(7), "7");
    assert_eq!(decimal_string(10), "10");
    assert_eq!(decimal_string(1_700_000_160), "1700000160");
    assert_eq!(decimal_string(u64::MAX), u64::MAX.to_string());
}

#[test]
fn decimal_roundtrip() {
    for n in [0u32, 1, 9, 10, 255, 65_536, 4_000_000_000, u32::MAX] {
        assert_eq!(parse_count(&decimal_string(n as u64)), Some(n));
    }
}

#[test]
fn substring_search() {
    assert!(contains_text("API rate limit exceeded for user", "rate limit"));
    assert!(!contains_text("rate-limit", "rate limit"));
    assert!(contains_text("anything", ""));
    assert!(!contains_text("", "x"));
    assert!(contains_text("rate limit", "rate limit"));
}

#[test]
fn text_equality_and_chars() {
    assert!(same_text("/health", "/health"));
    assert!(!same_text("/health", "/healt"));
    assert_eq!(chars_of("añb"), vec!['a', 'ñ', 'b']);
}
