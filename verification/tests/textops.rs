use memdev::props::PropMap;
use memdev::text::{parse_u64, parse_usize, str_eq, str_starts_with, strip_prefix_str, u64_to_string};

#[test]
fn parse_accepts_plain_decimals() {
    assert_eq!(parse_u64("0"), Some(0));
    assert_eq!(parse_u64("4800"), Some(4800));
    assert_eq!(parse_u64("007"), Some(7));
    assert_eq!(parse_usize("42"), Some(42));
}

#[test]
fn parse_accepts_one_leading_plus() {
    assert_eq!(parse_u64("+5"), Some(5));
    assert_eq!(parse_u64("++5"), None);
    assert_eq!(parse_u64("+"), None);
}

#[test]
fn parse_rejects_junk() {
    assert_eq!(parse_u64(""), None);
    assert_eq!(parse_u64("abc"), None);
    assert_eq!(parse_u64("12a"), None);
    assert_eq!(parse_u64("-1"), None);
    assert_eq!(parse_u64("4 800"), None);
    assert_eq!(parse_u64("4800.0"), None);
}

#[test]
fn parse_respects_the_64_bit_bound() {
    assert_eq!(parse_u64("18446744073709551615"), Some(u64::MAX));
    assert_eq!(parse_u64("18446744073709551616"), None);
    assert_eq!(parse_u64("99999999999999999999999"), None);
}

#[test]
fn rendering_is_plain_decimal() {
    assert_eq!(u64_to_string(0), "0");
    assert_eq!(u64_to_string(7), "7");
    assert_eq!(u64_to_string(4800), "4800");
    assert_eq!(u64_to_string(u64::MAX), "18446744073709551615");
}

#[test]
fn string_comparisons_are_exact() {
    assert!(str_eq("DDR5", "DDR5"));
    assert!(!str_eq("DDR5", "ddr5"));
    assert!(!str_eq("DDR5", "DDR5 "));
    assert!(str_starts_with("MEMORY_DEVICE_0_TYPE", "MEMORY_DEVICE_0_"));
    assert!(!str_starts_with("MEMORY_DEVICE_10_TYPE", "MEMORY_DEVICE_1_"));
    assert_eq!(
        strip_prefix_str("MEMORY_DEVICE_0_TYPE", "MEMORY_DEVICE_0_").as_deref(),
        Some("TYPE")
    );
    assert_eq!(strip_prefix_str("OTHER", "MEMORY_DEVICE_0_"), None);
}

#[test]
fn prop_map_has_map_semantics() {
    let mut m = PropMap::new();
    assert_eq!(m.num_entries(), 0);
    m.insert("A".to_string(), "1".to_string());
    m.insert("B".to_string(), "2".to_string());
    m.insert("A".to_string(), "3".to_string());
    assert_eq!(m.num_entries(), 2);
    assert_eq!(m.get("A").map(String::as_str), Some("3"));
    assert_eq!(m.get("B").map(String::as_str), Some("2"));
    assert_eq!(m.get("C"), None);
    assert_eq!(m.remove("A").as_deref(), Some("3"));
    assert_eq!(m.get("A"), None);
    assert_eq!(m.remove("A"), None);
    assert_eq!(m.num_entries(), 1);
}
