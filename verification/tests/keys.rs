use thermal_core::keys::find_last_underscore;
use thermal_core::keys::format_key;
use thermal_core::keys::parse_u64;
use thermal_core::keys::u64_to_string;

#[test]
fn test_u64_to_string() {
    assert_eq!(u64_to_string(0), "0".to_string());
    assert_eq!(u64_to_string(7), "7".to_string());
    assert_eq!(u64_to_string(10), "10".to_string());
    assert_eq!(u64_to_string(90210), "90210".to_string());
    assert_eq!(
        u64_to_string(u64::MAX),
        "18446744073709551615".to_string()
    );
}

#[test]
fn test_format_key() {
    assert_eq!(format_key("curve", 0), "curve_0".to_string());
    assert_eq!(format_key("", 3), "_3".to_string());
    assert_eq!(format_key("a_b", 12), "a_b_12".to_string());
}

#[test]
fn test_parse_u64_matches_std() {
    for s in [
        "0",
        "42",
        "+42",
        "007",
        "",
        "+",
        "-1",
        "4x2",
        "18446744073709551615",
        "18446744073709551616",
        "99999999999999999999999",
        " 1",
    ] {
        assert_eq!(parse_u64(s), s.parse::<u64>().ok(), "input {:?}", s);
    }
}

#[test]
fn test_find_last_underscore() {
    assert_eq!(find_last_underscore("a_b_c"), Some(3));
    assert_eq!(find_last_underscore("_"), Some(0));
    assert_eq!(find_last_underscore("abc"), None);
    assert_eq!(find_last_underscore(""), None);
}
