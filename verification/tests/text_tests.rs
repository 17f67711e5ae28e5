use tcp_udp_stream_provider::text::{parse_port, str_eq, u64_to_string};

#[test]
fn decimal_formatting_exact_values() {
    assert_eq!(u64_to_string(0), "0");
    assert_eq!(u64_to_string(7), "7");
    assert_eq!(u64_to_string(8080), "8080");
    assert_eq!(u64_to_string(65535), "65535");
    assert_eq!(u64_to_string(u64::MAX), "18446744073709551615");
}

#[test]
fn parse_port_accepts_valid_ports() {
    assert_eq!(parse_port("1"), Some(1));
    assert_eq!(parse_port("8080"), Some(8080));
    assert_eq!(parse_port("65535"), Some(65535));
    // leading zeros name the same value
    assert_eq!(parse_port("007"), Some(7));
}

#[test]
fn parse_port_rejects_invalid_strings() {
    assert_eq!(parse_port(""), None);
    assert_eq!(parse_port("0"), None);
    assert_eq!(parse_port("65536"), None);
    assert_eq!(parse_port("99999999999999999999"), None);
    assert_eq!(parse_port("+80"), None);
    assert_eq!(parse_port("-1"), None);
    assert_eq!(parse_port("80a"), None);
    assert_eq!(parse_port(" 80"), None);
}

#[test]
fn str_eq_compares_by_characters() {
    assert!(str_eq("", ""));
    assert!(str_eq("abc", "abc"));
    assert!(!str_eq("abc", "abd"));
    assert!(!str_eq("abc", "ab"));
    assert!(str_eq("naïve", "naïve"));
}
