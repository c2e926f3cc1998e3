use fung_preng_app::decimal::{format_u64, parse_u64};

#[test]
fn parse_plain_digits() {
    assert_eq!(parse_u64(b"5000000"), Some(5000000));
    assert_eq!(parse_u64(b"0"), Some(0));
    assert_eq!(parse_u64(b"007"), Some(7));
}

#[test]
fn parse_accepts_leading_plus() {
    assert_eq!(parse_u64(b"+42"), Some(42));
}

#[test]
fn parse_rejects_what_from_str_rejects() {
    assert_eq!(parse_u64(b""), None);
    assert_eq!(parse_u64(b"+"), None);
    assert_eq!(parse_u64(b"-1"), None);
    assert_eq!(parse_u64(b"12a"), None);
    assert_eq!(parse_u64(b" 12"), None);
    assert_eq!(parse_u64(b"*"), None);
}

#[test]
fn parse_limits_of_u64() {
    assert_eq!(parse_u64(b"18446744073709551615"), Some(u64::MAX));
    assert_eq!(parse_u64(b"18446744073709551616"), None);
    assert_eq!(parse_u64(b"99999999999999999999999"), None);
}

#[test]
fn parse_agrees_with_std() {
    for s in ["1", "+1", "", "+", "12x", "18446744073709551615", "18446744073709551616", "00", "-0"] {
        assert_eq!(parse_u64(s.as_bytes()), s.parse::<u64>().ok(), "input {s:?}");
    }
}

#[test]
fn format_gives_shortest_decimal() {
    assert_eq!(format_u64(0), "0");
    assert_eq!(format_u64(7), "7");
    assert_eq!(format_u64(262143), "262143");
    assert_eq!(format_u64(u64::MAX), "18446744073709551615");
}

#[test]
fn decimal_round_trip() {
    for n in [0u64, 9, 10, 99, 100, 123456789, u64::MAX - 1, u64::MAX] {
        assert_eq!(parse_u64(format_u64(n).as_bytes()), Some(n));
    }
}
