use hyperliquid_sdk_swift::decimal::{decimal_le, decimal_text, parse_decimal, round_to, Decimal};

fn dec(units: u64, scale: u32) -> Decimal {
    Decimal { units, scale }
}

#[test]
fn parses_plain_literals() {
    assert_eq!(parse_decimal("118144.5"), Some(dec(1181445, 1)));
    assert_eq!(parse_decimal("1000"), Some(dec(1000, 0)));
    assert_eq!(parse_decimal("0.00001"), Some(dec(1, 5)));
    assert_eq!(parse_decimal(".5"), Some(dec(5, 1)));
    assert_eq!(parse_decimal("5."), Some(dec(5, 0)));
    assert_eq!(parse_decimal("18446744073709551615"), Some(dec(u64::MAX, 0)));
}

#[test]
fn rejects_malformed_literals() {
    assert_eq!(parse_decimal(""), None);
    assert_eq!(parse_decimal("."), None);
    assert_eq!(parse_decimal("1.2.3"), None);
    assert_eq!(parse_decimal("-1"), None);
    assert_eq!(parse_decimal("abc"), None);
    assert_eq!(parse_decimal("1e5"), None);
    assert_eq!(parse_decimal(" 1"), None);
    assert_eq!(parse_decimal("18446744073709551616"), None);
    assert_eq!(parse_decimal("0.12345678901234567"), None);
    assert_eq!(parse_decimal("0.1234567890123456"), Some(dec(1234567890123456, 16)));
}

#[test]
fn rounds_half_away_from_zero() {
    assert_eq!(round_to(dec(15, 1), 0), Some(dec(2, 0)));
    assert_eq!(round_to(dec(25, 1), 0), Some(dec(3, 0)));
    assert_eq!(round_to(dec(14, 1), 0), Some(dec(1, 0)));
    assert_eq!(round_to(dec(5, 6), 5), Some(dec(1, 5)));
    assert_eq!(round_to(dec(4, 6), 5), Some(dec(0, 5)));
    assert_eq!(round_to(dec(1, 2), 5), Some(dec(1000, 5)));
    assert_eq!(round_to(dec(u64::MAX, 0), 1), None);
}

#[test]
fn rounding_twice_equals_rounding_once() {
    for text in ["0.000005", "118144.56789", "1", "2.5", "0.123456789"] {
        let x = parse_decimal(text).unwrap();
        for n in 0..8u32 {
            let once = round_to(x, n).unwrap();
            assert_eq!(round_to(once, n), Some(once));
        }
    }
}

#[test]
fn compares_by_value() {
    assert!(decimal_le(dec(1, 5), dec(1000, 5)));
    assert!(decimal_le(dec(10, 1), dec(1, 0)));
    assert!(decimal_le(dec(1, 0), dec(10, 1)));
    assert!(!decimal_le(dec(1, 4), dec(1, 5)));
}

#[test]
fn renders_fixed_digits() {
    assert_eq!(decimal_text(dec(1000, 5)), "0.01000");
    assert_eq!(decimal_text(dec(1181445, 1)), "118144.5");
    assert_eq!(decimal_text(dec(0, 0)), "0");
    assert_eq!(decimal_text(dec(5, 3)), "0.005");
    assert_eq!(decimal_text(dec(12345, 0)), "12345");
    assert_eq!(decimal_text(dec(u64::MAX, 0)), "18446744073709551615");
    assert_eq!(decimal_text(dec(u64::MAX, 16)), "1844.6744073709551615");
}
