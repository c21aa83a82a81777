use balance_checker::{format_balance, parse_u128_or_zero, Balance};

#[test]
fn test_format_whole_unit() {
    assert_eq!(format_balance("1000000000000000000", 18), "1");
}

#[test]
fn test_format_one_and_a_half() {
    assert_eq!(format_balance("1500000", 6), "1.5");
}

#[test]
fn test_format_smallest_fraction() {
    assert_eq!(format_balance("1", 18), "0.000000000000000001");
}

#[test]
fn test_format_zero() {
    assert_eq!(format_balance("0", 6), "0");
}

#[test]
fn test_format_zero_decimals() {
    assert_eq!(format_balance("42", 0), "42");
}

#[test]
fn test_format_trims_trailing_zeros() {
    assert_eq!(format_balance("1230000", 6), "1.23");
    assert_eq!(format_balance("1001000", 6), "1.001");
}

#[test]
fn test_format_elides_zero_fraction() {
    assert_eq!(format_balance("2000000", 6), "2");
    assert!(!format_balance("5000000000", 9).contains('.'));
    assert!(format_balance("5000000001", 9).contains('.'));
}

#[test]
fn test_format_malformed_reads_as_zero() {
    assert_eq!(format_balance("not-a-number", 6), "0");
    assert_eq!(format_balance("", 6), "0");
    assert_eq!(format_balance("12x3", 6), "0");
}

#[test]
fn test_format_oversized_reads_as_zero() {
    // One more digit than u128 can hold.
    assert_eq!(format_balance("999999999999999999999999999999999999999", 6), "0");
}

#[test]
fn test_format_round_trip_concrete() {
    // Reconstruct 1234567 from "1.234567" at 6 decimals.
    let s = format_balance("1234567", 6);
    assert_eq!(s, "1.234567");
    let (whole, frac) = s.split_at(s.find('.').unwrap());
    let frac = &frac[1..];
    let padded: u128 =
        frac.parse::<u128>().unwrap() * 10u128.pow(6 - frac.len() as u32);
    let back = whole.parse::<u128>().unwrap() * 10u128.pow(6) + padded;
    assert_eq!(back, 1234567);
}

#[test]
fn test_parse_or_zero() {
    assert_eq!(parse_u128_or_zero("123"), 123);
    assert_eq!(parse_u128_or_zero("+123"), 123);
    assert_eq!(parse_u128_or_zero("007"), 7);
    assert_eq!(parse_u128_or_zero("+"), 0);
    assert_eq!(parse_u128_or_zero("1.5"), 0);
    assert_eq!(parse_u128_or_zero("340282366920938463463374607431768211455"), u128::MAX);
    assert_eq!(parse_u128_or_zero("340282366920938463463374607431768211456"), 0);
}

#[test]
fn test_balance_new_caches_formatting() {
    let b = Balance::new("ETH".to_string(), "1500000000000000000".to_string(), 18);
    assert_eq!(b.token, "ETH");
    assert_eq!(b.amount, "1500000000000000000");
    assert_eq!(b.decimals, 18);
    assert_eq!(b.formatted, "1.5");
}
