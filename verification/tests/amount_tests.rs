use platform_revenue::amount::{parse_amount, AMOUNT_MAX, SCALE};

#[test]
fn parses_plain_integers() {
    assert_eq!(parse_amount(&b"10".to_vec()), 10_000_000);
    assert_eq!(parse_amount(&b"0".to_vec()), 0);
    assert_eq!(parse_amount(&b"7".to_vec()), 7 * SCALE);
}

#[test]
fn parses_two_place_decimals() {
    assert_eq!(parse_amount(&b"10.00".to_vec()), 10_000_000);
    assert_eq!(parse_amount(&b"5.00".to_vec()), 5_000_000);
    assert_eq!(parse_amount(&b"2.00".to_vec()), 2_000_000);
    assert_eq!(parse_amount(&b"1.00".to_vec()), 1_000_000);
    assert_eq!(parse_amount(&b"12.5".to_vec()), 12_500_000);
}

#[test]
fn parses_signs() {
    assert_eq!(parse_amount(&b"-3.5".to_vec()), -3_500_000);
    assert_eq!(parse_amount(&b"+7".to_vec()), 7_000_000);
    assert_eq!(parse_amount(&b"-0".to_vec()), 0);
}

#[test]
fn parses_bare_dot_forms() {
    assert_eq!(parse_amount(&b".5".to_vec()), 500_000);
    assert_eq!(parse_amount(&b"12.".to_vec()), 12_000_000);
}

#[test]
fn truncates_beyond_six_fractional_digits() {
    assert_eq!(parse_amount(&b"1.2345678".to_vec()), 1_234_567);
    assert_eq!(parse_amount(&b"0.0000009".to_vec()), 0);
}

#[test]
fn malformed_text_coerces_to_zero() {
    assert_eq!(parse_amount(&b"abc".to_vec()), 0);
    assert_eq!(parse_amount(&b"".to_vec()), 0);
    assert_eq!(parse_amount(&b".".to_vec()), 0);
    assert_eq!(parse_amount(&b"-".to_vec()), 0);
    assert_eq!(parse_amount(&b"1e3".to_vec()), 0);
    assert_eq!(parse_amount(&b"1.2.3".to_vec()), 0);
    assert_eq!(parse_amount(&b"12a".to_vec()), 0);
    assert_eq!(parse_amount(&b" 1".to_vec()), 0);
}

#[test]
fn out_of_range_magnitudes_coerce_to_zero() {
    assert_eq!(parse_amount(&b"9999999999999".to_vec()), 0);
    let big = parse_amount(&b"999999999999.999999".to_vec());
    assert_eq!(big, 999_999_999_999_999_999);
    assert!(big < AMOUNT_MAX);
}
