use polymarket_agent::money::{format_2dp, parse_decimal};

#[test]
fn test_parse_price_strings() {
    assert_eq!(parse_decimal(b"0.65"), Some(650_000));
    assert_eq!(parse_decimal(b"0.5"), Some(500_000));
    assert_eq!(parse_decimal(b"0.99"), Some(990_000));
    assert_eq!(parse_decimal(b"0.001"), Some(1_000));
    assert_eq!(parse_decimal(b"1.0"), Some(1_000_000));
    assert_eq!(parse_decimal(b"0"), Some(0));
    assert_eq!(parse_decimal(b""), None);
    assert_eq!(parse_decimal(b"abc"), None);
    assert_eq!(parse_decimal(b"1.2.3"), None);
}

#[test]
fn test_price_roundtrip_two_decimals() {
    // Parsing "0.65" and formatting back with two decimals returns "0.65".
    let v = parse_decimal(b"0.65").unwrap();
    assert_eq!(v, 650_000);
    assert_eq!(format_2dp(v), b"0.65".to_vec());
    let v2 = parse_decimal(b"12.30").unwrap();
    assert_eq!(format_2dp(v2), b"12.30".to_vec());
    assert_eq!(format_2dp(0), b"0.00".to_vec());
}
