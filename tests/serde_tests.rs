use cosmwasm_custom_decimal::{Decimal, Decimal18, Decimal6, Decimal9};

fn to_json<const D: u32>(d: &Decimal<D>) -> String {
    serde_json::to_string(&d.to_storage_string()).unwrap()
}

fn from_json<const D: u32>(json: &str) -> Decimal<D> {
    let text: String = serde_json::from_str(json).unwrap();
    Decimal::<D>::from_storage_str(&text).unwrap()
}

#[test]
fn test_serialize_compact_format() {
    let custom = Decimal::<6>::raw(1_500_000); // 1.5 in 6 decimals
    let json = to_json(&custom);
    assert_eq!(json, r#""1.5""#);
}

#[test]
fn test_serialize_zero() {
    let custom = Decimal::<6>::raw(0);
    let json = to_json(&custom);
    assert_eq!(json, r#""0""#);
}

#[test]
fn test_serialize_one() {
    let custom = Decimal::<6>::raw(1_000_000); // 1.0 in 6 decimals
    let json = to_json(&custom);
    assert_eq!(json, r#""1""#);
}

#[test]
fn test_deserialize_18_decimal_format() {
    let json = r#""1.500000000000000000""#;
    let custom: Decimal<6> = from_json(json);
    assert_eq!(custom.0, 1_500_000); // 1.5 in 6 decimals
}

#[test]
fn test_deserialize_short_format() {
    let json = r#""1.5""#;
    let custom: Decimal<6> = from_json(json);
    assert_eq!(custom.0, 1_500_000); // 1.5 in 6 decimals
}

#[test]
fn test_deserialize_integer_only() {
    let json = r#""123""#;
    let custom: Decimal<6> = from_json(json);
    assert_eq!(custom.0, 123_000_000); // 123.0 in 6 decimals
}

#[test]
fn test_roundtrip() {
    let original = Decimal::<6>::raw(1_234_567); // 1.234567 in 6 decimals
    let json = to_json(&original);
    let deserialized: Decimal<6> = from_json(&json);
    assert_eq!(original, deserialized);
}

#[test]
fn test_deserialize_with_trailing_zeros() {
    let json = r#""1.123000000000000000""#;
    let custom: Decimal<6> = from_json(json);
    assert_eq!(custom.0, 1_123_000); // 1.123 in 6 decimals
}

#[test]
fn test_deserialize_precision_loss() {
    let json = r#""1.123456789012345678""#;
    let custom: Decimal<6> = from_json(json);
    assert_eq!(custom.0, 1_123_456);
}

#[test]
fn test_decimal9_serialize() {
    let d9 = Decimal9::raw(1_500_000_000); // 1.5 in 9 decimals
    let json = to_json(&d9);
    assert_eq!(json, r#""1.5""#);
}

#[test]
fn test_decimal9_deserialize() {
    let json = r#""1.5""#;
    let d9: Decimal9 = from_json(json);
    assert_eq!(d9.0, 1_500_000_000);
}

#[test]
fn test_decimal9_roundtrip() {
    let original = Decimal9::raw(1_234_567_890); // 1.23456789 in 9 decimals
    let json = to_json(&original);
    let deserialized: Decimal9 = from_json(&json);
    assert_eq!(original, deserialized);
}

#[test]
fn test_decimal9_from_18_decimals() {
    let json = r#""1.123456789012345678""#;
    let d9: Decimal9 = from_json(json);
    assert_eq!(d9.0, 1_123_456_789);
}

#[test]
fn test_decimal18_serialize() {
    let d18 = Decimal18::raw(1_500_000_000_000_000_000); // 1.5 in 18 decimals
    let json = to_json(&d18);
    assert_eq!(json, r#""1.5""#);
}

#[test]
fn test_decimal18_deserialize() {
    let json = r#""1.5""#;
    let d18: Decimal18 = from_json(json);
    assert_eq!(d18.0, 1_500_000_000_000_000_000);
}

#[test]
fn test_decimal18_full_precision() {
    let json = r#""1.123456789012345678""#;
    let d18: Decimal18 = from_json(json);
    assert_eq!(d18.0, 1_123_456_789_012_345_678);
}

#[test]
fn test_decimal6_decimal18_compatibility() {
    let d6 = Decimal6::raw(1_500_000); // 1.5
    let json = to_json(&d6);

    let d18: Decimal18 = from_json(&json);
    assert_eq!(d18.0, 1_500_000_000_000_000_000); // 1.5 in 18 decimals
}

#[test]
fn test_decimal18_decimal6_compatibility() {
    let d18 = Decimal18::raw(1_500_000_000_000_000_000); // 1.5
    let json = to_json(&d18);

    let d6: Decimal6 = from_json(&json);
    assert_eq!(d6.0, 1_500_000); // 1.5 in 6 decimals
}
