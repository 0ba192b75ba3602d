use cosmwasm_custom_decimal::{CustomDecimal, Decimal, Decimal18, Decimal6, Decimal9};
use cosmwasm_std::Decimal as StdDecimal;

#[test]
fn test_constants() {
    assert_eq!(Decimal::<6>::zero().0, 0);
    assert_eq!(Decimal::<6>::one().0, 1_000_000);
    assert_eq!(Decimal::<6>::zero().decimal_places(), 6);
    assert_eq!(Decimal::<6>::fractional(), 1_000_000);

    assert_eq!(Decimal::<9>::one().0, 1_000_000_000);
    assert_eq!(Decimal::<9>::zero().decimal_places(), 9);

    assert_eq!(Decimal::<18>::one().0, 1_000_000_000_000_000_000);
    assert_eq!(Decimal::<18>::zero().decimal_places(), 18);
}

#[test]
fn test_raw() {
    let d = Decimal::<6>::raw(1_500_000);
    assert_eq!(d.0, 1_500_000);
}

#[test]
fn test_from_atomics() {
    let d = Decimal::<6>::from_atomics(15u128, 1).unwrap();
    assert_eq!(d.0, 1_500_000); // 1.5

    let d = Decimal::<6>::from_atomics(1_500_000u128, 6).unwrap();
    assert_eq!(d.0, 1_500_000); // 1.5

    let d = Decimal::<6>::from_atomics(1_500_000_000u128, 9).unwrap();
    assert_eq!(d.0, 1_500_000); // 1.5
}

#[test]
fn test_percent() {
    assert_eq!(Decimal::<6>::percent(0), Decimal::<6>::zero());
    assert_eq!(Decimal::<6>::percent(50), Decimal::<6>::raw(500_000));
    assert_eq!(Decimal::<6>::percent(100), Decimal::<6>::one());
}

#[test]
fn test_permille() {
    assert_eq!(Decimal::<6>::permille(0), Decimal::<6>::zero());
    assert_eq!(Decimal::<6>::permille(125), Decimal::<6>::raw(125_000));
    assert_eq!(Decimal::<6>::permille(1000), Decimal::<6>::one());
}

#[test]
fn test_bps() {
    assert_eq!(Decimal::<6>::bps(0), Decimal::<6>::zero());
    assert_eq!(Decimal::<6>::bps(50), Decimal::<6>::raw(5_000));
    assert_eq!(Decimal::<6>::bps(10000), Decimal::<6>::one());
}

#[test]
fn test_from_ratio() {
    let d = Decimal::<6>::from_ratio(3u128, 2u128);
    assert_eq!(d, Decimal::<6>::from_str("1.5").unwrap());

    let d = Decimal::<6>::from_ratio(1u128, 3u128);
    assert_eq!(d.0, 333_333); // 0.333333
}

#[test]
fn test_from_str() {
    assert_eq!(
        Decimal::<6>::from_str("1.5").unwrap(),
        Decimal::<6>::raw(1_500_000)
    );
    assert_eq!(
        Decimal::<6>::from_str("123").unwrap(),
        Decimal::<6>::raw(123_000_000)
    );
    assert_eq!(
        Decimal::<6>::from_str("0.123456").unwrap(),
        Decimal::<6>::raw(123_456)
    );
}

#[test]
fn test_display() {
    assert_eq!(Decimal::<6>::raw(1_500_000).to_string(), "1.5");
    assert_eq!(Decimal::<6>::raw(1_000_000).to_string(), "1");
    assert_eq!(Decimal::<6>::raw(123_456).to_string(), "0.123456");
    assert_eq!(Decimal::<6>::raw(100_000).to_string(), "0.1");
}

#[test]
fn test_floor_ceil() {
    let d = Decimal::<6>::from_str("1.7").unwrap();
    assert_eq!(d.floor(), Decimal::<6>::from_str("1.0").unwrap());
    assert_eq!(d.ceil(), Decimal::<6>::from_str("2.0").unwrap());

    let d = Decimal::<6>::from_str("2.0").unwrap();
    assert_eq!(d.floor(), d);
    assert_eq!(d.ceil(), d);
}

#[test]
fn test_sqrt() {
    let d = Decimal::<6>::from_str("4.0").unwrap();
    assert_eq!(d.sqrt(), Decimal::<6>::from_str("2.0").unwrap());

    let d = Decimal::<6>::from_str("9.0").unwrap();
    assert_eq!(d.sqrt(), Decimal::<6>::from_str("3.0").unwrap());
}

#[test]
fn test_pow() {
    let d = Decimal::<6>::from_str("2.0").unwrap();
    assert_eq!(d.pow(0), Decimal::<6>::one());
    assert_eq!(d.pow(1), d);
    assert_eq!(d.pow(3), Decimal::<6>::from_str("8.0").unwrap());
}

#[test]
fn test_decimal_conversion() {
    let custom = Decimal::<6>::from_str("1.5").unwrap();
    let decimal = StdDecimal::raw(custom.to_std_atomics());
    let back = Decimal::<6>::from_std_atomics(decimal.atomics().u128());
    assert_eq!(custom, back);
}

#[test]
fn test_precision_conversion() {
    let d6 = Decimal::<6>::from_str("1.5").unwrap();
    let d9: Decimal<9> = d6.to_precision();
    assert_eq!(d9.atomics(), 1_500_000_000); // 1.5 with 9 decimals

    let d6_back: Decimal<6> = d9.to_precision();
    assert_eq!(d6_back, d6);
}

#[test]
fn test_precision_conversion_with_precision_loss() {
    let d9 = Decimal::<9>::from_str("1.123456789").unwrap();
    let d6: Decimal<6> = d9.to_precision();
    assert_eq!(d6.to_string(), "1.123456"); // Truncated to 6 decimals
}

#[test]
fn test_sum() {
    let values = vec![
        Decimal::<6>::from_str("1.0").unwrap(),
        Decimal::<6>::from_str("2.0").unwrap(),
        Decimal::<6>::from_str("3.0").unwrap(),
    ];
    let sum: Decimal<6> = Decimal::sum(&values);
    assert_eq!(sum, Decimal::<6>::from_str("6.0").unwrap());
}

#[test]
fn test_product() {
    let values = vec![
        Decimal::<6>::from_str("2.0").unwrap(),
        Decimal::<6>::from_str("3.0").unwrap(),
    ];
    let product: Decimal<6> = Decimal::product(&values);
    assert_eq!(product, Decimal::<6>::from_str("6.0").unwrap());
}

#[test]
fn test_different_precisions() {
    let d9 = Decimal::<9>::from_str("1.123456789").unwrap();
    assert_eq!(d9.atomics(), 1_123_456_789);
    assert_eq!(d9.to_string(), "1.123456789");

    let d18 = Decimal::<18>::from_str("1.5").unwrap();
    assert_eq!(d18.atomics(), 1_500_000_000_000_000_000);
}

#[test]
fn lib_test_type_aliases() {
    let cd = CustomDecimal::from_str("1.5").unwrap();
    let d6 = Decimal6::from_str("1.5").unwrap();
    assert_eq!(cd, d6);

    let d9 = Decimal9::from_str("1.5").unwrap();
    assert_eq!(d9.atomics(), 1_500_000_000);

    let d18 = Decimal18::from_str("1.5").unwrap();
    assert_eq!(d18.atomics(), 1_500_000_000_000_000_000);
}
