use cosmwasm_custom_decimal::{
    pow10, scale_factor_from_18, scale_factor_to_18, CustomDecimalError, Decimal, Decimal18,
    Decimal6, Decimal9,
};

fn parse_error(msg: &str) -> CustomDecimalError {
    CustomDecimalError::ParseError(msg.to_string())
}

#[test]
fn add_succeeds_exactly_when_the_sum_fits() {
    let a = Decimal6::raw(u128::MAX - 5);
    assert_eq!(a.checked_add(Decimal6::raw(5)), Some(Decimal6::raw(u128::MAX)));
    assert_eq!(a.checked_add(Decimal6::raw(6)), None);
    assert_eq!(Decimal6::raw(7).checked_add(Decimal6::raw(8)), Some(Decimal6::raw(15)));
    assert_eq!(Decimal6::raw(0).checked_add(Decimal6::raw(0)), Some(Decimal6::raw(0)));
}

#[test]
fn text_round_trips() {
    for atomics in [0u128, 1, 10, 999_999, 1_000_000, 1_500_000, 123_456_789, u128::MAX] {
        let x = Decimal6::raw(atomics);
        assert_eq!(Decimal6::from_str(&x.to_string()), Ok(x));
        let y = Decimal18::raw(atomics);
        assert_eq!(Decimal18::from_str(&y.to_string()), Ok(y));
        let z = Decimal::<0>::raw(atomics);
        assert_eq!(Decimal::<0>::from_str(&z.to_string()), Ok(z));
    }
    assert_eq!(Decimal6::raw(u128::MAX).to_string(), "340282366920938463463374607431768.211455");
}

#[test]
fn widening_then_narrowing_gives_the_value_back() {
    let x = Decimal6::raw(1_234_567);
    let wide: Decimal18 = x.to_precision();
    assert_eq!(wide.atomics(), 1_234_567_000_000_000_000);
    let back: Decimal6 = wide.to_precision();
    assert_eq!(back, x);
    let same: Decimal6 = x.to_precision();
    assert_eq!(same, x);
}

#[test]
fn narrowing_then_widening_loses_digits() {
    let x = Decimal9::raw(1_123_456_789);
    let narrow: Decimal6 = x.to_precision();
    let back: Decimal9 = narrow.to_precision();
    assert_eq!(back.atomics(), 1_123_456_000);
}

#[test]
fn widening_overflow_is_reported() {
    let x = Decimal6::raw(u128::MAX);
    let wide: Option<Decimal18> = x.try_to_precision();
    assert_eq!(wide, None);
}

#[test]
fn equal_values_share_storage_text() {
    let d6 = Decimal6::raw(1_250_000);
    let d9 = Decimal9::raw(1_250_000_000);
    let d18 = Decimal18::raw(1_250_000_000_000_000_000);
    let d20 = Decimal::<20>::raw(125_000_000_000_000_000_000);
    assert_eq!(d6.to_storage_string(), "1.25");
    assert_eq!(d9.to_storage_string(), d6.to_storage_string());
    assert_eq!(d18.to_storage_string(), d6.to_storage_string());
    assert_eq!(d20.to_storage_string(), d6.to_storage_string());
}

#[test]
fn storage_text_beyond_reference_precision_truncates() {
    let d20 = Decimal::<20>::raw(100_000_000_000_000_000_123);
    assert_eq!(d20.to_storage_string(), "1.000000000000000001");
}

#[test]
fn multiplying_by_one_changes_nothing() {
    for atomics in [0u128, 1, 1_500_000, u128::MAX] {
        let x = Decimal6::raw(atomics);
        assert_eq!(x.checked_mul(Decimal6::one()), Some(x));
        assert_eq!(x.mul(Decimal6::one()), x);
    }
}

#[test]
fn dividing_by_zero_gives_none() {
    for atomics in [0u128, 1, 1_000_000, u128::MAX] {
        assert_eq!(Decimal6::raw(atomics).checked_div(Decimal6::zero()), None);
    }
    assert_eq!(Decimal6::raw(5).checked_rem(Decimal6::zero()), None);
}

#[test]
fn scenario_parse_and_print_one_and_a_half() {
    let d = Decimal6::from_str("1.5").unwrap();
    assert_eq!(d.atomics(), 1_500_000);
    assert_eq!(d.to_string(), "1.5");
}

#[test]
fn scenario_whole_number_prints_without_fraction() {
    let d = Decimal6::from_str("1.0").unwrap();
    assert_eq!(d.atomics(), 1_000_000);
    assert_eq!(d.to_string(), "1");
}

#[test]
fn scenario_narrowing_truncates() {
    let d9 = Decimal9::from_str("1.123456789").unwrap();
    let d6: Decimal6 = d9.to_precision();
    assert_eq!(d6.atomics(), 1_123_456);
    assert_eq!(d6.to_string(), "1.123456");
}

#[test]
fn scenario_half_percent_serializes() {
    let d = Decimal6::percent(50);
    assert_eq!(d.atomics(), 500_000);
    assert_eq!(d.to_storage_string(), "0.5");
}

#[test]
fn scenario_one_over_zero() {
    assert_eq!(Decimal6::one().checked_div(Decimal6::zero()), None);
}

#[test]
fn scenario_six_decimals_read_as_eighteen() {
    let text = Decimal6::raw(1_500_000).to_storage_string();
    let d18 = Decimal18::from_storage_str(&text).unwrap();
    assert_eq!(d18.atomics(), 1_500_000_000_000_000_000);
}

#[test]
fn text_errors_name_the_offending_part() {
    assert_eq!(Decimal6::from_str(""), Err(parse_error("Invalid integer: ")));
    assert_eq!(Decimal6::from_str("abc"), Err(parse_error("Invalid integer: abc")));
    assert_eq!(Decimal6::from_str("+1"), Err(parse_error("Invalid integer: +1")));
    assert_eq!(Decimal6::from_str("x.5"), Err(parse_error("Invalid integer: x")));
    assert_eq!(
        Decimal6::from_str("1.2.3"),
        Err(parse_error("Invalid decimal format: 1.2.3"))
    );
    assert_eq!(
        Decimal6::from_str("1.1234567"),
        Err(parse_error("Too many decimal places: 7 (max 6)"))
    );
    assert_eq!(Decimal6::from_str("1.5x"), Err(parse_error("Invalid fractional: 5x")));
    assert_eq!(Decimal6::from_str("1."), Err(parse_error("Invalid fractional: ")));
    assert_eq!(
        Decimal6::from_str("340282366920938463463374607431768.211456"),
        Err(CustomDecimalError::Overflow)
    );
    assert_eq!(
        Decimal6::from_str("340282366920938463463374607431769"),
        Err(CustomDecimalError::Overflow)
    );
    assert_eq!(
        Decimal6::from_str("340282366920938463463374607431768.211455"),
        Ok(Decimal6::raw(u128::MAX))
    );
    assert_eq!(
        Decimal6::from_str("340282366920938463463374607431768211456"),
        Err(parse_error("Invalid integer: 340282366920938463463374607431768211456"))
    );
}

#[test]
fn storage_errors_name_the_offending_part() {
    assert_eq!(Decimal6::from_storage_str("a"), Err(parse_error("Invalid integer part: a")));
    assert_eq!(Decimal6::from_storage_str("a.5"), Err(parse_error("Invalid integer part: a")));
    assert_eq!(
        Decimal6::from_storage_str("1.b"),
        Err(parse_error("Invalid fractional part: b"))
    );
    assert_eq!(
        Decimal6::from_storage_str("1.2.3"),
        Err(parse_error("Invalid decimal format: 1.2.3"))
    );
    assert_eq!(
        Decimal6::from_storage_str("340282366920938463463374607431769"),
        Err(parse_error("Overflow in decimal value"))
    );
}

#[test]
fn storage_accepts_any_fraction_length() {
    let long = "2.00000000000000000000000000000000000000000000000009";
    assert_eq!(Decimal6::from_storage_str(long), Ok(Decimal6::raw(2_000_000)));
    assert_eq!(Decimal6::from_storage_str("0.1234567"), Ok(Decimal6::raw(123_456)));
    assert_eq!(Decimal6::from_storage_str("0.12"), Ok(Decimal6::raw(120_000)));
}

#[test]
fn from_atomics_edges() {
    assert_eq!(Decimal6::from_atomics(u128::MAX, 0), Err(CustomDecimalError::Overflow));
    assert_eq!(Decimal6::from_atomics(u128::MAX, 100), Ok(Decimal6::zero()));
    assert_eq!(Decimal6::from_atomics(7, 0), Ok(Decimal6::raw(7_000_000)));
}

#[test]
fn rounding_up_an_amount_product() {
    let rate = Decimal6::from_str("2.5").unwrap();
    assert_eq!(rate.mul_uint_floor(3), 7);
    assert_eq!(rate.mul_uint_ceil(3), 8);
    assert_eq!(rate.mul_uint_ceil(4), 10);
    assert_eq!(Decimal6::raw(1).mul_uint_ceil(1), 1);
}

#[test]
fn square_root_through_the_reference_type() {
    assert_eq!(Decimal6::from_str("2").unwrap().sqrt(), Decimal6::raw(1_414_213));
    assert_eq!(Decimal6::from_str("2").unwrap().checked_sqrt(), Some(Decimal6::raw(1_414_213)));
    assert_eq!(Decimal6::raw(u128::MAX).checked_sqrt(), None);
    assert_eq!(Decimal18::from_str("0.25").unwrap().sqrt(), Decimal18::from_str("0.5").unwrap());
}

#[test]
fn powers_and_their_overflow() {
    let two = Decimal6::from_str("2").unwrap();
    assert_eq!(two.checked_pow(10), Some(Decimal6::from_str("1024").unwrap()));
    assert_eq!(two.checked_pow(200), None);
    assert_eq!(Decimal6::zero().checked_pow(5), Some(Decimal6::zero()));
    assert_eq!(Decimal6::zero().checked_pow(0), Some(Decimal6::one()));
    let half = Decimal6::from_str("0.5").unwrap();
    assert_eq!(half.pow(3), Decimal6::from_str("0.125").unwrap());
}

#[test]
fn comparisons_and_differences() {
    let a = Decimal6::raw(3);
    let b = Decimal6::raw(8);
    assert_eq!(a.min(b), a);
    assert_eq!(a.max(b), b);
    assert_eq!(a.abs_diff(b), Decimal6::raw(5));
    assert_eq!(b.abs_diff(a), Decimal6::raw(5));
    assert_eq!(b.rem(a), Decimal6::raw(2));
    assert_eq!(Decimal6::max_value().saturating_mul(Decimal6::one()), Decimal6::max_value());
}

#[test]
fn ceiling_of_the_largest_whole_number() {
    let top = Decimal6::raw(u128::MAX / 1_000_000 * 1_000_000);
    assert_eq!(top.ceil(), top);
    assert_eq!(top.to_uint_ceil(), u128::MAX / 1_000_000);
}

#[test]
fn scale_factors_and_powers_of_ten() {
    assert_eq!(pow10(0), 1);
    assert_eq!(pow10(6), 1_000_000);
    assert_eq!(pow10(38), 100_000_000_000_000_000_000_000_000_000_000_000_000);
    assert_eq!(scale_factor_to_18::<6>(), 1_000_000_000_000);
    assert_eq!(scale_factor_to_18::<18>(), 1);
    assert_eq!(scale_factor_to_18::<24>(), 1);
    assert_eq!(scale_factor_from_18::<9>(), 1_000_000_000);
    assert_eq!(scale_factor_from_18::<20>(), 1);
}

#[test]
fn reference_atomics_round_trip() {
    let x = Decimal6::raw(1_500_000);
    assert_eq!(x.to_std_atomics(), 1_500_000_000_000_000_000);
    assert_eq!(Decimal6::from_std_atomics(1_500_000_000_000_000_999), x);
    let wide = Decimal::<20>::raw(123);
    assert_eq!(wide.to_std_atomics(), 1);
    assert_eq!(Decimal::<20>::from_std_atomics(1), Decimal::<20>::raw(100));
}

#[test]
fn storage_text_drops_a_fraction_below_reference_precision() {
    let d19 = Decimal::<19>::raw(10_000_000_000_000_000_001);
    assert_eq!(d19.to_storage_string(), "1");
    assert_eq!(
        Decimal::<19>::from_storage_str(&d19.to_storage_string()),
        Ok(Decimal::<19>::raw(10_000_000_000_000_000_000))
    );
}

#[test]
fn storage_reads_fractions_beyond_u128() {
    let nines = format!("0.{}", "9".repeat(39));
    assert_eq!(Decimal6::from_storage_str(&nines), Ok(Decimal6::raw(999_999)));
    let long = format!("3.{}", "1".repeat(60));
    assert_eq!(Decimal18::from_storage_str(&long), Ok(Decimal18::raw(3_111_111_111_111_111_111)));
    assert_eq!(Decimal6::from_storage_str("1."), Err(parse_error("Invalid fractional part: ")));
    assert_eq!(
        Decimal6::from_storage_str("1.99999999x"),
        Err(parse_error("Invalid fractional part: 99999999x"))
    );
}

#[test]
fn ratio_constructors_at_low_precision() {
    assert_eq!(Decimal::<0>::percent(100), Decimal::<0>::raw(1));
    assert_eq!(Decimal::<0>::percent(250), Decimal::<0>::raw(2));
    assert_eq!(Decimal::<2>::permille(10), Decimal::<2>::raw(1));
    assert_eq!(Decimal::<3>::bps(10), Decimal::<3>::raw(1));
    assert_eq!(Decimal6::percent(3), Decimal6::raw(30_000));
}

#[test]
fn parsing_through_from_str_trait() {
    let d: Decimal6 = "1.5".parse().unwrap();
    assert_eq!(d, Decimal6::raw(1_500_000));
    assert_eq!("1.2.3".parse::<Decimal6>(), Err(parse_error("Invalid decimal format: 1.2.3")));
}
