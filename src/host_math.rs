//! The arithmetic this library takes from `cosmwasm_std`.
use cosmwasm_std::{
    CheckedMultiplyFractionError, CheckedMultiplyRatioError, Decimal as StdDecimal, Uint128,
};
use crate::power::ten_pow;
use vstd::arithmetic::power::pow;
use vstd::prelude::*;

verus! {

#[verifier::external_type_specification]
#[verifier::external_body]
pub struct ExCheckedMultiplyRatioError(CheckedMultiplyRatioError);

#[verifier::external_type_specification]
#[verifier::external_body]
pub struct ExCheckedMultiplyFractionError(CheckedMultiplyFractionError);

/// `x / y` rounded up, for a positive `y`.
pub open spec fn ceil_div(x: int, y: int) -> int {
    if x % y == 0 {
        x / y
    } else {
        x / y + 1
    }
}

/// Relies on `Uint128::checked_multiply_ratio`: it forms
/// `value * numerator` in 256 bits and divides it by `denominator`, rounding
/// down; it fails when the denominator is zero or the quotient does not fit
/// in 128 bits.
#[verifier::external_body]
pub(crate) fn multiply_ratio_floor(value: u128, numerator: u128, denominator: u128) -> (r: Result<
    u128,
    CheckedMultiplyRatioError,
>)
    ensures
        r is Ok <==> (denominator != 0 && value * numerator / (denominator as int) <= u128::MAX),
        r is Ok ==> r->Ok_0 == value * numerator / (denominator as int),
{
    match Uint128::new(value).checked_multiply_ratio(numerator, denominator) {
        Ok(q) => Ok(q.u128()),
        Err(e) => Err(e),
    }
}

/// Relies on `Uint128::checked_mul_ceil` with the fraction
/// `(numerator, denominator)`: it forms `value * numerator` in 256 bits and
/// divides it by `denominator`, rounding up; it fails when the denominator is
/// zero or the rounded quotient does not fit in 128 bits.
#[verifier::external_body]
pub(crate) fn multiply_ratio_ceil(value: u128, numerator: u128, denominator: u128) -> (r: Result<
    u128,
    CheckedMultiplyFractionError,
>)
    ensures
        r is Ok <==> (denominator != 0 && ceil_div(value * numerator, denominator as int)
            <= u128::MAX),
        r is Ok ==> r->Ok_0 == ceil_div(value * numerator, denominator as int),
{
    match Uint128::new(value).checked_mul_ceil((numerator, denominator)) {
        Ok(q) => Ok(q.u128()),
        Err(e) => Err(e),
    }
}

/// The largest `k` with `k * k <= m`.
pub open spec fn floor_sqrt(m: nat) -> nat
    decreases m,
{
    if m == 0 {
        0
    } else {
        let k = floor_sqrt((m - 1) as nat);
        if (k + 1) * (k + 1) <= m {
            k + 1
        } else {
            k
        }
    }
}

/// The largest `p <= top` for which `a * 100^p` fits in a `u128`, or 0.
pub open spec fn root_precision(a: nat, top: nat) -> nat
    decreases top,
{
    if top == 0 || a * pow(100, top) <= u128::MAX {
        top
    } else {
        root_precision(a, (top - 1) as nat)
    }
}

/// The atomics of the square root of the 18-decimal value with atomics
/// `a`: `a` is scaled by `100^p` with the largest `p <= 9` that fits, its
/// integer square root taken, and the result scaled by `10^(9 - p)`.
pub open spec fn reference_sqrt(a: nat) -> nat {
    let p = root_precision(a, 9);
    floor_sqrt(a * pow(100, p) as nat) * ten_pow((9 - p) as nat)
}

/// Relies on `cosmwasm_std::Decimal::sqrt`, applied to the 18-decimal value
/// with these atomics: it tries the precisions 9 down to 0, keeps the first
/// at which `atomics * 100^p` fits, and returns `isqrt` of that times
/// `10^(9 - p)`; it never panics.
#[verifier::external_body]
pub(crate) fn sqrt_reference(atomics: u128) -> (r: u128)
    ensures
        r == reference_sqrt(atomics as nat),
{
    StdDecimal::raw(atomics).sqrt().atomics().u128()
}

} // verus!
