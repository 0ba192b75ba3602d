//! The decimal value type: construction, accessors and precision conversion.
use crate::error::CustomDecimalError;
use crate::host_math::multiply_ratio_floor;
use crate::power::{lemma_ten_pow_exceeds, lemma_ten_pow_fits, pow10, ten_pow, MAX_DECIMAL_PLACES};
use vstd::prelude::*;

verus! {

/// A fixed-point decimal with `D` decimal places.
///
/// The field holds the atomics: the value times `10^D`. Two instantiations
/// with different `D` are different types; `to_precision` converts.
#[derive(Clone, Copy, Debug, PartialEq, Eq, PartialOrd, Ord, Hash)]
pub struct Decimal<const D: u32>(pub u128);

impl<const D: u32> View for Decimal<D> {
    type V = nat;

    /// The atomics, as a natural number.
    open spec fn view(&self) -> nat {
        self.0 as nat
    }
}

impl<const D: u32> Default for Decimal<D> {
    /// The value `0`.
    fn default() -> (r: Self)
        ensures
            r@ == 0,
    {
        Decimal(0)
    }
}

/// The atomics that stand for `1.0` with `d` decimal places.
pub open spec fn unit(d: u32) -> nat {
    ten_pow(d as nat)
}

/// Atomics `a` with `from` decimal places, restated with `to` decimal places;
/// narrowing truncates.
pub open spec fn rescaled(a: nat, from: nat, to: nat) -> nat {
    if from <= to {
        a * ten_pow((to - from) as nat)
    } else {
        a / ten_pow((from - to) as nat)
    }
}

/// The product of two values with `d` decimal places, truncated.
pub open spec fn mul_atomics(a: nat, b: nat, d: u32) -> nat {
    a * b / unit(d)
}

/// The quotient of two values with `d` decimal places, truncated; `b` is not zero.
pub open spec fn div_atomics(a: nat, b: nat, d: u32) -> nat {
    a * unit(d) / b
}

/// Narrowing never makes atomics larger.
pub proof fn lemma_narrowing_shrinks(a: nat, from: nat, to: nat)
    requires
        from > to,
    ensures
        rescaled(a, from, to) <= a,
{
    crate::power::lemma_ten_pow_grows(0, (from - to) as nat);
    vstd::arithmetic::div_mod::lemma_div_is_ordered_by_denominator(
        a as int,
        1,
        ten_pow((from - to) as nat) as int,
    );
}

/// `floor(a * b / c)`, or `None` when `c` is zero or the quotient does not fit.
pub(crate) fn mul_div_floor(a: u128, b: u128, c: u128) -> (r: Option<u128>)
    ensures
        r is Some <==> (c != 0 && a * b / (c as int) <= u128::MAX),
        r is Some ==> r->Some_0 == a * b / (c as int),
{
    match multiply_ratio_floor(a, b, c) {
        Ok(q) => Some(q),
        Err(_) => None,
    }
}

/// Restates atomics `a` with `from` decimal places at `to` decimal places,
/// or `None` when the widened value does not fit.
pub(crate) fn rescale(a: u128, from: u32, to: u32) -> (r: Option<u128>)
    requires
        from <= to ==> to - from <= MAX_DECIMAL_PLACES,
    ensures
        r is Some <==> rescaled(a as nat, from as nat, to as nat) <= u128::MAX,
        r is Some ==> r->Some_0 == rescaled(a as nat, from as nat, to as nat),
{
    if from <= to {
        let factor = pow10(to - from);
        a.checked_mul(factor)
    } else if from - to > MAX_DECIMAL_PLACES {
        proof {
            lemma_ten_pow_exceeds(a as nat, (from - to) as nat);
        }
        Some(0)
    } else {
        let factor = pow10(from - to);
        proof {
            lemma_ten_pow_fits((from - to) as nat);
            vstd::arithmetic::div_mod::lemma_div_is_ordered_by_denominator(a as int, 1, factor as int);
        }
        Some(a / factor)
    }
}

impl<const D: u32> Decimal<D> {
    /// The atomics of `1.0`: `10^D`.
    pub fn fractional() -> (r: u128)
        requires
            D <= MAX_DECIMAL_PLACES,
        ensures
            r == unit(D),
    {
        pow10(D)
    }

    /// The value `0`.
    pub fn zero() -> (r: Self)
        ensures
            r@ == 0,
    {
        Decimal(0)
    }

    /// The value `1`.
    pub fn one() -> (r: Self)
        requires
            D <= MAX_DECIMAL_PLACES,
        ensures
            r@ == unit(D),
    {
        Decimal(pow10(D))
    }

    /// The largest representable value.
    pub fn max_value() -> (r: Self)
        ensures
            r@ == u128::MAX,
    {
        Decimal(u128::MAX)
    }

    /// Wraps atomics that are already scaled by `10^D`.
    pub fn raw(atomics: u128) -> (r: Self)
        ensures
            r@ == atomics,
    {
        Decimal(atomics)
    }

    /// Reads `atomics` as a value with `decimal_places` decimal places:
    /// widening multiplies and fails on overflow, narrowing truncates.
    pub fn from_atomics(atomics: u128, decimal_places: u32) -> (r: Result<Self, CustomDecimalError>)
        requires
            D <= MAX_DECIMAL_PLACES,
        ensures
            r is Ok <==> rescaled(atomics as nat, decimal_places as nat, D as nat) <= u128::MAX,
            r is Ok ==> r->Ok_0@ == rescaled(atomics as nat, decimal_places as nat, D as nat),
            r is Err ==> r->Err_0 == CustomDecimalError::Overflow,
    {
        match rescale(atomics, decimal_places, D) {
            Some(a) => Ok(Decimal(a)),
            None => Err(CustomDecimalError::Overflow),
        }
    }

    /// `x` percent: `x * 10^D / 100`, truncated.
    pub fn percent(x: u64) -> (r: Self)
        requires
            D <= MAX_DECIMAL_PLACES,
            x * unit(D) / 100 <= u128::MAX,
        ensures
            r@ == x * unit(D) / 100,
    {
        proof {
            lemma_ten_pow_fits(D as nat);
        }
        Decimal(mul_div_floor(x as u128, pow10(D), 100).unwrap())
    }

    /// `x` permille: `x * 10^D / 1000`, truncated.
    pub fn permille(x: u64) -> (r: Self)
        requires
            D <= MAX_DECIMAL_PLACES,
            x * unit(D) / 1000 <= u128::MAX,
        ensures
            r@ == x * unit(D) / 1000,
    {
        proof {
            lemma_ten_pow_fits(D as nat);
        }
        Decimal(mul_div_floor(x as u128, pow10(D), 1000).unwrap())
    }

    /// `x` basis points: `x * 10^D / 10000`, truncated.
    pub fn bps(x: u64) -> (r: Self)
        requires
            D <= MAX_DECIMAL_PLACES,
            x * unit(D) / 10000 <= u128::MAX,
        ensures
            r@ == x * unit(D) / 10000,
    {
        proof {
            lemma_ten_pow_fits(D as nat);
        }
        Decimal(mul_div_floor(x as u128, pow10(D), 10000).unwrap())
    }

    /// `numerator / denominator`, truncated to `D` places.
    pub fn from_ratio(numerator: u128, denominator: u128) -> (r: Self)
        requires
            D <= MAX_DECIMAL_PLACES,
            denominator != 0,
            div_atomics(numerator as nat, denominator as nat, D) <= u128::MAX,
        ensures
            r@ == div_atomics(numerator as nat, denominator as nat, D),
    {
        Decimal(mul_div_floor(numerator, pow10(D), denominator).unwrap())
    }

    /// The atomics.
    pub fn atomics(&self) -> (r: u128)
        ensures
            r == self@,
    {
        self.0
    }

    /// The number of decimal places, `D`.
    pub fn decimal_places(&self) -> (r: u32)
        ensures
            r == D,
    {
        D
    }

    /// Whether the value is zero.
    pub fn is_zero(&self) -> (r: bool)
        ensures
            r == (self@ == 0),
    {
        self.0 == 0
    }

    /// The same value with `D2` decimal places, or `None` when widening
    /// overflows; narrowing truncates.
    pub fn try_to_precision<const D2: u32>(&self) -> (r: Option<Decimal<D2>>)
        requires
            D <= MAX_DECIMAL_PLACES,
            D2 <= MAX_DECIMAL_PLACES,
        ensures
            r is Some <==> rescaled(self@, D as nat, D2 as nat) <= u128::MAX,
            r is Some ==> r->Some_0@ == rescaled(self@, D as nat, D2 as nat),
    {
        match rescale(self.0, D, D2) {
            Some(a) => Some(Decimal(a)),
            None => None,
        }
    }

    /// The same value with `D2` decimal places; narrowing truncates.
    pub fn to_precision<const D2: u32>(&self) -> (r: Decimal<D2>)
        requires
            D <= MAX_DECIMAL_PLACES,
            D2 <= MAX_DECIMAL_PLACES,
            rescaled(self@, D as nat, D2 as nat) <= u128::MAX,
        ensures
            r@ == rescaled(self@, D as nat, D2 as nat),
    {
        self.try_to_precision().unwrap()
    }
}

} // verus!
