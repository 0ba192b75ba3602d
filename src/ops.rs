//! Operator-style arithmetic, whose inputs must stay in range, and the
//! conversions to and from whole amounts and the 18-decimal reference form.
use crate::arith::{product_atomics, sum_atomics};
use crate::decimal::{div_atomics, mul_atomics, mul_div_floor, rescale, rescaled, unit, Decimal};
use crate::power::{lemma_ten_pow_fits, pow10, MAX_DECIMAL_PLACES, REFERENCE_PLACES};
use vstd::prelude::*;

verus! {

impl<const D: u32> Decimal<D> {
    /// `self + other`; the sum must fit.
    pub fn add(self, other: Self) -> (r: Self)
        requires
            self@ + other@ <= u128::MAX,
        ensures
            r@ == self@ + other@,
    {
        self.checked_add(other).unwrap()
    }

    /// `self - other`; `other` must not exceed `self`.
    pub fn sub(self, other: Self) -> (r: Self)
        requires
            other@ <= self@,
        ensures
            r@ == self@ - other@,
    {
        self.checked_sub(other).unwrap()
    }

    /// `self * other`, truncated; the product must fit.
    pub fn mul(self, other: Self) -> (r: Self)
        requires
            D <= MAX_DECIMAL_PLACES,
            mul_atomics(self@, other@, D) <= u128::MAX,
        ensures
            r@ == mul_atomics(self@, other@, D),
    {
        self.checked_mul(other).unwrap()
    }

    /// `self / other`, truncated; `other` must not be zero and the quotient
    /// must fit.
    pub fn div(self, other: Self) -> (r: Self)
        requires
            D <= MAX_DECIMAL_PLACES,
            other@ != 0,
            div_atomics(self@, other@, D) <= u128::MAX,
        ensures
            r@ == div_atomics(self@, other@, D),
    {
        self.checked_div(other).unwrap()
    }

    /// The remainder of the atomics; `other` must not be zero.
    pub fn rem(self, other: Self) -> (r: Self)
        requires
            other@ != 0,
        ensures
            r@ == self@ % other@,
    {
        self.checked_rem(other).unwrap()
    }

    /// Negation, defined for zero alone: the values are unsigned.
    pub fn neg(self) -> (r: Self)
        requires
            self@ == 0,
        ensures
            r@ == 0,
    {
        self
    }

    /// A raw integer amount times this rate, truncated; the result must fit.
    pub fn mul_uint(self, amount: u128) -> (r: u128)
        requires
            D <= MAX_DECIMAL_PLACES,
            mul_atomics(self@, amount as nat, D) <= u128::MAX,
        ensures
            r == mul_atomics(self@, amount as nat, D),
    {
        proof {
            lemma_ten_pow_fits(D as nat);
        }
        mul_div_floor(self.0, amount, pow10(D)).unwrap()
    }

    /// The atomics divided by a raw integer, truncated; `amount` must not be zero.
    pub fn div_uint(self, amount: u128) -> (r: Self)
        requires
            amount != 0,
        ensures
            r@ == self@ / (amount as nat),
    {
        Decimal(self.0 / amount)
    }

    /// The whole number `value`; `value * 10^D` must fit.
    pub fn from_u128(value: u128) -> (r: Self)
        requires
            D <= MAX_DECIMAL_PLACES,
            value * unit(D) <= u128::MAX,
        ensures
            r@ == value * unit(D),
    {
        proof {
            lemma_ten_pow_fits(D as nat);
        }
        Decimal(value * pow10(D))
    }

    /// The whole number `value`; `value * 10^D` must fit.
    pub fn from_u64(value: u64) -> (r: Self)
        requires
            D <= MAX_DECIMAL_PLACES,
            value * unit(D) <= u128::MAX,
        ensures
            r@ == value * unit(D),
    {
        Self::from_u128(value as u128)
    }

    /// The atomics of the same value with 18 decimal places; narrowing
    /// truncates and widening must fit.
    pub fn to_std_atomics(self) -> (r: u128)
        requires
            D <= MAX_DECIMAL_PLACES,
            rescaled(self@, D as nat, 18) <= u128::MAX,
        ensures
            r == rescaled(self@, D as nat, 18),
    {
        rescale(self.0, D, REFERENCE_PLACES).unwrap()
    }

    /// The value with 18-decimal atomics `atomics`; narrowing truncates and
    /// widening must fit.
    pub fn from_std_atomics(atomics: u128) -> (r: Self)
        requires
            D <= MAX_DECIMAL_PLACES,
            rescaled(atomics as nat, 18, D as nat) <= u128::MAX,
        ensures
            r@ == rescaled(atomics as nat, 18, D as nat),
    {
        Decimal(rescale(atomics, REFERENCE_PLACES, D).unwrap())
    }

    /// The sum of `values`; it must fit.
    pub fn sum(values: &[Self]) -> (r: Self)
        requires
            sum_atomics(values@) <= u128::MAX,
        ensures
            r@ == sum_atomics(values@),
    {
        let mut total = Self::zero();
        let mut i: usize = 0;
        while i < values.len()
            invariant
                i <= values.len(),
                sum_atomics(values@) <= u128::MAX,
                total@ == sum_atomics(values@.take(i as int)),
            decreases values.len() - i,
        {
            proof {
                assert(values@.take(i + 1).drop_last() =~= values@.take(i as int));
                crate::arith::lemma_sum_prefix(values@, i + 1);
            }
            total = total.add(values[i]);
            i = i + 1;
        }
        proof {
            assert(values@.take(i as int) =~= values@);
        }
        total
    }

    /// The product of `values`, multiplied from the left starting at `1`;
    /// no partial product may overflow.
    pub fn product(values: &[Self]) -> (r: Self)
        requires
            D <= MAX_DECIMAL_PLACES,
            product_atomics(values@) is Some,
        ensures
            r@ == product_atomics(values@)->Some_0,
    {
        let mut total = Self::one();
        let mut i: usize = 0;
        proof {
            assert(values@.take(0) =~= Seq::<Self>::empty());
        }
        while i < values.len()
            invariant
                D <= MAX_DECIMAL_PLACES,
                i <= values.len(),
                product_atomics(values@) is Some,
                product_atomics(values@.take(i as int)) == Some(total@),
            decreases values.len() - i,
        {
            proof {
                assert(values@.take(i + 1).drop_last() =~= values@.take(i as int));
                crate::arith::lemma_product_prefix(values@, i + 1);
            }
            total = total.mul(values[i]);
            i = i + 1;
        }
        proof {
            assert(values@.take(i as int) =~= values@);
        }
        total
    }
}

} // verus!
