//! Arithmetic on decimals of one precision: checked, saturating and
//! operator-style forms, rounding, powers and square roots.
use crate::decimal::{div_atomics, mul_atomics, mul_div_floor, rescale, rescaled, unit, Decimal};
use crate::host_math::{ceil_div, multiply_ratio_ceil, reference_sqrt, sqrt_reference};
use crate::power::{lemma_ten_pow_fits, pow10, MAX_DECIMAL_PLACES, REFERENCE_PLACES};
use vstd::prelude::*;

verus! {

/// The atomics after multiplying `a` by itself until there are `n` factors,
/// truncating each product in turn; `None` once a product overflows.
pub open spec fn pow_chain(a: nat, n: nat, d: u32) -> Option<nat>
    decreases n,
{
    if n <= 1 {
        Some(a)
    } else {
        match pow_chain(a, (n - 1) as nat, d) {
            Some(p) => if mul_atomics(p, a, d) <= u128::MAX {
                Some(mul_atomics(p, a, d))
            } else {
                None
            },
            None => None,
        }
    }
}

/// The atomics of `a` raised to the power `n` with `d` decimal places, or
/// `None` when an intermediate product overflows.
pub open spec fn pow_atomics(a: nat, n: nat, d: u32) -> Option<nat> {
    if n == 0 {
        Some(unit(d))
    } else if n == 1 {
        Some(a)
    } else if a == 0 {
        Some(0)
    } else {
        pow_chain(a, n, d)
    }
}

/// Once a product in the chain overflows, every longer chain overflows too.
proof fn lemma_pow_chain_stays_none(a: nat, n: nat, m: nat, d: u32)
    requires
        n <= m,
        pow_chain(a, n, d) is None,
    ensures
        pow_chain(a, m, d) is None,
    decreases m - n,
{
    if n < m {
        lemma_pow_chain_stays_none(a, n, (m - 1) as nat, d);
    }
}

/// The atomics of the square root, taken through the 18-decimal reference
/// representation.
pub open spec fn sqrt_atomics(a: nat, d: u32) -> nat {
    rescaled(reference_sqrt(rescaled(a, d as nat, 18)), 18, d as nat)
}

/// The sum of the atomics of `s`.
pub open spec fn sum_atomics<const D: u32>(s: Seq<Decimal<D>>) -> nat
    decreases s.len(),
{
    if s.len() == 0 {
        0
    } else {
        sum_atomics(s.drop_last()) + s.last()@
    }
}

/// The atomics of the product of `s`, multiplied from the left starting at
/// `1`, or `None` when a partial product overflows.
pub open spec fn product_atomics<const D: u32>(s: Seq<Decimal<D>>) -> Option<nat>
    decreases s.len(),
{
    if s.len() == 0 {
        Some(unit(D))
    } else {
        match product_atomics(s.drop_last()) {
            Some(p) => if mul_atomics(p, s.last()@, D) <= u128::MAX {
                Some(mul_atomics(p, s.last()@, D))
            } else {
                None
            },
            None => None,
        }
    }
}

pub(crate) proof fn lemma_sum_prefix<const D: u32>(s: Seq<Decimal<D>>, i: int)
    requires
        0 <= i <= s.len(),
    ensures
        sum_atomics(s.take(i)) <= sum_atomics(s),
    decreases s.len(),
{
    if i < s.len() {
        assert(s.take(i) =~= s.drop_last().take(i));
        lemma_sum_prefix(s.drop_last(), i);
    } else {
        assert(s.take(i) =~= s);
    }
}

pub(crate) proof fn lemma_product_prefix<const D: u32>(s: Seq<Decimal<D>>, i: int)
    requires
        0 <= i <= s.len(),
        product_atomics(s) is Some,
    ensures
        product_atomics(s.take(i)) is Some,
    decreases s.len(),
{
    if i < s.len() {
        assert(s.take(i) =~= s.drop_last().take(i));
        lemma_product_prefix(s.drop_last(), i);
    } else {
        assert(s.take(i) =~= s);
    }
}

impl<const D: u32> Decimal<D> {
    /// `self + other`, or `None` when the sum overflows.
    pub fn checked_add(self, other: Self) -> (r: Option<Self>)
        ensures
            r is Some <==> self@ + other@ <= u128::MAX,
            r is Some ==> r->Some_0@ == self@ + other@,
    {
        match self.0.checked_add(other.0) {
            Some(a) => Some(Decimal(a)),
            None => None,
        }
    }

    /// `self - other`, or `None` when the difference is negative.
    pub fn checked_sub(self, other: Self) -> (r: Option<Self>)
        ensures
            r is Some <==> other@ <= self@,
            r is Some ==> r->Some_0@ == self@ - other@,
    {
        match self.0.checked_sub(other.0) {
            Some(a) => Some(Decimal(a)),
            None => None,
        }
    }

    /// `self * other`, truncated, or `None` when it does not fit.
    pub fn checked_mul(self, other: Self) -> (r: Option<Self>)
        requires
            D <= MAX_DECIMAL_PLACES,
        ensures
            r is Some <==> mul_atomics(self@, other@, D) <= u128::MAX,
            r is Some ==> r->Some_0@ == mul_atomics(self@, other@, D),
    {
        proof {
            lemma_ten_pow_fits(D as nat);
        }
        match mul_div_floor(self.0, other.0, pow10(D)) {
            Some(a) => Some(Decimal(a)),
            None => None,
        }
    }

    /// `self / other`, truncated, or `None` when `other` is zero or the
    /// quotient does not fit.
    pub fn checked_div(self, other: Self) -> (r: Option<Self>)
        requires
            D <= MAX_DECIMAL_PLACES,
        ensures
            r is Some <==> (other@ != 0 && div_atomics(self@, other@, D) <= u128::MAX),
            r is Some ==> r->Some_0@ == div_atomics(self@, other@, D),
    {
        if other.0 == 0 {
            return None;
        }
        match mul_div_floor(self.0, pow10(D), other.0) {
            Some(a) => Some(Decimal(a)),
            None => None,
        }
    }

    /// The remainder of the atomics, or `None` when `other` is zero.
    pub fn checked_rem(self, other: Self) -> (r: Option<Self>)
        ensures
            r is Some <==> other@ != 0,
            r is Some ==> r->Some_0@ == self@ % other@,
    {
        if other.0 == 0 {
            None
        } else {
            Some(Decimal(self.0 % other.0))
        }
    }

    /// `self` raised to `exp` by repeated truncating multiplication, or
    /// `None` when a product overflows.
    pub fn checked_pow(self, exp: u32) -> (r: Option<Self>)
        requires
            D <= MAX_DECIMAL_PLACES,
        ensures
            r is Some <==> pow_atomics(self@, exp as nat, D) is Some,
            r is Some ==> r->Some_0@ == pow_atomics(self@, exp as nat, D)->Some_0,
    {
        if exp == 0 {
            return Some(Self::one());
        }
        if exp == 1 {
            return Some(self);
        }
        if self.is_zero() {
            return Some(Self::zero());
        }
        let mut result = self;
        let mut i: u32 = 1;
        while i < exp
            invariant
                D <= MAX_DECIMAL_PLACES,
                1 <= i <= exp,
                self@ != 0,
                pow_chain(self@, i as nat, D) == Some(result@),
            decreases exp - i,
        {
            match result.checked_mul(self) {
                Some(next) => {
                    result = next;
                },
                None => {
                    proof {
                        assert(pow_chain(self@, (i + 1) as nat, D) is None);
                        lemma_pow_chain_stays_none(self@, (i + 1) as nat, exp as nat, D);
                        assert(pow_atomics(self@, exp as nat, D) == pow_chain(self@, exp as nat, D));
                    }
                    return None;
                },
            }
            i = i + 1;
        }
        Some(result)
    }

    /// `self + other`, or the largest value when the sum overflows.
    pub fn saturating_add(self, other: Self) -> (r: Self)
        ensures
            r@ == if self@ + other@ <= u128::MAX {
                self@ + other@
            } else {
                u128::MAX as nat
            },
    {
        Decimal(self.0.saturating_add(other.0))
    }

    /// `self - other`, or zero when the difference is negative.
    pub fn saturating_sub(self, other: Self) -> (r: Self)
        ensures
            r@ == if other@ <= self@ {
                self@ - other@
            } else {
                0
            },
    {
        Decimal(self.0.saturating_sub(other.0))
    }

    /// `self * other`, truncated, or the largest value when it does not fit.
    pub fn saturating_mul(self, other: Self) -> (r: Self)
        requires
            D <= MAX_DECIMAL_PLACES,
        ensures
            r@ == if mul_atomics(self@, other@, D) <= u128::MAX {
                mul_atomics(self@, other@, D)
            } else {
                u128::MAX as nat
            },
    {
        match self.checked_mul(other) {
            Some(result) => result,
            None => Self::max_value(),
        }
    }

    /// The largest whole number not above `self`.
    pub fn floor(self) -> (r: Self)
        requires
            D <= MAX_DECIMAL_PLACES,
        ensures
            r@ == self@ / unit(D) * unit(D),
    {
        let f = pow10(D);
        proof {
            lemma_ten_pow_fits(D as nat);
            assert(self.0 / f * f <= self.0) by (nonlinear_arith)
                requires
                    f >= 1,
            ;
        }
        Decimal(self.0 / f * f)
    }

    /// The smallest whole number not below `self`.
    pub fn ceil(self) -> (r: Self)
        requires
            D <= MAX_DECIMAL_PLACES,
            self@ % unit(D) != 0 ==> self@ / unit(D) * unit(D) + unit(D) <= u128::MAX,
        ensures
            r@ == if self@ % unit(D) == 0 {
                self@
            } else {
                self@ / unit(D) * unit(D) + unit(D)
            },
    {
        let floor = self.floor();
        proof {
            lemma_ten_pow_fits(D as nat);
            vstd::arithmetic::div_mod::lemma_fundamental_div_mod(self@ as int, unit(D) as int);
            assert(self@ == self@ / unit(D) * unit(D) + self@ % unit(D)) by (nonlinear_arith)
                requires
                    self@ as int == unit(D) * (self@ as int / unit(D) as int) + self@ as int % unit(D) as int,
            ;
        }
        if floor.0 == self.0 {
            floor
        } else {
            floor.add(Self::one())
        }
    }

    /// The square root, computed by the 18-decimal reference type: the value
    /// is widened or narrowed to 18 places, rooted there, and brought back.
    pub fn sqrt(self) -> (r: Self)
        requires
            D <= MAX_DECIMAL_PLACES,
            rescaled(self@, D as nat, 18) <= u128::MAX,
            rescaled(
                reference_sqrt(rescaled(self@, D as nat, 18)),
                18,
                D as nat,
            ) <= u128::MAX,
        ensures
            r@ == sqrt_atomics(self@, D),
    {
        let reference = self.to_std_atomics();
        Self::from_std_atomics(sqrt_reference(reference))
    }

    /// The square root as `sqrt` computes it, or `None` when the value or
    /// its root does not fit on the way through 18 decimal places.
    pub fn checked_sqrt(self) -> (r: Option<Self>)
        requires
            D <= MAX_DECIMAL_PLACES,
        ensures
            r is Some <==> (rescaled(self@, D as nat, 18) <= u128::MAX && rescaled(
                reference_sqrt(rescaled(self@, D as nat, 18)),
                18,
                D as nat,
            ) <= u128::MAX),
            r is Some ==> r->Some_0@ == sqrt_atomics(self@, D),
    {
        match rescale(self.0, D, REFERENCE_PLACES) {
            None => None,
            Some(reference) => match rescale(sqrt_reference(reference), REFERENCE_PLACES, D) {
                None => None,
                Some(root) => Some(Decimal(root)),
            },
        }
    }

    /// `self` raised to `exp`.
    pub fn pow(self, exp: u32) -> (r: Self)
        requires
            D <= MAX_DECIMAL_PLACES,
            pow_atomics(self@, exp as nat, D) is Some,
        ensures
            r@ == pow_atomics(self@, exp as nat, D)->Some_0,
    {
        self.checked_pow(exp).unwrap()
    }

    /// The smaller of the two values.
    pub fn min(self, other: Self) -> (r: Self)
        ensures
            r@ == if self@ < other@ {
                self@
            } else {
                other@
            },
    {
        if self.0 < other.0 {
            self
        } else {
            other
        }
    }

    /// The larger of the two values.
    pub fn max(self, other: Self) -> (r: Self)
        ensures
            r@ == if self@ > other@ {
                self@
            } else {
                other@
            },
    {
        if self.0 > other.0 {
            self
        } else {
            other
        }
    }

    /// The distance between the two values.
    pub fn abs_diff(self, other: Self) -> (r: Self)
        ensures
            r@ == if self@ > other@ {
                self@ - other@
            } else {
                other@ - self@
            },
    {
        if self.0 > other.0 {
            self.sub(other)
        } else {
            other.sub(self)
        }
    }

    /// The whole part, as a raw integer amount.
    pub fn to_uint_floor(self) -> (r: u128)
        requires
            D <= MAX_DECIMAL_PLACES,
        ensures
            r == self@ / unit(D),
    {
        proof {
            lemma_ten_pow_fits(D as nat);
        }
        self.0 / pow10(D)
    }

    /// The value rounded up to a raw integer amount.
    pub fn to_uint_ceil(self) -> (r: u128)
        requires
            D <= MAX_DECIMAL_PLACES,
            self@ % unit(D) != 0 ==> self@ / unit(D) * unit(D) + unit(D) <= u128::MAX,
        ensures
            r == ceil_div(self@ as int, unit(D) as int),
    {
        let c = self.ceil();
        proof {
            let f = unit(D) as int;
            let a = self@ as int;
            lemma_ten_pow_fits(D as nat);
            if a % f != 0 {
                assert((a / f * f + f) / f == a / f + 1) by (nonlinear_arith)
                    requires
                        f >= 1,
                        a >= 0,
                ;
            }
        }
        c.to_uint_floor()
    }

    /// A raw integer amount times this rate, rounded down.
    pub fn mul_uint_floor(self, rhs: u128) -> (r: u128)
        requires
            D <= MAX_DECIMAL_PLACES,
            mul_atomics(self@, rhs as nat, D) <= u128::MAX,
        ensures
            r == mul_atomics(self@, rhs as nat, D),
    {
        self.mul_uint(rhs)
    }

    /// A raw integer amount times this rate, rounded up.
    pub fn mul_uint_ceil(self, rhs: u128) -> (r: u128)
        requires
            D <= MAX_DECIMAL_PLACES,
            ceil_div(self@ * rhs, unit(D) as int) <= u128::MAX,
        ensures
            r == ceil_div(self@ * rhs, unit(D) as int),
    {
        proof {
            lemma_ten_pow_fits(D as nat);
        }
        multiply_ratio_ceil(self.0, rhs, pow10(D)).unwrap()
    }
}

} // verus!
