use vstd::arithmetic::power::*;
use vstd::prelude::*;

verus! {

/// The largest number of decimal places whose scale `10^D` fits in a `u128`.
pub const MAX_DECIMAL_PLACES: u32 = 38;

/// The decimal places of the 18-decimal reference representation.
pub const REFERENCE_PLACES: u32 = 18;

/// `10^e` as a mathematical integer.
pub open spec fn ten_pow(e: nat) -> nat {
    pow(10, e) as nat
}

/// `10^38`, the largest power of ten below `u128::MAX`.
pub proof fn lemma_ten_pow_38()
    ensures
        ten_pow(38) == 100_000_000_000_000_000_000_000_000_000_000_000_000nat,
        ten_pow(38) <= u128::MAX,
{
    reveal_with_fuel(pow, 39);
}

/// Powers of ten are positive and grow with the exponent.
pub proof fn lemma_ten_pow_grows(e1: nat, e2: nat)
    ensures
        ten_pow(e1) >= 1,
        e1 <= e2 ==> ten_pow(e1) <= ten_pow(e2),
        e1 < e2 ==> ten_pow(e1) * 10 <= ten_pow(e2),
{
    lemma_pow_positive(10, e1);
    if e1 <= e2 {
        lemma_pow_increases(10, e1, e2);
    }
    if e1 < e2 {
        lemma_pow_adds(10, e1, 1);
        lemma_pow1(10);
        lemma_pow_increases(10, e1 + 1, e2);
    }
}

/// Every exponent up to 38 gives a power of ten that fits in a `u128`.
pub proof fn lemma_ten_pow_fits(e: nat)
    requires
        e <= 38,
    ensures
        1 <= ten_pow(e) <= u128::MAX,
{
    lemma_ten_pow_38();
    lemma_ten_pow_grows(e, 38);
}

/// `10^(a + b) == 10^a * 10^b`.
pub proof fn lemma_ten_pow_adds(a: nat, b: nat)
    ensures
        ten_pow(a + b) == ten_pow(a) * ten_pow(b),
{
    lemma_pow_adds(10, a, b);
    lemma_pow_positive(10, a);
    lemma_pow_positive(10, b);
}

/// One more factor of ten.
pub proof fn lemma_ten_pow_succ(e: nat)
    ensures
        ten_pow(e + 1) == ten_pow(e) * 10,
{
    lemma_pow_positive(10, e);
    reveal_with_fuel(pow, 2);
    assert(pow(10, e + 1) == 10 * pow(10, e));
}

/// A `u128` divided by `10^e` for `e` of 39 or more is zero.
pub proof fn lemma_ten_pow_exceeds(a: nat, e: nat)
    requires
        a <= u128::MAX,
        e > 38,
    ensures
        a / ten_pow(e) == 0,
{
    lemma_ten_pow_38();
    lemma_ten_pow_grows(38, e);
    assert(ten_pow(e) > a) by (nonlinear_arith)
        requires
            ten_pow(38) * 10 <= ten_pow(e),
            ten_pow(38) == 100_000_000_000_000_000_000_000_000_000_000_000_000nat,
            a <= u128::MAX,
    ;
    vstd::arithmetic::div_mod::lemma_basic_div(a as int, ten_pow(e) as int);
}

/// Computes `10^exp`.
pub fn pow10(exp: u32) -> (r: u128)
    requires
        exp <= MAX_DECIMAL_PLACES,
    ensures
        r == ten_pow(exp as nat),
{
    let mut result: u128 = 1;
    let mut i: u32 = 0;
    proof {
        reveal_with_fuel(pow, 1);
    }
    while i < exp
        invariant
            i <= exp <= 38,
            result == ten_pow(i as nat),
        decreases exp - i,
    {
        proof {
            lemma_ten_pow_succ(i as nat);
            lemma_ten_pow_fits((i + 1) as nat);
        }
        result = result * 10;
        i = i + 1;
    }
    result
}

/// The factor that takes a value with `D` decimal places to 18 decimal
/// places; 1 when `D` is 18 or more.
pub fn scale_factor_to_18<const D: u32>() -> (r: u128)
    ensures
        r == if D >= 18 { 1 } else { ten_pow((18 - D) as nat) },
{
    if D >= REFERENCE_PLACES {
        1
    } else {
        pow10(REFERENCE_PLACES - D)
    }
}

/// The factor that takes a value with 18 decimal places to `D` decimal
/// places by division; 1 when `D` is 18 or more.
pub fn scale_factor_from_18<const D: u32>() -> (r: u128)
    ensures
        r == if D >= 18 { 1 } else { ten_pow((18 - D) as nat) },
{
    if D >= REFERENCE_PLACES {
        1
    } else {
        pow10(REFERENCE_PLACES - D)
    }
}

} // verus!
