//! Properties that relate several operations, proved over the contracts'
//! own spec functions.
use crate::decimal::{mul_atomics, rescaled, unit, Decimal};
use crate::format::{display_text, text_outcome};
use crate::storage::{storage_outcome, storage_text};
use crate::power::{lemma_ten_pow_adds, lemma_ten_pow_fits, ten_pow, MAX_DECIMAL_PLACES};
use crate::text::{
    all_digits, digits, digits_value, first_dot, integer_text_value, is_first_dot,
    lemma_all_digits_prefix, lemma_digits_spell, lemma_first_dot, lemma_padded_spell,
    lemma_trim_spell, padded_digits, trim_zeros,
};
use vstd::prelude::*;

verus! {

/// The whole part of a value and what is left of it.
proof fn lemma_whole_and_fraction(a: nat, f: nat)
    requires
        f >= 1,
    ensures
        (a / f) * f + a % f == a,
        a / f <= a,
        a % f < f,
{
    vstd::arithmetic::div_mod::lemma_fundamental_div_mod(a as int, f as int);
    vstd::arithmetic::div_mod::lemma_mod_bound(a as int, f as int);
    assert((a / f) * f + a % f == a) by (nonlinear_arith)
        requires
            a as int == f * (a as int / f as int) + a as int % f as int,
    ;
    assert(a / f <= a) by (nonlinear_arith)
        requires
            (a / f) * f + a % f == a,
            f >= 1,
    ;
}

/// The digits of a whole number read back as that number and hold no `.`.
proof fn lemma_whole_text(w: nat)
    requires
        w <= u128::MAX,
    ensures
        integer_text_value(digits(w)) == Some(w),
        !digits(w).contains('.'),
{
    lemma_digits_spell(w);
    let wd = digits(w);
    assert(!wd.contains('.')) by {
        if wd.contains('.') {
            let j = choose|j: int| 0 <= j < wd.len() && wd[j] == '.';
            assert(crate::text::is_digit(wd[j]));
        }
    }
}

/// A non-zero fraction written with `width` digits and trimmed keeps one
/// or more digits, and the trimmed zeros were a power of ten.
proof fn lemma_trimmed_fraction(n: nat, width: nat)
    requires
        0 < n < ten_pow(width),
    ensures
        ({
            let tr = trim_zeros(padded_digits(n, width));
            &&& 0 < tr.len() <= width
            &&& all_digits(tr)
            &&& !tr.contains('.')
            &&& digits_value(tr) <= n
            &&& digits_value(tr) * ten_pow((width - tr.len()) as nat) == n
        }),
{
    let p = padded_digits(n, width);
    let tr = trim_zeros(p);
    lemma_padded_spell(n, width);
    lemma_trim_spell(p);
    vstd::arithmetic::div_mod::lemma_small_mod(n, ten_pow(width));
    lemma_all_digits_prefix(p, tr.len() as int);
    assert(!tr.contains('.')) by {
        if tr.contains('.') {
            let j = choose|j: int| 0 <= j < tr.len() && tr[j] == '.';
            assert(crate::text::is_digit(tr[j]));
        }
    }
    let e = (width - tr.len()) as nat;
    crate::power::lemma_ten_pow_grows(0, e);
    assert(digits_value(tr) <= digits_value(p)) by (nonlinear_arith)
        requires
            digits_value(p) == digits_value(tr) * ten_pow(e),
            ten_pow(e) >= 1,
    ;
    assert(digits_value(p) == n);
    assert(tr.len() > 0) by {
        if tr.len() == 0 {
            assert(digits_value(tr) == 0);
            assert(digits_value(p) == 0 * ten_pow(e));
        }
    }
}

/// Text made of a whole part, a `.` and a fraction splits at that `.`.
proof fn lemma_split_at_dot(wd: Seq<char>, tr: Seq<char>)
    requires
        !wd.contains('.'),
    ensures
        ({
            let t = wd + seq!['.'] + tr;
            &&& t.contains('.')
            &&& first_dot(t) == wd.len()
            &&& t.take(wd.len() as int) == wd
            &&& t.skip(wd.len() as int + 1) == tr
        }),
{
    let t = wd + seq!['.'] + tr;
    let k = wd.len() as int;
    assert(is_first_dot(t, k)) by {
        assert forall|j: int| 0 <= j < k implies t[j] != '.' by {
            assert(t[j] == wd[j]);
        }
    }
    lemma_first_dot(t, k);
    assert(t.take(k) =~= wd);
    assert(t.skip(k + 1) =~= tr);
}

/// Reading back the text form of any value gives that value:
/// `Decimal::from_str(&x.to_string())` is `Ok(x)`.
pub proof fn text_round_trip<const D: u32>(x: Decimal<D>)
    requires
        D <= MAX_DECIMAL_PLACES,
    ensures
        text_outcome(display_text(x@, D), D) == Ok::<nat, Option<Seq<char>>>(x@),
{
    let f = unit(D);
    lemma_ten_pow_fits(D as nat);
    let a = x@;
    let w = a / f;
    let r = a % f;
    lemma_whole_and_fraction(a, f);
    lemma_whole_text(w);
    if r != 0 {
        lemma_trimmed_fraction(r, D as nat);
        lemma_split_at_dot(digits(w), trim_zeros(padded_digits(r, D as nat)));
    }
}

/// Reading back the storage text of a value with at most 18 decimal places
/// gives that value: `Decimal::from_storage_str(&x.to_storage_string())` is
/// `Ok(x)`.
pub proof fn storage_round_trip<const D: u32>(x: Decimal<D>)
    requires
        D <= 18,
    ensures
        storage_outcome(storage_text(x@, D), D) == Ok::<nat, Seq<char>>(x@),
{
    let f = unit(D);
    lemma_ten_pow_fits(D as nat);
    let a = x@;
    let w = a / f;
    let r = a % f;
    lemma_whole_and_fraction(a, f);
    lemma_whole_text(w);
    if r != 0 {
        let e = (18 - D) as nat;
        let r18 = r * ten_pow(e);
        crate::format::lemma_scaled_fraction(r, D as nat, 18);
        crate::power::lemma_ten_pow_grows(0, e);
        assert(r18 > 0) by (nonlinear_arith)
            requires
                r > 0,
                ten_pow(e) >= 1,
                r18 == r * ten_pow(e),
        ;
        lemma_trimmed_fraction(r18, 18);
        let tr = trim_zeros(padded_digits(r18, 18));
        lemma_split_at_dot(digits(w), tr);
        let v = digits_value(tr);
        let len = tr.len();
        lemma_ten_pow_fits(18);
        assert(rescaled(r, D as nat, 18) == r18);
        assert(storage_text(a, D) == digits(w) + seq!['.'] + tr);
        assert(integer_text_value(tr) == Some(v));
        let g = (18 - len) as nat;
        crate::power::lemma_ten_pow_grows(0, g);
        assert(v * ten_pow(g) == r * ten_pow(e));
        if len <= D {
            let h = (D - len) as nat;
            lemma_ten_pow_adds(h, e);
            assert(h + e == g);
            assert(v * ten_pow(h) == r) by (nonlinear_arith)
                requires
                    v * ten_pow(g) == r * ten_pow(e),
                    ten_pow(g) == ten_pow(h) * ten_pow(e),
                    ten_pow(e) >= 1,
            ;
            assert(rescaled(v, len, D as nat) == r);
        } else {
            let h = (len - D) as nat;
            lemma_ten_pow_adds(h, g);
            assert(h + g == e);
            crate::power::lemma_ten_pow_grows(0, h);
            assert(v == r * ten_pow(h)) by (nonlinear_arith)
                requires
                    v * ten_pow(g) == r * ten_pow(e),
                    ten_pow(e) == ten_pow(h) * ten_pow(g),
                    ten_pow(g) >= 1,
            ;
            vstd::arithmetic::div_mod::lemma_div_multiples_vanish(r as int, ten_pow(h) as int);
            assert(r * ten_pow(h) == ten_pow(h) * r);
            assert(rescaled(v, len, D as nat) == r);
        }
    } else {
        assert(rescaled(r, D as nat, 18) == 0 * ten_pow((18 - D) as nat));
        assert(storage_text(a, D) == digits(w));
    }
}

/// Widening to `D2 >= D` places and narrowing back gives the value back.
pub proof fn precision_round_trip<const D: u32, const D2: u32>(x: Decimal<D>)
    requires
        D <= D2,
    ensures
        rescaled(rescaled(x@, D as nat, D2 as nat), D2 as nat, D as nat) == x@,
{
    if D < D2 {
        let p = ten_pow((D2 - D) as nat);
        crate::power::lemma_ten_pow_grows(0, (D2 - D) as nat);
        vstd::arithmetic::div_mod::lemma_div_multiples_vanish(x@ as int, p as int);
        let w = rescaled(x@, D as nat, D2 as nat);
        assert(w == x@ * p);
        assert(x@ * p == p * x@);
        assert(rescaled(w, D2 as nat, D as nat) == w / p);
        assert((p * x@) / p == x@);
    } else {
        vstd::arithmetic::power::lemma_pow0(10);
        assert(D == D2);
        assert(ten_pow(0) == 1);
        assert(((D2 as nat) - (D as nat)) as nat == 0);
        assert(rescaled(x@, D as nat, D2 as nat) == x@ * ten_pow(0));
        assert(rescaled(x@, D as nat, D2 as nat) == x@);
        assert(rescaled(x@, D2 as nat, D as nat) == x@);
    }
}

/// Multiplying by one changes nothing: `x.checked_mul(Decimal::one())` is
/// `Some(x)`.
pub proof fn mul_one_identity<const D: u32>(x: Decimal<D>)
    requires
        D <= MAX_DECIMAL_PLACES,
    ensures
        mul_atomics(x@, unit(D), D) == x@,
{
    lemma_ten_pow_fits(D as nat);
    vstd::arithmetic::div_mod::lemma_div_multiples_vanish(x@ as int, unit(D) as int);
    assert(x@ * unit(D) == unit(D) * x@);
}

/// A fraction restated at 18 places is `r * 10^18 / 10^d`.
proof fn lemma_rescaled_to_reference(r: nat, d: nat)
    ensures
        rescaled(r, d, 18) == r * ten_pow(18) / ten_pow(d),
{
    lemma_ten_pow_fits(0);
    if d <= 18 {
        let e = (18 - d) as nat;
        lemma_ten_pow_adds(d, e);
        crate::power::lemma_ten_pow_grows(0, d);
        crate::power::lemma_ten_pow_grows(0, e);
        assert(r * ten_pow(18) == ten_pow(d) * (r * ten_pow(e))) by (nonlinear_arith)
            requires
                ten_pow(18) == ten_pow(d) * ten_pow(e),
        ;
        vstd::arithmetic::div_mod::lemma_div_multiples_vanish((r * ten_pow(e)) as int, ten_pow(d) as int);
    } else {
        let e = (d - 18) as nat;
        lemma_ten_pow_adds(18, e);
        crate::power::lemma_ten_pow_grows(0, 18);
        crate::power::lemma_ten_pow_grows(0, e);
        vstd::arithmetic::div_mod::lemma_div_multiples_vanish_quotient(
            ten_pow(18) as int,
            r as int,
            ten_pow(e) as int,
        );
        assert(ten_pow(18) * r == r * ten_pow(18));
    }
}

/// Equal values of any two precisions have the same storage text:
/// `x.to_storage_string() == y.to_storage_string()` whenever `x` and `y`
/// stand for the same number.
pub proof fn storage_text_shared<const D1: u32, const D2: u32>(x: Decimal<D1>, y: Decimal<D2>)
    requires
        D1 <= MAX_DECIMAL_PLACES,
        D2 <= MAX_DECIMAL_PLACES,
        x@ * unit(D2) == y@ * unit(D1),
    ensures
        storage_text(x@, D1) == storage_text(y@, D2),
{
    let f1 = unit(D1) as int;
    let f2 = unit(D2) as int;
    let a = x@ as int;
    let b = y@ as int;
    lemma_ten_pow_fits(D1 as nat);
    lemma_ten_pow_fits(D2 as nat);
    vstd::arithmetic::div_mod::lemma_div_multiples_vanish_quotient(f2, a, f1);
    vstd::arithmetic::div_mod::lemma_div_multiples_vanish_quotient(f1, b, f2);
    assert(f2 * a == f1 * b) by (nonlinear_arith)
        requires
            a * f2 == b * f1,
    ;
    assert(f2 * f1 == f1 * f2);
    let w = a / f1;
    assert(w == b / f2);
    let r1 = a % f1;
    let r2 = b % f2;
    vstd::arithmetic::div_mod::lemma_fundamental_div_mod(a, f1);
    vstd::arithmetic::div_mod::lemma_fundamental_div_mod(b, f2);
    assert(r1 * f2 == r2 * f1) by (nonlinear_arith)
        requires
            a == f1 * w + r1,
            b == f2 * w + r2,
            a * f2 == b * f1,
    ;
    assert(r1 == 0 <==> r2 == 0) by (nonlinear_arith)
        requires
            r1 * f2 == r2 * f1,
            f1 >= 1,
            f2 >= 1,
    ;
    let e = ten_pow(18) as int;
    lemma_ten_pow_fits(18);
    lemma_rescaled_to_reference(r1 as nat, D1 as nat);
    lemma_rescaled_to_reference(r2 as nat, D2 as nat);
    vstd::arithmetic::div_mod::lemma_mod_bound(a, f1);
    vstd::arithmetic::div_mod::lemma_mod_bound(b, f2);
    vstd::arithmetic::div_mod::lemma_div_multiples_vanish_quotient(f2, r1 * e, f1);
    vstd::arithmetic::div_mod::lemma_div_multiples_vanish_quotient(f1, r2 * e, f2);
    assert(f2 * (r1 * e) == f1 * (r2 * e)) by (nonlinear_arith)
        requires
            r1 * f2 == r2 * f1,
    ;
    assert(r1 * e / f1 == r2 * e / f2);
}

} // verus!
