//! The text form of a decimal: `integer` or `integer.fraction`, with the
//! fraction's trailing zeros trimmed.
use crate::decimal::{unit, Decimal};
use crate::error::{is_parse_error, message, CustomDecimalError};
use crate::power::{lemma_ten_pow_adds, lemma_ten_pow_fits, pow10, ten_pow, MAX_DECIMAL_PLACES};
use crate::text::{
    chars_of, digits, find_dot, first_dot, integer_text_value, lemma_digits_value_bound,
    lemma_first_dot, padded_digits, parse_digits, push_digits, push_trimmed, trim_zeros,
};
use vstd::prelude::*;
use vstd::string::*;

verus! {

/// The text of atomics `a` with `d` decimal places: the whole part, then,
/// when the fraction is not zero, a `.` and the fraction's `d` digits
/// without their trailing zeros.
pub open spec fn display_text(a: nat, d: u32) -> Seq<char> {
    let whole = a / unit(d);
    let fraction = a % unit(d);
    if fraction == 0 {
        digits(whole)
    } else {
        digits(whole) + seq!['.'] + trim_zeros(padded_digits(fraction, d as nat))
    }
}

/// The message for a fraction of `len` digits where `d` are allowed.
pub open spec fn too_many_places_message(len: nat, d: u32) -> Seq<char> {
    "Too many decimal places: "@ + digits(len) + " (max "@ + digits(d as nat) + ")"@
}

/// What reading `s` with `d` decimal places gives: `Ok` with the atomics;
/// `Err(Some(msg))` for text that is no decimal, with its message;
/// `Err(None)` for a value too large to hold.
pub open spec fn text_outcome(s: Seq<char>, d: u32) -> Result<nat, Option<Seq<char>>> {
    if !s.contains('.') {
        match integer_text_value(s) {
            None => Err(Some("Invalid integer: "@ + s)),
            Some(v) => if v * unit(d) <= u128::MAX {
                Ok(v * unit(d))
            } else {
                Err(None)
            },
        }
    } else {
        let k = first_dot(s);
        let whole_text = s.take(k);
        let fraction_text = s.skip(k + 1);
        if fraction_text.contains('.') {
            Err(Some("Invalid decimal format: "@ + s))
        } else {
            match integer_text_value(whole_text) {
                None => Err(Some("Invalid integer: "@ + whole_text)),
                Some(w) => if fraction_text.len() > d {
                    Err(Some(too_many_places_message(fraction_text.len(), d)))
                } else {
                    match integer_text_value(fraction_text) {
                        None => Err(Some("Invalid fractional: "@ + fraction_text)),
                        Some(f) => {
                            let total = w * unit(d) + f * ten_pow((d - fraction_text.len()) as nat);
                            if total <= u128::MAX {
                                Ok(total)
                            } else {
                                Err(None)
                            }
                        },
                    }
                },
            }
        }
    }
}

/// Whether `r` is what `outcome` describes.
pub open spec fn matches_outcome<const D: u32>(
    r: Result<Decimal<D>, CustomDecimalError>,
    outcome: Result<nat, Option<Seq<char>>>,
) -> bool {
    match outcome {
        Ok(v) => r is Ok && r->Ok_0@ == v,
        Err(Some(msg)) => r is Err && is_parse_error(r->Err_0, msg),
        Err(None) => r is Err && r->Err_0 == CustomDecimalError::Overflow,
    }
}

/// The message for a fraction of `len` digits where `d` are allowed.
fn too_many_places(len: usize, d: u32) -> (r: String)
    ensures
        r@ == too_many_places_message(len as nat, d),
{
    let mut m = String::new();
    m.append("Too many decimal places: ");
    push_digits(&mut m, len as u128);
    m.append(" (max ");
    push_digits(&mut m, d as u128);
    m.append(")");
    m
}

/// A fraction of `len` digits, scaled up to `d` places, stays below `10^d`.
pub(crate) proof fn lemma_scaled_fraction(f: nat, len: nat, d: nat)
    requires
        f < ten_pow(len),
        len <= d,
    ensures
        f * ten_pow((d - len) as nat) < ten_pow(d),
{
    lemma_ten_pow_adds(len, (d - len) as nat);
    lemma_ten_pow_fits(0);
    crate::power::lemma_ten_pow_grows(0, (d - len) as nat);
    assert(f * ten_pow((d - len) as nat) < ten_pow(len) * ten_pow((d - len) as nat)) by (nonlinear_arith)
        requires
            f < ten_pow(len),
            ten_pow((d - len) as nat) >= 1,
    ;
}

impl<const D: u32> Decimal<D> {
    /// The text form: see `display_text`.
    pub fn to_string(&self) -> (r: String)
        requires
            D <= MAX_DECIMAL_PLACES,
        ensures
            r@ == display_text(self@, D),
    {
        proof {
            lemma_ten_pow_fits(D as nat);
        }
        let f = pow10(D);
        let whole = self.0 / f;
        let fraction = self.0 % f;
        let mut out = String::new();
        push_digits(&mut out, whole);
        if fraction != 0 {
            out.append(".");
            push_trimmed(&mut out, fraction, D);
        }
        proof {
            reveal_strlit(".");
            assert(out@ =~= display_text(self@, D));
        }
        out
    }

    /// Reads the text form: see `text_outcome`.
    pub fn from_str(s: &str) -> (r: Result<Self, CustomDecimalError>)
        requires
            D <= MAX_DECIMAL_PLACES,
        ensures
            matches_outcome(r, text_outcome(s@, D)),
    {
        proof {
            lemma_ten_pow_fits(D as nat);
        }
        let chars = chars_of(s);
        let n = chars.len();
        let f = pow10(D);
        let dot = find_dot(&chars, 0);
        if dot == n {
            proof {
                assert(!s@.contains('.'));
                assert(chars@.subrange(0, n as int) =~= s@);
            }
            return match parse_digits(&chars, 0, n) {
                None => Err(CustomDecimalError::ParseError(message("Invalid integer: ", s))),
                Some(v) => match v.checked_mul(f) {
                    Some(a) => Ok(Decimal(a)),
                    None => Err(CustomDecimalError::Overflow),
                },
            };
        }
        proof {
            lemma_first_dot(s@, dot as int);
        }
        let ghost whole_text = s@.take(dot as int);
        let ghost fraction_text = s@.skip(dot + 1);
        let second = find_dot(&chars, dot + 1);
        if second < n {
            proof {
                assert(fraction_text[second - dot - 1] == '.');
            }
            return Err(CustomDecimalError::ParseError(message("Invalid decimal format: ", s)));
        }
        proof {
            assert(chars@.subrange(0, dot as int) =~= whole_text);
            assert(chars@.subrange(dot + 1, n as int) =~= fraction_text);
            assert(!fraction_text.contains('.')) by {
                if fraction_text.contains('.') {
                    let j = choose|j: int| 0 <= j < fraction_text.len() && fraction_text[j] == '.';
                    assert(chars@[dot + 1 + j] == '.');
                }
            }
        }
        let whole = match parse_digits(&chars, 0, dot) {
            None => {
                let text = s.substring_char(0, dot);
                proof {
                    assert(text@ =~= whole_text);
                }
                return Err(CustomDecimalError::ParseError(message("Invalid integer: ", text)));
            },
            Some(v) => v,
        };
        let fraction_len = n - dot - 1;
        if fraction_len > D as usize {
            return Err(CustomDecimalError::ParseError(too_many_places(fraction_len, D)));
        }
        let fraction = match parse_digits(&chars, dot + 1, n) {
            None => {
                let text = s.substring_char(dot + 1, n);
                proof {
                    assert(text@ =~= fraction_text);
                }
                return Err(CustomDecimalError::ParseError(message("Invalid fractional: ", text)));
            },
            Some(v) => v,
        };
        proof {
            lemma_digits_value_bound(fraction_text);
            lemma_scaled_fraction(fraction as nat, fraction_len as nat, D as nat);
        }
        let scaled = fraction * pow10(D - fraction_len as u32);
        match whole.checked_mul(f) {
            None => Err(CustomDecimalError::Overflow),
            Some(w) => match w.checked_add(scaled) {
                None => Err(CustomDecimalError::Overflow),
                Some(total) => Ok(Decimal(total)),
            },
        }
    }
}

impl<const D: u32> core::str::FromStr for Decimal<D> {
    type Err = CustomDecimalError;

    /// Reads the text form as `Decimal::from_str` does; a precision whose
    /// scale does not fit in a `u128` is out of range.
    fn from_str(s: &str) -> Result<Self, CustomDecimalError> {
        if D > MAX_DECIMAL_PLACES {
            Err(CustomDecimalError::RangeExceeded)
        } else {
            Decimal::<D>::from_str(s)
        }
    }
}

} // verus!
