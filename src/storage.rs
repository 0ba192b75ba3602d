//! The storage text form, shared by every precision: the fraction is always
//! written as if scaled to 18 decimal places, so equal values of different
//! precisions, and of the 18-decimal reference type, serialize alike.
use crate::decimal::{lemma_narrowing_shrinks, rescale, rescaled, unit, Decimal};
use crate::error::{is_parse_error, message, CustomDecimalError};
use crate::format::lemma_scaled_fraction;
use crate::power::{lemma_ten_pow_fits, pow10, MAX_DECIMAL_PLACES, REFERENCE_PLACES};
use crate::text::{
    all_digits, all_digits_in, chars_of, digits, digits_value, find_dot, first_dot,
    integer_text_value, lemma_all_digits_prefix, lemma_digits_value_bound,
    lemma_digits_value_truncate, lemma_first_dot, padded_digits, parse_digits, push_digits,
    push_trimmed, read_digits, trim_zeros,
};
use vstd::prelude::*;
use vstd::string::*;

verus! {

/// The storage text of atomics `a` with `d` decimal places: the whole part,
/// then, when the fraction restated with 18 places (truncated) is not zero,
/// a `.` and that fraction as 18 digits without their trailing zeros.
pub open spec fn storage_text(a: nat, d: u32) -> Seq<char> {
    let whole = a / unit(d);
    let reference = rescaled(a % unit(d), d as nat, 18);
    if reference == 0 {
        digits(whole)
    } else {
        digits(whole) + seq!['.'] + trim_zeros(padded_digits(reference, 18))
    }
}

/// What reading the storage text `s` with `d` decimal places gives: `Ok`
/// with the atomics, or `Err` with the message of the parse error. A
/// fraction of one or more digits, of any length, is accepted; one longer
/// than `d` is truncated.
pub open spec fn storage_outcome(s: Seq<char>, d: u32) -> Result<nat, Seq<char>> {
    if !s.contains('.') {
        match integer_text_value(s) {
            None => Err("Invalid integer part: "@ + s),
            Some(v) => if v * unit(d) <= u128::MAX {
                Ok(v * unit(d))
            } else {
                Err("Overflow in decimal value"@)
            },
        }
    } else {
        let k = first_dot(s);
        let whole_text = s.take(k);
        let fraction_text = s.skip(k + 1);
        if fraction_text.contains('.') {
            Err("Invalid decimal format: "@ + s)
        } else {
            match integer_text_value(whole_text) {
                None => Err("Invalid integer part: "@ + whole_text),
                Some(w) => if fraction_text.len() > 0 && all_digits(fraction_text) {
                    let f = digits_value(fraction_text);
                    let total = w * unit(d) + rescaled(f, fraction_text.len(), d as nat);
                    if total <= u128::MAX {
                        Ok(total)
                    } else {
                        Err("Overflow in decimal value"@)
                    }
                } else {
                    Err("Invalid fractional part: "@ + fraction_text)
                },
            }
        }
    }
}

impl<const D: u32> Decimal<D> {
    /// The storage text: see `storage_text`.
    pub fn to_storage_string(&self) -> (r: String)
        requires
            D <= MAX_DECIMAL_PLACES,
        ensures
            r@ == storage_text(self@, D),
    {
        proof {
            lemma_ten_pow_fits(D as nat);
        }
        let f = pow10(D);
        let whole = self.0 / f;
        let fraction = self.0 % f;
        let mut out = String::new();
        push_digits(&mut out, whole);
        proof {
            if D <= 18 {
                lemma_scaled_fraction(fraction as nat, D as nat, 18);
                lemma_ten_pow_fits(18);
            } else {
                lemma_narrowing_shrinks(fraction as nat, D as nat, 18);
            }
        }
        let reference = rescale(fraction, D, REFERENCE_PLACES).unwrap();
        if reference != 0 {
            out.append(".");
            push_trimmed(&mut out, reference, REFERENCE_PLACES);
        }
        proof {
            reveal_strlit(".");
            assert(out@ =~= storage_text(self@, D));
        }
        out
    }

    /// Reads the storage text: see `storage_outcome`.
    pub fn from_storage_str(s: &str) -> (r: Result<Self, CustomDecimalError>)
        requires
            D <= MAX_DECIMAL_PLACES,
        ensures
            match storage_outcome(s@, D) {
                Ok(v) => r is Ok && r->Ok_0@ == v,
                Err(msg) => r is Err && is_parse_error(r->Err_0, msg),
            },
    {
        proof {
            lemma_ten_pow_fits(D as nat);
        }
        let chars = chars_of(s);
        let n = chars.len();
        let f = pow10(D);
        let dot = find_dot(&chars, 0);
        if dot == n {
            proof {
                assert(!s@.contains('.'));
                assert(chars@.subrange(0, n as int) =~= s@);
            }
            return match parse_digits(&chars, 0, n) {
                None => Err(CustomDecimalError::ParseError(message("Invalid integer part: ", s))),
                Some(v) => match v.checked_mul(f) {
                    Some(a) => Ok(Decimal(a)),
                    None => Err(overflow_error()),
                },
            };
        }
        proof {
            lemma_first_dot(s@, dot as int);
        }
        let ghost whole_text = s@.take(dot as int);
        let ghost fraction_text = s@.skip(dot + 1);
        let second = find_dot(&chars, dot + 1);
        if second < n {
            proof {
                assert(fraction_text[second - dot - 1] == '.');
            }
            return Err(CustomDecimalError::ParseError(message("Invalid decimal format: ", s)));
        }
        proof {
            assert(chars@.subrange(0, dot as int) =~= whole_text);
            assert(chars@.subrange(dot + 1, n as int) =~= fraction_text);
            assert(!fraction_text.contains('.')) by {
                if fraction_text.contains('.') {
                    let j = choose|j: int| 0 <= j < fraction_text.len() && fraction_text[j] == '.';
                    assert(chars@[dot + 1 + j] == '.');
                }
            }
        }
        let whole = match parse_digits(&chars, 0, dot) {
            None => {
                let text = s.substring_char(0, dot);
                proof {
                    assert(text@ =~= whole_text);
                }
                return Err(CustomDecimalError::ParseError(message("Invalid integer part: ", text)));
            },
            Some(v) => v,
        };
        let fraction_len = n - dot - 1;
        if fraction_len == 0 || !all_digits_in(&chars, dot + 1, n) {
            let text = s.substring_char(dot + 1, n);
            proof {
                assert(text@ =~= fraction_text);
            }
            return Err(CustomDecimalError::ParseError(message("Invalid fractional part: ", text)));
        }
        let scaled = if fraction_len <= D as usize {
            let value = read_digits(&chars, dot + 1, n);
            proof {
                lemma_digits_value_bound(fraction_text);
                lemma_scaled_fraction(value as nat, fraction_len as nat, D as nat);
            }
            value * pow10(D - fraction_len as u32)
        } else {
            let kept = dot + 1 + D as usize;
            proof {
                lemma_digits_value_truncate(fraction_text, D as int);
                lemma_all_digits_prefix(fraction_text, D as int);
                assert(chars@.subrange(dot + 1, kept as int) =~= fraction_text.take(D as int));
            }
            read_digits(&chars, dot + 1, kept)
        };
        match whole.checked_mul(f) {
            None => Err(overflow_error()),
            Some(w) => match w.checked_add(scaled) {
                None => Err(overflow_error()),
                Some(total) => Ok(Decimal(total)),
            },
        }
    }
}

/// The parse error for a value too large to hold.
fn overflow_error() -> (r: CustomDecimalError)
    ensures
        is_parse_error(r, "Overflow in decimal value"@),
{
    let mut m = String::new();
    m.append("Overflow in decimal value");
    CustomDecimalError::ParseError(m)
}

} // verus!
