use vstd::prelude::*;
use vstd::string::*;
use crate::text::{digits, push_digits};

verus! {

/// What can go wrong when computing with or reading a decimal.
#[derive(Debug, PartialEq)]
pub enum CustomDecimalError {
    /// A result exceeds the largest representable value.
    Overflow,
    /// A result falls below zero.
    Underflow,
    /// A divisor is zero.
    DivisionByZero,
    /// A result does not fit the native width.
    RangeExceeded,
    /// Text is not a decimal number; the message names the offending part.
    ParseError(String),
    /// A value of another type has no counterpart here.
    ConversionError(String),
    /// Widening a value to more decimal places overflowed.
    PrecisionConversionOverflow { from_decimals: u32, to_decimals: u32 },
}

/// Whether `e` is a parse error carrying the message `msg`.
pub open spec fn is_parse_error(e: CustomDecimalError, msg: Seq<char>) -> bool {
    e is ParseError && e->ParseError_0@ == msg
}

/// `prefix` followed by `detail`.
pub(crate) fn message(prefix: &str, detail: &str) -> (r: String)
    ensures
        r@ == prefix@ + detail@,
{
    let mut m = String::new();
    m.append(prefix);
    m.append(detail);
    m
}

/// The text of the precision conversion overflow from `from` to `to` places.
pub open spec fn precision_overflow_text(from: u32, to: u32) -> Seq<char> {
    "Precision conversion overflow: cannot convert from "@ + digits(from as nat) + " to "@
        + digits(to as nat) + " decimals"@
}

/// The text that describes `e`.
pub open spec fn error_text(e: CustomDecimalError) -> Seq<char> {
    match e {
        CustomDecimalError::Overflow => "Overflow in Decimal operation"@,
        CustomDecimalError::Underflow => "Underflow in Decimal operation"@,
        CustomDecimalError::DivisionByZero => "Division by zero"@,
        CustomDecimalError::RangeExceeded => "Value exceeds valid range for Decimal"@,
        CustomDecimalError::ParseError(m) => "Failed to parse Decimal: "@ + m@,
        CustomDecimalError::ConversionError(m) => "Conversion error: "@ + m@,
        CustomDecimalError::PrecisionConversionOverflow { from_decimals, to_decimals } =>
            precision_overflow_text(from_decimals, to_decimals),
    }
}

/// The message that `e` carries when the host platform reports it.
pub open spec fn host_text(e: CustomDecimalError) -> Seq<char> {
    match e {
        CustomDecimalError::Overflow => "Decimal overflow"@,
        CustomDecimalError::Underflow => "Decimal underflow"@,
        CustomDecimalError::DivisionByZero => "Division by zero"@,
        CustomDecimalError::RangeExceeded => "Value exceeds valid range"@,
        CustomDecimalError::ParseError(m) => "Parse error: "@ + m@,
        CustomDecimalError::ConversionError(m) => "Conversion error: "@ + m@,
        CustomDecimalError::PrecisionConversionOverflow { from_decimals, to_decimals } =>
            precision_overflow_text(from_decimals, to_decimals),
    }
}

/// The text of the precision conversion overflow from `from` to `to` places.
fn precision_overflow_message(from: u32, to: u32) -> (r: String)
    ensures
        r@ == precision_overflow_text(from, to),
{
    let mut m = String::new();
    m.append("Precision conversion overflow: cannot convert from ");
    push_digits(&mut m, from as u128);
    m.append(" to ");
    push_digits(&mut m, to as u128);
    m.append(" decimals");
    m
}

impl CustomDecimalError {
    /// The text that describes this error: see `error_text`.
    pub fn to_string(&self) -> (r: String)
        ensures
            r@ == error_text(*self),
    {
        match self {
            CustomDecimalError::Overflow => "Overflow in Decimal operation".to_owned(),
            CustomDecimalError::Underflow => "Underflow in Decimal operation".to_owned(),
            CustomDecimalError::DivisionByZero => "Division by zero".to_owned(),
            CustomDecimalError::RangeExceeded => "Value exceeds valid range for Decimal".to_owned(),
            CustomDecimalError::ParseError(m) => message("Failed to parse Decimal: ", m.as_str()),
            CustomDecimalError::ConversionError(m) => message("Conversion error: ", m.as_str()),
            CustomDecimalError::PrecisionConversionOverflow { from_decimals, to_decimals } =>
                precision_overflow_message(*from_decimals, *to_decimals),
        }
    }

    /// The message for the host platform's generic error: see `host_text`.
    pub fn host_message(&self) -> (r: String)
        ensures
            r@ == host_text(*self),
    {
        match self {
            CustomDecimalError::Overflow => "Decimal overflow".to_owned(),
            CustomDecimalError::Underflow => "Decimal underflow".to_owned(),
            CustomDecimalError::DivisionByZero => "Division by zero".to_owned(),
            CustomDecimalError::RangeExceeded => "Value exceeds valid range".to_owned(),
            CustomDecimalError::ParseError(m) => message("Parse error: ", m.as_str()),
            CustomDecimalError::ConversionError(m) => message("Conversion error: ", m.as_str()),
            CustomDecimalError::PrecisionConversionOverflow { from_decimals, to_decimals } =>
                precision_overflow_message(*from_decimals, *to_decimals),
        }
    }
}

} // verus!
