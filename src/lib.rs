//! Fixed-point decimal values with a precision chosen per type.
//!
//! A `Decimal<D>` stores an unsigned 128-bit integer, its atomics, where
//! `10^D` atomics make up the value `1.0`. Arithmetic truncates toward zero,
//! and the storage text form is always expressed at 18 decimal places, so
//! that values of different precisions share one serialized form.
use vstd::prelude::*;

pub mod arith;
pub mod decimal;
pub mod error;
pub mod format;
pub mod host_math;
pub mod laws;
pub mod ops;
pub mod power;
pub mod storage;
pub mod text;

pub use decimal::Decimal;
pub use error::CustomDecimalError;
pub use power::{pow10, scale_factor_from_18, scale_factor_to_18, MAX_DECIMAL_PLACES};

verus! {

/// Number of decimal places of `CustomDecimal`.
pub const CUSTOM_DECIMALS: u32 = 6;

/// The atomics of `1.0` in a `CustomDecimal`: `10^6`.
pub const CUSTOM_DECIMAL_FRACTIONAL: u128 = 1_000_000;

/// The factor between 6 and 18 decimal places: `10^12`.
pub const SCALE_FACTOR: u128 = 1_000_000_000_000;

/// A decimal with 6 decimal places, the default precision.
pub type CustomDecimal = Decimal<6>;

/// A decimal with 6 decimal places.
pub type Decimal6 = Decimal<6>;

/// A decimal with 9 decimal places.
pub type Decimal9 = Decimal<9>;

/// A decimal with 12 decimal places.
pub type Decimal12 = Decimal<12>;

/// A decimal with 18 decimal places, the precision of the reference type.
pub type Decimal18 = Decimal<18>;

} // verus!
