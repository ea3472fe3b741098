//! Integer constants of the number representation and the parser's comma settings.

use vstd::prelude::*;

verus! {

/// Maximum number of digits of precision to assume in a float.
pub const MAX_FLOAT_PRECISION: usize = 17;

/// Largest exponent that can appear in a number.
///
/// Not all mantissas are valid here.
pub const NUMBER_EXP_MAX: i32 = 308;

/// Smallest exponent that can appear in a number.
///
/// Not all mantissas are valid here.
pub const NUMBER_EXP_MIN: i32 = -324;

/// Amount of Es that will be printed in a string representation of a Decimal.
pub const MAX_ES_IN_A_ROW: u64 = 5;

/// Maximum number powers of 10 that will be cached: `NUMBER_EXP_MAX - NUMBER_EXP_MIN + 1`.
pub const MAX_POWERS_OF_TEN: usize = 633;

/// The largest layer of a finite value; any layer above it saturates to infinity.
pub const MAX_SAFE_LAYER: i64 = 9000000000000000;

/// The layer that the canonical infinities carry, above [`MAX_SAFE_LAYER`].
pub const INFINITE_LAYER: i64 = 9223372036854775807;

/// The relative tolerance used for `Decimal` equality comparisons is `1 / COMPARE_EPSILON_RECIPROCAL`,
/// that is `1e-10`.
pub const COMPARE_EPSILON_RECIPROCAL: u64 = 10000000000;

/// Whether commas in string representations should be ignored (they are).
pub fn ignore_commas() -> (r: bool)
    ensures
        r,
{
    true
}

/// Whether commas are used as decimal points (they are not).
pub fn commas_are_decimal_points() -> (r: bool)
    ensures
        !r,
{
    false
}

} // verus!
