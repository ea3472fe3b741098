//! Error types for the crate.

use vstd::prelude::*;

verus! {

/// Identifies the category of an arithmetic error.
#[derive(Debug, Clone, Copy, PartialEq, Eq, Hash, Structural)]
#[non_exhaustive]
pub enum ArithmeticErrorKind {
    /// Operation is mathematically undefined (e.g., 0/0, +inf + -inf).
    Undefined,
    /// Division by zero.
    DivisionByZero,
    /// Negative base with non-integer exponent.
    NegativeBase,
    /// Domain error (e.g., ln of non-positive, lambertw for z < -1/e).
    OutOfDomain,
    /// Numerical iteration diverged.
    IterationDiverged,
    /// The result does not fit: a layer past the safe maximum, or an integer conversion out of
    /// the target's range.
    Overflow,
    /// A conversion to an integer type was asked of a value with a fractional part.
    NotInteger,
}

/// An error produced by a `checked_*` arithmetic operation on a `Decimal`.
#[derive(Debug, Clone, Copy, PartialEq, Eq, Hash)]
pub struct ArithmeticError {
    /// The kind of arithmetic error.
    pub kind: ArithmeticErrorKind,
    /// The name of the operation that failed.
    pub op: &'static str,
}

impl ArithmeticError {
    /// Creates a new error for operation `op` of the given kind.
    pub fn new(kind: ArithmeticErrorKind, op: &'static str) -> (r: Self)
        ensures
            r.kind == kind,
            r.op == op,
    {
        ArithmeticError { kind, op }
    }

    /// An [`ArithmeticErrorKind::Undefined`] error for `op`.
    pub fn undefined(op: &'static str) -> (r: Self)
        ensures
            r.kind == ArithmeticErrorKind::Undefined,
            r.op == op,
    {
        Self::new(ArithmeticErrorKind::Undefined, op)
    }

    /// An [`ArithmeticErrorKind::DivisionByZero`] error for `op`.
    pub fn division_by_zero(op: &'static str) -> (r: Self)
        ensures
            r.kind == ArithmeticErrorKind::DivisionByZero,
            r.op == op,
    {
        Self::new(ArithmeticErrorKind::DivisionByZero, op)
    }

    /// An [`ArithmeticErrorKind::NegativeBase`] error for `op`.
    pub fn negative_base(op: &'static str) -> (r: Self)
        ensures
            r.kind == ArithmeticErrorKind::NegativeBase,
            r.op == op,
    {
        Self::new(ArithmeticErrorKind::NegativeBase, op)
    }

    /// An [`ArithmeticErrorKind::OutOfDomain`] error for `op`.
    pub fn out_of_domain(op: &'static str) -> (r: Self)
        ensures
            r.kind == ArithmeticErrorKind::OutOfDomain,
            r.op == op,
    {
        Self::new(ArithmeticErrorKind::OutOfDomain, op)
    }

    /// An [`ArithmeticErrorKind::IterationDiverged`] error for `op`.
    pub fn diverged(op: &'static str) -> (r: Self)
        ensures
            r.kind == ArithmeticErrorKind::IterationDiverged,
            r.op == op,
    {
        Self::new(ArithmeticErrorKind::IterationDiverged, op)
    }
}

/// The error that `str::parse::<f64>` reports for text that is not a float.
#[verifier::external_type_specification]
#[verifier::external_body]
pub struct ExParseFloatError(std::num::ParseFloatError);

/// Error type for all errors in this crate.
#[derive(Debug)]
pub enum BreakEternityError {
    /// An error that occurs when a String cannot be parsed to a Decimal.
    ParseError {
        /// The string that failed to parse.
        parsed: String,
        /// The error that occurred.
        error: std::num::ParseFloatError,
    },
    /// A string that parsed but denotes a mathematically undefined value (for example
    /// `"(-2)^^2.5"`).
    ParseUndefined {
        /// The string that was parsed.
        parsed: String,
    },
    /// An arithmetic error from a `checked_*` operation.
    Arithmetic(ArithmeticError),
}

impl From<ArithmeticError> for BreakEternityError {
    fn from(e: ArithmeticError) -> (r: Self) {
        BreakEternityError::Arithmetic(e)
    }
}

impl vstd::std_specs::convert::FromSpecImpl<ArithmeticError> for BreakEternityError {
    open spec fn obeys_from_spec() -> bool {
        true
    }

    open spec fn from_spec(e: ArithmeticError) -> Self {
        BreakEternityError::Arithmetic(e)
    }
}

} // verus!
