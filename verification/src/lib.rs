//! Numbers as large as `10^^9e15` and as small as `10^-(10^^9e15)`, for incremental games.
//!
//! This crate holds the parts of the library that carry no floating-point value: the error
//! types, the integer constants, the notation suffix tables, the tetration and Lambert-branch
//! selectors, the parameters of the random-value generator, the string grammar of the parser
//! and the text layout of tall towers. Each function states what it returns in its contract,
//! and `roundtrip` proves that the tower text is read back by the parser.

mod error;
mod tetration;
mod text;
mod transcendental;

pub mod constants;
pub mod format;
pub mod notation;
pub mod parse;
pub mod roundtrip;
pub mod scan;
pub mod strategy;

pub use error::{ArithmeticError, ArithmeticErrorKind, BreakEternityError};
pub use notation::Notation;
pub use tetration::TetrationMode;
pub use text::{chars_of, string_of};
pub use transcendental::LambertBranch;
