//! The algorithm selector for fractional-height tetration.

use vstd::prelude::*;

verus! {

/// Algorithm choice for the fractional-height path of tetration and its
/// inverse, super-logarithm.
///
/// `Analytic` (the default) uses the critical-section interpolation table
/// for bases in `[2, 10]` (rescaled for bases in `(1.444, 2)`). `Linear` uses
/// the older closed-form approximations. Bases above 10 always fall back to
/// linear regardless of mode, and super-roots and penta-roots always use the
/// linear approximation.
#[derive(Debug, Clone, Copy, PartialEq, Eq, Hash, Structural)]
pub enum TetrationMode {
    /// Critical-section interpolation.
    Analytic,
    /// Older linear approximation, the one a set `linear` flag selects.
    Linear,
}

impl Default for TetrationMode {
    fn default() -> (m: Self)
        ensures
            m == TetrationMode::Analytic,
    {
        TetrationMode::Analytic
    }
}

impl TetrationMode {
    /// The mode that a `linear` flag selects: `Linear` when it is set, `Analytic`
    /// otherwise.
    pub fn from_linear_flag(linear: bool) -> (m: Self)
        ensures
            m == (if linear { TetrationMode::Linear } else { TetrationMode::Analytic }),
    {
        if linear {
            TetrationMode::Linear
        } else {
            TetrationMode::Analytic
        }
    }
}

} // verus!
