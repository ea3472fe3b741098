//! The branch selector for the Lambert W function.

use vstd::prelude::*;

verus! {

/// Which real branch of the Lambert W function to evaluate.
///
/// `W_0` (the principal branch) is defined for `z >= -1/e`; `W_-1` is defined for
/// `-1/e <= z < 0`.
#[derive(Debug, Clone, Copy, PartialEq, Eq, Hash, Structural)]
pub enum LambertBranch {
    /// The principal branch `W_0`.
    Principal,
    /// The non-principal real branch `W_-1`.
    NonPrincipal,
}

impl Default for LambertBranch {
    fn default() -> (b: Self)
        ensures
            b == LambertBranch::Principal,
    {
        LambertBranch::Principal
    }
}

} // verus!
