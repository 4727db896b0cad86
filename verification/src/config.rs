//! Faults of a configuration, found when a component is created.

use vstd::prelude::*;

verus! {

/// Why a configuration was turned down.
#[derive(Clone, Copy, Debug, PartialEq, Eq, Structural)]
pub enum ConfigError {
    /// The cell size is zero.
    ZeroCellSize,
    /// The domain has no extent along some axis.
    ZeroExtent,
    /// The domain is narrower than one cell along some axis, so the
    /// partition would have no interior.
    ExtentBelowCellSize,
    /// The number of buckets along some axis does not fit the machine word.
    GridTooLarge,
    /// The number of time slices per second is zero.
    ZeroStepRate,
}

} // verus!
