use vstd::prelude::*;

verus! {

/// What can go wrong when laying out clients or moving the focus.
#[derive(Clone, Copy, Debug, PartialEq, Eq, Structural)]
pub enum TileError {
    /// The ratio is out of range, or the region is too small to split.
    InvalidLayoutParameters,
    /// The lock around the shared registry was poisoned by a writer that panicked.
    RegistryUnavailable,
    /// The focused client has no registered region.
    UnknownClient,
}

} // verus!
