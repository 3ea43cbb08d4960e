use vstd::prelude::*;

verus! {

/// Why a filter could not be built.
#[derive(Debug, Clone, Copy, PartialEq, Eq, Structural)]
pub enum ConstructionError {
    /// The bit array would have no bits.
    ZeroSize,
    /// The filter would have no hash functions.
    NoHashFunctions,
}

} // verus!
