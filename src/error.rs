use vstd::prelude::*;

verus! {

/// Why a construction did not produce an index.
#[derive(Clone, Copy, Debug, PartialEq, Eq, Structural)]
pub enum BuildError {
    /// There are no keys.
    EmptyKeySet,
    /// No seed of the budget gave a placement of every bucket.
    UnsolvableAfterSeedBudget,
    /// Under every seed tried, two keys of one bucket had the same hash, so
    /// that no pilot can tell them apart.
    IndistinguishableHashes { part: usize, bucket_size: usize },
    /// The table of overflow slots could not be stored.
    RemapTooLarge,
}

} // verus!
