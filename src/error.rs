//! Why building a tree, extracting a proof or deriving a claim fails.
use vstd::prelude::*;

verus! {

/// The ways in which the operations of this library fail.
#[derive(Clone, Copy, Debug, PartialEq, Eq, Structural)]
pub enum AirdropError {
    /// A tree was requested over no identities.
    EmptyInput,
    /// A proof was requested for a position beyond the last leaf.
    IndexOutOfRange,
    /// The proof does not lead from the claimant's leaf to the root.
    InvalidProof,
    /// The claim's epoch differs from the published one.
    EpochMismatch,
}

} // verus!
