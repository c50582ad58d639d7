//! Membership proofs over a committed allowlist, with per-epoch nullifiers.
//!
//! A Merkle tree is built over the leaf hashes of the members' identities; any
//! member's authentication path can be extracted and checked against the root,
//! and a claim is turned into a record of the root, a nullifier bound to the
//! identity and the epoch, and the epoch.

pub mod claim;
pub mod error;
pub mod hash;
pub mod merkle;

pub use claim::{verify_claim, ClaimInput, ClaimOutput, PublicInputs};
pub use error::AirdropError;
pub use hash::{compute_leaf, compute_nullifier, hash_pair};
pub use merkle::{verify_merkle_proof, MerkleTree};
