//! Claim derivation: checks a claimant's membership proof and epoch against the
//! published inputs, and derives the record that is made public.
use vstd::prelude::*;
use crate::error::AirdropError;
use crate::hash::{compute_leaf, compute_nullifier, leaf_spec, nullifier_spec};
use crate::merkle::{digests, fold_proof, verify_merkle_proof};

verus! {

/// What a claimant supplies, kept private.
#[derive(Clone, Debug)]
pub struct ClaimInput {
    /// The claimant's identity (an account address).
    pub user_address: [u8; 20],
    /// The authentication path of the claimant's leaf, lowest level first.
    pub merkle_proof: Vec<[u8; 32]>,
    /// The position of the claimant's leaf.
    pub leaf_index: u32,
    /// The distribution round claimed in.
    pub epoch_id: u64,
}

/// The record that a successful claim makes public.
#[derive(Clone, Debug, PartialEq, Eq)]
pub struct ClaimOutput {
    /// The root that the proof was checked against.
    pub merkle_root: [u8; 32],
    /// The nullifier of the claimant's identity in the epoch.
    pub nullifier: [u8; 32],
    /// The epoch of the claim.
    pub epoch_id: u64,
}

/// The published root and the current epoch.
#[derive(Clone, Copy, Debug)]
pub struct PublicInputs {
    /// The committed root.
    pub merkle_root: [u8; 32],
    /// The current epoch.
    pub epoch_id: u64,
}

/// The claimant's proof leads from the leaf of their identity to the
/// published root.
pub open spec fn proof_accepted(input: ClaimInput, public: PublicInputs) -> bool {
    fold_proof(leaf_spec(input.user_address@), digests(input.merkle_proof@), input.leaf_index as nat)
        == public.merkle_root@
}

/// Checks a claim and derives its public record. The proof is checked first,
/// then the epoch.
pub fn verify_claim(input: &ClaimInput, public: &PublicInputs) -> (r: Result<ClaimOutput, AirdropError>)
    ensures
        r == Err::<ClaimOutput, AirdropError>(AirdropError::InvalidProof) <==> !proof_accepted(
            *input,
            *public,
        ),
        r == Err::<ClaimOutput, AirdropError>(AirdropError::EpochMismatch) <==> proof_accepted(
            *input,
            *public,
        ) && input.epoch_id != public.epoch_id,
        r is Ok <==> proof_accepted(*input, *public) && input.epoch_id == public.epoch_id,
        r matches Ok(out) ==> {
            &&& out.merkle_root == public.merkle_root
            &&& out.nullifier@ == nullifier_spec(input.user_address@, input.epoch_id)
            &&& out.epoch_id == public.epoch_id
        },
{
    let leaf = compute_leaf(&input.user_address);
    let is_valid = verify_merkle_proof(
        &leaf,
        input.merkle_proof.as_slice(),
        input.leaf_index,
        &public.merkle_root,
    );
    if !is_valid {
        return Err(AirdropError::InvalidProof);
    }
    if input.epoch_id != public.epoch_id {
        return Err(AirdropError::EpochMismatch);
    }
    let nullifier = compute_nullifier(&input.user_address, input.epoch_id);
    Ok(ClaimOutput { merkle_root: public.merkle_root, nullifier, epoch_id: public.epoch_id })
}

} // verus!
