use zk_airdrop::{
    compute_nullifier, verify_claim, AirdropError, ClaimInput, ClaimOutput, MerkleTree,
    PublicInputs,
};

fn addrs() -> Vec<[u8; 20]> {
    vec![[0x11u8; 20], [0x22u8; 20], [0x33u8; 20], [0x44u8; 20]]
}

#[test]
fn end_to_end_claim() {
    let addresses = addrs();
    let tree = MerkleTree::new(&addresses).unwrap();
    let proof = tree.get_proof(2).unwrap();
    assert_eq!(proof.len(), 2);

    let input = ClaimInput {
        user_address: addresses[2],
        merkle_proof: proof.clone(),
        leaf_index: 2,
        epoch_id: 7,
    };
    let public = PublicInputs { merkle_root: tree.root(), epoch_id: 7 };
    let out = verify_claim(&input, &public).unwrap();
    assert_eq!(
        out,
        ClaimOutput {
            merkle_root: tree.root(),
            nullifier: compute_nullifier(&addresses[2], 7),
            epoch_id: 7,
        }
    );

    let later = PublicInputs { merkle_root: tree.root(), epoch_id: 8 };
    assert_eq!(verify_claim(&input, &later), Err(AirdropError::EpochMismatch));

    let mut corrupted = input.clone();
    corrupted.merkle_proof[0][5] ^= 0xff;
    assert_eq!(verify_claim(&corrupted, &public), Err(AirdropError::InvalidProof));
}

#[test]
fn claim_nullifier_has_exact_value() {
    let addresses = vec![[3u8; 20]];
    let tree = MerkleTree::new(&addresses).unwrap();
    let input = ClaimInput {
        user_address: [3u8; 20],
        merkle_proof: tree.get_proof(0).unwrap(),
        leaf_index: 0,
        epoch_id: 7,
    };
    let public = PublicInputs { merkle_root: tree.root(), epoch_id: 7 };
    let expected: [u8; 32] = [
        100, 214, 215, 163, 82, 153, 47, 37, 9, 211, 116, 215, 92, 196, 172, 69, 155, 229, 233,
        105, 59, 43, 247, 148, 224, 169, 69, 10, 105, 42, 233, 142,
    ];
    assert_eq!(verify_claim(&input, &public).unwrap().nullifier, expected);
}

#[test]
fn invalid_proof_is_reported_before_epoch() {
    let addresses = addrs();
    let tree = MerkleTree::new(&addresses).unwrap();
    let input = ClaimInput {
        user_address: [0x55u8; 20],
        merkle_proof: tree.get_proof(1).unwrap(),
        leaf_index: 1,
        epoch_id: 1,
    };
    let public = PublicInputs { merkle_root: tree.root(), epoch_id: 2 };
    assert_eq!(verify_claim(&input, &public), Err(AirdropError::InvalidProof));
}

#[test]
fn claim_with_wrong_index_is_rejected() {
    let addresses = addrs();
    let tree = MerkleTree::new(&addresses).unwrap();
    let input = ClaimInput {
        user_address: addresses[1],
        merkle_proof: tree.get_proof(1).unwrap(),
        leaf_index: 0,
        epoch_id: 3,
    };
    let public = PublicInputs { merkle_root: tree.root(), epoch_id: 3 };
    assert_eq!(verify_claim(&input, &public), Err(AirdropError::InvalidProof));
}
