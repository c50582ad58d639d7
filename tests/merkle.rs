use zk_airdrop::{compute_leaf, hash_pair, verify_merkle_proof, AirdropError, MerkleTree};

fn four_addresses() -> Vec<[u8; 20]> {
    vec![[1u8; 20], [2u8; 20], [3u8; 20], [4u8; 20]]
}

#[test]
fn test_merkle_tree_single() {
    let addresses = vec![[1u8; 20]];
    let tree = MerkleTree::new(&addresses).unwrap();
    assert_ne!(tree.root(), [0u8; 32]);
}

#[test]
fn test_merkle_tree_multiple() {
    let addresses = vec![[1u8; 20], [2u8; 20], [3u8; 20], [4u8; 20]];
    let tree = MerkleTree::new(&addresses).unwrap();
    assert_ne!(tree.root(), [0u8; 32]);
}

#[test]
fn test_merkle_proof() {
    let addresses = vec![[1u8; 20], [2u8; 20], [3u8; 20], [4u8; 20]];
    let tree = MerkleTree::new(&addresses).unwrap();

    for i in 0..addresses.len() {
        let proof = tree.get_proof(i).unwrap();
        let leaf = compute_leaf(&addresses[i]);
        let is_valid = verify_merkle_proof(&leaf, &proof, i as u32, &tree.root());
        assert!(is_valid, "Proof for index {} should be valid", i);
    }
}

#[test]
fn single_leaf_root_is_the_leaf() {
    let tree = MerkleTree::new(&[[1u8; 20]]).unwrap();
    assert_eq!(tree.root(), compute_leaf(&[1u8; 20]));
    assert_eq!(tree.get_proof(0).unwrap(), Vec::<[u8; 32]>::new());
}

#[test]
fn empty_list_is_rejected() {
    let addresses: Vec<[u8; 20]> = Vec::new();
    assert!(matches!(MerkleTree::new(&addresses), Err(AirdropError::EmptyInput)));
}

#[test]
fn proof_index_out_of_range_is_rejected() {
    let tree = MerkleTree::new(&four_addresses()).unwrap();
    assert_eq!(tree.get_proof(4), Err(AirdropError::IndexOutOfRange));
    assert_eq!(tree.get_proof(usize::MAX), Err(AirdropError::IndexOutOfRange));
}

#[test]
fn build_is_deterministic() {
    let a = MerkleTree::new(&four_addresses()).unwrap();
    let b = MerkleTree::new(&four_addresses()).unwrap();
    assert_eq!(a.root(), b.root());
    assert_eq!(a.leaves, b.leaves);
}

#[test]
fn leaves_keep_input_order() {
    let addresses = four_addresses();
    let tree = MerkleTree::new(&addresses).unwrap();
    for i in 0..addresses.len() {
        assert_eq!(tree.leaves[i], compute_leaf(&addresses[i]));
    }
}

#[test]
fn three_members_pair_last_with_itself() {
    let addresses = vec![[1u8; 20], [2u8; 20], [3u8; 20]];
    let tree = MerkleTree::new(&addresses).unwrap();
    let expected: [u8; 32] = [
        27, 107, 42, 53, 122, 204, 62, 6, 62, 231, 168, 129, 95, 235, 199, 176, 49, 211, 68, 73,
        128, 13, 109, 167, 66, 92, 23, 216, 0, 13, 83, 48,
    ];
    assert_eq!(tree.root(), expected);
    let a = compute_leaf(&addresses[0]);
    let b = compute_leaf(&addresses[1]);
    let c = compute_leaf(&addresses[2]);
    let by_hand = hash_pair(&hash_pair(&a, &b), &hash_pair(&c, &c));
    assert_eq!(tree.root(), by_hand);
    let duplicated = MerkleTree::new(&[[1u8; 20], [2u8; 20], [3u8; 20], [3u8; 20]]).unwrap();
    assert_eq!(tree.root(), duplicated.root());
}

#[test]
fn round_trip_on_odd_sizes() {
    for n in 1..12u8 {
        let addresses: Vec<[u8; 20]> = (0..n).map(|k| [k; 20]).collect();
        let tree = MerkleTree::new(&addresses).unwrap();
        for i in 0..addresses.len() {
            let proof = tree.get_proof(i).unwrap();
            let leaf = compute_leaf(&addresses[i]);
            assert!(verify_merkle_proof(&leaf, &proof, i as u32, &tree.root()));
        }
    }
}

#[test]
fn proof_length_is_tree_height() {
    let addresses: Vec<[u8; 20]> = (0..5u8).map(|k| [k; 20]).collect();
    let tree = MerkleTree::new(&addresses).unwrap();
    assert_eq!(tree.get_proof(4).unwrap().len(), 3);
    let tree4 = MerkleTree::new(&four_addresses()).unwrap();
    assert_eq!(tree4.get_proof(2).unwrap().len(), 2);
}

#[test]
fn corrupted_proof_or_wrong_index_fails() {
    let addresses = four_addresses();
    let tree = MerkleTree::new(&addresses).unwrap();
    let proof = tree.get_proof(1).unwrap();
    let leaf = compute_leaf(&addresses[1]);
    for e in 0..proof.len() {
        for byte in [0usize, 17, 31] {
            let mut bad = proof.clone();
            bad[e][byte] ^= 0x01;
            assert!(!verify_merkle_proof(&leaf, &bad, 1, &tree.root()));
        }
    }
    assert!(!verify_merkle_proof(&leaf, &proof, 0, &tree.root()));
    assert!(!verify_merkle_proof(&leaf, &proof, 3, &tree.root()));
    assert!(!verify_merkle_proof(&leaf, &proof[..1], 1, &tree.root()));
}

#[test]
fn empty_proof_checks_leaf_against_root() {
    let leaf = [9u8; 32];
    assert!(verify_merkle_proof(&leaf, &[], 0, &leaf));
    assert!(!verify_merkle_proof(&leaf, &[], 0, &[8u8; 32]));
}
