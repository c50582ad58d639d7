//! The Merkle tree: construction, proof extraction and proof verification.
//!
//! Levels are modelled as sequences of node digests. A level is reduced to the
//! next by hashing adjacent nodes left to right; a last node without a partner
//! is hashed with itself.
use vstd::prelude::*;
use crate::error::AirdropError;
use crate::hash::{compute_leaf, hash_pair, leaf_spec, pair_spec};

verus! {

/// The digests held by a sequence of 32-byte nodes.
pub open spec fn digests(nodes: Seq<[u8; 32]>) -> Seq<Seq<u8>> {
    nodes.map_values(|h: [u8; 32]| h@)
}

/// The leaf level of a tree over the given identities, in their order.
pub open spec fn leaf_level(identities: Seq<[u8; 20]>) -> Seq<Seq<u8>> {
    identities.map_values(|a: [u8; 20]| leaf_spec(a@))
}

/// The node paired with the node at the even position `k`: its right
/// neighbour, or the node itself where it is the last one.
pub open spec fn partner(level: Seq<Seq<u8>>, k: int) -> Seq<u8> {
    if k + 1 < level.len() {
        level[k + 1]
    } else {
        level[k]
    }
}

/// The level above `level`.
pub open spec fn next_level(level: Seq<Seq<u8>>) -> Seq<Seq<u8>> {
    Seq::new(
        ((level.len() + 1) / 2) as nat,
        |j: int| pair_spec(level[2 * j], partner(level, 2 * j)),
    )
}

/// The root of the tree whose lowest level is `level` (non-empty).
pub open spec fn root_of(level: Seq<Seq<u8>>) -> Seq<u8>
    decreases level.len(),
{
    if level.len() <= 1 {
        level[0]
    } else {
        root_of(next_level(level))
    }
}

/// The sibling of the node at position `i` of a level.
pub open spec fn sibling(level: Seq<Seq<u8>>, i: int) -> Seq<u8> {
    if i % 2 == 0 {
        partner(level, i)
    } else {
        level[i - 1]
    }
}

/// The authentication path of the node at position `i`, lowest level first.
pub open spec fn proof_of(level: Seq<Seq<u8>>, i: nat) -> Seq<Seq<u8>>
    decreases level.len(),
{
    if level.len() <= 1 {
        Seq::empty()
    } else {
        seq![sibling(level, i as int)] + proof_of(next_level(level), i / 2)
    }
}

/// One step up a path: the node at position `i` joined with its sibling on
/// the side that the parity of `i` gives.
pub open spec fn climb(node: Seq<u8>, sib: Seq<u8>, i: nat) -> Seq<u8> {
    if i % 2 == 0 {
        pair_spec(node, sib)
    } else {
        pair_spec(sib, node)
    }
}

/// The root recomputed from a node at position `i` and a path above it.
pub open spec fn fold_proof(node: Seq<u8>, path: Seq<Seq<u8>>, i: nat) -> Seq<u8>
    decreases path.len(),
{
    if path.len() == 0 {
        node
    } else {
        fold_proof(climb(node, path[0], i), path.drop_first(), i / 2)
    }
}

/// Checks that `proof` leads from `leaf` at position `index` to `root`.
pub fn verify_merkle_proof(leaf: &[u8; 32], proof: &[[u8; 32]], index: u32, root: &[u8; 32]) -> (r:
    bool)
    ensures
        r == (fold_proof(leaf@, digests(proof@), index as nat) == root@),
{
    let ghost path = digests(proof@);
    let mut computed_hash: [u8; 32] = *leaf;
    let mut current_index: u32 = index;
    let mut k: usize = 0;
    assert(path.subrange(0, path.len() as int) =~= path);
    while k < proof.len()
        invariant
            k <= proof@.len(),
            path == digests(proof@),
            fold_proof(computed_hash@, path.subrange(k as int, path.len() as int), current_index as nat)
                == fold_proof(leaf@, path, index as nat),
        decreases proof@.len() - k,
    {
        let ghost rest = path.subrange(k as int, path.len() as int);
        assert(rest.drop_first() =~= path.subrange(k + 1, path.len() as int));
        if current_index % 2 == 0 {
            computed_hash = hash_pair(&computed_hash, &proof[k]);
        } else {
            computed_hash = hash_pair(&proof[k], &computed_hash);
        }
        current_index = current_index / 2;
        k = k + 1;
    }
    assert(path.subrange(k as int, path.len() as int) =~= Seq::<Seq<u8>>::empty());
    bytes_equal(&computed_hash, root)
}

/// Compares two 32-byte digests.
fn bytes_equal(a: &[u8; 32], b: &[u8; 32]) -> (r: bool)
    ensures
        r == (a@ == b@),
{
    let mut i: usize = 0;
    while i < 32
        invariant
            i <= 32,
            forall|k: int| 0 <= k < i ==> a@[k] == b@[k],
        decreases 32 - i,
    {
        if a[i] != b[i] {
            return false;
        }
        i = i + 1;
    }
    assert(a@ =~= b@);
    true
}

/// Hashes a level into the level above it.
fn reduce_level(level: &Vec<[u8; 32]>) -> (r: Vec<[u8; 32]>)
    ensures
        r@.len() == (level@.len() + 1) / 2,
        digests(r@) == next_level(digests(level@)),
{
    let ghost cur = digests(level@);
    let n = level.len();
    let half = n / 2 + n % 2;
    let mut next: Vec<[u8; 32]> = Vec::new();
    let mut j: usize = 0;
    while j < half
        invariant
            n == level@.len(),
            half == (n + 1) / 2,
            cur == digests(level@),
            j <= half,
            next@.len() == j,
            forall|t: int| 0 <= t < j ==> next@[t]@ == next_level(cur)[t],
        decreases half - j,
    {
        let k = 2 * j;
        let hash = if k + 1 < n {
            hash_pair(&level[k], &level[k + 1])
        } else {
            hash_pair(&level[k], &level[k])
        };
        next.push(hash);
        j = j + 1;
    }
    assert(digests(next@) =~= next_level(cur));
    next
}

/// A copy of a sequence of nodes.
fn copy_nodes(nodes: &Vec<[u8; 32]>) -> (r: Vec<[u8; 32]>)
    ensures
        r@ == nodes@,
{
    let mut out: Vec<[u8; 32]> = Vec::new();
    let mut i: usize = 0;
    while i < nodes.len()
        invariant
            i <= nodes@.len(),
            out@ == nodes@.subrange(0, i as int),
        decreases nodes@.len() - i,
    {
        out.push(nodes[i]);
        i = i + 1;
        assert(out@ =~= nodes@.subrange(0, i as int));
    }
    assert(out@ =~= nodes@);
    out
}

/// A Merkle tree over an ordered list of identities.
pub struct MerkleTree {
    /// The leaf hashes, in the order of the identities.
    pub leaves: Vec<[u8; 32]>,
    /// The root.
    pub root: [u8; 32],
}

impl MerkleTree {
    /// The tree has at least one leaf, and its root is the root of its leaves.
    pub open spec fn wf(&self) -> bool {
        &&& self.leaves@.len() >= 1
        &&& self.root@ == root_of(digests(self.leaves@))
    }

    /// The tree is the one built over `identities`.
    pub open spec fn built_from(&self, identities: Seq<[u8; 20]>) -> bool {
        &&& identities.len() >= 1
        &&& digests(self.leaves@) == leaf_level(identities)
        &&& self.root@ == root_of(leaf_level(identities))
    }

    /// Builds the tree over a list of identities; fails on an empty list.
    pub fn new(addresses: &[[u8; 20]]) -> (r: Result<MerkleTree, AirdropError>)
        ensures
            addresses@.len() == 0 <==> r == Err::<MerkleTree, AirdropError>(AirdropError::EmptyInput),
            addresses@.len() > 0 <==> r is Ok,
            r matches Ok(tree) ==> tree.built_from(addresses@) && tree.wf(),
    {
        if addresses.len() == 0 {
            return Err(AirdropError::EmptyInput);
        }
        let mut leaves: Vec<[u8; 32]> = Vec::new();
        let mut i: usize = 0;
        while i < addresses.len()
            invariant
                i <= addresses@.len(),
                leaves@.len() == i,
                forall|k: int| 0 <= k < i ==> leaves@[k]@ == leaf_spec(addresses@[k]@),
            decreases addresses@.len() - i,
        {
            leaves.push(compute_leaf(&addresses[i]));
            i = i + 1;
        }
        assert(digests(leaves@) =~= leaf_level(addresses@));
        let root = Self::compute_root(&leaves);
        Ok(MerkleTree { leaves, root })
    }

    /// Reduces the leaves level by level down to the root.
    fn compute_root(leaves: &Vec<[u8; 32]>) -> (r: [u8; 32])
        requires
            leaves@.len() >= 1,
        ensures
            r@ == root_of(digests(leaves@)),
    {
        let mut current_level = copy_nodes(leaves);
        while current_level.len() > 1
            invariant
                current_level@.len() >= 1,
                root_of(digests(current_level@)) == root_of(digests(leaves@)),
            decreases current_level@.len(),
        {
            current_level = reduce_level(&current_level);
        }
        current_level[0]
    }

    /// The authentication path of the leaf at `index`, lowest level first;
    /// fails where `index` is not the position of a leaf.
    pub fn get_proof(&self, index: usize) -> (r: Result<Vec<[u8; 32]>, AirdropError>)
        ensures
            index >= self.leaves@.len() <==> r == Err::<Vec<[u8; 32]>, AirdropError>(
                AirdropError::IndexOutOfRange,
            ),
            index < self.leaves@.len() <==> r is Ok,
            r matches Ok(p) ==> digests(p@) == proof_of(digests(self.leaves@), index as nat),
    {
        if index >= self.leaves.len() {
            return Err(AirdropError::IndexOutOfRange);
        }
        let ghost target = proof_of(digests(self.leaves@), index as nat);
        let mut proof: Vec<[u8; 32]> = Vec::new();
        let mut current_level = copy_nodes(&self.leaves);
        let mut current_index: usize = index;
        while current_level.len() > 1
            invariant
                current_index < current_level@.len(),
                target == digests(proof@) + proof_of(digests(current_level@), current_index as nat),
            decreases current_level@.len(),
        {
            let ghost lv = digests(current_level@);
            let n = current_level.len();
            let sib = if current_index % 2 == 0 {
                if current_index + 1 < n {
                    current_level[current_index + 1]
                } else {
                    current_level[current_index]
                }
            } else {
                current_level[current_index - 1]
            };
            assert(sib@ == sibling(lv, current_index as int));
            let ghost old_proof = proof@;
            proof.push(sib);
            assert(digests(proof@) =~= digests(old_proof).push(sib@));
            current_level = reduce_level(&current_level);
            current_index = current_index / 2;
            assert(target =~= digests(proof@) + proof_of(digests(current_level@), current_index as nat));
        }
        assert(digests(proof@) + proof_of(digests(current_level@), current_index as nat) =~= digests(proof@));
        Ok(proof)
    }

    /// The root of the tree.
    pub fn root(&self) -> (r: [u8; 32])
        ensures
            r == self.root,
    {
        self.root
    }
}

/// Following the authentication path of any node of a non-empty level, from
/// that node and its position, leads to the root of the level.
pub proof fn lemma_proof_round_trip(level: Seq<Seq<u8>>, i: nat)
    requires
        i < level.len(),
    ensures
        fold_proof(level[i as int], proof_of(level, i), i) == root_of(level),
    decreases level.len(),
{
    if level.len() > 1 {
        let next = next_level(level);
        let p = proof_of(level, i);
        assert(p[0] == sibling(level, i as int));
        assert(p.drop_first() =~= proof_of(next, i / 2));
        assert(climb(level[i as int], p[0], i) == next[(i / 2) as int]);
        lemma_proof_round_trip(next, i / 2);
    }
}

/// The proof extracted for any member of a tree, followed from that member's
/// leaf and position, leads to the tree's root.
pub proof fn lemma_member_proof_verifies(tree: MerkleTree, identities: Seq<[u8; 20]>, i: nat)
    requires
        tree.built_from(identities),
        i < identities.len(),
    ensures
        fold_proof(leaf_spec(identities[i as int]@), proof_of(digests(tree.leaves@), i), i)
            == tree.root@,
{
    lemma_proof_round_trip(leaf_level(identities), i);
}

/// Two trees built over the same ordered identities have the same leaves and
/// the same root.
pub proof fn lemma_build_deterministic(t1: MerkleTree, t2: MerkleTree, identities: Seq<[u8; 20]>)
    requires
        t1.built_from(identities),
        t2.built_from(identities),
    ensures
        digests(t1.leaves@) == digests(t2.leaves@),
        t1.root@ == t2.root@,
{
}

/// On a level of odd size above one, the last node is paired with itself: the
/// root is the one of the same level with its last node repeated.
pub proof fn lemma_odd_level_duplicates_last(level: Seq<Seq<u8>>)
    requires
        level.len() > 1,
        level.len() % 2 == 1,
    ensures
        root_of(level) == root_of(level.push(level.last())),
{
    let longer = level.push(level.last());
    assert(next_level(level) =~= next_level(longer));
}

/// A tree over an odd number (above one) of identities has the root of the
/// tree over the same identities with the last one repeated.
pub proof fn lemma_odd_count_duplicates_last(identities: Seq<[u8; 20]>)
    requires
        identities.len() > 1,
        identities.len() % 2 == 1,
    ensures
        root_of(leaf_level(identities)) == root_of(leaf_level(identities.push(identities.last()))),
{
    let lv = leaf_level(identities);
    assert(leaf_level(identities.push(identities.last())) =~= lv.push(lv.last()));
    lemma_odd_level_duplicates_last(lv);
}

/// The root of three nodes: the first two are joined, the third is joined
/// with itself, and the two results are joined.
pub proof fn lemma_three_node_root(a: Seq<u8>, b: Seq<u8>, c: Seq<u8>)
    ensures
        root_of(seq![a, b, c]) == pair_spec(pair_spec(a, b), pair_spec(c, c)),
{
    let l0 = seq![a, b, c];
    let l1 = next_level(l0);
    assert(l1 =~= seq![pair_spec(a, b), pair_spec(c, c)]);
    let l2 = next_level(l1);
    assert(l2 =~= seq![pair_spec(pair_spec(a, b), pair_spec(c, c))]);
    assert(root_of(l1) == root_of(l2));
}

} // verus!
