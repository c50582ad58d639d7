//! Hash primitives: leaf, pair and nullifier hashes, all built on SHA-256.
use vstd::prelude::*;

verus! {

/// The SHA-256 digest of a byte sequence.
pub uninterp spec fn sha256_of(data: Seq<u8>) -> Seq<u8>;

/// Relies on `sha2::Sha256::digest`: the 32-byte SHA-256 digest of the given
/// bytes, which depends on those bytes alone.
#[verifier::external_body]
fn sha256(data: &[u8]) -> (r: [u8; 32])
    ensures
        r@ == sha256_of(data@),
{
    <sha2::Sha256 as sha2::Digest>::digest(data).into()
}

/// The leaf hash of an identity: the digest of its bytes.
pub open spec fn leaf_spec(identity: Seq<u8>) -> Seq<u8> {
    sha256_of(identity)
}

/// The bytes hashed to join two nodes: the left one, then the right one.
pub open spec fn pair_message(left: Seq<u8>, right: Seq<u8>) -> Seq<u8> {
    left + right
}

/// The parent of two nodes.
pub open spec fn pair_spec(left: Seq<u8>, right: Seq<u8>) -> Seq<u8> {
    sha256_of(pair_message(left, right))
}

/// The little-endian encoding of a 64-bit integer, in eight bytes.
pub open spec fn le_bytes(v: u64) -> Seq<u8> {
    Seq::new(8, |i: int| ((v >> (8 * i) as u64) & 0xff) as u8)
}

/// The bytes hashed to derive a nullifier: the identity, then the epoch.
pub open spec fn nullifier_message(identity: Seq<u8>, epoch_id: u64) -> Seq<u8> {
    identity + le_bytes(epoch_id)
}

/// The nullifier of an identity in an epoch.
pub open spec fn nullifier_spec(identity: Seq<u8>, epoch_id: u64) -> Seq<u8> {
    sha256_of(nullifier_message(identity, epoch_id))
}

/// Appends the bytes of an array to a buffer.
fn push_bytes<const N: usize>(buf: &mut Vec<u8>, bytes: &[u8; N])
    ensures
        final(buf)@ == old(buf)@ + bytes@,
{
    let mut i: usize = 0;
    while i < N
        invariant
            i <= N,
            N == bytes@.len(),
            buf@ == old(buf)@ + bytes@.subrange(0, i as int),
        decreases N - i,
    {
        buf.push(bytes[i]);
        i = i + 1;
        assert(buf@ =~= old(buf)@ + bytes@.subrange(0, i as int));
    }
    assert(bytes@.subrange(0, N as int) =~= bytes@);
}

/// Computes the leaf hash of an identity.
pub fn compute_leaf(address: &[u8; 20]) -> (r: [u8; 32])
    ensures
        r@ == leaf_spec(address@),
{
    let mut buf: Vec<u8> = Vec::new();
    push_bytes(&mut buf, address);
    assert(buf@ =~= address@);
    sha256(buf.as_slice())
}

/// Hashes two nodes into their parent, the left one first.
pub fn hash_pair(left: &[u8; 32], right: &[u8; 32]) -> (r: [u8; 32])
    ensures
        r@ == pair_spec(left@, right@),
{
    let mut buf: Vec<u8> = Vec::new();
    push_bytes(&mut buf, left);
    push_bytes(&mut buf, right);
    assert(buf@ =~= left@ + right@);
    sha256(buf.as_slice())
}

/// Encodes a 64-bit integer in little-endian order.
fn le_bytes_of(v: u64) -> (r: [u8; 8])
    ensures
        r@ == le_bytes(v),
{
    let mut out: [u8; 8] = [0u8; 8];
    let mut i: usize = 0;
    while i < 8
        invariant
            i <= 8,
            forall|k: int| 0 <= k < i ==> out@[k] == le_bytes(v)[k],
        decreases 8 - i,
    {
        let shift: u64 = 8 * i as u64;
        out[i] = ((v >> shift) & 0xff) as u8;
        i = i + 1;
    }
    assert(out@ =~= le_bytes(v));
    out
}

/// Computes the nullifier of an identity in an epoch: the digest of the
/// identity followed by the epoch in eight little-endian bytes.
pub fn compute_nullifier(address: &[u8; 20], epoch_id: u64) -> (r: [u8; 32])
    ensures
        r@ == nullifier_spec(address@, epoch_id),
{
    let epoch_bytes = le_bytes_of(epoch_id);
    let mut buf: Vec<u8> = Vec::new();
    push_bytes(&mut buf, address);
    push_bytes(&mut buf, &epoch_bytes);
    sha256(buf.as_slice())
}

/// Swapping two distinct nodes of the same size changes the bytes that are
/// hashed to join them.
pub proof fn lemma_pair_message_order_sensitive(a: Seq<u8>, b: Seq<u8>)
    requires
        a.len() == b.len(),
        a != b,
    ensures
        pair_message(a, b) != pair_message(b, a),
{
    if pair_message(a, b) == pair_message(b, a) {
        assert(a =~= pair_message(a, b).subrange(0, a.len() as int));
        assert(b =~= pair_message(b, a).subrange(0, b.len() as int));
    }
}

/// Distinct epochs have distinct encodings.
proof fn lemma_le_bytes_injective(x: u64, y: u64)
    requires
        le_bytes(x) == le_bytes(y),
    ensures
        x == y,
{
    let bx = le_bytes(x);
    let by = le_bytes(y);
    assert(bx[0] == by[0] && bx[1] == by[1] && bx[2] == by[2] && bx[3] == by[3]);
    assert(bx[4] == by[4] && bx[5] == by[5] && bx[6] == by[6] && bx[7] == by[7]);
    assert((((x >> 0u64) & 0xff) as u8 == ((y >> 0u64) & 0xff) as u8 && ((x >> 8u64) & 0xff) as u8
        == ((y >> 8u64) & 0xff) as u8 && ((x >> 16u64) & 0xff) as u8 == ((y >> 16u64) & 0xff) as u8
        && ((x >> 24u64) & 0xff) as u8 == ((y >> 24u64) & 0xff) as u8 && ((x >> 32u64) & 0xff) as u8
        == ((y >> 32u64) & 0xff) as u8 && ((x >> 40u64) & 0xff) as u8 == ((y >> 40u64) & 0xff) as u8
        && ((x >> 48u64) & 0xff) as u8 == ((y >> 48u64) & 0xff) as u8 && ((x >> 56u64) & 0xff) as u8
        == ((y >> 56u64) & 0xff) as u8) ==> x == y) by (bit_vector);
}

/// The bytes hashed to derive a nullifier are the same for two pairs of an
/// identity and an epoch exactly when the identities (of one size) and the
/// epochs are the same.
pub proof fn lemma_nullifier_message_binding(id1: Seq<u8>, e1: u64, id2: Seq<u8>, e2: u64)
    requires
        id1.len() == id2.len(),
    ensures
        nullifier_message(id1, e1) == nullifier_message(id2, e2) <==> (id1 == id2 && e1 == e2),
{
    let m1 = nullifier_message(id1, e1);
    let m2 = nullifier_message(id2, e2);
    if m1 == m2 {
        let n = id1.len() as int;
        assert(id1 =~= m1.subrange(0, n));
        assert(id2 =~= m2.subrange(0, n));
        assert(le_bytes(e1) =~= m1.subrange(n, n + 8));
        assert(le_bytes(e2) =~= m2.subrange(n, n + 8));
        lemma_le_bytes_injective(e1, e2);
    }
}

} // verus!
