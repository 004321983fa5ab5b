//! Merkle trees over SHA-256 whose leaves are 32-byte digests.
use vstd::prelude::*;
use rs_merkle::algorithms::Sha256;
use rs_merkle::{MerkleProof, MerkleTree};

verus! {

/// The root of the Merkle tree over the given leaves, in order.
pub uninterp spec fn merkle_root_of(leaves: Seq<[u8; 32]>) -> [u8; 32];

/// The serialized inclusion proof of leaf `index` in the tree over `leaves`.
pub uninterp spec fn merkle_proof_of(leaves: Seq<[u8; 32]>, index: int) -> Seq<u8>;

/// Whether `proof` shows that `leaf` sits at `index` among `total` leaves of
/// a tree with the given root.
pub uninterp spec fn merkle_proof_accepts(
    proof: Seq<u8>,
    root: [u8; 32],
    index: int,
    leaf: [u8; 32],
    total: int,
) -> bool;

/// Relies on `rs_merkle::MerkleTree::<Sha256>::from_leaves` and `root`: a
/// tree built from leaves has a root exactly when there is a leaf, and the
/// root depends on the leaves alone.
#[verifier::external_body]
pub fn merkle_root(leaves: &Vec<[u8; 32]>) -> (r: Option<[u8; 32]>)
    ensures
        leaves@.len() > 0 <==> r is Some,
        r matches Some(h) ==> h == merkle_root_of(leaves@),
{
    MerkleTree::<Sha256>::from_leaves(leaves).root()
}

/// Relies on `rs_merkle::MerkleTree::proof` and `MerkleProof::to_bytes`: the
/// serialized proof for one leaf depends on the leaves and the index alone.
#[verifier::external_body]
pub fn merkle_proof_bytes(leaves: &Vec<[u8; 32]>, index: usize) -> (r: Vec<u8>)
    requires
        index < leaves@.len(),
    ensures
        r@ == merkle_proof_of(leaves@, index as int),
{
    MerkleTree::<Sha256>::from_leaves(leaves).proof(&[index]).to_bytes()
}

/// Relies on `rs_merkle::MerkleProof::<Sha256>::try_from` and `verify`: an
/// unparsable proof is rejected, and the answer depends on the arguments
/// alone.
#[verifier::external_body]
pub fn merkle_proof_verifies(
    proof: &Vec<u8>,
    root: [u8; 32],
    index: usize,
    leaf: [u8; 32],
    total: usize,
) -> (r: bool)
    requires
        index < total,
    ensures
        r == merkle_proof_accepts(proof@, root, index as int, leaf, total as int),
{
    match MerkleProof::<Sha256>::try_from(proof.as_slice()) {
        Ok(p) => p.verify(root, &[index], &[leaf], total),
        Err(_) => false,
    }
}

} // verus!
