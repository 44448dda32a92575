//! The binary SHA-256 Merkle tree over 32-byte leaves: root computation,
//! inclusion-proof generation, and inclusion-proof checking.
//!
//! The tree itself is built by an outside crate; its results are named here
//! and every claim the library makes about an inclusion proof goes through
//! these names.

use vstd::prelude::*;

use crate::types::common::U8_32;

verus! {

/// The sequence of byte views of a sequence of 32-byte values.
pub open spec fn hashes_view(s: Seq<U8_32>) -> Seq<Seq<u8>> {
    s.map_values(|h: U8_32| h@)
}

/// The Merkle root of a non-empty sequence of leaves. The root is a function
/// of the leaves alone.
pub uninterp spec fn merkle_root_of(leaves: Seq<Seq<u8>>) -> Seq<u8>;

/// Whether a list of sibling hashes is a valid inclusion path: starting from
/// `leaf` at position `index` among `total` leaves, folding in the sibling
/// hashes reproduces `root`. The outcome is a function of the arguments alone.
pub uninterp spec fn merkle_path_ok(
    proof_hashes: Seq<Seq<u8>>,
    leaf: Seq<u8>,
    index: int,
    total: int,
    root: Seq<u8>,
) -> bool;

/// Relies on rs_merkle::MerkleTree::{from_leaves, root}: the root is a
/// function of the leaves, and is present exactly when there is a leaf.
#[verifier::external_body]
pub fn merkle_root_from_leaves(leaves: &Vec<U8_32>) -> (r: Option<U8_32>)
    ensures
        r is Some <==> leaves@.len() > 0,
        r matches Some(root) ==> root@ == merkle_root_of(hashes_view(leaves@)),
{
    let tree =
        rs_merkle::MerkleTree::<rs_merkle::algorithms::Sha256>::from_leaves(leaves.as_slice());
    tree.root()
}

/// Relies on rs_merkle::MerkleTree::proof: a proof generated by the tree for
/// one of its own leaves passes rs_merkle::MerkleProof::verify against the
/// tree's root, the leaf, its index, and the leaf count.
#[verifier::external_body]
pub fn merkle_proof_for_index(leaves: &Vec<U8_32>, index: usize) -> (r: Vec<U8_32>)
    requires
        index < leaves@.len(),
    ensures
        merkle_path_ok(
            hashes_view(r@),
            leaves@[index as int]@,
            index as int,
            leaves@.len() as int,
            merkle_root_of(hashes_view(leaves@)),
        ),
{
    let tree =
        rs_merkle::MerkleTree::<rs_merkle::algorithms::Sha256>::from_leaves(leaves.as_slice());
    tree.proof(&[index]).proof_hashes().to_vec()
}

/// Relies on rs_merkle::MerkleProof::verify: the outcome is a function of the
/// proof hashes, leaf, index, leaf count, and root.
#[verifier::external_body]
pub fn merkle_verify(
    proof_hashes: &Vec<U8_32>,
    root: &U8_32,
    index: usize,
    leaf: &U8_32,
    total_leaves: usize,
) -> (r: bool)
    ensures
        r == merkle_path_ok(
            hashes_view(proof_hashes@),
            leaf@,
            index as int,
            total_leaves as int,
            root@,
        ),
{
    let proof = rs_merkle::MerkleProof::<rs_merkle::algorithms::Sha256>::new(proof_hashes.clone());
    proof.verify(*root, &[index], &[*leaf], total_leaves)
}

} // verus!
