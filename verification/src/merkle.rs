use crate::digest::{sha256, sha256_of};
use merkle_cbt::merkle_tree::{Merge, CBMT};
use vstd::prelude::*;

verus! {

/// How two nodes of the Merkle tree make their parent: SHA-256 of the left
/// node followed by the right one.
pub struct MergeVu8 {}

impl Merge for MergeVu8 {
    type Item = Vec<u8>;

    fn merge(left: &Vec<u8>, right: &Vec<u8>) -> (parent: Vec<u8>)
        ensures
            parent@ == sha256_of(left@ + right@),
    {
        let mut data: Vec<u8> = left.clone();
        let mut tail: Vec<u8> = right.clone();
        data.append(&mut tail);
        sha256(data.as_slice())
    }
}

/// Node `i` of the complete binary Merkle tree over the leaves. The tree
/// is laid out as an array of `2n - 1` nodes for `n` leaves, with the
/// leaves at its end; a node before them is SHA-256 of its left child,
/// node `2i + 1`, followed by its right child, node `2i + 2`. No leaf is
/// doubled.
pub open spec fn merkle_node(leaves: Seq<Seq<u8>>, i: int) -> Seq<u8>
    decreases 2 * leaves.len() - i,
{
    if i < 0 || i >= 2 * leaves.len() - 1 {
        Seq::empty()
    } else if i >= leaves.len() - 1 {
        leaves[i - (leaves.len() - 1)]
    } else {
        sha256_of(merkle_node(leaves, 2 * i + 1) + merkle_node(leaves, 2 * i + 2))
    }
}

/// The root of the complete binary Merkle tree over the leaves: its node
/// 0. Of one leaf the root is the leaf itself, of no leaf it is empty.
pub open spec fn merkle_root_of(leaves: Seq<Seq<u8>>) -> Seq<u8> {
    merkle_node(leaves, 0)
}

/// The leaves of a list, each as a sequence of bytes.
pub open spec fn leaves_view(leaves: Seq<Vec<u8>>) -> Seq<Seq<u8>> {
    Seq::new(leaves.len(), |i: int| leaves[i]@)
}

/// Calls `merkle_cbt::CBMT::build_merkle_tree` with `MergeVu8` and reads the
/// tree's `root`. Trusted: the tree is the array that `merkle_node`
/// describes, built with `MergeVu8::merge` from its last inner node down to
/// its first, and the root is its node 0, or empty where there is no leaf.
#[verifier::external_body]
pub(crate) fn merkle_root(leaves: &Vec<Vec<u8>>) -> (root: Vec<u8>)
    ensures
        root@ == merkle_root_of(leaves_view(leaves@)),
{
    CBMT::<Vec<u8>, MergeVu8>::build_merkle_tree(leaves).root()
}

} // verus!
