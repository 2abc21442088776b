//! The Merkle root of a list of digests, as a complete binary Merkle tree
//! whose inner nodes are the SHA-256 digest of their two children.

use vstd::prelude::*;
use crate::codec::list_view;
use crate::hashing::{hashable, sha256, sha256_digest};

verus! {

/// A leaf and an inner node are 32 bytes long.
pub const NODE_LEN: usize = 32;

/// The node above `left` and `right`.
pub open spec fn merge_nodes(left: Seq<u8>, right: Seq<u8>) -> Seq<u8> {
    sha256_digest(left + right)
}

/// Node `i` of the tree over `leaves`. The tree over n leaves has 2n - 1
/// nodes; the last n are the leaves in their order, and node `i` before
/// them stands above the nodes 2i + 1 and 2i + 2.
pub open spec fn tree_node(leaves: Seq<Seq<u8>>, i: int) -> Seq<u8>
    decreases 2 * leaves.len() - i,
    when i >= 0
{
    if i >= leaves.len() - 1 {
        leaves[i - (leaves.len() - 1)]
    } else {
        merge_nodes(tree_node(leaves, 2 * i + 1), tree_node(leaves, 2 * i + 2))
    }
}

/// The root of the tree over `leaves`; the empty byte string where there
/// are none.
pub open spec fn tree_root(leaves: Seq<Seq<u8>>) -> Seq<u8> {
    if leaves.len() == 0 {
        Seq::empty()
    } else {
        tree_node(leaves, 0)
    }
}

/// Whether every leaf has the length of a digest.
pub open spec fn leaves_ok(leaves: Seq<Seq<u8>>) -> bool {
    forall|i: int| 0 <= i < leaves.len() ==> (#[trigger] leaves[i]).len() == NODE_LEN
}

/// How the tree joins two nodes.
pub struct MergeVu8 {}

impl merkle_cbt::merkle_tree::Merge for MergeVu8 {
    type Item = Vec<u8>;

    fn merge(left: &Vec<u8>, right: &Vec<u8>) -> (node: Vec<u8>)
        ensures
            hashable(left@ + right@) ==> node@ == merge_nodes(left@, right@) && node@.len()
                == NODE_LEN,
            !hashable(left@ + right@) ==> node@.len() == 0,
    {
        let mut data: Vec<u8> = Vec::new();
        let mut i: usize = 0;
        while i < left.len()
            invariant
                i <= left@.len(),
                data@ == left@.subrange(0, i as int),
            decreases left@.len() - i,
        {
            data.push(left[i]);
            i = i + 1;
            assert(data@ =~= left@.subrange(0, i as int));
        }
        assert(data@ =~= left@);
        let mut j: usize = 0;
        while j < right.len()
            invariant
                j <= right@.len(),
                data@ == left@ + right@.subrange(0, j as int),
            decreases right@.len() - j,
        {
            data.push(right[j]);
            j = j + 1;
            assert(data@ =~= left@ + right@.subrange(0, j as int));
        }
        assert(data@ =~= left@ + right@);
        match sha256(data.as_slice()) {
            Ok(node) => node,
            Err(_) => Vec::new(),
        }
    }
}


/// `merkle_cbt::CBMT::build_merkle_tree`, which lays the leaves out behind
/// n - 1 inner nodes and fills node i, from the last inner node down to the
/// first, with `MergeVu8::merge` of the nodes 2i + 1 and 2i + 2; then
/// `MerkleTree::root`, the first node, or the empty byte string where there
/// is no leaf.
#[verifier::external_body]
pub(crate) fn build_root(leaves: &Vec<Vec<u8>>) -> (root: Vec<u8>)
    requires
        leaves_ok(list_view(leaves@)),
    ensures
        root@ == tree_root(list_view(leaves@)),
{
    merkle_cbt::CBMT::<Vec<u8>, MergeVu8>::build_merkle_tree(leaves.as_slice()).root()
}

/// The Merkle root of `leaves`; nothing where a leaf is not 32 bytes long.
pub fn merkle_root(leaves: &Vec<Vec<u8>>) -> (r: Option<Vec<u8>>)
    ensures
        match r {
            Some(root) => leaves_ok(list_view(leaves@)) && root@ == tree_root(list_view(leaves@)),
            None => !leaves_ok(list_view(leaves@)),
        },
{
    let mut i: usize = 0;
    while i < leaves.len()
        invariant
            i <= leaves@.len(),
            forall|j: int| 0 <= j < i ==> (#[trigger] list_view(leaves@)[j]).len() == NODE_LEN,
        decreases leaves@.len() - i,
    {
        if leaves[i].len() != NODE_LEN {
            assert(list_view(leaves@)[i as int].len() != NODE_LEN);
            return None;
        }
        i = i + 1;
    }
    Some(build_root(leaves))
}

} // verus!
