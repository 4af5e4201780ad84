//! The Merkle tree as mathematics: what the root and the proofs of a tree
//! are, given the values of its leaves.

use vstd::arithmetic::power2::{lemma2_to64, lemma_pow2_unfold, pow2};
use vstd::prelude::*;
use crate::field::poseidon2;
use crate::path::{fold_path, Step};

verus! {

/// The greatest depth a tree can have: leaf indices are 64-bit numbers.
pub const MAX_DEPTH: usize = 63;

/// The number of leaves that a tree of the given depth can hold.
pub open spec fn capacity(depth: nat) -> nat {
    pow2(depth)
}

/// The position, among the nodes at `height`, of the node above leaf `index`.
pub open spec fn ancestor(index: nat, height: nat) -> nat
    decreases height,
{
    if height == 0 {
        index
    } else {
        ancestor(index, (height - 1) as nat) / 2
    }
}

/// The value at a leaf position: what was assigned there, or zero.
pub open spec fn leaf_or_zero(leaves: Seq<nat>, index: nat) -> nat {
    if index < leaves.len() {
        leaves[index as int]
    } else {
        0
    }
}

/// The hash of the node at `position` among the nodes at `height`, computed
/// from the leaves alone.
pub open spec fn subtree_root(leaves: Seq<nat>, height: nat, position: nat) -> nat
    decreases height,
{
    if height == 0 {
        leaf_or_zero(leaves, position)
    } else {
        poseidon2(
            subtree_root(leaves, (height - 1) as nat, 2 * position),
            subtree_root(leaves, (height - 1) as nat, 2 * position + 1),
        )
    }
}

/// The root of the tree of the given depth over the given leaves.
pub open spec fn merkle_root(leaves: Seq<nat>, depth: nat) -> nat {
    subtree_root(leaves, depth, 0)
}

/// The hash of a subtree of the given height in which every leaf is zero.
pub open spec fn empty_root(height: nat) -> nat
    decreases height,
{
    if height == 0 {
        0
    } else {
        poseidon2(empty_root((height - 1) as nat), empty_root((height - 1) as nat))
    }
}

/// Whether every leaf below the node at `position` and `height` is zero.
pub open spec fn all_zero(leaves: Seq<nat>, height: nat, position: nat) -> bool
    decreases height,
{
    if height == 0 {
        leaf_or_zero(leaves, position) == 0
    } else {
        all_zero(leaves, (height - 1) as nat, 2 * position) && all_zero(
            leaves,
            (height - 1) as nat,
            2 * position + 1,
        )
    }
}

/// Whether two leaf assignments are the same everywhere but at `index`.
pub open spec fn differs_only_at(leaves: Seq<nat>, updated: Seq<nat>, index: nat) -> bool {
    forall|j: nat| j != index ==> #[trigger] leaf_or_zero(leaves, j) == leaf_or_zero(updated, j)
}

/// The step of the proof for leaf `index` that leads from `height` one level up.
pub open spec fn proof_step(leaves: Seq<nat>, index: nat, height: nat) -> Step {
    let position = ancestor(index, height);
    if position % 2 == 0 {
        Step::Left(subtree_root(leaves, height, position + 1))
    } else {
        Step::Right(subtree_root(leaves, height, (position - 1) as nat))
    }
}

/// The proof for leaf `index` in the tree of the given depth over `leaves`.
pub open spec fn proof_path(leaves: Seq<nat>, depth: nat, index: nat) -> Seq<Step> {
    Seq::new(depth, |height: int| proof_step(leaves, index, height as nat))
}

/// Whether `index` is the first position at which `leaves` holds `value`.
pub open spec fn is_first_index(leaves: Seq<nat>, value: nat, index: nat) -> bool {
    &&& index < leaves.len()
    &&& leaves[index as int] == value
    &&& forall|j: int| 0 <= j < index ==> leaves[j] != value
}

/// The ancestor at a height is the ancestor one level lower of the half index.
pub proof fn lemma_ancestor_of_half(index: nat, height: nat)
    requires
        height > 0,
    ensures
        ancestor(index, height) == ancestor(index / 2, (height - 1) as nat),
    decreases height,
{
    if height > 1 {
        lemma_ancestor_of_half(index, (height - 1) as nat);
        assert(ancestor(index / 2, (height - 1) as nat) == ancestor(index / 2, (height - 2) as nat)
            / 2);
    } else {
        assert(ancestor(index, 0) == index);
        assert(ancestor(index / 2, 0) == index / 2);
    }
}

/// Every leaf of a tree lies below its root.
pub proof fn lemma_ancestor_is_root(index: nat, depth: nat)
    requires
        index < capacity(depth),
    ensures
        ancestor(index, depth) == 0,
    decreases depth,
{
    if depth > 0 {
        lemma_pow2_unfold(depth);
        lemma_ancestor_of_half(index, depth);
        lemma_ancestor_is_root(index / 2, (depth - 1) as nat);
    } else {
        lemma2_to64();
    }
}

/// Leaves further right have ancestors that are not further left.
pub proof fn lemma_ancestor_monotone(i: nat, j: nat, height: nat)
    requires
        i <= j,
    ensures
        ancestor(i, height) <= ancestor(j, height),
    decreases height,
{
    if height > 0 {
        lemma_ancestor_monotone(i, j, (height - 1) as nat);
    }
}

/// Folding the first `height` steps of a proof gives the hash of the
/// ancestor of the leaf at that height.
pub proof fn lemma_path_reaches_ancestor(leaves: Seq<nat>, index: nat, height: nat)
    ensures
        fold_path(leaf_or_zero(leaves, index), proof_path(leaves, height, index)) == subtree_root(
            leaves,
            height,
            ancestor(index, height),
        ),
    decreases height,
{
    if height > 0 {
        let lower = (height - 1) as nat;
        lemma_path_reaches_ancestor(leaves, index, lower);
        let path = proof_path(leaves, height, index);
        assert(path.drop_last() =~= proof_path(leaves, lower, index));
        assert(path.last() == proof_step(leaves, index, lower));
        let below = ancestor(index, lower);
        assert(ancestor(index, height) == below / 2);
        if below % 2 == 0 {
            assert(2 * (below / 2) == below);
        } else {
            assert(2 * (below / 2) + 1 == below);
        }
    }
}

/// The proof of an assigned leaf leads from the leaf's value to the root.
pub proof fn lemma_proof_valid(leaves: Seq<nat>, depth: nat, index: nat)
    requires
        index < leaves.len() <= capacity(depth),
    ensures
        fold_path(leaves[index as int], proof_path(leaves, depth, index)) == merkle_root(
            leaves,
            depth,
        ),
{
    lemma_path_reaches_ancestor(leaves, index, depth);
    lemma_ancestor_is_root(index, depth);
}

/// A subtree without assigned leaves hashes to the empty root of its height.
pub proof fn lemma_all_zero_root(leaves: Seq<nat>, height: nat, position: nat)
    requires
        all_zero(leaves, height, position),
    ensures
        subtree_root(leaves, height, position) == empty_root(height),
    decreases height,
{
    if height > 0 {
        lemma_all_zero_root(leaves, (height - 1) as nat, 2 * position);
        lemma_all_zero_root(leaves, (height - 1) as nat, 2 * position + 1);
    }
}

/// A subtree that does not lie above the changed leaf stays all zero.
pub proof fn lemma_all_zero_frame(
    leaves: Seq<nat>,
    updated: Seq<nat>,
    index: nat,
    height: nat,
    position: nat,
)
    requires
        all_zero(leaves, height, position),
        differs_only_at(leaves, updated, index),
        ancestor(index, height) != position,
    ensures
        all_zero(updated, height, position),
    decreases height,
{
    if height > 0 {
        lemma_all_zero_frame(leaves, updated, index, (height - 1) as nat, 2 * position);
        lemma_all_zero_frame(leaves, updated, index, (height - 1) as nat, 2 * position + 1);
    }
}

/// Below a node whose leaves are all zero, every leaf is zero.
pub proof fn lemma_all_zero_leaf(leaves: Seq<nat>, height: nat, position: nat, index: nat)
    requires
        all_zero(leaves, height, position),
        ancestor(index, height) == position,
    ensures
        leaf_or_zero(leaves, index) == 0,
    decreases height,
{
    if height > 0 {
        let below = ancestor(index, (height - 1) as nat);
        assert(below == 2 * position || below == 2 * position + 1);
        lemma_all_zero_leaf(leaves, (height - 1) as nat, below, index);
    }
}

/// Without assigned leaves every subtree is all zero.
pub proof fn lemma_no_leaves_all_zero(height: nat, position: nat)
    ensures
        all_zero(Seq::<nat>::empty(), height, position),
    decreases height,
{
    if height > 0 {
        lemma_no_leaves_all_zero((height - 1) as nat, 2 * position);
        lemma_no_leaves_all_zero((height - 1) as nat, 2 * position + 1);
    }
}

} // verus!
