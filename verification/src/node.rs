//! The nodes of a tree. Unchanged subtrees are shared between the versions
//! of a tree, so a change builds only the nodes above the changed leaf.

use std::sync::Arc;
use vstd::arithmetic::power2::{lemma2_to64_rest, lemma_pow2_strictly_increases, lemma_pow2_unfold, pow2};
use vstd::prelude::*;
use crate::field::{hash_pair, poseidon2, Field};
use crate::merkle::{
    all_zero, ancestor, differs_only_at, empty_root, leaf_or_zero, lemma_all_zero_frame,
    lemma_all_zero_leaf, lemma_all_zero_root, lemma_ancestor_monotone, proof_step, subtree_root,
    MAX_DEPTH,
};
use crate::path::Branch;

verus! {

/// A subtree. Unchanged subtrees are shared between the versions of a tree.
pub(crate) enum Node {
    /// A subtree of any height whose leaves are all zero.
    Empty,
    /// A leaf and its value.
    Leaf(Field),
    /// An inner node: its hash, its left child and its right child.
    Branch(Field, Arc<Node>, Arc<Node>),
}

impl Node {
    /// The hash that the node stands for at the given height.
    pub(crate) open spec fn digest(&self, height: nat) -> nat {
        match self {
            Node::Empty => empty_root(height),
            Node::Leaf(value) => value@,
            Node::Branch(hash, _, _) => hash@,
        }
    }

    /// Whether the node, placed at `position` among the nodes at `height`,
    /// holds exactly what `leaves` assigns to the positions below it.
    pub(crate) open spec fn agrees(&self, leaves: Seq<nat>, height: nat, position: nat) -> bool
        decreases height,
    {
        match self {
            Node::Empty => all_zero(leaves, height, position),
            Node::Leaf(value) => height == 0 && value@ == leaf_or_zero(leaves, position),
            Node::Branch(hash, left, right) => {
                if height == 0 {
                    false
                } else {
                    &&& left.agrees(leaves, (height - 1) as nat, 2 * position)
                    &&& right.agrees(leaves, (height - 1) as nat, 2 * position + 1)
                    &&& hash@ == poseidon2(
                        left.digest((height - 1) as nat),
                        right.digest((height - 1) as nat),
                    )
                }
            },
        }
    }
}

/// A node that agrees with the leaves carries the hash of its subtree.
pub(crate) proof fn lemma_agrees_digest(node: &Node, leaves: Seq<nat>, height: nat, position: nat)
    requires
        node.agrees(leaves, height, position),
    ensures
        node.digest(height) == subtree_root(leaves, height, position),
    decreases height,
{
    match node {
        Node::Empty => {
            lemma_all_zero_root(leaves, height, position);
        },
        Node::Leaf(_) => {},
        Node::Branch(_, left, right) => {
            lemma_agrees_digest(&**left, leaves, (height - 1) as nat, 2 * position);
            lemma_agrees_digest(&**right, leaves, (height - 1) as nat, 2 * position + 1);
        },
    }
}

/// A node that does not lie above the changed leaf agrees with the new leaves.
pub(crate) proof fn lemma_agrees_frame(
    node: &Node,
    leaves: Seq<nat>,
    updated: Seq<nat>,
    index: nat,
    height: nat,
    position: nat,
)
    requires
        node.agrees(leaves, height, position),
        differs_only_at(leaves, updated, index),
        ancestor(index, height) != position,
    ensures
        node.agrees(updated, height, position),
    decreases height,
{
    match node {
        Node::Empty => {
            lemma_all_zero_frame(leaves, updated, index, height, position);
        },
        Node::Leaf(_) => {},
        Node::Branch(_, left, right) => {
            lemma_agrees_frame(&**left, leaves, updated, index, (height - 1) as nat, 2 * position);
            lemma_agrees_frame(
                &**right,
                leaves,
                updated,
                index,
                (height - 1) as nat,
                2 * position + 1,
            );
        },
    }
}

/// Whether `path` lists the positions of the ancestors of leaf `index`, from
/// the leaf itself up to the given height.
pub(crate) open spec fn is_ancestry(path: Seq<u64>, index: nat, height: nat) -> bool {
    &&& path.len() == height + 1
    &&& forall|h: int| 0 <= h <= height ==> #[trigger] path[h] == ancestor(index, h as nat)
}

/// Whether `empty` lists the hashes of the all-zero subtrees of each height
/// up to the given one.
pub(crate) open spec fn is_empty_table(empty: Seq<Field>, height: nat) -> bool {
    &&& empty.len() == height + 1
    &&& forall|h: int| 0 <= h <= height ==> (#[trigger] empty[h])@ == empty_root(h as nat)
}

/// Another handle on a shared subtree, made with `Arc::clone`.
///
/// Not proved: that the new handle points to the same subtree.
#[verifier::external_body]
pub(crate) fn share(node: &Arc<Node>) -> (res: Arc<Node>)
    ensures
        res == *node,
{
    Arc::clone(node)
}

/// The positions of the ancestors of leaf `index`, from height 0 to `depth`.
pub(crate) fn ancestry(index: u64, depth: usize) -> (path: Vec<u64>)
    ensures
        is_ancestry(path@, index as nat, depth as nat),
{
    let mut path: Vec<u64> = Vec::new();
    let mut position: u64 = index;
    path.push(position);
    let mut height: usize = 0;
    while height < depth
        invariant
            height <= depth,
            position == ancestor(index as nat, height as nat),
            is_ancestry(path@, index as nat, height as nat),
        decreases depth - height,
    {
        position = position / 2;
        height = height + 1;
        path.push(position);
    }
    path
}

/// The hash of a subtree.
pub(crate) fn node_digest(node: &Node, height: usize, empty: &Vec<Field>) -> (res: Field)
    requires
        height < empty@.len(),
        empty@[height as int]@ == empty_root(height as nat),
    ensures
        res@ == node.digest(height as nat),
{
    match node {
        Node::Empty => empty[height],
        Node::Leaf(value) => *value,
        Node::Branch(hash, _, _) => *hash,
    }
}

/// An inner node over two subtrees of height `height - 1`.
pub(crate) fn join(
    left: Arc<Node>,
    right: Arc<Node>,
    height: usize,
    empty: &Vec<Field>,
    Ghost(leaves): Ghost<Seq<nat>>,
    Ghost(position): Ghost<nat>,
) -> (res: Node)
    requires
        0 < height < empty@.len(),
        empty@[height - 1]@ == empty_root((height - 1) as nat),
        left.agrees(leaves, (height - 1) as nat, 2 * position),
        right.agrees(leaves, (height - 1) as nat, 2 * position + 1),
    ensures
        res.agrees(leaves, height as nat, position),
{
    let left_hash = node_digest(&*left, height - 1, empty);
    let right_hash = node_digest(&*right, height - 1, empty);
    proof {
        use_type_invariant(&left_hash);
        use_type_invariant(&right_hash);
    }
    let hash = hash_pair(&left_hash, &right_hash);
    Node::Branch(hash, left, right)
}

/// The subtree that results when the leaf whose ancestry is `path` takes the
/// given value. Only the nodes above that leaf are built anew.
pub(crate) fn with_leaf(
    node: &Node,
    height: usize,
    path: &Vec<u64>,
    value: Field,
    empty: &Vec<Field>,
    Ghost(leaves): Ghost<Seq<nat>>,
    Ghost(updated): Ghost<Seq<nat>>,
    Ghost(index): Ghost<nat>,
) -> (res: Node)
    requires
        height < path@.len(),
        height < empty@.len(),
        forall|h: int| 0 <= h <= height ==> #[trigger] path@[h] == ancestor(index, h as nat),
        forall|h: int| 0 <= h <= height ==> (#[trigger] empty@[h])@ == empty_root(h as nat),
        node.agrees(leaves, height as nat, ancestor(index, height as nat)),
        differs_only_at(leaves, updated, index),
        leaf_or_zero(updated, index) == value@,
    ensures
        res.agrees(updated, height as nat, ancestor(index, height as nat)),
    decreases height,
{
    if height == 0 {
        return Node::Leaf(value);
    }
    let below: u64 = path[height - 1];
    let ghost position = ancestor(index, height as nat);
    assert(below == ancestor(index, (height - 1) as nat));
    assert(position == below / 2);
    assert(empty@[height - 1]@ == empty_root((height - 1) as nat));
    match node {
        Node::Branch(_, left, right) => {
            if below % 2 == 0 {
                let changed = with_leaf(
                    &**left,
                    height - 1,
                    path,
                    value,
                    empty,
                    Ghost(leaves),
                    Ghost(updated),
                    Ghost(index),
                );
                proof {
                    lemma_agrees_frame(
                        &**right,
                        leaves,
                        updated,
                        index,
                        (height - 1) as nat,
                        2 * position + 1,
                    );
                }
                join(Arc::new(changed), share(right), height, empty, Ghost(updated), Ghost(position))
            } else {
                let changed = with_leaf(
                    &**right,
                    height - 1,
                    path,
                    value,
                    empty,
                    Ghost(leaves),
                    Ghost(updated),
                    Ghost(index),
                );
                proof {
                    lemma_agrees_frame(
                        &**left,
                        leaves,
                        updated,
                        index,
                        (height - 1) as nat,
                        2 * position,
                    );
                }
                join(share(left), Arc::new(changed), height, empty, Ghost(updated), Ghost(position))
            }
        },
        _ => {
            let blank = Node::Empty;
            let changed = with_leaf(
                &blank,
                height - 1,
                path,
                value,
                empty,
                Ghost(leaves),
                Ghost(updated),
                Ghost(index),
            );
            if below % 2 == 0 {
                proof {
                    lemma_all_zero_frame(
                        leaves,
                        updated,
                        index,
                        (height - 1) as nat,
                        2 * position + 1,
                    );
                }
                join(Arc::new(changed), Arc::new(Node::Empty), height, empty, Ghost(updated), Ghost(position))
            } else {
                proof {
                    lemma_all_zero_frame(
                        leaves,
                        updated,
                        index,
                        (height - 1) as nat,
                        2 * position,
                    );
                }
                join(Arc::new(Node::Empty), Arc::new(changed), height, empty, Ghost(updated), Ghost(position))
            }
        },
    }
}

/// The branches of the proof for the leaf whose ancestry is `path`, from the
/// leaf up to the given node.
pub(crate) fn branches_below(
    node: &Node,
    height: usize,
    path: &Vec<u64>,
    empty: &Vec<Field>,
    Ghost(leaves): Ghost<Seq<nat>>,
    Ghost(index): Ghost<nat>,
) -> (res: Vec<Branch>)
    requires
        height < path@.len(),
        height < empty@.len(),
        forall|h: int| 0 <= h <= height ==> #[trigger] path@[h] == ancestor(index, h as nat),
        forall|h: int| 0 <= h <= height ==> (#[trigger] empty@[h])@ == empty_root(h as nat),
        node.agrees(leaves, height as nat, ancestor(index, height as nat)),
    ensures
        res@.len() == height,
        forall|h: int| 0 <= h < height ==> (#[trigger] res@[h])@ == proof_step(leaves, index, h as nat),
    decreases height,
{
    if height == 0 {
        return Vec::new();
    }
    let below: u64 = path[height - 1];
    let ghost position = ancestor(index, height as nat);
    assert(below == ancestor(index, (height - 1) as nat));
    assert(position == below / 2);
    assert(empty@[height - 1]@ == empty_root((height - 1) as nat));
    match node {
        Node::Branch(_, left, right) => {
            if below % 2 == 0 {
                let mut res = branches_below(
                    &**left,
                    height - 1,
                    path,
                    empty,
                    Ghost(leaves),
                    Ghost(index),
                );
                let sibling = node_digest(&**right, height - 1, empty);
                proof {
                    lemma_agrees_digest(&**right, leaves, (height - 1) as nat, 2 * position + 1);
                }
                res.push(Branch::Left(sibling));
                res
            } else {
                let mut res = branches_below(
                    &**right,
                    height - 1,
                    path,
                    empty,
                    Ghost(leaves),
                    Ghost(index),
                );
                let sibling = node_digest(&**left, height - 1, empty);
                proof {
                    lemma_agrees_digest(&**left, leaves, (height - 1) as nat, 2 * position);
                }
                res.push(Branch::Right(sibling));
                res
            }
        },
        _ => {
            let blank = Node::Empty;
            let mut res = branches_below(
                &blank,
                height - 1,
                path,
                empty,
                Ghost(leaves),
                Ghost(index),
            );
            let sibling = empty[height - 1];
            if below % 2 == 0 {
                proof {
                    lemma_all_zero_root(leaves, (height - 1) as nat, 2 * position + 1);
                }
                res.push(Branch::Left(sibling));
            } else {
                proof {
                    lemma_all_zero_root(leaves, (height - 1) as nat, 2 * position);
                }
                res.push(Branch::Right(sibling));
            }
            res
        },
    }
}

/// The first leaf below the node that holds the given value, which is not zero.
pub(crate) fn find(
    node: &Node,
    height: usize,
    position: u64,
    value: Field,
    Ghost(leaves): Ghost<Seq<nat>>,
    Ghost(depth): Ghost<nat>,
) -> (res: Option<u64>)
    requires
        height <= depth <= MAX_DEPTH,
        position < pow2((depth - height) as nat),
        value@ != 0,
        node.agrees(leaves, height as nat, position as nat),
    ensures
        match res {
            Some(i) => {
                &&& ancestor(i as nat, height as nat) == position
                &&& leaf_or_zero(leaves, i as nat) == value@
                &&& forall|j: nat|
                    j < i && #[trigger] ancestor(j, height as nat) == position ==> leaf_or_zero(
                        leaves,
                        j,
                    ) != value@
            },
            None => forall|j: nat| #[trigger]
                ancestor(j, height as nat) == position ==> leaf_or_zero(leaves, j) != value@,
        },
    decreases height,
{
    match node {
        Node::Empty => {
            proof {
                assert forall|j: nat| #[trigger]
                    ancestor(j, height as nat) == position implies leaf_or_zero(leaves, j)
                    != value@ by {
                    lemma_all_zero_leaf(leaves, height as nat, position as nat, j);
                }
            }
            None
        },
        Node::Leaf(held) => {
            proof {
                Field::lemma_view_injective(*held, value);
            }
            if *held == value {
                Some(position)
            } else {
                None
            }
        },
        Node::Branch(_, left, right) => {
            proof {
                lemma_pow2_unfold((depth - height + 1) as nat);
                lemma_pow2_strictly_increases((depth - height + 1) as nat, 64);
                lemma2_to64_rest();
            }
            let ghost lower = (height - 1) as nat;
            match find(&**left, height - 1, 2 * position, value, Ghost(leaves), Ghost(depth)) {
                Some(i) => {
                    proof {
                        assert forall|j: nat|
                            j < i && #[trigger] ancestor(j, height as nat)
                                == position implies leaf_or_zero(leaves, j) != value@ by {
                            lemma_ancestor_monotone(j, i as nat, lower);
                            assert(ancestor(j, height as nat) == ancestor(j, lower) / 2);
                        }
                    }
                    Some(i)
                },
                None => {
                    let found = find(
                        &**right,
                        height - 1,
                        2 * position + 1,
                        value,
                        Ghost(leaves),
                        Ghost(depth),
                    );
                    proof {
                        assert forall|j: nat| #[trigger]
                            ancestor(j, height as nat) == position && (found matches Some(i) ==> j
                                < i) implies leaf_or_zero(leaves, j) != value@ by {
                            assert(ancestor(j, height as nat) == ancestor(j, lower) / 2);
                        }
                    }
                    found
                },
            }
        },
    }
}

} // verus!
