//! A fixed-depth Merkle tree over field elements.

use std::sync::Arc;
use vstd::arithmetic::power2::{lemma2_to64, lemma2_to64_rest, lemma_pow2_strictly_increases, lemma_pow2_unfold};
use vstd::prelude::*;
use crate::error::TreeError;
use crate::field::{hash_pair, Field};
use crate::history::Snapshot;
use crate::merkle::{
    capacity, differs_only_at, empty_root, is_first_index, leaf_or_zero, lemma_ancestor_is_root,
    lemma_no_leaves_all_zero, lemma_proof_valid, merkle_root, proof_path, MAX_DEPTH,
};
use crate::node::{
    ancestry, branches_below, find, is_empty_table, lemma_agrees_digest, node_digest, share,
    with_leaf, Node,
};
use crate::path::{fold_path, Proof};

verus! {

/// One version of the contents of a tree.
struct Version {
    root: Arc<Node>,
    len: u64,
    leaves: Ghost<Seq<nat>>,
}

/// A Merkle tree of fixed depth over field elements.
///
/// Leaves are assigned from index 0 upwards; a deleted leaf keeps its index
/// and holds zero. The view of a tree is the sequence of the values of the
/// leaves assigned so far. Positions that were never assigned count as zero.
pub struct Tree {
    depth: usize,
    capacity: u64,
    empty: Vec<Field>,
    version: Version,
}

impl View for Tree {
    type V = Seq<nat>;

    closed spec fn view(&self) -> Seq<nat> {
        self.version.leaves@
    }
}

impl Tree {
    #[verifier::type_invariant]
    spec fn inv(self) -> bool {
        &&& self.depth <= MAX_DEPTH
        &&& self.capacity == capacity(self.depth as nat)
        &&& is_empty_table(self.empty@, self.depth as nat)
        &&& self.version.len == self.version.leaves@.len()
        &&& self.version.len <= self.capacity
        &&& self.version.root.agrees(self.version.leaves@, self.depth as nat, 0)
    }

    /// The depth of the tree, in specifications.
    pub closed spec fn spec_depth(&self) -> usize {
        self.depth
    }

    /// What the tree holds now.
    pub open spec fn as_snapshot(&self) -> Snapshot {
        Snapshot { depth: self.depth() as nat, leaves: self@ }
    }

    /// An empty tree of the given depth.
    pub fn new(depth: usize) -> (tree: Tree)
        requires
            depth <= MAX_DEPTH,
        ensures
            tree.depth() == depth,
            tree@ == Seq::<nat>::empty(),
    {
        let mut empty: Vec<Field> = Vec::new();
        let mut top = Field::zero();
        let mut size: u64 = 1;
        empty.push(top);
        let mut height: usize = 0;
        proof {
            lemma2_to64();
        }
        while height < depth
            invariant
                height <= depth <= MAX_DEPTH,
                size == capacity(height as nat),
                top@ == empty_root(height as nat),
                is_empty_table(empty@, height as nat),
            decreases depth - height,
        {
            proof {
                use_type_invariant(&top);
                lemma_pow2_unfold((height + 1) as nat);
                lemma_pow2_strictly_increases((height + 1) as nat, 64);
                lemma2_to64_rest();
            }
            top = hash_pair(&top, &top);
            size = size * 2;
            height = height + 1;
            empty.push(top);
        }
        let ghost leaves = Seq::<nat>::empty();
        proof {
            lemma_no_leaves_all_zero(depth as nat, 0);
        }
        Tree {
            depth,
            capacity: size,
            empty,
            version: Version { root: Arc::new(Node::Empty), len: 0, leaves: Ghost(leaves) },
        }
    }

    /// The depth of the tree.
    #[verifier::when_used_as_spec(spec_depth)]
    pub fn depth(&self) -> (depth: usize)
        ensures
            depth == self.depth(),
            depth <= MAX_DEPTH,
    {
        proof {
            use_type_invariant(self);
        }
        self.depth
    }

    /// The number of leaves assigned so far, deleted ones included.
    pub fn len(&self) -> (len: u64)
        ensures
            len == self@.len(),
            len <= capacity(self.depth() as nat),
    {
        proof {
            use_type_invariant(self);
        }
        self.version.len
    }

    /// The number of leaves that the tree can hold.
    pub fn capacity(&self) -> (size: u64)
        ensures
            size == capacity(self.depth() as nat),
    {
        proof {
            use_type_invariant(self);
        }
        self.capacity
    }

    /// The root of the tree.
    pub fn root(&self) -> (root: Field)
        ensures
            root@ == merkle_root(self@, self.depth() as nat),
    {
        proof {
            use_type_invariant(self);
            lemma_agrees_digest(&*self.version.root, self@, self.depth as nat, 0);
        }
        node_digest(&*self.version.root, self.depth, &self.empty)
    }

    /// Assigns the next free leaf and returns its index. A full tree is left
    /// as it is.
    pub fn insert(&mut self, leaf: Field) -> (res: Result<u64, TreeError>)
        ensures
            final(self).depth() == old(self).depth(),
            match res {
                Ok(index) => {
                    &&& old(self)@.len() < capacity(old(self).depth() as nat)
                    &&& index == old(self)@.len()
                    &&& final(self)@ == old(self)@.push(leaf@)
                },
                Err(e) => {
                    &&& e == TreeError::OutOfCapacity
                    &&& old(self)@.len() == capacity(old(self).depth() as nat)
                    &&& final(self)@ == old(self)@
                },
            },
    {
        proof {
            use_type_invariant(&*self);
        }
        let index = self.version.len;
        if index >= self.capacity {
            return Err(TreeError::OutOfCapacity);
        }
        let ghost leaves = self.version.leaves@;
        let ghost updated = leaves.push(leaf@);
        self.assign(index, leaf, Ghost(updated));
        Ok(index)
    }

    /// Sets an assigned leaf to zero. Its index is not given out again.
    pub fn delete(&mut self, index: u64) -> (res: Result<(), TreeError>)
        ensures
            final(self).depth() == old(self).depth(),
            match res {
                Ok(()) => {
                    &&& index < old(self)@.len()
                    &&& final(self)@ == old(self)@.update(index as int, 0)
                },
                Err(e) => {
                    &&& e == TreeError::InvalidIndex
                    &&& index >= old(self)@.len()
                    &&& final(self)@ == old(self)@
                },
            },
    {
        proof {
            use_type_invariant(&*self);
        }
        if index >= self.version.len {
            return Err(TreeError::InvalidIndex);
        }
        let ghost updated = self.version.leaves@.update(index as int, 0);
        self.assign(index, Field::zero(), Ghost(updated));
        Ok(())
    }

    /// Gives the leaf at `index` the given value, where `updated` is the new
    /// assignment of the leaves.
    fn assign(&mut self, index: u64, value: Field, Ghost(updated): Ghost<Seq<nat>>)
        requires
            index < capacity(old(self).depth as nat),
            differs_only_at(old(self)@, updated, index as nat),
            leaf_or_zero(updated, index as nat) == value@,
            index <= old(self)@.len(),
            updated.len() == if index == old(self)@.len() {
                index + 1
            } else {
                old(self)@.len() as int
            },
        ensures
            final(self).depth == old(self).depth,
            final(self)@ == updated,
    {
        proof {
            use_type_invariant(&*self);
            lemma_ancestor_is_root(index as nat, self.depth as nat);
        }
        let path = ancestry(index, self.depth);
        let root = with_leaf(
            &*self.version.root,
            self.depth,
            &path,
            value,
            &self.empty,
            Ghost(self.version.leaves@),
            Ghost(updated),
            Ghost(index as nat),
        );
        let len = if index == self.version.len {
            index + 1
        } else {
            self.version.len
        };
        self.version = Version { root: Arc::new(root), len, leaves: Ghost(updated) };
    }

    /// The proof for an assigned leaf: the hashes of the siblings along the
    /// way from the leaf to the root. Folded with the value of the leaf, it
    /// gives the root of the tree.
    pub fn prove(&self, index: u64) -> (res: Result<Proof, TreeError>)
        ensures
            match res {
                Ok(path) => {
                    &&& index < self@.len()
                    &&& path@ == proof_path(self@, self.depth() as nat, index as nat)
                    &&& fold_path(self@[index as int], path@) == merkle_root(
                        self@,
                        self.depth() as nat,
                    )
                },
                Err(e) => e == TreeError::InvalidIndex && index >= self@.len(),
            },
    {
        proof {
            use_type_invariant(self);
        }
        if index >= self.version.len {
            return Err(TreeError::InvalidIndex);
        }
        proof {
            lemma_ancestor_is_root(index as nat, self.depth as nat);
            lemma_proof_valid(self@, self.depth as nat, index as nat);
        }
        let ancestors = ancestry(index, self.depth);
        let branches = branches_below(
            &*self.version.root,
            self.depth,
            &ancestors,
            &self.empty,
            Ghost(self@),
            Ghost(index as nat),
        );
        let path = Proof { branches };
        assert(path@ =~= proof_path(self@, self.depth as nat, index as nat));
        Ok(path)
    }

    /// The first index at which the tree holds the given value. Zero marks an
    /// empty leaf and is found nowhere.
    pub fn position(&self, value: Field) -> (res: Option<u64>)
        ensures
            res is Some <==> value@ != 0 && self@.contains(value@),
            res matches Some(index) ==> is_first_index(self@, value@, index as nat),
    {
        proof {
            use_type_invariant(self);
            lemma2_to64();
        }
        let zero = Field::zero();
        proof {
            Field::lemma_view_injective(value, zero);
        }
        if value == zero {
            return None;
        }
        let found = find(
            &*self.version.root,
            self.depth,
            0,
            value,
            Ghost(self@),
            Ghost(self.depth as nat),
        );
        proof {
            let leaves = self@;
            let depth = self.depth as nat;
            match found {
                Some(i) => {
                    assert(i < leaves.len());
                    assert forall|j: int| 0 <= j < i implies leaves[j] != value@ by {
                        lemma_ancestor_is_root(j as nat, depth);
                        assert(leaf_or_zero(leaves, j as nat) != value@);
                    }
                },
                None => {
                    assert forall|j: int| 0 <= j < leaves.len() implies leaves[j] != value@ by {
                        lemma_ancestor_is_root(j as nat, depth);
                        assert(leaf_or_zero(leaves, j as nat) != value@);
                    }
                },
            }
        }
        found
    }

    /// A copy of the tree as it is now. The copy shares its nodes with the
    /// tree and is not touched by later changes to it.
    pub fn snapshot(&self) -> (copy: Tree)
        ensures
            copy@ == self@,
            copy.depth() == self.depth(),
    {
        proof {
            use_type_invariant(self);
        }
        let mut empty: Vec<Field> = Vec::new();
        let mut height: usize = 0;
        while height < self.empty.len()
            invariant
                height <= self.empty@.len(),
                empty@ == self.empty@.take(height as int),
            decreases self.empty@.len() - height,
        {
            empty.push(self.empty[height]);
            height = height + 1;
        }
        assert(empty@ =~= self.empty@);
        Tree {
            depth: self.depth,
            capacity: self.capacity,
            empty,
            version: Version {
                root: share(&self.version.root),
                len: self.version.len,
                leaves: Ghost(self.version.leaves@),
            },
        }
    }
}

} // verus!
