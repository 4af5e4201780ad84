//! Inclusion proofs: the path of sibling hashes from a leaf to the root.

use vstd::prelude::*;
use crate::field::{hash_pair, poseidon2, Field};

verus! {

/// One step of a proof as numbers: on which side the path runs, and the hash
/// of the sibling on the other side.
pub ghost enum Step {
    /// The path comes up from the left child; the sibling is the right child.
    Left(nat),
    /// The path comes up from the right child; the sibling is the left child.
    Right(nat),
}

/// One step of a proof.
#[derive(Clone, Copy, Debug, PartialEq, Eq)]
pub enum Branch {
    /// The path comes up from the left child; the sibling is the right child.
    Left(Field),
    /// The path comes up from the right child; the sibling is the left child.
    Right(Field),
}

impl View for Branch {
    type V = Step;

    open spec fn view(&self) -> Step {
        match self {
            Branch::Left(sibling) => Step::Left(sibling@),
            Branch::Right(sibling) => Step::Right(sibling@),
        }
    }
}

/// The hash of the parent of a node with the given hash, one step up.
pub open spec fn step_up(below: nat, step: Step) -> nat {
    match step {
        Step::Left(sibling) => poseidon2(below, sibling),
        Step::Right(sibling) => poseidon2(sibling, below),
    }
}

/// The hash that a path leads to when it starts from the given leaf value.
pub open spec fn fold_path(leaf: nat, path: Seq<Step>) -> nat
    decreases path.len(),
{
    if path.len() == 0 {
        leaf
    } else {
        step_up(fold_path(leaf, path.drop_last()), path.last())
    }
}

/// A Merkle path, ordered from the leaf to the root.
#[derive(Clone, Debug, PartialEq, Eq)]
pub struct Proof {
    pub branches: Vec<Branch>,
}

impl View for Proof {
    type V = Seq<Step>;

    open spec fn view(&self) -> Seq<Step> {
        Seq::new(self.branches@.len(), |i: int| self.branches@[i]@)
    }
}

impl Proof {
    /// The root that the path leads to from the given leaf value.
    pub fn root(&self, leaf: Field) -> (res: Field)
        ensures
            res@ == fold_path(leaf@, self@),
    {
        let mut acc = leaf;
        let mut i: usize = 0;
        assert(self@.take(0) =~= Seq::<Step>::empty());
        while i < self.branches.len()
            invariant
                i <= self.branches@.len(),
                acc@ == fold_path(leaf@, self@.take(i as int)),
            decreases self.branches@.len() - i,
        {
            let branch = self.branches[i];
            proof {
                use_type_invariant(&acc);
                assert(self@.take(i + 1).drop_last() =~= self@.take(i as int));
                assert(self@.take(i + 1).last() == branch@);
            }
            acc = match branch {
                Branch::Left(sibling) => {
                    proof {
                        use_type_invariant(&sibling);
                    }
                    hash_pair(&acc, &sibling)
                },
                Branch::Right(sibling) => {
                    proof {
                        use_type_invariant(&sibling);
                    }
                    hash_pair(&sibling, &acc)
                },
            };
            i = i + 1;
        }
        assert(self@.take(i as int) =~= self@);
        acc
    }

    /// Whether the path leads from the given leaf value to the given root.
    pub fn verify(&self, leaf: Field, root: Field) -> (ok: bool)
        ensures
            ok == (fold_path(leaf@, self@) == root@),
    {
        let reached = self.root(leaf);
        proof {
            Field::lemma_view_injective(reached, root);
        }
        reached == root
    }
}

} // verus!
