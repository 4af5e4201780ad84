use ruint::aliases::U256;
use semaphore_rs_poseidon::poseidon::hash2;
use world_tree::error::TreeError;
use world_tree::field::Field;
use world_tree::merkle::MAX_DEPTH;
use world_tree::tree::Tree;
use world_tree::path::{Branch, Proof};

fn leaf(n: u64) -> Field {
    Field::from_limbs([n, 0, 0, 0]).unwrap()
}

fn number(element: Field) -> U256 {
    U256::from_limbs(element.to_limbs())
}

/// The root of the full tree over the given leaves, every node hashed anew.
fn root_from_scratch(leaves: &[Field], depth: usize) -> U256 {
    let mut level: Vec<U256> = Vec::new();
    for i in 0..(1usize << depth) {
        level.push(if i < leaves.len() { number(leaves[i]) } else { U256::ZERO });
    }
    for _ in 0..depth {
        let mut above: Vec<U256> = Vec::new();
        for pair in level.chunks(2) {
            above.push(hash2(pair[0], pair[1]));
        }
        level = above;
    }
    level[0]
}

#[test]
fn empty_tree_of_depth_one_hashes_two_zeros() {
    let tree = Tree::new(1);
    let expected = Field::from_limbs([
        0xa839ee8446b64864,
        0xdc3124d55ffed523,
        0x3ceac3f27b81e481,
        0x2098f5fb9e239eab,
    ])
    .unwrap();
    assert_eq!(tree.root(), expected);
}

#[test]
fn two_leaves_hash_to_the_known_value() {
    let mut tree = Tree::new(1);
    assert_eq!(tree.insert(leaf(31213)), Ok(0));
    assert_eq!(tree.insert(leaf(132)), Ok(1));
    let expected = Field::from_limbs([
        0xba1dbbe2e4d76ab5,
        0x776b5d4280eb5868,
        0x3bcda50514521b33,
        0x303f59cd0831b563,
    ])
    .unwrap();
    assert_eq!(tree.root(), expected);
}

#[test]
fn the_order_of_the_children_matters() {
    let mut one = Tree::new(1);
    one.insert(leaf(31213)).unwrap();
    one.insert(leaf(132)).unwrap();
    let mut other = Tree::new(1);
    other.insert(leaf(132)).unwrap();
    other.insert(leaf(31213)).unwrap();
    assert_ne!(one.root(), other.root());
}

#[test]
fn tree_of_depth_zero_is_its_only_leaf() {
    let mut tree = Tree::new(0);
    assert_eq!(tree.capacity(), 1);
    assert_eq!(tree.root(), Field::zero());
    assert_eq!(tree.insert(leaf(5)), Ok(0));
    assert_eq!(tree.root(), leaf(5));
    assert_eq!(tree.insert(leaf(6)), Err(TreeError::OutOfCapacity));
    assert_eq!(tree.root(), leaf(5));
    assert_eq!(tree.prove(0), Ok(Proof { branches: vec![] }));
}

#[test]
fn new_tree_is_empty() {
    let tree = Tree::new(4);
    assert_eq!(tree.depth(), 4);
    assert_eq!(tree.len(), 0);
    assert_eq!(tree.capacity(), 16);
    assert_eq!(number(tree.root()), root_from_scratch(&[], 4));
}

#[test]
fn deepest_tree_can_be_made() {
    let mut tree = Tree::new(MAX_DEPTH);
    assert_eq!(tree.capacity(), 1u64 << 63);
    assert_eq!(tree.insert(leaf(1)), Ok(0));
    let proof = tree.prove(0).unwrap();
    assert_eq!(proof.branches.len(), 63);
    assert!(proof.verify(leaf(1), tree.root()));
}

#[test]
fn indices_are_given_out_in_order() {
    let mut tree = Tree::new(3);
    for i in 0..8u64 {
        assert_eq!(tree.insert(leaf(100 + i)), Ok(i));
        assert_eq!(tree.len(), i + 1);
    }
}

#[test]
fn full_tree_refuses_insertion_and_stays_as_it_is() {
    let mut tree = Tree::new(2);
    for i in 0..4u64 {
        assert_eq!(tree.insert(leaf(10 + i)), Ok(i));
    }
    let root = tree.root();
    assert_eq!(tree.insert(leaf(99)), Err(TreeError::OutOfCapacity));
    assert_eq!(tree.len(), 4);
    assert_eq!(tree.root(), root);
    assert_eq!(tree.position(leaf(99)), None);
}

#[test]
fn root_after_replay_is_the_root_from_scratch() {
    let mut tree = Tree::new(3);
    let mut leaves: Vec<Field> = Vec::new();
    assert_eq!(number(tree.root()), root_from_scratch(&leaves, 3));
    for i in 0..8u64 {
        let value = leaf(1000 + 7 * i);
        tree.insert(value).unwrap();
        leaves.push(value);
        assert_eq!(number(tree.root()), root_from_scratch(&leaves, 3));
        if i % 3 == 2 {
            let gone = i - 1;
            tree.delete(gone).unwrap();
            leaves[gone as usize] = Field::zero();
            assert_eq!(number(tree.root()), root_from_scratch(&leaves, 3));
        }
    }
}

#[test]
fn deletion_sets_the_leaf_to_zero_and_keeps_the_index() {
    let mut tree = Tree::new(2);
    tree.insert(leaf(1)).unwrap();
    tree.insert(leaf(2)).unwrap();
    assert_eq!(tree.delete(0), Ok(()));
    assert_eq!(tree.len(), 2);
    assert_eq!(tree.position(leaf(1)), None);
    assert_eq!(tree.insert(leaf(3)), Ok(2));
    let mut other = Tree::new(2);
    other.insert(Field::zero()).unwrap();
    other.insert(leaf(2)).unwrap();
    other.insert(leaf(3)).unwrap();
    assert_eq!(tree.root(), other.root());
}

#[test]
fn deleting_twice_changes_nothing_more() {
    let mut tree = Tree::new(2);
    tree.insert(leaf(1)).unwrap();
    tree.delete(0).unwrap();
    let root = tree.root();
    assert_eq!(tree.delete(0), Ok(()));
    assert_eq!(tree.root(), root);
}

#[test]
fn deleting_the_only_leaf_gives_the_empty_root() {
    let mut tree = Tree::new(3);
    let empty = tree.root();
    tree.insert(leaf(8)).unwrap();
    assert_ne!(tree.root(), empty);
    tree.delete(0).unwrap();
    assert_eq!(tree.root(), empty);
}

#[test]
fn unassigned_index_is_invalid() {
    let mut tree = Tree::new(3);
    assert_eq!(tree.delete(0), Err(TreeError::InvalidIndex));
    assert!(matches!(tree.prove(0), Err(TreeError::InvalidIndex)));
    tree.insert(leaf(1)).unwrap();
    let root = tree.root();
    assert_eq!(tree.delete(1), Err(TreeError::InvalidIndex));
    assert_eq!(tree.delete(8), Err(TreeError::InvalidIndex));
    assert_eq!(tree.delete(u64::MAX), Err(TreeError::InvalidIndex));
    assert!(matches!(tree.prove(1), Err(TreeError::InvalidIndex)));
    assert_eq!(tree.root(), root);
    assert_eq!(tree.len(), 1);
}

#[test]
fn every_assigned_leaf_has_a_valid_proof() {
    let mut tree = Tree::new(4);
    for i in 0..11u64 {
        tree.insert(leaf(50 + i)).unwrap();
    }
    tree.delete(4).unwrap();
    let root = tree.root();
    for i in 0..11u64 {
        let value = if i == 4 { Field::zero() } else { leaf(50 + i) };
        let proof = tree.prove(i).unwrap();
        assert_eq!(proof.branches.len(), 4);
        assert_eq!(proof.root(value), root);
        assert!(proof.verify(value, root));
        assert!(!proof.verify(leaf(49), root));
    }
}

#[test]
fn proof_names_the_siblings_from_the_leaf_upwards() {
    let mut tree = Tree::new(2);
    for i in 1..=3u64 {
        tree.insert(leaf(i)).unwrap();
    }
    let pair = |l: Field, r: Field| {
        Field::from_limbs(hash2(number(l), number(r)).into_limbs()).unwrap()
    };
    let left = pair(leaf(1), leaf(2));
    let right = pair(leaf(3), Field::zero());
    assert_eq!(tree.root(), pair(left, right));
    assert_eq!(
        tree.prove(0).unwrap().branches,
        vec![Branch::Left(leaf(2)), Branch::Left(right)]
    );
    assert_eq!(
        tree.prove(1).unwrap().branches,
        vec![Branch::Right(leaf(1)), Branch::Left(right)]
    );
    assert_eq!(
        tree.prove(2).unwrap().branches,
        vec![Branch::Left(Field::zero()), Branch::Right(left)]
    );
}

#[test]
fn proof_does_not_fit_another_root() {
    let mut tree = Tree::new(3);
    tree.insert(leaf(1)).unwrap();
    let proof = tree.prove(0).unwrap();
    let old_root = tree.root();
    tree.insert(leaf(2)).unwrap();
    assert!(proof.verify(leaf(1), old_root));
    assert!(!proof.verify(leaf(1), tree.root()));
}

#[test]
fn empty_path_leads_to_the_leaf_itself() {
    let proof = Proof { branches: vec![] };
    assert_eq!(proof.root(leaf(3)), leaf(3));
    assert!(proof.verify(leaf(3), leaf(3)));
    assert!(!proof.verify(leaf(3), leaf(4)));
}

#[test]
fn position_is_the_first_index_with_the_value() {
    let mut tree = Tree::new(3);
    tree.insert(leaf(5)).unwrap();
    tree.insert(leaf(6)).unwrap();
    tree.insert(leaf(5)).unwrap();
    tree.insert(leaf(7)).unwrap();
    assert_eq!(tree.position(leaf(5)), Some(0));
    assert_eq!(tree.position(leaf(6)), Some(1));
    assert_eq!(tree.position(leaf(7)), Some(3));
    assert_eq!(tree.position(leaf(8)), None);
    tree.delete(0).unwrap();
    assert_eq!(tree.position(leaf(5)), Some(2));
}

#[test]
fn zero_is_found_nowhere() {
    let mut tree = Tree::new(3);
    assert_eq!(tree.position(Field::zero()), None);
    tree.insert(Field::zero()).unwrap();
    tree.insert(leaf(1)).unwrap();
    tree.delete(1).unwrap();
    assert_eq!(tree.position(Field::zero()), None);
}

#[test]
fn snapshot_is_not_touched_by_later_changes() {
    let mut tree = Tree::new(3);
    tree.insert(leaf(1)).unwrap();
    tree.insert(leaf(2)).unwrap();
    let copy = tree.snapshot();
    let root = tree.root();
    tree.delete(0).unwrap();
    tree.insert(leaf(3)).unwrap();
    assert_ne!(tree.root(), root);
    assert_eq!(copy.root(), root);
    assert_eq!(copy.len(), 2);
    assert_eq!(copy.depth(), 3);
    assert_eq!(copy.position(leaf(1)), Some(0));
    assert_eq!(copy.position(leaf(3)), None);
    assert!(copy.prove(0).unwrap().verify(leaf(1), root));
}
