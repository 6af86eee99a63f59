use prune::field::Fr;
use prune::poseidon::hash2;
use prune::tree::{compute_empty_hashes, IncrementalMerkleTree, TREE_DEPTH};

#[test]
fn test_empty_tree_has_deterministic_root() {
    let tree1 = IncrementalMerkleTree::new();
    let tree2 = IncrementalMerkleTree::new();
    assert_eq!(tree1.root(), tree2.root(), "Empty trees must have same root");
}

#[test]
fn test_append_changes_root() {
    let mut tree = IncrementalMerkleTree::new();
    let root_before = tree.root();

    tree.append(Fr::from(42u64));
    let root_after = tree.root();

    assert_ne!(root_before, root_after, "Adding a leaf must change the root");
}

#[test]
fn test_append_returns_sequential_indices() {
    let mut tree = IncrementalMerkleTree::new();
    assert_eq!(tree.append(Fr::from(1u64)), 0);
    assert_eq!(tree.append(Fr::from(2u64)), 1);
    assert_eq!(tree.append(Fr::from(3u64)), 2);
}

#[test]
fn test_merkle_path_verifies() {
    let mut tree = IncrementalMerkleTree::new();

    let leaf = Fr::from(42u64);
    let index = tree.append(leaf);
    let root = tree.root();

    let path = tree.merkle_path(index);
    let computed_root = path.compute_root(leaf);

    assert_eq!(computed_root, root, "Merkle path must verify against tree root");
}

#[test]
fn test_merkle_path_multiple_leaves() {
    let mut tree = IncrementalMerkleTree::new();

    let leaves: Vec<Fr> = (0..8).map(|i| Fr::from(i * 100u64)).collect();
    for &leaf in &leaves {
        tree.append(leaf);
    }

    let root = tree.root();

    // Verify path for each leaf
    for (i, &leaf) in leaves.iter().enumerate() {
        let path = tree.merkle_path(i as u64);
        let computed_root = path.compute_root(leaf);
        assert_eq!(
            computed_root, root,
            "Merkle path for leaf {} must verify",
            i
        );
    }
}

#[test]
fn test_wrong_leaf_wrong_root() {
    let mut tree = IncrementalMerkleTree::new();
    tree.append(Fr::from(42u64));

    let root = tree.root();
    let path = tree.merkle_path(0);

    // Using wrong leaf should produce different root
    let wrong_root = path.compute_root(Fr::from(999u64));
    assert_ne!(wrong_root, root, "Wrong leaf should not verify");
}

#[test]
fn test_tree_length() {
    let mut tree = IncrementalMerkleTree::new();
    assert_eq!(tree.len(), 0);
    assert!(tree.is_empty());

    tree.append(Fr::from(1u64));
    assert_eq!(tree.len(), 1);
    assert!(!tree.is_empty());

    tree.append(Fr::from(2u64));
    assert_eq!(tree.len(), 2);
}

#[test]
fn empty_hashes_start_at_the_hash_of_zero() {
    let empty = compute_empty_hashes();
    assert_eq!(empty.len(), TREE_DEPTH + 1);
    assert_eq!(empty[0], hash2(Fr::zero(), Fr::zero()));
    assert_eq!(empty[1], hash2(empty[0], empty[0]));
    assert_eq!(IncrementalMerkleTree::new().root(), empty[TREE_DEPTH]);
}

#[test]
fn every_leaf_changes_the_root() {
    let mut tree = IncrementalMerkleTree::new();
    let mut roots = vec![tree.root()];
    for leaf in [0u64, 0, 5] {
        tree.append(Fr::from(leaf));
        assert!(!roots.contains(&tree.root()));
        roots.push(tree.root());
    }
}

#[test]
fn root_of_three_leaves_is_built_by_hand() {
    let mut tree = IncrementalMerkleTree::new();
    for leaf in 1..=3u64 {
        tree.append(Fr::from(leaf));
    }
    let empty = compute_empty_hashes();
    let left = hash2(Fr::from(1), Fr::from(2));
    let right = hash2(Fr::from(3), empty[0]);
    let mut root = hash2(left, right);
    for level in 2..TREE_DEPTH {
        root = hash2(root, empty[level]);
    }
    assert_eq!(tree.root(), root);
    assert_eq!(tree.leaves(), vec![Fr::from(1), Fr::from(2), Fr::from(3)]);
    let path = tree.merkle_path(2);
    assert_eq!(path.siblings[0], empty[0]);
    assert_eq!(path.siblings[1], left);
    assert_eq!(path.indices[..3], [false, true, false]);
}

#[test]
fn old_paths_lead_to_old_roots_only() {
    let mut tree = IncrementalMerkleTree::new();
    tree.append(Fr::from(1));
    let (path, root) = (tree.merkle_path(0), tree.root());
    tree.append(Fr::from(2));
    assert_eq!(path.compute_root(Fr::from(1)), root);
    assert_ne!(path.compute_root(Fr::from(1)), tree.root());
    assert_eq!(tree.merkle_path(0).compute_root(Fr::from(1)), tree.root());
}
