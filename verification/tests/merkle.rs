use sha2::Digest;
use std::collections::HashSet;

use selective_privacy::default_hashes::default_hash;
use selective_privacy::default_hashes::one_hash;
use selective_privacy::default_hashes::zero_hash;
use selective_privacy::merkle::hash_node;
use selective_privacy::merkle::SparseMerkleTree;
use selective_privacy::merkle::TREE_DEPTH;

#[test]
fn test_default_hashes() {
    assert_eq!(default_hash(TREE_DEPTH - 1), zero_hash());
    assert_eq!(
        default_hash(0),
        [
            157, 148, 193, 146, 141, 23, 128, 25, 196, 90, 21, 193, 179, 235, 209, 157, 146,
            64, 171, 100, 192, 44, 121, 46, 78, 53, 190, 198, 191, 82, 85, 16
        ]
    );
}

#[test]
fn test_empty_tree() {
    let empty_tree = SparseMerkleTree::new_empty();
    assert_eq!(empty_tree.root(), default_hash(0));
}

#[test]
fn test_tree_1() {
    let values: HashSet<u32> = vec![0, 1, 2, 3].into_iter().collect();
    let tree = SparseMerkleTree::new(values);
    assert_eq!(
        tree.root(),
        [
            109, 94, 224, 93, 195, 77, 137, 36, 108, 105, 177, 22, 212, 17, 160, 255, 224, 61,
            191, 17, 129, 10, 26, 76, 197, 42, 230, 160, 80, 44, 101, 184
        ]
    );
}

#[test]
fn test_tree_2() {
    let values: HashSet<u32> = vec![2147483648, 2147483649, 2147483650, 2147483651]
        .into_iter()
        .collect();
    let tree = SparseMerkleTree::new(values);

    assert_eq!(
        tree.root(),
        [
            36, 178, 159, 245, 165, 76, 242, 85, 25, 218, 149, 135, 194, 127, 130, 201, 219,
            187, 167, 216, 1, 222, 234, 197, 152, 156, 243, 174, 68, 27, 114, 8
        ]
    );
}

#[test]
fn test_tree_3() {
    let values: HashSet<u32> = vec![2147483648, 0, 1, 2147483649].into_iter().collect();
    let tree = SparseMerkleTree::new(values);

    assert_eq!(
        tree.root(),
        [
            148, 76, 190, 191, 248, 243, 89, 40, 197, 157, 206, 23, 58, 197, 86, 169, 225, 217,
            110, 166, 54, 10, 245, 175, 168, 4, 145, 220, 30, 210, 67, 113
        ]
    );
}

#[test]
fn test_auth_path() {
    let values: HashSet<u32> = vec![0, 1, 2, 3, 1337].into_iter().collect();
    let mut tree = SparseMerkleTree::new(values);
    let root = tree.root();
    let path = tree.get_authentication_path_for_value(0);
    assert!(SparseMerkleTree::verify_value_is_in_set(0, path, root));
    let path = tree.get_authentication_path_for_value(1);
    assert!(SparseMerkleTree::verify_value_is_in_set(1, path, root));
    let path = tree.get_authentication_path_for_value(1337);
    assert!(SparseMerkleTree::verify_value_is_in_set(1337, path, root));
    let path = tree.get_authentication_path_for_value(1338);
    assert!(!SparseMerkleTree::verify_value_is_in_set(1338, path, root));

    tree.add_value(1338);
    let path = tree.get_authentication_path_for_value(1338);
    let root = tree.root();
    assert!(SparseMerkleTree::verify_value_is_in_set(1338, path, root));
}

#[test]
fn leaf_hashes_are_sha256_of_one_byte() {
    let zero: [u8; 32] = sha2::Sha256::digest([0u8]).into();
    let one: [u8; 32] = sha2::Sha256::digest([1u8]).into();
    assert_eq!(zero_hash(), zero);
    assert_eq!(one_hash(), one);
}

#[test]
fn default_hashes_chain_upwards() {
    for level in 0..TREE_DEPTH - 1 {
        let below = default_hash(level + 1);
        assert_eq!(default_hash(level), hash_node(&below, &below));
    }
}

#[test]
fn hash_node_hashes_the_concatenation() {
    let left = [7u8; 32];
    let right = [9u8; 32];
    let mut both = left.to_vec();
    both.extend_from_slice(&right);
    let expected: [u8; 32] = sha2::Sha256::digest(&both).into();
    assert_eq!(hash_node(&left, &right), expected);
    assert_ne!(hash_node(&left, &right), hash_node(&right, &left));
}

#[test]
fn root_depends_only_on_the_set() {
    let a: HashSet<u32> = vec![5, 77, 4000000000].into_iter().collect();
    let mut tree = SparseMerkleTree::new_empty();
    tree.add_value(4000000000);
    tree.add_value(5);
    tree.add_value(77);
    tree.add_value(5);
    assert_eq!(tree.root(), SparseMerkleTree::new(a.clone()).root());
    assert_eq!(tree.values(), a);
}

#[test]
fn adding_a_present_value_changes_nothing() {
    let values: HashSet<u32> = vec![10, 11].into_iter().collect();
    let mut tree = SparseMerkleTree::new(values);
    let root = tree.root();
    let path = tree.get_authentication_path_for_value(10);
    tree.add_value(10);
    assert_eq!(tree.root(), root);
    assert_eq!(tree.get_authentication_path_for_value(10), path);
}

#[test]
fn every_member_path_verifies_and_moves_root() {
    let values: HashSet<u32> = vec![0, u32::MAX, 123456, 123457, 1 << 31].into_iter().collect();
    let tree = SparseMerkleTree::new(values.clone());
    let root = tree.root();
    assert_ne!(root, default_hash(0));
    for v in values {
        let path = tree.get_authentication_path_for_value(v);
        assert!(SparseMerkleTree::verify_value_is_in_set(v, path, root));
        // the path of a member does not prove its sibling leaf
        let other = v ^ 1;
        if !tree.values().contains(&other) {
            assert!(!SparseMerkleTree::verify_value_is_in_set(other, path, root));
        }
    }
}

#[test]
fn empty_tree_path_is_all_defaults() {
    let tree = SparseMerkleTree::new_empty();
    let path = tree.get_authentication_path_for_value(42);
    for k in 0..32 {
        assert_eq!(path[k], default_hash(31 - k));
    }
    assert!(!SparseMerkleTree::verify_value_is_in_set(42, path, tree.root()));
}

#[test]
fn inserting_a_value_keeps_its_own_path() {
    let mut tree = SparseMerkleTree::new([7u32, 1_000_000].into_iter().collect());
    let before = tree.get_authentication_path_for_value(42);
    let root_before = tree.root();
    assert!(!SparseMerkleTree::verify_value_is_in_set(42, before, root_before));
    tree.add_value(42);
    assert_eq!(tree.get_authentication_path_for_value(42), before);
    assert_ne!(tree.root(), root_before);
    assert!(SparseMerkleTree::verify_value_is_in_set(42, before, tree.root()));
}
