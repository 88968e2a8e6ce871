use sha2::Digest;
use std::collections::HashSet;

use selective_privacy::ledger::bytes_to_words;
use selective_privacy::ledger::compute_nullifier;
use selective_privacy::ledger::hash;
use selective_privacy::ledger::inputs_outputs_preserve_invariants;
use selective_privacy::ledger::is_in_tree;
use selective_privacy::merkle::SparseMerkleTree;
use selective_privacy::default_hashes::one_hash;
use selective_privacy::types::Account;
use selective_privacy::types::AuthenticationPath;

fn account(address: u32, balance: u128) -> Account {
    Account::new([address; 8], balance)
}

#[test]
fn bytes_to_words_reads_little_endian() {
    let mut bytes = [0u8; 32];
    for (i, b) in bytes.iter_mut().enumerate() {
        *b = i as u8;
    }
    let words = bytes_to_words(&bytes);
    assert_eq!(words[0], 0x03020100);
    assert_eq!(words[7], 0x1f1e1d1c);
    for i in 0..8 {
        assert_eq!(words[i], u32::from_le_bytes(bytes[4 * i..4 * i + 4].try_into().unwrap()));
    }
}

#[test]
fn hash_is_sha256_of_little_endian_words() {
    let words = [1u32, 2, 3, 0xdeadbeef];
    let mut bytes = Vec::new();
    for w in words {
        bytes.extend_from_slice(&w.to_le_bytes());
    }
    let digest: [u8; 32] = sha2::Sha256::digest(&bytes).into();
    assert_eq!(hash(&words), bytes_to_words(&digest));
}

#[test]
fn one_hash_in_words() {
    assert_eq!(
        bytes_to_words(&one_hash()),
        [789771595, 3310634292, 3140410939, 3820475020, 3591004369, 2777006897, 1021496535, 2588247415]
    );
}

#[test]
fn new_account_fields() {
    let a = Account::new([5; 8], 150);
    assert_eq!(a.program_owner, None);
    assert_eq!(a.address, [5; 8]);
    assert_eq!(a.balance, 150);
    assert_eq!(a.nonce, [0; 8]);
}

#[test]
fn account_from_private_key_has_hashed_address() {
    let key = [1, 2, 3, 4, 4, 3, 2, 1];
    let a = Account::new_from_private_key(key);
    assert_eq!(a.address, hash(&key));
    assert_eq!(a.address, Account::address_for_key(&key));
    assert_eq!(a.balance, 0);
    assert_eq!(a.nonce, [0; 8]);
    assert_ne!(a.address, key);
}

#[test]
fn commitment_is_first_word_of_serialized_hash() {
    let mut a = Account::new([7; 8], 0x0102_0304_0506_0708_090a_0b0c_0d0e_0f10);
    a.nonce = [9; 8];
    let words = risc0_zkvm::serde::to_vec(&(a.program_owner, a.address, a.balance, a.nonce)).unwrap();
    let mut expected_words = vec![0u32];
    expected_words.extend_from_slice(&[7; 8]);
    expected_words.extend_from_slice(&[0x0d0e0f10, 0x090a0b0c, 0x05060708, 0x01020304]);
    expected_words.extend_from_slice(&[9; 8]);
    assert_eq!(words, expected_words);
    assert_eq!(a.commitment(), hash(&expected_words)[0]);

    let mut owned = a;
    owned.program_owner = Some([3; 8]);
    let mut owned_words = vec![1u32];
    owned_words.extend_from_slice(&[3; 8]);
    owned_words.extend_from_slice(&expected_words[1..]);
    assert_eq!(owned.commitment(), hash(&owned_words)[0]);
    assert_ne!(owned.commitment(), a.commitment());
}

#[test]
fn nullifier_hashes_commitment_then_key() {
    let key = [11u32, 12, 13, 14, 15, 16, 17, 18];
    let c = 0xabcdef01u32;
    let mut words = vec![c];
    words.extend_from_slice(&key);
    assert_eq!(compute_nullifier(&c, &key), hash(&words));
    assert_ne!(compute_nullifier(&c, &key), compute_nullifier(&(c + 1), &key));
}

fn word_path(tree: &SparseMerkleTree, value: u32) -> AuthenticationPath {
    let path = tree.get_authentication_path_for_value(value);
    let mut words = [[0u32; 8]; 32];
    for k in 0..32 {
        words[k] = bytes_to_words(&path[k]);
    }
    words
}

#[test]
fn is_in_tree_agrees_with_the_sparse_merkle_tree() {
    let sender = {
        let mut account = Account::new_from_private_key([1, 2, 3, 4, 4, 3, 2, 1]);
        account.balance = 150;
        account
    };
    let commitment = sender.commitment();
    let values: HashSet<u32> = vec![commitment, 17, 99].into_iter().collect();
    let tree = SparseMerkleTree::new(values);
    let root = bytes_to_words(&tree.root());
    assert!(is_in_tree(commitment, &word_path(&tree, commitment), root));
    assert!(is_in_tree(17, &word_path(&tree, 17), root));
    assert!(!is_in_tree(18, &word_path(&tree, 18), root));
    assert!(!is_in_tree(commitment ^ 1, &word_path(&tree, commitment), root));
}

#[test]
fn invariants_hold_for_a_transfer() {
    let pre = vec![account(5, 150), account(6, 900)];
    let post = vec![account(5, 147), account(6, 903)];
    assert!(inputs_outputs_preserve_invariants(&pre, &post));
}

#[test]
fn invariants_reject_changed_supply() {
    let pre = vec![account(5, 150), account(6, 900)];
    let post = vec![account(5, 150), account(6, 901)];
    assert!(!inputs_outputs_preserve_invariants(&pre, &post));
}

#[test]
fn invariants_reject_changed_address_nonce_or_length() {
    let pre = vec![account(5, 150), account(6, 900)];
    let post = vec![account(5, 150), account(7, 900)];
    assert!(!inputs_outputs_preserve_invariants(&pre, &post));

    let mut renonced = pre.clone();
    renonced[1].nonce = [1; 8];
    assert!(!inputs_outputs_preserve_invariants(&pre, &renonced));

    assert!(!inputs_outputs_preserve_invariants(&pre, &pre[..1]));
    assert!(inputs_outputs_preserve_invariants(&[], &[]));
}

#[test]
fn supply_check_handles_totals_past_u128() {
    let pre = vec![account(1, 10), account(2, 0)];
    let post = vec![account(1, u128::MAX), account(2, 11)];
    assert!(!inputs_outputs_preserve_invariants(&pre, &post));
    let pre = vec![account(1, u128::MAX), account(2, 1)];
    let post = vec![account(1, 1), account(2, u128::MAX)];
    assert!(inputs_outputs_preserve_invariants(&pre, &post));
    let post = vec![account(1, 2), account(2, u128::MAX)];
    assert!(!inputs_outputs_preserve_invariants(&pre, &post));
}

#[test]
fn bytes_to_words_round_trips() {
    let words: [u32; 8] = [0, 1, 0xdead_beef, u32::MAX, 256, 65536, 16777216, 0x0102_0304];
    let mut bytes = [0u8; 32];
    for (i, w) in words.iter().enumerate() {
        bytes[4 * i..4 * i + 4].copy_from_slice(&w.to_le_bytes());
    }
    assert_eq!(bytes_to_words(&bytes), words);
    let back: Vec<u8> = bytes_to_words(&bytes).iter().flat_map(|w| w.to_le_bytes()).collect();
    assert_eq!(back, bytes.to_vec());
}
