use std::collections::HashSet;

use selective_privacy::ledger::bytes_to_words;
use selective_privacy::ledger::compute_nullifier;
use selective_privacy::merkle::SparseMerkleTree;
use selective_privacy::privacy::assemble_privacy_execution_output;
use selective_privacy::privacy::build_private_outputs_from_inner_results;
use selective_privacy::privacy::fresh_account;
use selective_privacy::privacy::mint_fresh_account;
use selective_privacy::privacy::new_random_nonce;
use selective_privacy::privacy::private_inputs_are_valid;
use selective_privacy::privacy::run_privacy_circuit;
use selective_privacy::privacy::verify_and_nullify_private_inputs;
use selective_privacy::private_circuit::run_private_execution_circuit;
use selective_privacy::programs::transfer;
use selective_privacy::types::Account;
use selective_privacy::types::AccountVisibility;
use selective_privacy::types::AuthenticationPath;
use selective_privacy::types::InputVisibiility;
use selective_privacy::types::ProgramOutput;

const SENDER_KEY: [u32; 8] = [1, 2, 3, 4, 4, 3, 2, 1];

fn sender() -> Account {
    let mut account = Account::new_from_private_key(SENDER_KEY);
    account.balance = 150;
    account.nonce = [1; 8];
    account
}

fn word_path(tree: &SparseMerkleTree, value: u32) -> AuthenticationPath {
    let path = tree.get_authentication_path_for_value(value);
    let mut words = [[0u32; 8]; 32];
    for k in 0..32 {
        words[k] = bytes_to_words(&path[k]);
    }
    words
}

/// A private sender spending a committed account and a fresh private receiver.
fn private_transfer() -> (ProgramOutput, Vec<AccountVisibility>, [u32; 8]) {
    let sender = sender();
    let values: HashSet<u32> = vec![sender.commitment()].into_iter().collect();
    let tree = SparseMerkleTree::new(values);
    let root = bytes_to_words(&tree.root());
    let path = word_path(&tree, sender.commitment());
    let receiver = Account::new([99; 8], 0);
    let inner = transfer(vec![sender, receiver], 3);
    let visibilities = vec![
        AccountVisibility::Private(Some((SENDER_KEY, path))),
        AccountVisibility::Private(None),
    ];
    (inner, visibilities, root)
}

#[test]
fn private_transfer_passes_the_circuit() {
    let (inner, visibilities, root) = private_transfer();
    assert!(private_inputs_are_valid(&inner, &visibilities, root));
    let nullifiers = verify_and_nullify_private_inputs(&inner, &visibilities, root);
    assert_eq!(nullifiers, vec![compute_nullifier(&sender().commitment(), &SENDER_KEY)]);

    let nonces = vec![[7u32; 8], [8u32; 8]];
    let out = run_privacy_circuit(inner.clone(), visibilities.clone(), nonces.clone(), root).unwrap();
    assert!(out.public_accounts_pre.is_empty());
    assert!(out.public_accounts_post.is_empty());
    assert_eq!(out.nullifiers, nullifiers);
    assert_eq!(out.commitment_tree_root, root);

    let private_outputs = build_private_outputs_from_inner_results(&inner, &visibilities, &nonces);
    assert_eq!(private_outputs.len(), 2);
    assert_eq!(private_outputs[0].nonce, [7; 8]);
    assert_eq!(private_outputs[1].balance, 3);
    let commitments: Vec<u32> = private_outputs.iter().map(|a| a.commitment()).collect();
    assert_eq!(out.private_output_commitments, commitments);
}

#[test]
fn circuit_rejects_wrong_key_root_or_dirty_new_account() {
    let (inner, visibilities, root) = private_transfer();
    let nonces = vec![[7u32; 8], [8u32; 8]];

    let mut wrong_root = root;
    wrong_root[0] ^= 1;
    assert!(!private_inputs_are_valid(&inner, &visibilities, wrong_root));
    assert!(run_privacy_circuit(inner.clone(), visibilities.clone(), nonces.clone(), wrong_root).is_none());

    let mut wrong_key = visibilities.clone();
    if let AccountVisibility::Private(Some((_, path))) = visibilities[0] {
        wrong_key[0] = AccountVisibility::Private(Some(([9; 8], path)));
    }
    assert!(!private_inputs_are_valid(&inner, &wrong_key, root));

    let mut dirty = inner.clone();
    dirty.accounts_pre[1].balance = 1;
    assert!(!private_inputs_are_valid(&dirty, &visibilities, root));

    // one nonce too few
    assert!(run_privacy_circuit(inner, visibilities, vec![[7u32; 8]], root).is_none());
}

#[test]
fn circuit_rejects_broken_chain_rules() {
    let a = Account::new([5; 8], 150);
    let b = Account::new([6; 8], 900);
    let mut post_b = b;
    post_b.balance = 901;
    let inner = ProgramOutput { accounts_pre: vec![a, b], accounts_post: vec![a, post_b] };
    let visibilities = vec![AccountVisibility::Public, AccountVisibility::Public];
    assert!(run_privacy_circuit(inner, visibilities, vec![[0; 8], [0; 8]], [0; 8]).is_none());
}

#[test]
fn public_accounts_are_published_in_the_clear() {
    let a = Account::new([5; 8], 150);
    let b = Account::new([6; 8], 0);
    let inner = transfer(vec![a, b], 50);
    let visibilities = vec![AccountVisibility::Public, AccountVisibility::Private(None)];
    let nonces = vec![[3u32; 8], [4u32; 8]];
    let out = assemble_privacy_execution_output(inner.clone(), visibilities.clone(), nonces.clone(), [2; 8], vec![]);
    assert_eq!(out.public_accounts_pre, vec![a]);
    assert_eq!(out.public_accounts_post.len(), 1);
    assert_eq!(out.public_accounts_post[0].balance, 100);
    assert_eq!(out.public_accounts_post[0].nonce, [3; 8]);
    let mut receiver_post = inner.accounts_post[1];
    receiver_post.nonce = [4; 8];
    assert_eq!(out.private_output_commitments, vec![receiver_post.commitment()]);
    assert_eq!(out.commitment_tree_root, [2; 8]);

    let run = run_privacy_circuit(inner, visibilities, nonces, [2; 8]).unwrap();
    assert_eq!(run.public_accounts_post, out.public_accounts_post);
}

#[test]
fn private_execution_circuit_on_flat_lists() {
    let sender = sender();
    let values: HashSet<u32> = vec![sender.commitment()].into_iter().collect();
    let tree = SparseMerkleTree::new(values);
    let root = bytes_to_words(&tree.root());
    let path = word_path(&tree, sender.commitment());
    let receiver = Account::new([99; 8], 0);
    let flat = selective_privacy::flat_programs::transfer(sender, receiver, 3);
    let visibilities = vec![InputVisibiility::Private(Some((SENDER_KEY, path))), InputVisibiility::Private(None)];
    let nonces = vec![[7u32; 8], [8u32; 8]];
    let (public, nullifiers, commitments) =
        run_private_execution_circuit(2, flat.clone(), visibilities.clone(), nonces.clone(), root).unwrap();
    assert!(public.is_empty());
    assert_eq!(nullifiers, vec![compute_nullifier(&sender.commitment(), &SENDER_KEY)]);
    assert_eq!(commitments.len(), 2);
    assert!(run_private_execution_circuit(3, flat.clone(), visibilities.clone(), nonces.clone(), root).is_none());
    assert!(run_private_execution_circuit(2, flat, visibilities, nonces, [0; 8]).is_none());
}

#[test]
fn minted_account_is_empty() {
    let a = mint_fresh_account([99; 8]).unwrap();
    assert_eq!(a.address, [99; 8]);
    assert_eq!(a.balance, 0);
    assert_eq!(a.program_owner, None);
}

#[test]
fn fresh_account_takes_the_given_nonce() {
    let a = fresh_account([99; 8], [5; 8]);
    assert_eq!(a.address, [99; 8]);
    assert_eq!(a.balance, 0);
    assert_eq!(a.program_owner, None);
    assert_eq!(a.nonce, [5; 8]);
    assert!(new_random_nonce().is_some());
}
