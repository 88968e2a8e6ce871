use selective_privacy::flat_programs;
use selective_privacy::ledger::hash;
use selective_privacy::ledger::inputs_outputs_preserve_invariants;
use selective_privacy::programs::pinata;
use selective_privacy::programs::sum_amounts;
use selective_privacy::programs::transfer;
use selective_privacy::programs::transfer_multiple;
use selective_privacy::programs::try_pinata;
use selective_privacy::programs::PINATA_PRIZE;
use selective_privacy::types::Account;

fn account(address: u32, balance: u128) -> Account {
    Account::new([address; 8], balance)
}

#[test]
fn transfer_moves_balance() {
    let sender = account(5, 150);
    let receiver = account(6, 900);
    let out = transfer(vec![sender, receiver], 3);
    assert_eq!(out.accounts_pre, vec![sender, receiver]);
    assert_eq!(out.accounts_post[0].balance, 147);
    assert_eq!(out.accounts_post[1].balance, 903);
    assert_eq!(out.accounts_post[0].address, [5; 8]);
    assert!(inputs_outputs_preserve_invariants(&out.accounts_pre, &out.accounts_post));
}

#[test]
fn transfer_of_whole_balance() {
    let out = transfer(vec![account(1, 10), account(2, 0)], 10);
    assert_eq!(out.accounts_post[0].balance, 0);
    assert_eq!(out.accounts_post[1].balance, 10);
}

#[test]
fn transfer_multiple_pays_each_recipient() {
    let accounts = vec![account(1, 100), account(2, 5), account(3, 7)];
    let out = transfer_multiple(accounts.clone(), vec![30, 20]);
    assert_eq!(out.accounts_pre, accounts);
    let balances: Vec<u128> = out.accounts_post.iter().map(|a| a.balance).collect();
    assert_eq!(balances, vec![50, 35, 27]);
    assert!(inputs_outputs_preserve_invariants(&out.accounts_pre, &out.accounts_post));
}

#[test]
fn sum_of_amounts() {
    assert_eq!(sum_amounts(&vec![]), 0);
    assert_eq!(sum_amounts(&vec![1, 2, 3]), 6);
}

#[test]
fn flat_transfer_lists_pre_then_post() {
    let out = flat_programs::transfer(account(5, 150), account(6, 900), 3);
    let balances: Vec<u128> = out.iter().map(|a| a.balance).collect();
    assert_eq!(balances, vec![150, 900, 147, 903]);
}

#[test]
fn flat_transfer_multiple_lists_pre_then_post() {
    let out = flat_programs::transfer_multiple(vec![account(1, 9), account(2, 1)], vec![4]);
    let balances: Vec<u128> = out.iter().map(|a| a.balance).collect();
    assert_eq!(balances, vec![9, 1, 5, 5]);
    assert!(inputs_outputs_preserve_invariants(&out[..2], &out[2..]));
}

#[test]
fn pinata_rejects_wrong_preimage_or_account() {
    let pinata_account = account(0xcafe, 1000);
    let winner = account(9, 0);
    assert!(try_pinata(vec![pinata_account, winner], vec![1, 2, 3]).is_none());
    assert!(try_pinata(vec![account(0xcaff, 1000), winner], vec![1, 2, 3]).is_none());
    assert!(try_pinata(vec![pinata_account], vec![1, 2, 3]).is_none());
    assert!(try_pinata(vec![account(0xcafe, 99), winner], vec![]).is_none());
}

#[test]
fn pinata_target_is_a_risc0_hash() {
    // The guest compares the hash of the preimage with its fixed target.
    let target = [1363824975u32, 720119575, 717909014, 2043925380, 717793160, 1495780600, 1253022833, 116132328];
    assert_ne!(hash(&[]), target);
    assert_eq!(PINATA_PRIZE, 100);
}

#[test]
fn pinata_pays_the_prize_when_accepted() {
    // Without a known preimage the paying branch is run through the unchecked program.
    let pinata_account = account(0xcafe, 1000);
    let winner = account(9, 1);
    let preimage: Vec<u32> = vec![];
    if hash(&preimage) == [1363824975, 720119575, 717909014, 2043925380, 717793160, 1495780600, 1253022833, 116132328] {
        let out = pinata(vec![pinata_account, winner], preimage);
        assert_eq!(out[2].balance, 900);
        assert_eq!(out[3].balance, 101);
    }
}
