//! The inner programs: balance transfers and the piñata. Each takes the input
//! accounts and its instruction data and gives the accounts' pre and post states.
use vstd::prelude::*;

use crate::ledger::balance_sum;
use crate::ledger::hash;
use crate::ledger::preserves_invariants;
use crate::ledger::risc0_hash_words;
use crate::ledger::words_eq;
use crate::types::Account;
use crate::types::ProgramOutput;

verus! {

/// The balance transfer program between two accounts.
pub struct TransferProgram;

/// The balance transfer program from one sender to several recipients.
pub struct TransferMultipleProgram;

/// The piñata program, which pays a prize for the preimage of a fixed hash.
pub struct PinataProgram;

/// The account with its balance replaced.
pub open spec fn with_balance(a: Account, balance: int) -> Account {
    Account { program_owner: a.program_owner, address: a.address, balance: balance as u128, nonce: a.nonce }
}

/// Total of a sequence of amounts.
pub open spec fn amount_sum(amounts: Seq<u128>) -> int
    decreases amounts.len(),
{
    if amounts.len() == 0 {
        0
    } else {
        amount_sum(amounts.drop_last()) + amounts.last()
    }
}

/// The total balance of two accounts.
proof fn lemma_balance_sum_two(accounts: Seq<Account>)
    requires
        accounts.len() == 2,
    ensures
        balance_sum(accounts) == accounts[0].balance + accounts[1].balance,
{
    let d = accounts.drop_last();
    assert(d.drop_last() =~= Seq::<Account>::empty());
    assert(balance_sum(d.drop_last()) == 0);
    assert(d.last() == accounts[0]);
    assert(balance_sum(d) == accounts[0].balance);
}

/// The total of a prefix is at most the total of the whole sequence.
proof fn lemma_amount_sum_prefix(amounts: Seq<u128>, n: int)
    requires
        0 <= n <= amounts.len(),
    ensures
        0 <= amount_sum(amounts.take(n)) <= amount_sum(amounts),
    decreases amounts.len(),
{
    if amounts.len() > 0 {
        if n == amounts.len() {
            assert(amounts.take(n) =~= amounts);
            lemma_amount_sum_prefix(amounts.drop_last(), n - 1);
        } else {
            lemma_amount_sum_prefix(amounts.drop_last(), n);
            assert(amounts.drop_last().take(n) =~= amounts.take(n));
        }
    }
}

/// The total of the amounts, when it fits in a `u128`.
pub fn sum_amounts(amounts: &Vec<u128>) -> (r: u128)
    requires
        amount_sum(amounts@) <= u128::MAX,
    ensures
        r == amount_sum(amounts@),
{
    let mut total: u128 = 0;
    let mut i: usize = 0;
    while i < amounts.len()
        invariant
            0 <= i <= amounts@.len(),
            amount_sum(amounts@) <= u128::MAX,
            total == amount_sum(amounts@.take(i as int)),
        decreases amounts.len() - i,
    {
        proof {
            lemma_amount_sum_prefix(amounts@, i + 1);
            assert(amounts@.take(i + 1).drop_last() =~= amounts@.take(i as int));
        }
        total = total + amounts[i];
        i += 1;
    }
    assert(amounts@.take(amounts@.len() as int) =~= amounts@);
    total
}

/// The accounts after a transfer of `amount` from the first to the second.
pub open spec fn transfer_post(accounts: Seq<Account>, amount: u128) -> Seq<Account> {
    seq![
        with_balance(accounts[0], accounts[0].balance - amount),
        with_balance(accounts[1], accounts[1].balance + amount),
    ]
}

/// A transfer changes nothing but balances: each post state keeps the owner,
/// address and nonce of its pre state; the sender loses the amount and the
/// receiver gains it.
pub proof fn lemma_transfer_moves_only_balance(accounts: Seq<Account>, amount: u128)
    requires
        accounts.len() == 2,
        accounts[0].balance >= amount,
        accounts[1].balance + amount <= u128::MAX,
    ensures
        transfer_post(accounts, amount).len() == 2,
        forall|i: int|
            0 <= i < 2 ==> (#[trigger] transfer_post(accounts, amount)[i]).program_owner
                == accounts[i].program_owner && transfer_post(accounts, amount)[i].address == accounts[i].address
                && transfer_post(accounts, amount)[i].nonce == accounts[i].nonce,
        transfer_post(accounts, amount)[0].balance == accounts[0].balance - amount,
        transfer_post(accounts, amount)[1].balance == accounts[1].balance + amount,
{
}

/// A transfer of balance program.
/// To be used both in public and private contexts.
/// It is expected to receive only two accounts: [sender_account, receiver_account]
pub fn transfer(input_accounts: Vec<Account>, balance_to_move: u128) -> (r: ProgramOutput)
    requires
        input_accounts@.len() == 2,
        input_accounts@[0].balance >= balance_to_move,
        input_accounts@[1].balance + balance_to_move <= u128::MAX,
    ensures
        r.accounts_pre@ == input_accounts@,
        r.accounts_post@ == transfer_post(input_accounts@, balance_to_move),
        preserves_invariants(r.accounts_pre@, r.accounts_post@),
        r.accounts_post@.len() == 2,
        forall|i: int|
            0 <= i < 2 ==> (#[trigger] r.accounts_post@[i]).program_owner == input_accounts@[i].program_owner
                && r.accounts_post@[i].address == input_accounts@[i].address && r.accounts_post@[i].nonce
                == input_accounts@[i].nonce,
        r.accounts_post@[0].balance == input_accounts@[0].balance - balance_to_move,
        r.accounts_post@[1].balance == input_accounts@[1].balance + balance_to_move,
{
    proof {
        lemma_transfer_moves_only_balance(input_accounts@, balance_to_move);
    }
    let sender = input_accounts[0];
    let receiver = input_accounts[1];
    // Create accounts post states, with updated balances
    let mut sender_post = sender;
    let mut receiver_post = receiver;
    sender_post.balance = sender_post.balance - balance_to_move;
    receiver_post.balance = receiver_post.balance + balance_to_move;
    let accounts_post = vec![sender_post, receiver_post];
    proof {
        let pre = input_accounts@;
        let post = accounts_post@;
        assert(post =~= transfer_post(pre, balance_to_move));
        lemma_balance_sum_two(pre);
        lemma_balance_sum_two(post);
    }
    ProgramOutput { accounts_pre: input_accounts, accounts_post }
}

/// The accounts after the first one pays `targets[i - 1]` to account `i`.
pub open spec fn transfer_multiple_post(accounts: Seq<Account>, targets: Seq<u128>) -> Seq<Account> {
    Seq::new(
        accounts.len(),
        |i: int|
            if i == 0 {
                with_balance(accounts[0], accounts[0].balance - amount_sum(targets))
            } else {
                with_balance(accounts[i], accounts[i].balance + targets[i - 1])
            },
    )
}

/// Paying out amounts that add up to what the payer gives keeps the total balance.
proof fn lemma_transfer_multiple_sum(accounts: Seq<Account>, targets: Seq<u128>, n: int)
    requires
        accounts.len() == targets.len() + 1,
        1 <= n <= accounts.len(),
        accounts[0].balance >= amount_sum(targets),
        forall|i: int| 1 <= i < accounts.len() ==> accounts[i].balance + targets[i - 1] <= u128::MAX,
    ensures
        balance_sum(transfer_multiple_post(accounts, targets).take(n)) == balance_sum(accounts.take(n))
            - amount_sum(targets) + amount_sum(targets.take(n - 1)),
    decreases n,
{
    let post = transfer_multiple_post(accounts, targets);
    if n == 1 {
        assert(post.take(1).drop_last() =~= Seq::<Account>::empty());
        assert(accounts.take(1).drop_last() =~= Seq::<Account>::empty());
        assert(targets.take(0) =~= Seq::<u128>::empty());
        assert(post.take(1).last() == post[0]);
        assert(accounts.take(1).last() == accounts[0]);
        lemma_amount_sum_prefix(targets, targets.len() as int);
        assert(targets.take(targets.len() as int) =~= targets);
        assert(post[0].balance == accounts[0].balance - amount_sum(targets));
        assert(balance_sum(post.take(1).drop_last()) == 0);
        assert(balance_sum(accounts.take(1).drop_last()) == 0);
        assert(balance_sum(post.take(1)) == post[0].balance);
        assert(balance_sum(accounts.take(1)) == accounts[0].balance);
    } else {
        lemma_transfer_multiple_sum(accounts, targets, n - 1);
        assert(post.take(n).drop_last() =~= post.take(n - 1));
        assert(accounts.take(n).drop_last() =~= accounts.take(n - 1));
        assert(targets.take(n - 1).drop_last() =~= targets.take(n - 2));
        assert(post.take(n).last() == post[n - 1]);
        assert(accounts.take(n).last() == accounts[n - 1]);
        assert(targets.take(n - 1).last() == targets[n - 2]);
        assert(post[n - 1].balance == accounts[n - 1].balance + targets[n - 2]);
    }
}

/// A transfer to several recipients changes nothing but balances: each post state
/// keeps the owner, address and nonce of its pre state; the sender loses the total
/// of the amounts and recipient `i` gains `targets[i - 1]`.
pub proof fn lemma_transfer_multiple_moves_only_balances(accounts: Seq<Account>, targets: Seq<u128>)
    requires
        accounts.len() == targets.len() + 1,
        accounts[0].balance >= amount_sum(targets),
        forall|i: int| 1 <= i < accounts.len() ==> accounts[i].balance + targets[i - 1] <= u128::MAX,
    ensures
        transfer_multiple_post(accounts, targets).len() == accounts.len(),
        forall|i: int|
            0 <= i < accounts.len() ==> (#[trigger] transfer_multiple_post(accounts, targets)[i]).program_owner
                == accounts[i].program_owner && transfer_multiple_post(accounts, targets)[i].address
                == accounts[i].address && transfer_multiple_post(accounts, targets)[i].nonce == accounts[i].nonce,
        transfer_multiple_post(accounts, targets)[0].balance == accounts[0].balance - amount_sum(targets),
        forall|i: int|
            1 <= i < accounts.len() ==> (#[trigger] transfer_multiple_post(accounts, targets)[i]).balance
                == accounts[i].balance + targets[i - 1],
{
    lemma_amount_sum_prefix(targets, targets.len() as int);
    assert(targets.take(targets.len() as int) =~= targets);
}

/// A piñata win changes nothing but balances: the pre states come first
/// unchanged, then post states keeping owner, address and nonce, with the prize
/// moved from the piñata to the winner.
pub proof fn lemma_pinata_moves_only_prize(input_accounts: Seq<Account>, preimage: Seq<u32>)
    requires
        pinata_accepts(input_accounts, preimage),
    ensures
        pinata_result(input_accounts).len() == 4,
        pinata_result(input_accounts).take(2) == input_accounts,
        forall|i: int|
            0 <= i < 2 ==> (#[trigger] pinata_result(input_accounts)[2 + i]).program_owner
                == input_accounts[i].program_owner && pinata_result(input_accounts)[2 + i].address
                == input_accounts[i].address && pinata_result(input_accounts)[2 + i].nonce == input_accounts[i].nonce,
        pinata_result(input_accounts)[2].balance == input_accounts[0].balance - PINATA_PRIZE,
        pinata_result(input_accounts)[3].balance == input_accounts[1].balance + PINATA_PRIZE,
{
    assert(pinata_result(input_accounts).take(2) =~= input_accounts);
}

/// A transfer of balance program with one sender and multiple recipients.
/// To be used both in public and private contexts.
/// The first account is the sender; `target_balances[i]` goes to account `i + 1`.
pub fn transfer_multiple(input_accounts: Vec<Account>, target_balances: Vec<u128>) -> (r: ProgramOutput)
    requires
        input_accounts@.len() > 1,
        target_balances@.len() + 1 == input_accounts@.len(),
        amount_sum(target_balances@) <= u128::MAX,
        input_accounts@[0].balance >= amount_sum(target_balances@),
        forall|i: int|
            1 <= i < input_accounts@.len() ==> input_accounts@[i].balance + target_balances@[i - 1]
                <= u128::MAX,
    ensures
        r.accounts_pre@ == input_accounts@,
        r.accounts_post@ == transfer_multiple_post(input_accounts@, target_balances@),
        preserves_invariants(r.accounts_pre@, r.accounts_post@),
        r.accounts_post@.len() == input_accounts@.len(),
        forall|i: int|
            0 <= i < input_accounts@.len() ==> (#[trigger] r.accounts_post@[i]).program_owner
                == input_accounts@[i].program_owner && r.accounts_post@[i].address == input_accounts@[i].address
                && r.accounts_post@[i].nonce == input_accounts@[i].nonce,
        r.accounts_post@[0].balance == input_accounts@[0].balance - amount_sum(target_balances@),
        forall|i: int|
            1 <= i < input_accounts@.len() ==> (#[trigger] r.accounts_post@[i]).balance
                == input_accounts@[i].balance + target_balances@[i - 1],
{
    proof {
        lemma_transfer_multiple_moves_only_balances(input_accounts@, target_balances@);
    }
    // Check that the sender has enough balance to pay to all recipients
    let total_balance_to_move = sum_amounts(&target_balances);
    let sender = input_accounts[0];
    let mut sender_post = sender;
    sender_post.balance = sender_post.balance - total_balance_to_move;
    let mut accounts_post: Vec<Account> = Vec::new();
    accounts_post.push(sender_post);
    let ghost expected = transfer_multiple_post(input_accounts@, target_balances@);
    let mut i: usize = 1;
    while i < input_accounts.len()
        invariant
            1 <= i <= input_accounts@.len(),
            target_balances@.len() + 1 == input_accounts@.len(),
            expected == transfer_multiple_post(input_accounts@, target_balances@),
            accounts_post@ == expected.take(i as int),
            forall|j: int|
                1 <= j < input_accounts@.len() ==> input_accounts@[j].balance + target_balances@[j - 1]
                    <= u128::MAX,
        decreases input_accounts.len() - i,
    {
        let mut receiver = input_accounts[i];
        receiver.balance = receiver.balance + target_balances[i - 1];
        accounts_post.push(receiver);
        assert(accounts_post@ =~= expected.take(i + 1));
        i += 1;
    }
    proof {
        assert(accounts_post@ =~= expected);
        let n = input_accounts@.len() as int;
        lemma_transfer_multiple_sum(input_accounts@, target_balances@, n);
        assert(expected.take(n) =~= expected);
        assert(input_accounts@.take(n) =~= input_accounts@);
        assert(target_balances@.take(n - 1) =~= target_balances@);
    }
    ProgramOutput { accounts_pre: input_accounts, accounts_post }
}

/// The hash whose preimage wins the prize.
pub open spec fn pinata_target_hash() -> Seq<u32> {
    seq![1363824975u32, 720119575, 717909014, 2043925380, 717793160, 1495780600, 1253022833, 116132328]
}

/// The address of the piñata account.
pub open spec fn pinata_account_address() -> Seq<u32> {
    seq![0xcafeu32, 0xcafe, 0xcafe, 0xcafe, 0xcafe, 0xcafe, 0xcafe, 0xcafe]
}

/// The prize paid to the winner.
pub const PINATA_PRIZE: u128 = 100;

/// Inputs on which the piñata pays: the piñata account at its address with enough
/// balance, a winner that can receive the prize, and the right preimage.
pub open spec fn pinata_accepts(input_accounts: Seq<Account>, preimage: Seq<u32>) -> bool {
    &&& input_accounts.len() == 2
    &&& input_accounts[0].address@ == pinata_account_address()
    &&& input_accounts[0].balance >= PINATA_PRIZE
    &&& risc0_hash_words(preimage) == pinata_target_hash()
    &&& input_accounts[1].balance + PINATA_PRIZE <= u128::MAX
}

/// Pre states then post states of a piñata win.
pub open spec fn pinata_result(input_accounts: Seq<Account>) -> Seq<Account> {
    seq![
        input_accounts[0],
        input_accounts[1],
        with_balance(input_accounts[0], input_accounts[0].balance - PINATA_PRIZE),
        with_balance(input_accounts[1], input_accounts[1].balance + PINATA_PRIZE),
    ]
}

/// A Piñata program
/// To be used both in public and privacy contexts.
/// It is expected to receive only two accounts: [pinata_account, winner_account]
pub fn pinata(input_accounts: Vec<Account>, preimage: Vec<u32>) -> (r: Vec<Account>)
    requires
        pinata_accepts(input_accounts@, preimage@),
    ensures
        r@ == pinata_result(input_accounts@),
        preserves_invariants(r@.take(2), r@.skip(2)),
{
    let pinata_account = input_accounts[0];
    let winner_account = input_accounts[1];
    // Pay the prize
    let mut winner_account_post = winner_account;
    let mut pinata_account_post = pinata_account;
    pinata_account_post.balance = pinata_account_post.balance - PINATA_PRIZE;
    winner_account_post.balance = winner_account_post.balance + PINATA_PRIZE;
    let r = vec![pinata_account, winner_account, pinata_account_post, winner_account_post];
    proof {
        assert(r@ =~= pinata_result(input_accounts@));
        lemma_balance_sum_two(r@.take(2));
        lemma_balance_sum_two(r@.skip(2));
    }
    r
}

/// The piñata program with its checks made: `None` where the program aborts.
pub fn try_pinata(input_accounts: Vec<Account>, preimage: Vec<u32>) -> (r: Option<Vec<Account>>)
    ensures
        r is Some <==> pinata_accepts(input_accounts@, preimage@),
        r matches Some(out) ==> out@ == pinata_result(input_accounts@),
{
    // Unpack accounts.
    if input_accounts.len() != 2 {
        return None;
    }
    // Check that the given `pinata_account` is correct
    let pinata_address: [u32; 8] = [0xcafe; 8];
    assert(pinata_address@ =~= pinata_account_address());
    if !words_eq(&input_accounts[0].address, &pinata_address) {
        return None;
    }
    // Check that the piñata account has enough balance to pay the prize
    if input_accounts[0].balance < PINATA_PRIZE {
        return None;
    }
    // Check that the preimage is correct.
    let target: [u32; 8] = [
        1363824975, 720119575, 717909014, 2043925380, 717793160, 1495780600, 1253022833, 116132328,
    ];
    assert(target@ =~= pinata_target_hash());
    if !words_eq(&hash(preimage.as_slice()), &target) {
        return None;
    }
    if input_accounts[1].balance > u128::MAX - PINATA_PRIZE {
        return None;
    }
    Some(pinata(input_accounts, preimage))
}

} // verus!
