//! The transfer programs of the private-execution prototype: they give the pre
//! states followed by the post states in one flat list.
use vstd::prelude::*;

use crate::ledger::preserves_invariants;
use crate::programs::amount_sum;
use crate::programs::transfer_multiple_post;
use crate::programs::transfer_post;
use crate::programs::lemma_transfer_moves_only_balance;
use crate::types::Account;

verus! {

/// A transfer of balance program.
/// To be used both in public and private contexts.
/// Gives `[sender, receiver, sender_post, receiver_post]`.
pub fn transfer(sender: Account, receiver: Account, balance_to_move: u128) -> (r: Vec<Account>)
    requires
        sender.balance >= balance_to_move,
        receiver.balance + balance_to_move <= u128::MAX,
    ensures
        r@ == seq![sender, receiver] + transfer_post(seq![sender, receiver], balance_to_move),
        preserves_invariants(r@.take(2), r@.skip(2)),
        r@.len() == 4,
        r@[2].program_owner == sender.program_owner && r@[2].address == sender.address && r@[2].nonce
            == sender.nonce,
        r@[3].program_owner == receiver.program_owner && r@[3].address == receiver.address && r@[3].nonce
            == receiver.nonce,
        r@[2].balance == sender.balance - balance_to_move,
        r@[3].balance == receiver.balance + balance_to_move,
{
    proof {
        lemma_transfer_moves_only_balance(seq![sender, receiver], balance_to_move);
    }
    let out = crate::programs::transfer(vec![sender, receiver], balance_to_move);
    let r = vec![sender, receiver, out.accounts_post[0], out.accounts_post[1]];
    proof {
        assert(out.accounts_pre@ =~= seq![sender, receiver]);
        assert(r@ =~= seq![sender, receiver] + transfer_post(seq![sender, receiver], balance_to_move));
        assert(r@.take(2) =~= out.accounts_pre@);
        assert(r@.skip(2) =~= out.accounts_post@);
    }
    r
}

/// A transfer of balance program with multiple recipients.
/// To be used both in public and private contexts.
/// Gives the pre states of all accounts followed by their post states.
pub fn transfer_multiple(input_accounts: Vec<Account>, target_balances: Vec<u128>) -> (r: Vec<Account>)
    requires
        input_accounts@.len() > 1,
        target_balances@.len() + 1 == input_accounts@.len(),
        amount_sum(target_balances@) <= u128::MAX,
        input_accounts@[0].balance >= amount_sum(target_balances@),
        forall|i: int|
            1 <= i < input_accounts@.len() ==> input_accounts@[i].balance + target_balances@[i - 1]
                <= u128::MAX,
    ensures
        r@ == input_accounts@ + transfer_multiple_post(input_accounts@, target_balances@),
        preserves_invariants(
            r@.take(input_accounts@.len() as int),
            r@.skip(input_accounts@.len() as int),
        ),
{
    let n = input_accounts.len();
    let out = crate::programs::transfer_multiple(input_accounts, target_balances);
    let mut inputs_outputs = out.accounts_pre;
    let mut outputs = out.accounts_post;
    inputs_outputs.append(&mut outputs);
    proof {
        assert(inputs_outputs@.take(n as int) =~= out.accounts_pre@);
        assert(inputs_outputs@.skip(n as int) =~= out.accounts_post@);
    }
    inputs_outputs
}

} // verus!
