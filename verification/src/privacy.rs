//! The privacy-execution circuit: it authenticates and nullifies the spent private
//! accounts, checks the chain's rules, and publishes the public accounts and the
//! commitments of the new private accounts. Also the host-side helpers that build
//! the new private accounts from the same data.
use vstd::prelude::*;
use rand::rngs::OsRng;
use rand::RngCore;

use crate::ledger::commitment_spec;
use crate::ledger::compute_nullifier;
use crate::ledger::hash;
use crate::ledger::is_in_tree;
use crate::ledger::preserves_invariants;
use crate::ledger::inputs_outputs_preserve_invariants;
use crate::ledger::risc0_hash_words;
use crate::ledger::words_climb;
use crate::ledger::words_eq;
use crate::ledger::zero_words;
use crate::ledger::bytes_to_words;
use crate::types::Account;
use crate::types::AccountVisibility;
use crate::types::Address;
use crate::types::AuthenticationPath;
use crate::types::Key;
use crate::types::Nonce;
use crate::types::Nullifier;
use crate::types::PrivacyExecutionOutput;
use crate::types::ProgramOutput;

verus! {

/// The checks the circuit makes on one input account: a spent private account must
/// be owned (its address is the hash of the key) and committed (its commitment is
/// in the tree of `root`); a new private account must be empty.
pub open spec fn private_input_valid(visibility: AccountVisibility, account: Account, root: Seq<u32>) -> bool {
    match visibility {
        AccountVisibility::Private(Some((private_key, auth_path))) => {
            &&& risc0_hash_words(private_key@) == account.address@
            &&& words_climb(
                commitment_spec(account) as int,
                auth_path@.map_values(|w: [u32; 8]| w@),
                32,
            ) == root
        },
        AccountVisibility::Private(None) => account.balance == 0 && account.nonce@ == zero_words(),
        AccountVisibility::Public => true,
    }
}

/// Every pair of visibility and input account, up to the shorter of the two, passes the checks.
pub open spec fn private_inputs_valid(visibilities: Seq<AccountVisibility>, inputs: Seq<Account>, root: Seq<u32>) -> bool {
    forall|i: int|
        0 <= i < visibilities.len() && i < inputs.len() ==> private_input_valid(
            #[trigger] visibilities[i],
            inputs[i],
            root,
        )
}

/// The nullifiers of the first `n` inputs: one for each spent private account.
pub open spec fn nullifiers_upto(visibilities: Seq<AccountVisibility>, inputs: Seq<Account>, n: nat) -> Seq<
    Seq<u32>,
>
    decreases n,
{
    if n == 0 {
        seq![]
    } else {
        let before = nullifiers_upto(visibilities, inputs, (n - 1) as nat);
        match visibilities[n - 1] {
            AccountVisibility::Private(Some((private_key, _))) => before.push(
                risc0_hash_words(seq![commitment_spec(inputs[n - 1])] + private_key@),
            ),
            _ => before,
        }
    }
}

/// Whether the visibility is that of a spent private account (one with a key).
pub open spec fn is_spent(visibility: AccountVisibility) -> bool {
    visibility matches AccountVisibility::Private(Some(_))
}

/// Whether `nullifier` is the nullifier of `account` spent under `visibility`:
/// the visibility is private with a key, and the nullifier is the hash of the
/// account's commitment followed by that key.
pub open spec fn nullifies(visibility: AccountVisibility, account: Account, nullifier: Seq<u32>) -> bool {
    match visibility {
        AccountVisibility::Private(Some((key, _))) => nullifier == risc0_hash_words(
            seq![commitment_spec(account)] + key@,
        ),
        _ => false,
    }
}

/// Whether `nullifier` is the nullifier of one of the first `n` inputs.
pub open spec fn nullifies_some_input(
    visibilities: Seq<AccountVisibility>,
    inputs: Seq<Account>,
    n: nat,
    nullifier: Seq<u32>,
) -> bool {
    exists|i: int| 0 <= i < n && #[trigger] nullifies(visibilities[i], inputs[i], nullifier)
}

/// Only spent private accounts are nullified: every nullifier among the first `n`
/// inputs is the nullifier of a spent private input (public inputs and new private
/// ones give none), there are no more nullifiers than inputs, and where no input is
/// a spent private account there is no nullifier at all.
pub proof fn lemma_nullifiers_only_for_spent(visibilities: Seq<AccountVisibility>, inputs: Seq<Account>, n: nat)
    ensures
        nullifiers_upto(visibilities, inputs, n).len() <= n,
        forall|j: int|
            0 <= j < nullifiers_upto(visibilities, inputs, n).len() ==> nullifies_some_input(
                visibilities,
                inputs,
                n,
                #[trigger] nullifiers_upto(visibilities, inputs, n)[j],
            ),
        (forall|i: int| 0 <= i < n ==> !is_spent(#[trigger] visibilities[i])) ==> nullifiers_upto(
            visibilities,
            inputs,
            n,
        ).len() == 0,
    decreases n,
{
    if n > 0 {
        let m = (n - 1) as nat;
        lemma_nullifiers_only_for_spent(visibilities, inputs, m);
        let before = nullifiers_upto(visibilities, inputs, m);
        let now = nullifiers_upto(visibilities, inputs, n);
        match visibilities[m as int] {
            AccountVisibility::Private(Some((key, _))) => {
                assert(now == before.push(risc0_hash_words(seq![commitment_spec(inputs[m as int])] + key@)));
            },
            _ => {
                assert(now == before);
            },
        }
        assert forall|j: int| 0 <= j < now.len() implies nullifies_some_input(
            visibilities,
            inputs,
            n,
            #[trigger] now[j],
        ) by {
            if j < before.len() {
                assert(now[j] == before[j]);
                assert(nullifies_some_input(visibilities, inputs, m, before[j]));
                let i = choose|i: int| 0 <= i < m && #[trigger] nullifies(visibilities[i], inputs[i], before[j]);
                assert(nullifies(visibilities[i], inputs[i], now[j]));
            } else {
                assert(nullifies(visibilities[m as int], inputs[m as int], now[j]));
            }
        }
        if forall|i: int| 0 <= i < n ==> !is_spent(#[trigger] visibilities[i]) {
            assert(forall|i: int| 0 <= i < m ==> !is_spent(#[trigger] visibilities[i]));
            assert(before.len() == 0);
            assert(!is_spent(visibilities[m as int]));
            assert(now == before);
        }
    }
}

/// The shorter of two lengths.
pub open spec fn min_len(a: nat, b: nat) -> nat {
    if a <= b {
        a
    } else {
        b
    }
}

/// Whether the visibility is private.
pub open spec fn is_private(visibility: AccountVisibility) -> bool {
    visibility is Private
}

/// Whether the circuit's checks pass on every input account.
pub fn private_inputs_are_valid(
    inner_program_output: &ProgramOutput,
    account_visibilities: &Vec<AccountVisibility>,
    commitment_tree_root: [u32; 8],
) -> (r: bool)
    ensures
        r == private_inputs_valid(
            account_visibilities@,
            inner_program_output.accounts_pre@,
            commitment_tree_root@,
        ),
{
    let inputs = &inner_program_output.accounts_pre;
    let mut i: usize = 0;
    while i < account_visibilities.len() && i < inputs.len()
        invariant
            0 <= i <= account_visibilities@.len(),
            i <= inputs@.len(),
            inputs == &inner_program_output.accounts_pre,
            forall|j: int|
                0 <= j < i ==> private_input_valid(
                    #[trigger] account_visibilities@[j],
                    inputs@[j],
                    commitment_tree_root@,
                ),
        decreases account_visibilities.len() - i,
    {
        let input_account = &inputs[i];
        match &account_visibilities[i] {
            AccountVisibility::Private(Some((private_key, auth_path))) => {
                let address = hash(private_key);
                if !words_eq(&address, &input_account.address) {
                    return false;
                }
                let commitment = input_account.commitment();
                if !is_in_tree(commitment, auth_path, commitment_tree_root) {
                    return false;
                }
            },
            AccountVisibility::Private(None) => {
                let zero: [u32; 8] = [0; 8];
                assert(zero@ =~= zero_words());
                if input_account.balance != 0 || !words_eq(&input_account.nonce, &zero) {
                    return false;
                }
            },
            AccountVisibility::Public => {},
        }
        i += 1;
    }
    true
}

/// Compute nullifiers of private accounts pre states and check that their commitments belong to the commitments tree
pub fn verify_and_nullify_private_inputs(
    inner_program_output: &ProgramOutput,
    account_visibilities: &Vec<AccountVisibility>,
    commitment_tree_root: [u32; 8],
) -> (r: Vec<Nullifier>)
    requires
        private_inputs_valid(
            account_visibilities@,
            inner_program_output.accounts_pre@,
            commitment_tree_root@,
        ),
    ensures
        r@.map_values(|n: Nullifier| n@) == nullifiers_upto(
            account_visibilities@,
            inner_program_output.accounts_pre@,
            min_len(account_visibilities@.len(), inner_program_output.accounts_pre@.len()),
        ),
        (forall|i: int| 0 <= i < account_visibilities@.len() ==> !is_spent(#[trigger] account_visibilities@[i]))
            ==> r@.len() == 0,
{
    proof {
        lemma_nullifiers_only_for_spent(
            account_visibilities@,
            inner_program_output.accounts_pre@,
            min_len(account_visibilities@.len(), inner_program_output.accounts_pre@.len()),
        );
    }
    let inputs = &inner_program_output.accounts_pre;
    let mut nullifiers: Vec<Nullifier> = Vec::new();
    let mut i: usize = 0;
    while i < account_visibilities.len() && i < inputs.len()
        invariant
            0 <= i <= account_visibilities@.len(),
            i <= inputs@.len(),
            inputs == &inner_program_output.accounts_pre,
            nullifiers@.map_values(|n: Nullifier| n@) == nullifiers_upto(
                account_visibilities@,
                inputs@,
                i as nat,
            ),
        decreases account_visibilities.len() - i,
    {
        let input_account = &inputs[i];
        match &account_visibilities[i] {
            AccountVisibility::Private(Some((private_key, _auth_path))) => {
                let commitment = input_account.commitment();
                let nullifier = compute_nullifier(&commitment, private_key);
                let ghost before = nullifiers@;
                nullifiers.push(nullifier);
                assert(nullifiers@.map_values(|n: Nullifier| n@) =~= before.map_values(
                    |n: Nullifier| n@,
                ).push(nullifier@));
            },
            _ => {},
        }
        i += 1;
    }
    nullifiers
}

/// The account with its nonce replaced.
pub open spec fn with_nonce(a: Account, nonce: Nonce) -> Account {
    Account { program_owner: a.program_owner, address: a.address, balance: a.balance, nonce }
}

/// The post states with the new nonces put in, as far as there are nonces.
pub open spec fn renonced(posts: Seq<Account>, nonces: Seq<Nonce>) -> Seq<Account> {
    Seq::new(
        posts.len(),
        |i: int|
            if i < nonces.len() {
                with_nonce(posts[i], nonces[i])
            } else {
                posts[i]
            },
    )
}

/// Commitments of the accounts among the first `n` whose visibility is private.
pub open spec fn private_commitments_upto(accounts: Seq<Account>, visibilities: Seq<AccountVisibility>, n: nat) -> Seq<u32>
    decreases n,
{
    if n == 0 {
        seq![]
    } else {
        let before = private_commitments_upto(accounts, visibilities, (n - 1) as nat);
        if is_private(visibilities[n - 1]) {
            before.push(commitment_spec(accounts[n - 1]))
        } else {
            before
        }
    }
}

/// The accounts among the first `n` whose visibility is public.
pub open spec fn public_upto(accounts: Seq<Account>, visibilities: Seq<AccountVisibility>, n: nat) -> Seq<Account>
    decreases n,
{
    if n == 0 {
        seq![]
    } else {
        let before = public_upto(accounts, visibilities, (n - 1) as nat);
        if is_private(visibilities[n - 1]) {
            before
        } else {
            before.push(accounts[n - 1])
        }
    }
}

/// The new private accounts among the first `n`: private post states with the new nonce.
pub open spec fn private_outputs_upto(
    posts: Seq<Account>,
    visibilities: Seq<AccountVisibility>,
    nonces: Seq<Nonce>,
    n: nat,
) -> Seq<Account>
    decreases n,
{
    if n == 0 {
        seq![]
    } else {
        let before = private_outputs_upto(posts, visibilities, nonces, (n - 1) as nat);
        if is_private(visibilities[n - 1]) {
            before.push(with_nonce(posts[n - 1], nonces[n - 1]))
        } else {
            before
        }
    }
}

/// `out` is what the circuit publishes for these inputs: the public accounts'
/// pre and post states (post states with the new nonces) and the commitments of
/// the private post states (with the new nonces).
pub open spec fn is_assembled_output(
    out: PrivacyExecutionOutput,
    pre: Seq<Account>,
    post: Seq<Account>,
    visibilities: Seq<AccountVisibility>,
    nonces: Seq<Nonce>,
    commitment_tree_root: [u32; 8],
    nullifiers: Seq<Seq<u32>>,
) -> bool {
    let posts = renonced(post, nonces);
    let n = min_len(pre.len(), min_len(post.len(), visibilities.len()));
    &&& out.public_accounts_pre@ == public_upto(pre, visibilities, n)
    &&& out.public_accounts_post@ == public_upto(posts, visibilities, n)
    &&& out.private_output_commitments@ == private_commitments_upto(
        posts,
        visibilities,
        min_len(post.len(), visibilities.len()),
    )
    &&& out.nullifiers@.map_values(|n: Nullifier| n@) == nullifiers
    &&& out.commitment_tree_root == commitment_tree_root
}

/// Puts `nonces[i]` into account `i`, as far as there are nonces.
pub(crate) fn put_nonces(accounts: &mut Vec<Account>, nonces: &Vec<Nonce>)
    ensures
        final(accounts)@ == renonced(old(accounts)@, nonces@),
{
    let ghost post0 = accounts@;
    let mut i: usize = 0;
    while i < accounts.len() && i < nonces.len()
        invariant
            0 <= i <= accounts@.len(),
            i <= nonces@.len(),
            accounts@.len() == post0.len(),
            forall|j: int| 0 <= j < i ==> accounts@[j] == with_nonce(post0[j], nonces@[j]),
            forall|j: int| i <= j < post0.len() ==> accounts@[j] == post0[j],
        decreases accounts.len() - i,
    {
        let mut account = accounts[i];
        account.nonce = nonces[i];
        accounts.set(i, account);
        i += 1;
    }
    assert(accounts@ =~= renonced(post0, nonces@));
}

/// Commitments of the accounts whose visibility is private.
pub(crate) fn commitments_of_private(accounts: &Vec<Account>, visibilities: &Vec<AccountVisibility>) -> (r: Vec<u32>)
    ensures
        r@ == private_commitments_upto(accounts@, visibilities@, min_len(accounts@.len(), visibilities@.len())),
{
    let mut commitments: Vec<u32> = Vec::new();
    let mut i: usize = 0;
    while i < accounts.len() && i < visibilities.len()
        invariant
            0 <= i <= accounts@.len(),
            i <= visibilities@.len(),
            commitments@ == private_commitments_upto(accounts@, visibilities@, i as nat),
        decreases accounts.len() - i,
    {
        match visibilities[i] {
            AccountVisibility::Public => {},
            AccountVisibility::Private(_) => {
                let c = accounts[i].commitment();
                commitments.push(c);
            },
        }
        i += 1;
    }
    commitments
}

/// The accounts whose visibility is public.
pub(crate) fn select_public(accounts: &Vec<Account>, visibilities: &Vec<AccountVisibility>) -> (r: Vec<Account>)
    ensures
        r@ == public_upto(accounts@, visibilities@, min_len(accounts@.len(), visibilities@.len())),
{
    let mut public: Vec<Account> = Vec::new();
    let mut i: usize = 0;
    while i < accounts.len() && i < visibilities.len()
        invariant
            0 <= i <= accounts@.len(),
            i <= visibilities@.len(),
            public@ == public_upto(accounts@, visibilities@, i as nat),
        decreases accounts.len() - i,
    {
        match visibilities[i] {
            AccountVisibility::Public => {
                public.push(accounts[i]);
            },
            AccountVisibility::Private(_) => {},
        }
        i += 1;
    }
    public
}

/// Publishes the outcome of a privacy execution: the new nonces go into the post
/// states, private post states are published as commitments and public accounts in
/// the clear.
pub fn assemble_privacy_execution_output(
    inner_program_output: ProgramOutput,
    visibilities: Vec<AccountVisibility>,
    output_nonces: Vec<[u32; 8]>,
    commitment_tree_root: [u32; 8],
    nullifiers: Vec<[u32; 8]>,
) -> (r: PrivacyExecutionOutput)
    ensures
        is_assembled_output(
            r,
            inner_program_output.accounts_pre@,
            inner_program_output.accounts_post@,
            visibilities@,
            output_nonces@,
            commitment_tree_root,
            nullifiers@.map_values(|n: Nullifier| n@),
        ),
{
    // Insert new nonces in outputs (including public ones)
    let accounts_pre = inner_program_output.accounts_pre;
    let mut accounts_post = inner_program_output.accounts_post;
    put_nonces(&mut accounts_post, &output_nonces);

    // Compute commitments for every private output
    let private_output_commitments = commitments_of_private(&accounts_post, &visibilities);

    // Get the list of public accounts pre and post states
    let mut public_accounts_pre: Vec<Account> = Vec::new();
    let mut public_accounts_post: Vec<Account> = Vec::new();
    let mut i: usize = 0;
    while i < accounts_pre.len() && i < accounts_post.len() && i < visibilities.len()
        invariant
            0 <= i <= accounts_pre@.len(),
            i <= accounts_post@.len(),
            i <= visibilities@.len(),
            public_accounts_pre@ == public_upto(accounts_pre@, visibilities@, i as nat),
            public_accounts_post@ == public_upto(accounts_post@, visibilities@, i as nat),
        decreases accounts_pre.len() - i,
    {
        match visibilities[i] {
            AccountVisibility::Public => {
                public_accounts_pre.push(accounts_pre[i]);
                public_accounts_post.push(accounts_post[i]);
            },
            AccountVisibility::Private(_) => {},
        }
        i += 1;
    }

    PrivacyExecutionOutput {
        public_accounts_pre,
        public_accounts_post,
        private_output_commitments,
        nullifiers,
        commitment_tree_root,
    }
}

/// Builds the private outputs from the results of the execution of an inner program.
/// Filters private outputs and populates the nonces with the ones provided.
pub fn build_private_outputs_from_inner_results(
    inner_program_output: &ProgramOutput,
    visibilities: &[AccountVisibility],
    nonces: &[Nonce],
) -> (r: Vec<Account>)
    ensures
        r@ == private_outputs_upto(
            inner_program_output.accounts_post@,
            visibilities@,
            nonces@,
            min_len(inner_program_output.accounts_post@.len(), min_len(visibilities@.len(), nonces@.len())),
        ),
{
    let posts = &inner_program_output.accounts_post;
    let mut outputs: Vec<Account> = Vec::new();
    let mut i: usize = 0;
    while i < posts.len() && i < visibilities.len() && i < nonces.len()
        invariant
            0 <= i <= posts@.len(),
            i <= visibilities@.len(),
            i <= nonces@.len(),
            posts == &inner_program_output.accounts_post,
            outputs@ == private_outputs_upto(posts@, visibilities@, nonces@, i as nat),
        decreases posts.len() - i,
    {
        if let AccountVisibility::Private(_) = visibilities[i] {
            let mut this = posts[i];
            this.nonce = nonces[i];
            outputs.push(this);
        }
        i += 1;
    }
    outputs
}

/// Calls `RngCore::try_fill_bytes` on `rand::rngs::OsRng` for 32 bytes. Trusted
/// only in what it leaves open: the bytes come from the operating system's random
/// source (`getrandom`), and `None` stands for its error; nothing is said of either.
#[verifier::external_body]
fn os_random_bytes() -> Option<[u8; 32]> {
    let mut bytes = [0u8; 32];
    match OsRng.try_fill_bytes(&mut bytes) {
        Ok(()) => Some(bytes),
        Err(_) => None,
    }
}

/// Draws a nonce from the operating system's random source: 32 random bytes read
/// as eight little-endian words, or `None` when the source fails.
pub fn new_random_nonce() -> Option<Nonce> {
    match os_random_bytes() {
        Some(bytes) => Some(bytes_to_words(&bytes)),
        None => None,
    }
}

/// A new account for `address` with no balance, no owner and the given nonce.
pub fn fresh_account(address: Address, nonce: Nonce) -> (r: Account)
    ensures
        r == fresh_account_spec(address, nonce),
{
    let mut account = Account::new(address, 0);
    account.nonce = nonce;
    account
}

/// A new account for `address` with no balance and a fresh random nonce, or `None`
/// when no nonce could be drawn.
pub fn mint_fresh_account(address: Address) -> (r: Option<Account>)
    ensures
        r matches Some(a) ==> a == fresh_account_spec(address, a.nonce),
{
    match new_random_nonce() {
        Some(nonce) => Some(fresh_account(address, nonce)),
        None => None,
    }
}

/// The account `fresh_account` builds.
pub open spec fn fresh_account_spec(address: Address, nonce: Nonce) -> Account {
    Account { program_owner: None, address, balance: 0, nonce }
}

/// The privacy circuit applied to the inner program's output: it succeeds when
/// there is one visibility and one nonce per input account, every input passes the
/// circuit's checks, and the execution keeps the chain's rules; it then publishes
/// the output with the nullifiers of the spent private accounts.
pub fn run_privacy_circuit(
    inner_program_output: ProgramOutput,
    visibilities: Vec<AccountVisibility>,
    output_nonces: Vec<Nonce>,
    commitment_tree_root: [u32; 8],
) -> (r: Option<PrivacyExecutionOutput>)
    ensures
        r is Some <==> {
            &&& visibilities@.len() == inner_program_output.accounts_pre@.len()
            &&& output_nonces@.len() == inner_program_output.accounts_pre@.len()
            &&& private_inputs_valid(
                visibilities@,
                inner_program_output.accounts_pre@,
                commitment_tree_root@,
            )
            &&& preserves_invariants(inner_program_output.accounts_pre@, inner_program_output.accounts_post@)
        },
        r matches Some(out) ==> is_assembled_output(
            out,
            inner_program_output.accounts_pre@,
            inner_program_output.accounts_post@,
            visibilities@,
            output_nonces@,
            commitment_tree_root,
            nullifiers_upto(
                visibilities@,
                inner_program_output.accounts_pre@,
                inner_program_output.accounts_pre@.len(),
            ),
        ),
{
    let num_inputs = inner_program_output.accounts_pre.len();
    if visibilities.len() != num_inputs || output_nonces.len() != num_inputs {
        return None;
    }
    if !private_inputs_are_valid(&inner_program_output, &visibilities, commitment_tree_root) {
        return None;
    }
    let nullifiers = verify_and_nullify_private_inputs(
        &inner_program_output,
        &visibilities,
        commitment_tree_root,
    );
    if !inputs_outputs_preserve_invariants(
        inner_program_output.accounts_pre.as_slice(),
        inner_program_output.accounts_post.as_slice(),
    ) {
        return None;
    }
    Some(
        assemble_privacy_execution_output(
            inner_program_output,
            visibilities,
            output_nonces,
            commitment_tree_root,
            nullifiers,
        ),
    )
}

/// The new private accounts that the host builds are exactly the ones whose
/// commitments the circuit publishes: with one visibility and one nonce per post
/// state, the commitments of `build_private_outputs_from_inner_results` are the
/// `private_output_commitments` of `assemble_privacy_execution_output`.
pub proof fn lemma_host_outputs_match_published_commitments(
    posts: Seq<Account>,
    visibilities: Seq<AccountVisibility>,
    nonces: Seq<Nonce>,
)
    requires
        visibilities.len() == posts.len(),
        nonces.len() == posts.len(),
    ensures
        private_outputs_upto(posts, visibilities, nonces, posts.len()).map_values(
            |a: Account| commitment_spec(a),
        ) == private_commitments_upto(renonced(posts, nonces), visibilities, posts.len()),
{
    lemma_outputs_match_commitments_upto(posts, visibilities, nonces, posts.len());
}

proof fn lemma_outputs_match_commitments_upto(
    posts: Seq<Account>,
    visibilities: Seq<AccountVisibility>,
    nonces: Seq<Nonce>,
    n: nat,
)
    requires
        n <= posts.len(),
        n <= visibilities.len(),
        n <= nonces.len(),
    ensures
        private_outputs_upto(posts, visibilities, nonces, n).map_values(|a: Account| commitment_spec(a))
            == private_commitments_upto(renonced(posts, nonces), visibilities, n),
    decreases n,
{
    if n > 0 {
        lemma_outputs_match_commitments_upto(posts, visibilities, nonces, (n - 1) as nat);
        let before = private_outputs_upto(posts, visibilities, nonces, (n - 1) as nat);
        if is_private(visibilities[n - 1]) {
            assert(before.push(with_nonce(posts[n - 1], nonces[n - 1])).map_values(
                |a: Account| commitment_spec(a),
            ) =~= before.map_values(|a: Account| commitment_spec(a)).push(
                commitment_spec(with_nonce(posts[n - 1], nonces[n - 1])),
            ));
        }
    }
}

/// Each of the first `n` accounts is published exactly once: either in the clear,
/// as a public account, or as the commitment of a private one.
pub proof fn lemma_each_account_published_once(
    accounts: Seq<Account>,
    visibilities: Seq<AccountVisibility>,
    n: nat,
)
    ensures
        private_commitments_upto(accounts, visibilities, n).len() + public_upto(
            accounts,
            visibilities,
            n,
        ).len() == n,
    decreases n,
{
    if n > 0 {
        lemma_each_account_published_once(accounts, visibilities, (n - 1) as nat);
    }
}

} // verus!
