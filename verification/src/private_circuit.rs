//! Private execution logic of the prototype circuit, for a program whose pre and
//! post states come in one flat list.
use vstd::prelude::*;

use crate::ledger::words_eq;
use crate::privacy::commitments_of_private;
use crate::privacy::min_len;
use crate::privacy::nullifiers_upto;
use crate::privacy::private_commitments_upto;
use crate::privacy::private_inputs_are_valid;
use crate::privacy::private_inputs_valid;
use crate::privacy::public_upto;
use crate::privacy::put_nonces;
use crate::privacy::renonced;
use crate::privacy::select_public;
use crate::privacy::verify_and_nullify_private_inputs;
use crate::types::Account;
use crate::types::AccountVisibility;
use crate::types::Commitment;
use crate::types::InputVisibiility;
use crate::types::Nonce;
use crate::types::Nullifier;
use crate::types::ProgramOutput;

verus! {

/// The same visibility in the type the privacy circuit reads.
pub open spec fn as_account_visibility(v: InputVisibiility) -> AccountVisibility {
    match v {
        InputVisibiility::Public => AccountVisibility::Public,
        InputVisibiility::Private(x) => AccountVisibility::Private(x),
    }
}

/// Pairwise, up to the shorter list, the program kept every address and nonce.
pub open spec fn pairs_keep_addresses_and_nonces(inputs: Seq<Account>, outputs: Seq<Account>) -> bool {
    forall|i: int|
        0 <= i < inputs.len() && i < outputs.len() ==> (#[trigger] inputs[i]).address@
            == outputs[i].address@ && inputs[i].nonce@ == outputs[i].nonce@
}

/// In a flat list of `n` pre states followed by `n` post states, the check that the
/// program kept addresses and nonces means exactly: post state `n + i` has the
/// address and the nonce of pre state `i`, for every `i < n`.
pub proof fn lemma_flat_pairs_keep(inputs_outputs: Seq<Account>, n: int)
    requires
        0 <= n,
        inputs_outputs.len() >= 2 * n,
    ensures
        pairs_keep_addresses_and_nonces(inputs_outputs.take(n), inputs_outputs.skip(n)) <==> forall|i: int|
            0 <= i < n ==> (#[trigger] inputs_outputs[i]).address@ == inputs_outputs[n + i].address@
                && inputs_outputs[i].nonce@ == inputs_outputs[n + i].nonce@,
{
    let pre = inputs_outputs.take(n);
    let post = inputs_outputs.skip(n);
    if pairs_keep_addresses_and_nonces(pre, post) {
        assert forall|i: int| 0 <= i < n implies (#[trigger] inputs_outputs[i]).address@
            == inputs_outputs[n + i].address@ && inputs_outputs[i].nonce@ == inputs_outputs[n + i].nonce@ by {
            assert(pre[i] == inputs_outputs[i]);
            assert(post[i] == inputs_outputs[n + i]);
        }
    }
    if forall|i: int|
        0 <= i < n ==> (#[trigger] inputs_outputs[i]).address@ == inputs_outputs[n + i].address@
            && inputs_outputs[i].nonce@ == inputs_outputs[n + i].nonce@ {
        assert forall|i: int| 0 <= i < pre.len() && i < post.len() implies (#[trigger] pre[i]).address@
            == post[i].address@ && pre[i].nonce@ == post[i].nonce@ by {
            assert(pre[i] == inputs_outputs[i]);
            assert(post[i] == inputs_outputs[n + i]);
        }
    }
}

fn to_account_visibilities(visibilities: &Vec<InputVisibiility>) -> (r: Vec<AccountVisibility>)
    ensures
        r@ == visibilities@.map_values(|v: InputVisibiility| as_account_visibility(v)),
{
    let mut out: Vec<AccountVisibility> = Vec::new();
    let mut i: usize = 0;
    while i < visibilities.len()
        invariant
            0 <= i <= visibilities@.len(),
            out@ == visibilities@.take(i as int).map_values(|v: InputVisibiility| as_account_visibility(v)),
        decreases visibilities.len() - i,
    {
        let v = match visibilities[i] {
            InputVisibiility::Public => AccountVisibility::Public,
            InputVisibiility::Private(x) => AccountVisibility::Private(x),
        };
        out.push(v);
        assert(visibilities@.take(i + 1).map_values(|v: InputVisibiility| as_account_visibility(v))
            =~= visibilities@.take(i as int).map_values(|v: InputVisibiility| as_account_visibility(v)).push(v));
        i += 1;
    }
    assert(visibilities@.take(visibilities@.len() as int) =~= visibilities@);
    out
}

/// The elements of `a` followed by those of `b`.
fn concat<T: Copy>(a: &Vec<T>, b: &Vec<T>) -> (r: Vec<T>)
    ensures
        r@ == a@ + b@,
{
    let mut out: Vec<T> = Vec::new();
    let mut i: usize = 0;
    while i < a.len()
        invariant
            0 <= i <= a@.len(),
            out@ == a@.take(i as int),
        decreases a.len() - i,
    {
        out.push(a[i]);
        assert(a@.take(i + 1) =~= a@.take(i as int).push(a@[i as int]));
        i += 1;
    }
    let mut j: usize = 0;
    while j < b.len()
        invariant
            0 <= j <= b@.len(),
            a@.take(a@.len() as int) == a@,
            out@ == a@ + b@.take(j as int),
        decreases b.len() - j,
    {
        out.push(b[j]);
        assert(a@ + b@.take(j + 1) =~= (a@ + b@.take(j as int)).push(b@[j as int]));
        j += 1;
    }
    assert(b@.take(b@.len() as int) =~= b@);
    out
}

fn pairs_keep(inputs: &Vec<Account>, outputs: &Vec<Account>) -> (r: bool)
    ensures
        r == pairs_keep_addresses_and_nonces(inputs@, outputs@),
{
    let mut i: usize = 0;
    while i < inputs.len() && i < outputs.len()
        invariant
            0 <= i <= inputs@.len(),
            i <= outputs@.len(),
            forall|j: int|
                0 <= j < i ==> (#[trigger] inputs@[j]).address@ == outputs@[j].address@ && inputs@[j].nonce@
                    == outputs@[j].nonce@,
        decreases inputs.len() - i,
    {
        if !words_eq(&inputs[i].address, &outputs[i].address) {
            return false;
        }
        if !words_eq(&inputs[i].nonce, &outputs[i].nonce) {
            return false;
        }
        i += 1;
    }
    true
}

/// Circuit for proving correct execution of some program, given the flat list of
/// its accounts' pre states followed by their post states. It succeeds when the
/// list holds `2 * num_inputs` accounts and there are `num_inputs` visibilities and
/// nonces, every input passes the checks of the privacy circuit, and the program
/// kept every address and nonce. It then gives the public pre states followed by
/// the public post states (with the new nonces), the nullifiers of the spent
/// private accounts, and the commitments of the private post states (with the new
/// nonces).
pub fn run_private_execution_circuit(
    num_inputs: u32,
    inputs_outputs: Vec<Account>,
    input_visibilities: Vec<InputVisibiility>,
    output_nonces: Vec<Nonce>,
    commitment_tree_root: [u32; 8],
) -> (r: Option<(Vec<Account>, Vec<Nullifier>, Vec<Commitment>)>)
    ensures
        ({
            let visibilities = input_visibilities@.map_values(|v: InputVisibiility| as_account_visibility(v));
            let inputs = inputs_outputs@.take(num_inputs as int);
            let outputs = inputs_outputs@.skip(num_inputs as int);
            &&& r is Some <==> {
                &&& num_inputs * 2 <= u32::MAX
                &&& inputs_outputs@.len() as u32 == num_inputs * 2
                &&& input_visibilities@.len() as u32 == num_inputs
                &&& output_nonces@.len() as u32 == num_inputs
                &&& private_inputs_valid(visibilities, inputs, commitment_tree_root@)
                &&& pairs_keep_addresses_and_nonces(inputs, outputs)
            }
            &&& r is Some ==> forall|i: int|
                0 <= i < num_inputs ==> (#[trigger] inputs_outputs@[i]).address@ == inputs_outputs@[num_inputs
                    + i].address@ && inputs_outputs@[i].nonce@ == inputs_outputs@[num_inputs + i].nonce@
            &&& r matches Some((public_inputs_outputs, nullifiers, commitments)) ==> {
                let posts = renonced(outputs, output_nonces@);
                &&& public_inputs_outputs@ == public_upto(
                    inputs + posts,
                    visibilities + visibilities,
                    min_len(inputs.len() + posts.len(), 2 * visibilities.len()),
                )
                &&& nullifiers@.map_values(|n: Nullifier| n@) == nullifiers_upto(
                    visibilities,
                    inputs,
                    min_len(visibilities.len(), inputs.len()),
                )
                &&& commitments@ == private_commitments_upto(
                    posts,
                    visibilities,
                    min_len(posts.len(), visibilities.len()),
                )
            }
        }),
{
    let twice = match num_inputs.checked_mul(2) {
        Some(t) => t,
        None => {
            return None;
        },
    };
    if inputs_outputs.len() as u32 != twice {
        return None;
    }
    if input_visibilities.len() as u32 != num_inputs {
        return None;
    }
    if output_nonces.len() as u32 != num_inputs {
        return None;
    }
    let ghost io = inputs_outputs@;
    // Split inputs_outputs into two separate vectors
    let mut inputs = inputs_outputs;
    proof {
        let len = inputs@.len() as int;
        if len > u32::MAX {
            assert(num_inputs <= len);
        } else {
            assert(len == 2 * num_inputs);
        }
    }
    let outputs = inputs.split_off(num_inputs as usize);
    let visibilities = to_account_visibilities(&input_visibilities);
    let inner = ProgramOutput { accounts_pre: inputs, accounts_post: outputs };
    if !private_inputs_are_valid(&inner, &visibilities, commitment_tree_root) {
        return None;
    }
    let nullifiers = verify_and_nullify_private_inputs(&inner, &visibilities, commitment_tree_root);
    // Assert `program_id` program didn't modify address fields or nonces
    if !pairs_keep(&inner.accounts_pre, &inner.accounts_post) {
        return None;
    }
    proof {
        assert(io.len() >= 2 * num_inputs);
        lemma_flat_pairs_keep(io, num_inputs as int);
    }
    let ProgramOutput { accounts_pre: inputs, accounts_post: mut outputs } = inner;
    // Insert new nonces in outputs (including public ones)
    put_nonces(&mut outputs, &output_nonces);
    // Compute private outputs commitments
    let private_output_commitments = commitments_of_private(&outputs, &visibilities);
    // Get the list of public inputs pre states and their post states
    let all_accounts = concat(&inputs, &outputs);
    let all_visibilities = concat(&visibilities, &visibilities);
    let public_inputs_outputs = select_public(&all_accounts, &all_visibilities);
    Some((public_inputs_outputs, nullifiers, private_output_commitments))
}

} // verus!
