//! Plain data of the privacy layer: account fields, program outputs and the
//! visibility of each account in an execution.
use vstd::prelude::*;

verus! {

/// For this POC we consider 32-bit commitments
pub type Commitment = u32;

pub type Nullifier = [u32; 8];

pub type Address = [u32; 8];

pub type Nonce = [u32; 8];

pub type Key = [u32; 8];

pub type AuthenticationPath = [[u32; 8]; 32];

pub type ProgramId = [u32; 8];

/// Account to be used both in public and private contexts
#[derive(Clone, Copy, Debug, PartialEq, Eq)]
pub struct Account {
    pub program_owner: Option<ProgramId>,
    pub address: Address,
    pub balance: u128,
    pub nonce: Nonce,
}

/// Accounts pre and post states of the execution of a program.
#[derive(Clone, Debug)]
pub struct ProgramOutput {
    pub accounts_pre: Vec<Account>,
    pub accounts_post: Vec<Account>,
}

/// Public outputs of a privacy-preserving execution.
#[derive(Clone, Debug)]
pub struct PrivacyExecutionOutput {
    pub public_accounts_pre: Vec<Account>,
    pub public_accounts_post: Vec<Account>,
    pub private_output_commitments: Vec<Commitment>,
    pub nullifiers: Vec<Nullifier>,
    pub commitment_tree_root: [u32; 8],
}

/// Whether an account takes part in an execution publicly or privately. A private
/// account that is spent comes with its private key and the authentication path of
/// its commitment; a freshly created private account comes with neither.
#[derive(Clone, Copy, Debug, PartialEq, Eq)]
pub enum AccountVisibility {
    // A public account
    Public,
    // A private account
    Private(Option<(Key, AuthenticationPath)>),
}

/// The visibility of an input account, as the private-execution circuit reads it.
#[derive(Clone, Copy, Debug, PartialEq, Eq)]
pub enum InputVisibiility {
    // A public account
    Public,
    // A private account
    Private(Option<(Key, AuthenticationPath)>),
}

} // verus!
