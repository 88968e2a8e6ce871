//! Verified core of a selective-privacy ledger on a zkVM: accounts, commitments
//! and nullifiers, a sparse Merkle tree of commitments, the inner programs, the
//! privacy circuit, and the guest workloads of the encryption and Nexus demos.
pub mod cipher;
pub mod default_hashes;
pub mod error;
pub mod flat_programs;
pub mod ledger;
pub mod merkle;
pub mod nexus;
pub mod privacy;
pub mod private_circuit;
pub mod programs;
pub mod types;
