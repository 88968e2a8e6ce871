# selective_privacy

A verified core for a selective-privacy ledger on a zkVM, written in Verus.

- `src/` is the verified library: account commitments and nullifiers
  (`ledger`), the sparse Merkle tree of commitments (`merkle`,
  `default_hashes`), the inner programs (`programs`, `flat_programs`), the
  privacy circuits (`privacy`, `private_circuit`), the encryption guests'
  cipher step (`cipher`), and the Nexus benchmark workloads (`nexus`).
  Outside crates (`sha2`, `risc0-zkvm`, `chacha20`, `rand`) are reached through
  a few trusted wrappers whose contracts are documented next to them.
- `app/` is unverified glue: serializable copies of the types, the zkVM
  prover and executor on the host, the guest entry points, and the demos.
- `tests/` runs the library with the real outside crates.
