//! A stateless layer-2 payment protocol library.
//!
//! Wallets hold balances recorded by a settlement contract (the "rollup") and
//! transfer value off-chain. An untrusted aggregator collects one transaction
//! batch per sender each round, binds the batches under a single Merkle root,
//! collects BLS signatures over that root, and emits one transfer block. Each
//! wallet keeps a balance proof: the chain of transaction proofs that
//! justifies its balance against the settlement view.
//!
//! The aggregation round, the wallet lifecycle, and the balance-proof
//! validator are verified. Hashing, BLS signing, and Merkle tree construction
//! are performed by outside crates behind a small set of trusted wrappers.

pub mod assoc;
pub mod errors;
pub mod hashing;
pub mod merkle;
pub mod types;
pub mod rollup;
pub mod aggregator;
pub mod wallet;
pub mod server;
