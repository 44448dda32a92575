//! The protocol's data model: keys, signatures, transactions, batches,
//! proofs, transfer blocks, and balance proofs.

pub mod common;
pub mod public_key;
pub mod signatures;
pub mod transaction;
pub mod balance;
