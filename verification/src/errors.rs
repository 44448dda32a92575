//! The library's error type.
//!
//! Every failure a verified function can report is one of these variants, and
//! each function's contract says exactly on which inputs each variant comes.

use vstd::prelude::*;

use crate::types::public_key::BlsPublicKey;
use crate::types::transaction::TransactionBatch;

verus! {

/// What can go wrong inside the protocol's core.
#[derive(Debug, PartialEq, Eq)]
pub enum StatelessBitcoinError {
    /// An operation was invoked in a state that does not allow it.
    WrongState,
    /// A second batch arrived from a sender already in the round.
    DuplicateSender,
    /// A root or a signature round was requested with no batches present.
    NoTransactions,
    /// A lookup by public key missed.
    NotFound,
    /// An individual signature did not verify.
    BadSignature,
    /// An aggregate signature could not be built or did not certify its root.
    AggregateError,
    /// Finalisation was requested before any signature arrived.
    NoSignatures,
    /// The wallet's batch is with the aggregator and awaits its proof.
    BatchPending,
    /// A wallet tried to send value to itself.
    SelfSend,
    /// A transaction of amount zero was refused.
    ZeroAmount,
    /// The wallet's balance does not cover the transaction.
    InsufficientBalance,
    /// An empty batch cannot be produced.
    EmptyBatch,
    /// There is no pending batch to sign a proof for.
    NoBatchToSign,
    /// The proof offered for signing is not over the wallet's pending batch.
    ProofBatchMismatch,
    /// The proof offered for signing names another sender.
    WrongSender,
    /// A Merkle inclusion proof did not check out.
    InvalidProof,
    /// The BLS signing call failed.
    SigningFailed,
    /// No transaction in the received batch is addressed to this wallet.
    NotForUs,
    /// The received proof is missing from the sender's balance proof.
    NotInSenderProof,
    /// The wallet's own balance is missing from the reconstructed balances.
    BalanceNotFound,
    /// A transfer block's signature did not certify its root.
    BadTransferBlock,
    /// A proof in a balance proof has no matching on-chain transfer block;
    /// the offending batch is returned.
    BatchNotInATransferBlock(TransactionBatch),
    /// Reconstructing balances would drive this account below zero.
    BalanceNegative(BlsPublicKey),
    /// A withdrawal would exceed what the account has deposited.
    InsufficientFunds,
}

} // verus!
