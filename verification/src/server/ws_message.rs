//! The messages wallets and the coordinator exchange.
//!
//! How a message travels — its framing, its serialisation, the socket under
//! it — lives outside the verified core; this enum is the vocabulary both
//! sides agree on. Client-originated variants are prefixed `C`, server-
//! originated ones `S`.

use vstd::prelude::*;

use crate::types::balance::BalanceProof;
use crate::types::public_key::BlsPublicKey;
use crate::types::signatures::BlsSignature;
use crate::types::transaction::{TransactionBatch, TransactionProof};

verus! {

/// One frame of the wallet–coordinator protocol.
#[derive(Debug)]
pub enum WsMessage {
    /// Mandatory first frame: registers the wallet's key.
    CAddConnection(BlsPublicKey),
    /// A sender's batch for the open round.
    CSendTransactionBatch(TransactionBatch),
    /// A sender's signature over the round's root.
    CSendTransactionBatchSignature(BlsPublicKey, BlsSignature),
    /// A committed batch's proof and the sender's balance proof, to fan out
    /// to the recipients.
    CSendBatchToReceivers(TransactionProof, BalanceProof),
    /// The inclusion proof the coordinator pushes to each sender.
    SSendTransactionInclusionProof(TransactionProof),
    /// A received transfer forwarded to its recipient.
    SReceiveTransaction(TransactionProof, BalanceProof),
}

} // verus!
