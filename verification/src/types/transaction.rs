//! Transactions, batches, and Merkle inclusion proofs.

use vstd::prelude::*;

use crate::hashing::{
    hash_tx_hash_with_salt, push_bytes, push_u8_32, sha256_of, spec_salted_hash, Sha256Algorithm,
};
use crate::merkle::{hashes_view, merkle_path_ok, merkle_verify};
use crate::types::common::U8_32;
use crate::types::public_key::{clone_bytes, BlsPublicKey};

verus! {

/// The mathematical shape of a transaction.
pub ghost struct TxView {
    pub to: Seq<u8>,
    pub from: Seq<u8>,
    pub amount: u64,
    pub salt: Seq<u8>,
}

/// A single transfer of `amount` from `from` to `to`, salted so that equal
/// transfers hash apart.
#[derive(Debug, PartialEq, Eq)]
pub struct SimpleTransaction {
    pub to: BlsPublicKey,
    pub from: BlsPublicKey,
    pub amount: u64,
    pub salt: U8_32,
}

impl View for SimpleTransaction {
    type V = TxView;

    open spec fn view(&self) -> TxView {
        TxView { to: self.to@, from: self.from@, amount: self.amount, salt: self.salt@ }
    }
}

/// The little-endian bytes of a 64-bit amount.
pub open spec fn u64_le_bytes(n: u64) -> Seq<u8> {
    seq![
        (n & 0xff) as u8,
        ((n >> 8) & 0xff) as u8,
        ((n >> 16) & 0xff) as u8,
        ((n >> 24) & 0xff) as u8,
        ((n >> 32) & 0xff) as u8,
        ((n >> 40) & 0xff) as u8,
        ((n >> 48) & 0xff) as u8,
        ((n >> 56) & 0xff) as u8,
    ]
}

/// Writes a 64-bit amount as its eight little-endian bytes.
pub fn u64_to_le_bytes(n: u64) -> (r: Vec<u8>)
    ensures
        r@ == u64_le_bytes(n),
{
    let mut v: Vec<u8> = Vec::new();
    v.push((n & 0xff) as u8);
    v.push(((n >> 8) & 0xff) as u8);
    v.push(((n >> 16) & 0xff) as u8);
    v.push(((n >> 24) & 0xff) as u8);
    v.push(((n >> 32) & 0xff) as u8);
    v.push(((n >> 40) & 0xff) as u8);
    v.push(((n >> 48) & 0xff) as u8);
    v.push(((n >> 56) & 0xff) as u8);
    assert(v@ =~= u64_le_bytes(n));
    v
}

/// The canonical byte form of a transaction: the input of its hash. Each key
/// is length-prefixed so the fields read back apart whatever their sizes;
/// the encoding is injective, so distinct transactions hash apart up to the
/// hash itself.
pub open spec fn tx_canonical_bytes(t: TxView) -> Seq<u8> {
    u64_le_bytes(t.to.len() as u64) + t.to + u64_le_bytes(t.from.len() as u64) + t.from
        + u64_le_bytes(t.amount) + t.salt
}

/// `tx_hash = SHA256(SHA256(canonical_bytes(tx)) ‖ salt)`.
pub open spec fn spec_tx_hash(t: TxView) -> Seq<u8> {
    spec_salted_hash(sha256_of(tx_canonical_bytes(t)), t.salt)
}

impl SimpleTransaction {
    /// The canonical byte form of this transaction.
    pub fn canonical_bytes(&self) -> (r: Vec<u8>)
        ensures
            r@ == tx_canonical_bytes(self@),
    {
        let mut data: Vec<u8> = Vec::new();
        let to_len = u64_to_le_bytes(self.to.bytes.len() as u64);
        push_bytes(&mut data, &to_len);
        push_bytes(&mut data, &self.to.bytes);
        let from_len = u64_to_le_bytes(self.from.bytes.len() as u64);
        push_bytes(&mut data, &from_len);
        push_bytes(&mut data, &self.from.bytes);
        let amount_bytes = u64_to_le_bytes(self.amount);
        push_bytes(&mut data, &amount_bytes);
        push_u8_32(&mut data, &self.salt);
        assert(data@ =~= tx_canonical_bytes(self@));
        data
    }

    /// The hash of this transaction, salt folded in twice over.
    pub fn tx_hash(&self) -> (r: U8_32)
        ensures
            r@ == spec_tx_hash(self@),
    {
        let canonical = self.canonical_bytes();
        let inner = Sha256Algorithm::hash(canonical.as_slice());
        hash_tx_hash_with_salt(&inner, &self.salt)
    }
}

impl Clone for SimpleTransaction {
    fn clone(&self) -> (r: Self)
        ensures
            r@ == self@,
    {
        SimpleTransaction {
            to: self.to.clone(),
            from: self.from.clone(),
            amount: self.amount,
            salt: self.salt,
        }
    }
}

/// The mathematical shape of a batch.
pub ghost struct BatchView {
    pub from: Seq<u8>,
    pub transactions: Seq<TxView>,
}

/// The views of a sequence of transactions.
pub open spec fn txs_view(s: Seq<SimpleTransaction>) -> Seq<TxView> {
    s.map_values(|t: SimpleTransaction| t@)
}

/// All transactions one sender submits in one round; the unit of a Merkle
/// leaf.
#[derive(Debug, PartialEq, Eq)]
pub struct TransactionBatch {
    pub from: BlsPublicKey,
    pub transactions: Vec<SimpleTransaction>,
}

impl View for TransactionBatch {
    type V = BatchView;

    open spec fn view(&self) -> BatchView {
        BatchView { from: self.from@, transactions: txs_view(self.transactions@) }
    }
}

/// The transaction hashes of a batch, laid end to end in batch order.
pub open spec fn tx_hashes_concat(txs: Seq<TxView>) -> Seq<u8>
    decreases txs.len(),
{
    if txs.len() == 0 {
        Seq::empty()
    } else {
        tx_hashes_concat(txs.drop_last()) + spec_tx_hash(txs.last())
    }
}

/// `batch_hash = SHA256(tx_hash_0 ‖ tx_hash_1 ‖ …)` in batch order.
pub open spec fn spec_batch_hash(b: BatchView) -> Seq<u8> {
    sha256_of(tx_hashes_concat(b.transactions))
}

proof fn lemma_tx_hashes_concat_step(txs: Seq<TxView>, i: int)
    requires
        0 < i <= txs.len(),
    ensures
        tx_hashes_concat(txs.take(i)) == tx_hashes_concat(txs.take(i - 1)) + spec_tx_hash(
            txs[i - 1],
        ),
{
    assert(txs.take(i).drop_last() =~= txs.take(i - 1));
    assert(txs.take(i).last() == txs[i - 1]);
}

impl TransactionBatch {
    /// A fresh, empty batch for one sender.
    pub fn new(from: BlsPublicKey) -> (r: Self)
        ensures
            r@.from == from@,
            r@.transactions.len() == 0,
    {
        TransactionBatch { from, transactions: Vec::new() }
    }

    /// The hash of the batch: the Merkle leaf it stands under.
    pub fn tx_hash(&self) -> (r: U8_32)
        ensures
            r@ == spec_batch_hash(self@),
    {
        let mut data: Vec<u8> = Vec::new();
        let n = self.transactions.len();
        let mut i: usize = 0;
        while i < n
            invariant
                i <= n,
                n == self.transactions@.len(),
                data@ == tx_hashes_concat(txs_view(self.transactions@).take(i as int)),
            decreases n - i,
        {
            let h = (&self.transactions[i]).tx_hash();
            push_u8_32(&mut data, &h);
            i = i + 1;
            proof {
                lemma_tx_hashes_concat_step(txs_view(self.transactions@), i as int);
            }
        }
        proof {
            assert(txs_view(self.transactions@).take(n as int) =~= txs_view(
                self.transactions@,
            ));
        }
        Sha256Algorithm::hash(data.as_slice())
    }
}

/// Copies a vector of transactions.
pub fn clone_txs(v: &Vec<SimpleTransaction>) -> (r: Vec<SimpleTransaction>)
    ensures
        txs_view(r@) == txs_view(v@),
        r@.len() == v@.len(),
{
    let n = v.len();
    let mut out: Vec<SimpleTransaction> = Vec::new();
    let mut i: usize = 0;
    while i < n
        invariant
            i <= n,
            n == v@.len(),
            out@.len() == i,
            forall|j: int| 0 <= j < i ==> out@[j]@ == v@[j]@,
        decreases n - i,
    {
        out.push((&v[i]).clone());
        i = i + 1;
    }
    assert(txs_view(out@) =~= txs_view(v@));
    out
}

impl Clone for TransactionBatch {
    fn clone(&self) -> (r: Self)
        ensures
            r@ == self@,
    {
        let r = TransactionBatch {
            from: self.from.clone(),
            transactions: clone_txs(&self.transactions),
        };
        proof {
            assert(r@.transactions =~= self@.transactions);
        }
        r
    }
}

/// The mathematical shape of an inclusion proof.
pub ghost struct ProofView {
    pub proof_hashes: Seq<Seq<u8>>,
    pub root: Seq<u8>,
    pub batch: BatchView,
    pub index: int,
    pub total_leaves: int,
}

impl ProofView {
    /// The proof's sibling hashes carry its batch's hash at its index up to
    /// its root.
    pub open spec fn valid(self) -> bool {
        merkle_path_ok(
            self.proof_hashes,
            spec_batch_hash(self.batch),
            self.index,
            self.total_leaves,
            self.root,
        )
    }
}

/// A Merkle inclusion proof for one batch under one round's root.
#[derive(Debug, PartialEq, Eq)]
pub struct TransactionProof {
    pub proof_hashes: Vec<U8_32>,
    pub root: U8_32,
    pub batch: TransactionBatch,
    pub index: usize,
    pub total_leaves: usize,
}

impl View for TransactionProof {
    type V = ProofView;

    open spec fn view(&self) -> ProofView {
        ProofView {
            proof_hashes: hashes_view(self.proof_hashes@),
            root: self.root@,
            batch: self.batch@,
            index: self.index as int,
            total_leaves: self.total_leaves as int,
        }
    }
}

impl TransactionProof {
    /// Recomputes the batch hash and checks the inclusion path against the
    /// proof's own root.
    pub fn verify(&self) -> (r: bool)
        ensures
            r == self@.valid(),
    {
        let leaf = self.batch.tx_hash();
        merkle_verify(&self.proof_hashes, &self.root, self.index, &leaf, self.total_leaves)
    }
}

/// Copies a vector of 32-byte values.
pub fn clone_hashes(v: &Vec<U8_32>) -> (r: Vec<U8_32>)
    ensures
        r@ == v@,
{
    let n = v.len();
    let mut out: Vec<U8_32> = Vec::new();
    let mut i: usize = 0;
    while i < n
        invariant
            i <= n,
            n == v@.len(),
            out@ == v@.take(i as int),
        decreases n - i,
    {
        out.push(v[i]);
        i = i + 1;
        assert(out@ =~= v@.take(i as int));
    }
    assert(v@.take(n as int) =~= v@);
    out
}

impl Clone for TransactionProof {
    fn clone(&self) -> (r: Self)
        ensures
            r@ == self@,
    {
        TransactionProof {
            proof_hashes: clone_hashes(&self.proof_hashes),
            root: self.root,
            batch: self.batch.clone(),
            index: self.index,
            total_leaves: self.total_leaves,
        }
    }
}

} // verus!
