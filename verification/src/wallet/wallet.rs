//! The wallet: one account's state machine.
//!
//! A wallet collects outgoing transactions into a batch, hands the batch to
//! the aggregator, signs the inclusion proof it gets back, and maintains its
//! balance proof — the chain of inclusion proofs that justifies its balance
//! against the settlement view.

use vstd::prelude::*;

use crate::errors::StatelessBitcoinError;
use crate::rollup::mock_rollup_memory::{spec_amount, MockRollupMemory};
use crate::types::balance::{
    bp_as_map, bp_contains, bp_wf, BalanceProof, BalanceProofEntryView, BalanceProofKey,
};
use crate::types::common::{generate_salt, u8_32_eq};
use crate::types::public_key::BlsPublicKey;
use crate::types::signatures::{
    generate_keypair, pubkey_of, sig_verify_ok, sk_well_formed, BlsSecretKey, BlsSignature,
};
use crate::types::transaction::{
    spec_batch_hash, BatchView, SimpleTransaction, TransactionBatch, TransactionProof,
};
use crate::wallet::utils::{
    calculate_balances_and_validate_balance_proof, merge_balance_proofs, net_flow, spec_merge,
    spec_participant, spec_scan, spec_tx_total, ValidationErrView, TX_TOTAL_LIMIT,
};

verus! {

/// The mathematical shape of a wallet.
pub ghost struct WalletView {
    pub public_key: Seq<u8>,
    pub private_key: Seq<u8>,
    pub balance_proof: Seq<BalanceProofEntryView>,
    pub transaction_batch: BatchView,
    pub batch_is_pending: bool,
    pub balance: u64,
}

/// One account: its key pair, its balance proof, its open batch, and its
/// current balance.
#[derive(Debug)]
pub struct Wallet {
    pub public_key: BlsPublicKey,
    private_key: BlsSecretKey,
    pub balance_proof: BalanceProof,
    pub transaction_batch: TransactionBatch,
    batch_is_pending: bool,
    pub balance: u64,
}

impl View for Wallet {
    type V = WalletView;

    closed spec fn view(&self) -> WalletView {
        WalletView {
            public_key: self.public_key@,
            private_key: self.private_key@,
            balance_proof: self.balance_proof@,
            transaction_batch: self.transaction_batch@,
            batch_is_pending: self.batch_is_pending,
            balance: self.balance,
        }
    }
}

impl Wallet {
    /// A wallet is well formed when its open batch is its own, every
    /// transaction in the batch leaves this wallet for another account with a
    /// positive amount, and its balance proof holds each key once.
    pub open spec fn wf(&self) -> bool {
        &&& self@.transaction_batch.from == self@.public_key
        &&& forall|i: int|
            0 <= i < self@.transaction_batch.transactions.len() ==> {
                let t = #[trigger] self@.transaction_batch.transactions[i];
                t.from == self@.public_key && t.to != self@.public_key && t.amount > 0
            }
        &&& bp_wf(self@.balance_proof)
    }

    /// The wallet's keys belong together: its public key is the one its
    /// secret key's bytes derive, and those bytes decode to a key that signs.
    /// Freshly generated wallets have it; hydrated ones exactly when their
    /// stored key bytes are usable.
    pub open spec fn keys_ok(&self) -> bool {
        &&& self@.public_key == pubkey_of(self@.private_key)
        &&& sk_well_formed(self@.private_key)
    }

    /// A fresh wallet with a newly generated key pair, no funds, no batch,
    /// and an empty balance proof.
    pub fn new() -> (r: Wallet)
        ensures
            r.wf(),
            r.keys_ok(),
            r@.balance == 0,
            r@.transaction_batch.transactions.len() == 0,
            !r@.batch_is_pending,
            r@.balance_proof.len() == 0,
    {
        let (private_key, public_key) = generate_keypair();
        let transaction_batch = TransactionBatch::new(public_key.clone());
        Wallet {
            public_key,
            private_key,
            balance_proof: BalanceProof::new(),
            transaction_batch,
            batch_is_pending: false,
            balance: 0,
        }
    }

    /// A wallet rebuilt around a persisted secret key and balance proof, or
    /// `None` when the key bytes name no usable key.
    pub fn from_secret_key(private_key: BlsSecretKey, balance_proof: BalanceProof) -> (r: Option<
        Wallet,
    >)
        requires
            balance_proof.wf(),
        ensures
            sk_well_formed(private_key@) ==> r is Some,
            r matches Some(w) ==> w.wf() && w@.balance_proof == balance_proof@ && w@.private_key
                == private_key@ && w@.public_key == pubkey_of(private_key@) && w@.balance == 0
                && w@.transaction_batch.transactions.len() == 0 && !w@.batch_is_pending,
            r matches Some(w) ==> (sk_well_formed(private_key@) ==> w.keys_ok()),
    {
        match private_key.public_key() {
            Some(public_key) => {
                let transaction_batch = TransactionBatch::new(public_key.clone());
                Some(
                    Wallet {
                        public_key,
                        private_key,
                        balance_proof,
                        transaction_batch,
                        batch_is_pending: false,
                        balance: 0,
                    },
                )
            },
            None => None,
        }
    }

    /// The secret key's bytes, for persistence.
    pub fn secret_key_bytes(&self) -> (r: crate::types::common::U8_32)
        ensures
            r@ == self@.private_key,
    {
        self.private_key.to_bytes()
    }

    /// The wallet's public key, as the contracts speak of it.
    pub fn account_key(&self) -> (r: &BlsPublicKey)
        ensures
            r@ == self@.public_key,
    {
        &self.public_key
    }

    /// The wallet's current balance, as the contracts speak of it.
    pub fn current_balance(&self) -> (r: u64)
        ensures
            r == self@.balance,
    {
        self.balance
    }

    /// The wallet's open batch, as the contracts speak of it.
    pub fn open_batch(&self) -> (r: &TransactionBatch)
        ensures
            r@ == self@.transaction_batch,
    {
        &self.transaction_batch
    }

    /// The wallet's balance proof, as the contracts speak of it.
    pub fn proofs(&self) -> (r: &BalanceProof)
        ensures
            r@ == self@.balance_proof,
    {
        &self.balance_proof
    }

    /// Whether the open batch is with the aggregator, awaiting its proof.
    pub fn is_batch_pending(&self) -> (r: bool)
        ensures
            r == self@.batch_is_pending,
    {
        self.batch_is_pending
    }

    /// Appends one outgoing transaction to the open batch, deducting its
    /// amount from the balance. Refused while the batch is pending, for a
    /// transfer to the wallet itself, of nothing, or of more than the wallet
    /// holds.
    pub fn append_transaction_to_batch(&mut self, to: BlsPublicKey, amount: u64) -> (r: Result<
        TransactionBatch,
        StatelessBitcoinError,
    >)
        requires
            old(self).wf(),
        ensures
            final(self).wf(),
            r is Err ==> *final(self) == *old(self),
            old(self)@.batch_is_pending ==> r == Err::<TransactionBatch, StatelessBitcoinError>(
                StatelessBitcoinError::BatchPending,
            ),
            !old(self)@.batch_is_pending && to@ == old(self)@.public_key ==> r == Err::<
                TransactionBatch,
                StatelessBitcoinError,
            >(StatelessBitcoinError::SelfSend),
            !old(self)@.batch_is_pending && to@ != old(self)@.public_key && amount == 0 ==> r
                == Err::<TransactionBatch, StatelessBitcoinError>(StatelessBitcoinError::ZeroAmount),
            !old(self)@.batch_is_pending && to@ != old(self)@.public_key && amount > 0 && amount
                > old(self)@.balance ==> r == Err::<TransactionBatch, StatelessBitcoinError>(
                StatelessBitcoinError::InsufficientBalance,
            ),
            !old(self)@.batch_is_pending && to@ != old(self)@.public_key && 0 < amount <= old(self)@.balance ==> r is Ok && final(self)@.balance == old(self)@.balance - amount && {
                let txs = final(self)@.transaction_batch.transactions;
                let old_txs = old(self)@.transaction_batch.transactions;
                &&& txs.len() == old_txs.len() + 1
                &&& txs.take(old_txs.len() as int) == old_txs
                &&& txs.last().to == to@
                &&& txs.last().from == old(self)@.public_key
                &&& txs.last().amount == amount
                &&& final(self)@.balance_proof == old(self)@.balance_proof
                &&& final(self)@.public_key == old(self)@.public_key
                &&& final(self)@.private_key == old(self)@.private_key
                &&& final(self)@.batch_is_pending == old(self)@.batch_is_pending
                &&& (r matches Ok(b) && b@ == final(self)@.transaction_batch)
            },
    {
        if self.batch_is_pending {
            return Err(StatelessBitcoinError::BatchPending);
        }
        let salt = generate_salt();
        if to.key_eq(&self.public_key) {
            return Err(StatelessBitcoinError::SelfSend);
        }
        if amount == 0 {
            return Err(StatelessBitcoinError::ZeroAmount);
        }
        if amount > self.balance {
            return Err(StatelessBitcoinError::InsufficientBalance);
        }
        let transaction = SimpleTransaction {
            to,
            from: self.public_key.clone(),
            amount,
            salt,
        };
        self.balance = self.balance - amount;
        let ghost old_txs = self@.transaction_batch.transactions;
        self.transaction_batch.transactions.push(transaction);
        proof {
            assert(self@.transaction_batch.transactions =~= old_txs.push(
                self@.transaction_batch.transactions.last(),
            ));
            assert(self@.transaction_batch.transactions.take(old_txs.len() as int) =~= old_txs);
        }
        Ok(self.transaction_batch.clone())
    }

    /// Hands the open batch over for this round: the batch becomes pending
    /// and a copy goes to the caller. An empty batch cannot be produced, and
    /// a pending one cannot be produced twice.
    pub fn produce_batch(&mut self) -> (r: Result<TransactionBatch, StatelessBitcoinError>)
        requires
            old(self).wf(),
        ensures
            final(self).wf(),
            r is Err ==> *final(self) == *old(self),
            old(self)@.transaction_batch.transactions.len() == 0 ==> r == Err::<
                TransactionBatch,
                StatelessBitcoinError,
            >(StatelessBitcoinError::EmptyBatch),
            old(self)@.transaction_batch.transactions.len() > 0 && old(self)@.batch_is_pending
                ==> r == Err::<TransactionBatch, StatelessBitcoinError>(
                StatelessBitcoinError::BatchPending,
            ),
            old(self)@.transaction_batch.transactions.len() > 0 && !old(self)@.batch_is_pending
                ==> (r matches Ok(b) && b@ == old(self)@.transaction_batch && final(self)@.batch_is_pending && final(self)@.transaction_batch == old(self)@.transaction_batch && final(self)@.balance == old(self)@.balance && final(self)@.balance_proof == old(self)@.balance_proof && final(self)@.public_key == old(self)@.public_key && final(self)@.private_key == old(self)@.private_key),
    {
        if self.transaction_batch.transactions.len() == 0 {
            return Err(StatelessBitcoinError::EmptyBatch);
        }
        if self.batch_is_pending {
            return Err(StatelessBitcoinError::BatchPending);
        }
        self.batch_is_pending = true;
        Ok(self.transaction_batch.clone())
    }

    /// Checks the inclusion proof the aggregator sent back for the pending
    /// batch, signs its root, and moves the batch into the balance proof.
    /// Any failure leaves the wallet exactly as it was, the batch still
    /// pending, so a corrected proof can be retried.
    pub fn validate_and_sign_proof(&mut self, transaction_proof: &TransactionProof) -> (r: Result<
        BlsSignature,
        StatelessBitcoinError,
    >)
        requires
            old(self).wf(),
        ensures
            final(self).wf(),
            r is Err ==> *final(self) == *old(self),
            !old(self)@.batch_is_pending ==> r == Err::<BlsSignature, StatelessBitcoinError>(
                StatelessBitcoinError::NoBatchToSign,
            ),
            old(self)@.batch_is_pending && spec_batch_hash(transaction_proof@.batch)
                != spec_batch_hash(old(self)@.transaction_batch) ==> r == Err::<
                BlsSignature,
                StatelessBitcoinError,
            >(StatelessBitcoinError::ProofBatchMismatch),
            old(self)@.batch_is_pending && spec_batch_hash(transaction_proof@.batch)
                == spec_batch_hash(old(self)@.transaction_batch)
                && transaction_proof@.batch.from != old(self)@.public_key ==> r == Err::<
                BlsSignature,
                StatelessBitcoinError,
            >(StatelessBitcoinError::WrongSender),
            old(self)@.batch_is_pending && spec_batch_hash(transaction_proof@.batch)
                == spec_batch_hash(old(self)@.transaction_batch)
                && transaction_proof@.batch.from == old(self)@.public_key
                && !transaction_proof@.valid() ==> r == Err::<BlsSignature, StatelessBitcoinError>(
                StatelessBitcoinError::InvalidProof,
            ),
            old(self).keys_ok() && old(self)@.batch_is_pending && spec_batch_hash(
                transaction_proof@.batch,
            ) == spec_batch_hash(old(self)@.transaction_batch) && transaction_proof@.batch.from
                == old(self)@.public_key && transaction_proof@.valid() ==> r is Ok,
            r matches Ok(signature) ==> old(self)@.batch_is_pending && spec_batch_hash(
                transaction_proof@.batch,
            ) == spec_batch_hash(old(self)@.transaction_batch) && transaction_proof@.batch.from
                == old(self)@.public_key && transaction_proof@.valid() && sig_verify_ok(
                signature@,
                old(self)@.public_key,
                transaction_proof@.root,
            ) && bp_as_map(final(self)@.balance_proof) == bp_as_map(
                old(self)@.balance_proof,
            ).insert(
                crate::types::balance::BalanceProofKeyView {
                    root: transaction_proof@.root,
                    public_key: old(self)@.public_key,
                },
                transaction_proof@,
            ) && final(self)@.transaction_batch.transactions.len() == 0 && !final(self)@.batch_is_pending && final(self)@.balance == old(self)@.balance && final(self)@.public_key == old(self)@.public_key && final(self)@.private_key == old(self)@.private_key,
    {
        if !self.batch_is_pending {
            return Err(StatelessBitcoinError::NoBatchToSign);
        }
        let own_hash = self.transaction_batch.tx_hash();
        let proof_hash = transaction_proof.batch.tx_hash();
        if !u8_32_eq(&own_hash, &proof_hash) {
            return Err(StatelessBitcoinError::ProofBatchMismatch);
        }
        if !transaction_proof.batch.from.key_eq(&self.public_key) {
            return Err(StatelessBitcoinError::WrongSender);
        }
        if !transaction_proof.verify() {
            return Err(StatelessBitcoinError::InvalidProof);
        }
        let signature = match self.private_key.sign(&transaction_proof.root) {
            Some(signature) => signature,
            None => {
                proof {
                    if old(self).keys_ok() {
                        assert(false);
                    }
                }
                return Err(StatelessBitcoinError::SigningFailed);
            },
        };
        match signature.verify(&self.public_key, &transaction_proof.root) {
            Ok(()) => {},
            Err(e) => {
                proof {
                    if old(self).keys_ok() {
                        assert(sig_verify_ok(
                            signature@,
                            pubkey_of(old(self)@.private_key),
                            transaction_proof@.root,
                        ));
                        assert(false);
                    }
                }
                return Err(e);
            },
        }
        self.balance_proof.insert(
            BalanceProofKey { root: transaction_proof.root, public_key: self.public_key.clone() },
            transaction_proof.clone(),
        );
        self.transaction_batch = TransactionBatch::new(self.public_key.clone());
        self.batch_is_pending = false;
        Ok(signature)
    }

    /// Integrates a transfer another wallet sent here: checks that the proof
    /// addresses this wallet and sits in the sender's balance proof, merges
    /// the sender's proof into this wallet's, validates the merged proof
    /// against the settlement view, and adopts the reconstructed balance.
    pub fn add_receiving_transaction(
        &mut self,
        transaction_proof: &TransactionProof,
        senders_balance_proof: &BalanceProof,
        rollup_state: &MockRollupMemory,
    ) -> (r: Result<(), StatelessBitcoinError>)
        requires
            old(self).wf(),
            senders_balance_proof.wf(),
            rollup_state.wf(),
            spec_tx_total(old(self)@.balance_proof) + spec_tx_total(senders_balance_proof@)
                <= TX_TOTAL_LIMIT,
        ensures
            final(self).wf(),
            r is Err ==> *final(self) == *old(self),
            ({
                let pk = old(self)@.public_key;
                let addressed = exists|i: int|
                    0 <= i < transaction_proof@.batch.transactions.len()
                        && #[trigger] transaction_proof@.batch.transactions[i].to == pk;
                let in_sender = bp_contains(
                    senders_balance_proof@,
                    crate::types::balance::BalanceProofKeyView {
                        root: transaction_proof@.root,
                        public_key: transaction_proof@.batch.from,
                    },
                );
                let merged = spec_merge(old(self)@.balance_proof, senders_balance_proof@);
                let blocks = rollup_state@.transfer_blocks;
                let dep = rollup_state@.deposit_totals;
                let wd = rollup_state@.withdraw_totals;
                &&& (!addressed ==> r == Err::<(), StatelessBitcoinError>(
                    StatelessBitcoinError::NotForUs,
                ))
                &&& (addressed && !transaction_proof@.valid() ==> r == Err::<
                    (),
                    StatelessBitcoinError,
                >(StatelessBitcoinError::InvalidProof))
                &&& (addressed && transaction_proof@.valid() && !in_sender ==> r == Err::<
                    (),
                    StatelessBitcoinError,
                >(StatelessBitcoinError::NotInSenderProof))
                &&& (addressed && transaction_proof@.valid() && in_sender ==> (r is Ok <==> (
                spec_scan(merged, blocks) is None && (forall|q: Seq<u8>|
                    #[trigger] spec_participant(merged, q) ==> 0 <= net_flow(merged, q)
                        + spec_amount(dep, q) - spec_amount(wd, q) <= u64::MAX)
                    && spec_participant(merged, pk))))
                &&& (addressed && transaction_proof@.valid() && in_sender ==> {
                    &&& (spec_scan(merged, blocks) == Some(ValidationErrView::InvalidProof) ==> r
                        == Err::<(), StatelessBitcoinError>(StatelessBitcoinError::InvalidProof))
                    &&& (spec_scan(merged, blocks) matches Some(ValidationErrView::MissingBlock(b))
                        ==> (r matches Err(e)
                        && e matches StatelessBitcoinError::BatchNotInATransferBlock(bb) && bb@
                        == b))
                    &&& (spec_scan(merged, blocks) == Some(ValidationErrView::BadBlock) ==> r
                        == Err::<(), StatelessBitcoinError>(StatelessBitcoinError::BadTransferBlock))
                    &&& (spec_scan(merged, blocks) is None && !(forall|q: Seq<u8>|
                        #[trigger] spec_participant(merged, q) ==> 0 <= net_flow(merged, q)
                            + spec_amount(dep, q) - spec_amount(wd, q) <= u64::MAX) ==> (
                    r matches Err(e) && e matches StatelessBitcoinError::BalanceNegative(p)
                        && spec_participant(merged, p@) && !(0 <= net_flow(merged, p@)
                        + spec_amount(dep, p@) - spec_amount(wd, p@) <= u64::MAX)))
                    &&& (spec_scan(merged, blocks) is None && (forall|q: Seq<u8>|
                        #[trigger] spec_participant(merged, q) ==> 0 <= net_flow(merged, q)
                            + spec_amount(dep, q) - spec_amount(wd, q) <= u64::MAX)
                        && !spec_participant(merged, pk) ==> r == Err::<
                        (),
                        StatelessBitcoinError,
                    >(StatelessBitcoinError::BalanceNotFound))
                })
                &&& (r is Ok ==> final(self)@.balance_proof == merged && final(self)@.balance
                    == net_flow(merged, pk) + spec_amount(dep, pk) - spec_amount(wd, pk) && final(self)@.transaction_batch == old(self)@.transaction_batch && final(self)@.batch_is_pending == old(self)@.batch_is_pending && final(self)@.public_key
                    == old(self)@.public_key && final(self)@.private_key == old(self)@.private_key)
            }),
    {
        let ghost pk = self@.public_key;
        let n = transaction_proof.batch.transactions.len();
        let mut i: usize = 0;
        let mut addressed = false;
        while i < n
            invariant
                i <= n,
                n == transaction_proof@.batch.transactions.len(),
                pk == self@.public_key,
                addressed ==> exists|j: int|
                    0 <= j < n && #[trigger] transaction_proof@.batch.transactions[j].to == pk,
                !addressed ==> forall|j: int|
                    0 <= j < i ==> #[trigger] transaction_proof@.batch.transactions[j].to != pk,
            decreases n - i,
        {
            if (&transaction_proof.batch.transactions[i].to).key_eq(&self.public_key) {
                addressed = true;
                proof {
                    assert(transaction_proof@.batch.transactions[i as int].to == pk);
                }
            }
            i = i + 1;
        }
        if !addressed {
            return Err(StatelessBitcoinError::NotForUs);
        }
        if !transaction_proof.verify() {
            return Err(StatelessBitcoinError::InvalidProof);
        }
        let lookup_key = BalanceProofKey {
            root: transaction_proof.root,
            public_key: transaction_proof.batch.from.clone(),
        };
        if !senders_balance_proof.contains_key(&lookup_key) {
            return Err(StatelessBitcoinError::NotInSenderProof);
        }
        let merged_proof = match merge_balance_proofs(
            self.balance_proof.clone(),
            senders_balance_proof.clone(),
        ) {
            Ok(merged_proof) => merged_proof,
            Err(e) => {
                proof {
                    assert(false);
                }
                return Err(e);
            },
        };
        let balances = match calculate_balances_and_validate_balance_proof(
            rollup_state,
            &merged_proof,
        ) {
            Ok(balances) => balances,
            Err(e) => {
                return Err(e);
            },
        };
        if !balances.contains_account(&self.public_key) {
            return Err(StatelessBitcoinError::BalanceNotFound);
        }
        let current_balance = balances.get_amount(&self.public_key);
        self.balance = current_balance;
        self.balance_proof = merged_proof;
        Ok(())
    }

    /// Recomputes the balance from the settlement view: the validator's
    /// reading of the balance proof where the wallet appears in it, else
    /// plain deposits less withdrawals.
    pub fn sync_rollup_state(&mut self, rollup_state: &MockRollupMemory) -> (r: Result<
        (),
        StatelessBitcoinError,
    >)
        requires
            old(self).wf(),
            rollup_state.wf(),
            spec_tx_total(old(self)@.balance_proof) <= TX_TOTAL_LIMIT,
        ensures
            final(self).wf(),
            r is Err ==> *final(self) == *old(self),
            ({
                let pk = old(self)@.public_key;
                let entries = old(self)@.balance_proof;
                let blocks = rollup_state@.transfer_blocks;
                let dep = rollup_state@.deposit_totals;
                let wd = rollup_state@.withdraw_totals;
                &&& (r is Ok <==> spec_scan(entries, blocks) is None && (forall|q: Seq<u8>|
                    #[trigger] spec_participant(entries, q) ==> 0 <= net_flow(entries, q)
                        + spec_amount(dep, q) - spec_amount(wd, q) <= u64::MAX))
                &&& (r is Ok ==> final(self)@.balance == if spec_participant(entries, pk) {
                    net_flow(entries, pk) + spec_amount(dep, pk) - spec_amount(wd, pk)
                } else {
                    spec_amount(dep, pk) - spec_amount(wd, pk)
                })
                &&& (r is Ok ==> final(self)@.balance_proof == old(self)@.balance_proof && final(self)@.transaction_batch == old(self)@.transaction_batch && final(self)@.batch_is_pending == old(self)@.batch_is_pending && final(self)@.public_key
                    == old(self)@.public_key && final(self)@.private_key == old(self)@.private_key)
            }),
    {
        let balances = match calculate_balances_and_validate_balance_proof(
            rollup_state,
            &self.balance_proof,
        ) {
            Ok(balances) => balances,
            Err(e) => {
                return Err(e);
            },
        };
        if balances.contains_account(&self.public_key) {
            self.balance = balances.get_amount(&self.public_key);
        } else {
            let deposit_amount = rollup_state.get_account_deposit_amount(&self.public_key);
            let withdraw_amount = rollup_state.get_account_withdraw_amount(&self.public_key);
            self.balance = deposit_amount - withdraw_amount;
        }
        Ok(())
    }
}

} // verus!
