//! The aggregator: the single-round actor that accepts one batch per sender,
//! binds the batches under one Merkle root, collects signatures over that
//! root, and emits one transfer block.
//!
//! A round moves `Open → CollectSignatures → Finalised` and an aggregator is
//! single-use: once finalised, a fresh one takes over the next round.

use vstd::prelude::*;

use crate::assoc::{al_contains, al_map, al_wf, lemma_al_map_props};
use crate::errors::StatelessBitcoinError;
use crate::merkle::{
    hashes_view, merkle_path_ok, merkle_proof_for_index, merkle_root_from_leaves, merkle_root_of,
};
use crate::types::common::{
    generate_salt, spec_certifies, spec_values_pks, spec_values_sigs, TransferBlock,
    TransferBlockView, U8_32,
};
use crate::types::public_key::BlsPublicKey;
use crate::types::signatures::{agg_of, sig_verify_ok, BlsSignature};
use crate::types::transaction::{spec_batch_hash, BatchView, TransactionBatch, TransactionProof};

verus! {

/// The mathematical shape of one sender's round entry.
pub ghost struct TxMetadataView {
    pub index: int,
    pub batch: BatchView,
    pub signature: Option<Seq<u8>>,
}

/// What the aggregator keeps for one sender: the batch, its leaf index, and
/// the signature once it arrives.
#[derive(Debug, PartialEq, Eq)]
pub struct TxMetadata {
    pub index: usize,
    pub batch: TransactionBatch,
    pub signature: Option<BlsSignature>,
}

impl View for TxMetadata {
    type V = TxMetadataView;

    open spec fn view(&self) -> TxMetadataView {
        TxMetadataView {
            index: self.index as int,
            batch: self.batch@,
            signature: match self.signature {
                Some(ref s) => Some(s@),
                None => None,
            },
        }
    }
}

/// The mathematical shape of the round state.
pub ghost enum AggregatorStateView {
    Open,
    CollectSignatures,
    Finalised(TransferBlockView),
}

/// Where the round stands.
#[derive(Debug, PartialEq, Eq)]
pub enum AggregatorState {
    Open,
    CollectSignatures,
    Finalised(TransferBlock),
}

impl View for AggregatorState {
    type V = AggregatorStateView;

    open spec fn view(&self) -> AggregatorStateView {
        match self {
            AggregatorState::Open => AggregatorStateView::Open,
            AggregatorState::CollectSignatures => AggregatorStateView::CollectSignatures,
            AggregatorState::Finalised(b) => AggregatorStateView::Finalised(b@),
        }
    }
}

/// One sender entry: the key and its metadata.
pub type MetadataEntryView = (Seq<u8>, TxMetadataView);

/// The mathematical shape of an aggregator.
pub ghost struct AggregatorView {
    pub metadata: Seq<MetadataEntryView>,
    pub leaves: Seq<Seq<u8>>,
    pub state: AggregatorStateView,
    pub salt: Seq<u8>,
}

/// The `(key, signature)` pairs of the senders that have signed, in insertion
/// order.
pub open spec fn spec_signed_pairs(m: Seq<MetadataEntryView>) -> Seq<(Seq<u8>, Seq<u8>)>
    decreases m.len(),
{
    if m.len() == 0 {
        Seq::empty()
    } else {
        let rest = spec_signed_pairs(m.drop_last());
        match m.last().1.signature {
            Some(s) => rest.push((m.last().0, s)),
            None => rest,
        }
    }
}

/// The keys of a list of collected pairs, in order.
pub open spec fn spec_pair_pks(pairs: Seq<(Seq<u8>, Seq<u8>)>) -> Seq<Seq<u8>> {
    pairs.map_values(|p: (Seq<u8>, Seq<u8>)| p.0)
}

/// The signatures of a list of collected pairs, in order.
pub open spec fn spec_pair_sigs(pairs: Seq<(Seq<u8>, Seq<u8>)>) -> Seq<Seq<u8>> {
    pairs.map_values(|p: (Seq<u8>, Seq<u8>)| p.1)
}

/// Each collected pair of a round whose stored signatures all verify the root
/// is itself a verifying (key, signature) pair over that root.
proof fn lemma_signed_pairs_verify(m: Seq<MetadataEntryView>, root: Seq<u8>)
    requires
        forall|i: int|
            0 <= i < m.len() ==> (#[trigger] m[i].1.signature matches Some(s) ==> sig_verify_ok(
                s,
                m[i].0,
                root,
            )),
    ensures
        forall|k: int|
            0 <= k < spec_signed_pairs(m).len() ==> sig_verify_ok(
                #[trigger] spec_signed_pairs(m)[k].1,
                spec_signed_pairs(m)[k].0,
                root,
            ),
    decreases m.len(),
{
    if m.len() > 0 {
        let p = m.drop_last();
        assert(forall|i: int| 0 <= i < p.len() ==> #[trigger] p[i] == m[i]);
        lemma_signed_pairs_verify(p, root);
        let pairs = spec_signed_pairs(m);
        let prev = spec_signed_pairs(p);
        match m.last().1.signature {
            Some(s) => {
                assert(pairs == prev.push((m.last().0, s)));
                assert(m[m.len() - 1].1.signature matches Some(x) && x == s);
                assert(sig_verify_ok(s, m[m.len() - 1].0, root));
                assert forall|k: int| 0 <= k < pairs.len() implies sig_verify_ok(
                    #[trigger] pairs[k].1,
                    pairs[k].0,
                    root,
                ) by {
                    if k < prev.len() {
                        assert(pairs[k] == prev[k]);
                        assert(sig_verify_ok(prev[k].1, prev[k].0, root));
                    }
                }
            },
            None => {
                assert(pairs == prev);
            },
        }
    }
}

/// The aggregator of one round.
pub struct Aggregator {
    pub tx_hash_to_metadata: Vec<(BlsPublicKey, TxMetadata)>,
    pub leaves: Vec<U8_32>,
    pub state: AggregatorState,
    pub salt: U8_32,
}

impl View for Aggregator {
    type V = AggregatorView;

    open spec fn view(&self) -> AggregatorView {
        AggregatorView {
            metadata: self.tx_hash_to_metadata@.map_values(
                |e: (BlsPublicKey, TxMetadata)| (e.0@, e.1@),
            ),
            leaves: hashes_view(self.leaves@),
            state: self.state@,
            salt: self.salt@,
        }
    }
}

impl Aggregator {
    /// Structural soundness of a round: one leaf per sender, entries indexed
    /// in insertion order and keyed by their batch's sender, senders pairwise
    /// distinct, no signature before collection starts, and collection never
    /// starts empty.
    pub open spec fn wf(&self) -> bool {
        let m = self@.metadata;
        &&& self@.leaves.len() == m.len()
        &&& forall|i: int| 0 <= i < m.len() ==> #[trigger] m[i].1.index == i
        &&& forall|i: int| 0 <= i < m.len() ==> #[trigger] m[i].1.batch.from == m[i].0
        &&& al_wf(m)
        &&& (self@.state is Open ==> forall|i: int|
            0 <= i < m.len() ==> #[trigger] m[i].1.signature is None)
        &&& (self@.state is CollectSignatures ==> m.len() > 0)
    }

    /// Every stored leaf is its batch's hash. This ties the Merkle tree to
    /// the batches; it holds of every aggregator the library builds.
    pub open spec fn hashes_ok(&self) -> bool {
        forall|i: int|
            0 <= i < self@.metadata.len() ==> #[trigger] self@.leaves[i] == spec_batch_hash(
                self@.metadata[i].1.batch,
            )
    }

    /// Every stored signature verifies the round's root. This holds of every
    /// aggregator the library builds: a signature is checked as it arrives.
    pub open spec fn sigs_ok(&self) -> bool {
        forall|i: int|
            0 <= i < self@.metadata.len() ==> (#[trigger] self@.metadata[i].1.signature matches Some(
                s,
            ) ==> sig_verify_ok(s, self@.metadata[i].0, merkle_root_of(self@.leaves)))
    }

    /// A fresh, open, empty round.
    pub fn new() -> (r: Aggregator)
        ensures
            r.wf(),
            r.hashes_ok(),
            r.sigs_ok(),
            r@.metadata.len() == 0,
            r@.leaves.len() == 0,
            r@.state is Open,
    {
        Aggregator {
            tx_hash_to_metadata: Vec::new(),
            leaves: Vec::new(),
            state: AggregatorState::Open,
            salt: generate_salt(),
        }
    }

    /// The position of a sender in the round, if it has one.
    fn index_of_pk(&self, public_key: &BlsPublicKey) -> (r: Option<usize>)
        ensures
            r matches Some(i) ==> i < self@.metadata.len() && self@.metadata[i as int].0
                == public_key@,
            r is None ==> !al_contains(self@.metadata, public_key@),
    {
        let n = self.tx_hash_to_metadata.len();
        let mut i: usize = 0;
        while i < n
            invariant
                i <= n,
                n == self@.metadata.len(),
                self@.metadata.len() == self.tx_hash_to_metadata@.len(),
                forall|j: int| 0 <= j < i ==> self@.metadata[j].0 != public_key@,
                forall|j: int|
                    0 <= j < self@.metadata.len() ==> self@.metadata[j].0
                        == self.tx_hash_to_metadata@[j].0@,
            decreases n - i,
        {
            if (&self.tx_hash_to_metadata[i].0).key_eq(public_key) {
                return Some(i);
            }
            i = i + 1;
        }
        None
    }

    /// Accepts one sender's batch into an open round, assigning it the next
    /// leaf. A second batch from the same sender is refused.
    pub fn add_batch(&mut self, batch: &TransactionBatch) -> (r: Result<(), StatelessBitcoinError>)
        requires
            old(self).wf(),
        ensures
            final(self).wf(),
            !(old(self)@.state is Open) ==> r == Err::<(), StatelessBitcoinError>(
                StatelessBitcoinError::WrongState,
            ) && *final(self) == *old(self),
            old(self)@.state is Open && al_contains(old(self)@.metadata, batch@.from) ==> r
                == Err::<(), StatelessBitcoinError>(StatelessBitcoinError::DuplicateSender)
                && *final(self) == *old(self),
            old(self)@.state is Open && !al_contains(old(self)@.metadata, batch@.from) ==> r is Ok
                && final(self)@.metadata == old(self)@.metadata.push(
                (
                    batch@.from,
                    TxMetadataView {
                        index: old(self)@.metadata.len() as int,
                        batch: batch@,
                        signature: None,
                    },
                ),
            ) && final(self)@.leaves == old(self)@.leaves.push(spec_batch_hash(batch@))
                && final(self)@.state == old(self)@.state && final(self)@.salt == old(self)@.salt,
            old(self).hashes_ok() ==> final(self).hashes_ok(),
            old(self).sigs_ok() ==> final(self).sigs_ok(),
    {
        match self.state {
            AggregatorState::Open => {},
            _ => {
                return Err(StatelessBitcoinError::WrongState);
            },
        }
        let ghost old_view = self@;
        match self.index_of_pk(&batch.from) {
            Some(i) => {
                proof {
                    assert(al_contains(old_view.metadata, batch@.from)) by {
                        assert(old_view.metadata[i as int].0 == batch@.from);
                    }
                }
                Err(StatelessBitcoinError::DuplicateSender)
            },
            None => {
                let index = self.leaves.len();
                let leaf = batch.tx_hash();
                self.tx_hash_to_metadata.push(
                    (
                        batch.from.clone(),
                        TxMetadata { index, batch: batch.clone(), signature: None },
                    ),
                );
                self.leaves.push(leaf);
                proof {
                    assert(self@.metadata =~= old_view.metadata.push(
                        (
                            batch@.from,
                            TxMetadataView {
                                index: old_view.metadata.len() as int,
                                batch: batch@,
                                signature: None,
                            },
                        ),
                    ));
                    assert(self@.leaves =~= old_view.leaves.push(spec_batch_hash(batch@)));
                    assert(forall|j: int|
                        0 <= j < old_view.metadata.len() ==> #[trigger] self@.metadata[j]
                            == old_view.metadata[j]);
                    assert(self@.metadata[old_view.metadata.len() as int].0 == batch@.from);
                    assert forall|j: int| 0 <= j < self@.metadata.len() implies #[trigger] self@.metadata[j].1.index
                        == j by {
                        if j < old_view.metadata.len() {
                            assert(old_view.metadata[j].1.index == j);
                        }
                    }
                    assert forall|j: int| 0 <= j < self@.metadata.len() implies #[trigger] self@.metadata[j].1.batch.from
                        == self@.metadata[j].0 by {
                        if j < old_view.metadata.len() {
                            assert(old_view.metadata[j].1.batch.from == old_view.metadata[j].0);
                        }
                    }
                    assert forall|j: int| 0 <= j < self@.metadata.len() implies #[trigger] self@.metadata[j].1.signature
                        is None by {
                        if j < old_view.metadata.len() {
                            assert(old_view.metadata[j].1.signature is None);
                        }
                    }
                }
                Ok(())
            },
        }
    }

    /// The round's Merkle root over the batch hashes collected so far.
    pub fn root(&self) -> (r: Result<U8_32, StatelessBitcoinError>)
        ensures
            r is Ok <==> self@.leaves.len() > 0,
            r matches Ok(root) ==> root@ == merkle_root_of(self@.leaves),
            r is Err ==> r == Err::<U8_32, StatelessBitcoinError>(
                StatelessBitcoinError::NoTransactions,
            ),
    {
        match merkle_root_from_leaves(&self.leaves) {
            Some(root) => Ok(root),
            None => Err(StatelessBitcoinError::NoTransactions),
        }
    }

    /// Freezes the leaf set: the round moves from accepting batches to
    /// collecting signatures. An empty round cannot move.
    pub fn start_collecting_signatures(&mut self) -> (r: Result<(), StatelessBitcoinError>)
        requires
            old(self).wf(),
        ensures
            final(self).wf(),
            old(self)@.metadata.len() == 0 ==> r == Err::<(), StatelessBitcoinError>(
                StatelessBitcoinError::NoTransactions,
            ) && *final(self) == *old(self),
            old(self)@.metadata.len() > 0 && !(old(self)@.state is Open) ==> r == Err::<
                (),
                StatelessBitcoinError,
            >(StatelessBitcoinError::WrongState) && *final(self) == *old(self),
            old(self)@.metadata.len() > 0 && old(self)@.state is Open ==> r is Ok && final(self)@.state is CollectSignatures && final(self)@.metadata == old(self)@.metadata && final(self)@.leaves == old(self)@.leaves && final(self)@.salt == old(self)@.salt,
            old(self).hashes_ok() ==> final(self).hashes_ok(),
            old(self).sigs_ok() ==> final(self).sigs_ok(),
    {
        if self.tx_hash_to_metadata.len() == 0 {
            return Err(StatelessBitcoinError::NoTransactions);
        }
        match self.state {
            AggregatorState::Open => {},
            _ => {
                return Err(StatelessBitcoinError::WrongState);
            },
        }
        self.state = AggregatorState::CollectSignatures;
        Ok(())
    }

    /// Produces the inclusion proof for one sender's batch under the round's
    /// root. The proof is checked before it is handed out, so every proof
    /// this returns passes `TransactionProof::verify`.
    pub fn generate_proof_for_pubkey(&self, public_key: &BlsPublicKey) -> (r: Result<
        TransactionProof,
        StatelessBitcoinError,
    >)
        requires
            self.wf(),
        ensures
            !(self@.state is CollectSignatures) ==> r == Err::<
                TransactionProof,
                StatelessBitcoinError,
            >(StatelessBitcoinError::WrongState),
            self@.state is CollectSignatures && !al_contains(self@.metadata, public_key@) ==> r
                == Err::<TransactionProof, StatelessBitcoinError>(StatelessBitcoinError::NotFound),
            self@.state is CollectSignatures && al_contains(self@.metadata, public_key@)
                && self.hashes_ok() ==> r is Ok,
            r matches Ok(p) ==> al_contains(self@.metadata, public_key@) && p@.batch == al_map(
                self@.metadata,
            )[public_key@].batch && p@.index == al_map(self@.metadata)[public_key@].index
                && p@.total_leaves == self@.leaves.len() && p@.root == merkle_root_of(self@.leaves)
                && p@.valid(),
    {
        match self.state {
            AggregatorState::CollectSignatures => {},
            _ => {
                return Err(StatelessBitcoinError::WrongState);
            },
        }
        let i = match self.index_of_pk(public_key) {
            Some(i) => i,
            None => {
                return Err(StatelessBitcoinError::NotFound);
            },
        };
        proof {
            assert(al_contains(self@.metadata, public_key@)) by {
                assert(self@.metadata[i as int].0 == public_key@);
            }
            lemma_al_map_props(self@.metadata);
            assert(al_map(self@.metadata)[self@.metadata[i as int].0]
                == self@.metadata[i as int].1);
        }
        let meta = &self.tx_hash_to_metadata[i].1;
        assert(meta@ == self@.metadata[i as int].1);
        proof {
            assert(self@.metadata[i as int].1.index == i as int);
            assert(self@.leaves.len() == self@.metadata.len());
        }
        assert(meta.index == i);
        let proof_hashes = merkle_proof_for_index(&self.leaves, meta.index);
        let root = match self.root() {
            Ok(root) => root,
            Err(e) => {
                proof {
                    assert(false);
                }
                return Err(e);
            },
        };
        let merkle_proof = TransactionProof {
            proof_hashes,
            root,
            batch: meta.batch.clone(),
            index: meta.index,
            total_leaves: self.leaves.len(),
        };
        if merkle_proof.verify() {
            Ok(merkle_proof)
        } else {
            proof {
                if self.hashes_ok() {
                    assert(self@.leaves[i as int] == spec_batch_hash(
                        self@.metadata[i as int].1.batch,
                    ));
                }
            }
            Err(StatelessBitcoinError::InvalidProof)
        }
    }

    /// Accepts one sender's signature over the round's root, refusing one
    /// that does not verify or names an unknown sender.
    pub fn add_signature(&mut self, public_key: &BlsPublicKey, signature: &BlsSignature) -> (r:
        Result<(), StatelessBitcoinError>)
        requires
            old(self).wf(),
        ensures
            final(self).wf(),
            !(old(self)@.state is CollectSignatures) ==> r == Err::<(), StatelessBitcoinError>(
                StatelessBitcoinError::WrongState,
            ) && *final(self) == *old(self),
            old(self)@.state is CollectSignatures && !sig_verify_ok(
                signature@,
                public_key@,
                merkle_root_of(old(self)@.leaves),
            ) ==> r == Err::<(), StatelessBitcoinError>(StatelessBitcoinError::BadSignature)
                && *final(self) == *old(self),
            old(self)@.state is CollectSignatures && sig_verify_ok(
                signature@,
                public_key@,
                merkle_root_of(old(self)@.leaves),
            ) && !al_contains(old(self)@.metadata, public_key@) ==> r == Err::<
                (),
                StatelessBitcoinError,
            >(StatelessBitcoinError::NotFound) && *final(self) == *old(self),
            old(self)@.state is CollectSignatures && sig_verify_ok(
                signature@,
                public_key@,
                merkle_root_of(old(self)@.leaves),
            ) && al_contains(old(self)@.metadata, public_key@) ==> r is Ok && (exists|i: int|
                0 <= i < old(self)@.metadata.len() && old(self)@.metadata[i].0 == public_key@
                    && final(self)@.metadata == old(self)@.metadata.update(
                    i,
                    (
                        public_key@,
                        TxMetadataView {
                            index: old(self)@.metadata[i].1.index,
                            batch: old(self)@.metadata[i].1.batch,
                            signature: Some(signature@),
                        },
                    ),
                )) && final(self)@.leaves == old(self)@.leaves && final(self)@.state == old(self)@.state && final(self)@.salt == old(self)@.salt,
            old(self).hashes_ok() ==> final(self).hashes_ok(),
            old(self).sigs_ok() ==> final(self).sigs_ok(),
    {
        match self.state {
            AggregatorState::CollectSignatures => {},
            _ => {
                return Err(StatelessBitcoinError::WrongState);
            },
        }
        let root = match self.root() {
            Ok(root) => root,
            Err(e) => {
                proof {
                    assert(false);
                }
                return Err(e);
            },
        };
        signature.verify(public_key, &root)?;
        let ghost old_view = self@;
        let i = match self.index_of_pk(public_key) {
            Some(i) => i,
            None => {
                return Err(StatelessBitcoinError::NotFound);
            },
        };
        let meta = &self.tx_hash_to_metadata[i].1;
        let new_meta = TxMetadata {
            index: meta.index,
            batch: meta.batch.clone(),
            signature: Some(signature.clone()),
        };
        self.tx_hash_to_metadata.set(i, (public_key.clone(), new_meta));
        proof {
            assert(al_contains(old_view.metadata, public_key@)) by {
                assert(old_view.metadata[i as int].0 == public_key@);
            }
            assert(self@.metadata =~= old_view.metadata.update(
                i as int,
                (
                    public_key@,
                    TxMetadataView {
                        index: old_view.metadata[i as int].1.index,
                        batch: old_view.metadata[i as int].1.batch,
                        signature: Some(signature@),
                    },
                ),
            ));
            assert(al_wf(self@.metadata)) by {
                assert(forall|a: int|
                    0 <= a < self@.metadata.len() ==> #[trigger] self@.metadata[a].0
                        == old_view.metadata[a].0);
            }
            assert(old_view.metadata[i as int].1.batch.from == old_view.metadata[i as int].0);
            assert forall|a: int| 0 <= a < self@.metadata.len() implies #[trigger] self@.metadata[a].1.index
                == a by {
                assert(old_view.metadata[a].1.index == a);
                if a != i {
                    assert(self@.metadata[a] == old_view.metadata[a]);
                }
            }
            assert forall|a: int| 0 <= a < self@.metadata.len() implies #[trigger] self@.metadata[a].1.batch.from
                == self@.metadata[a].0 by {
                assert(old_view.metadata[a].1.batch.from == old_view.metadata[a].0);
                if a != i {
                    assert(self@.metadata[a] == old_view.metadata[a]);
                }
            }
            if old(self).sigs_ok() {
                assert(self@.leaves == old_view.leaves);
                assert forall|a: int|
                    0 <= a < self@.metadata.len() implies (#[trigger] self@.metadata[a].1.signature matches Some(
                    s,
                ) ==> sig_verify_ok(s, self@.metadata[a].0, merkle_root_of(self@.leaves))) by {
                    if a == i {
                        assert(root@ == merkle_root_of(old_view.leaves));
                    } else {
                        assert(self@.metadata[a] == old_view.metadata[a]);
                    }
                }
            }
        }
        Ok(())
    }

    /// Builds the round's transfer block from whichever senders signed: one
    /// signer stands alone, several are aggregated. The block is checked
    /// before the round closes, so every block this returns certifies its
    /// root.
    pub fn finalise(&mut self) -> (r: Result<TransferBlock, StatelessBitcoinError>)
        requires
            old(self).wf(),
        ensures
            final(self).wf(),
            !(old(self)@.state is CollectSignatures) ==> r == Err::<
                TransferBlock,
                StatelessBitcoinError,
            >(StatelessBitcoinError::WrongState) && *final(self) == *old(self),
            old(self)@.state is CollectSignatures && spec_signed_pairs(old(self)@.metadata).len()
                == 0 ==> r == Err::<TransferBlock, StatelessBitcoinError>(
                StatelessBitcoinError::NoSignatures,
            ) && *final(self) == *old(self),
            r is Err ==> *final(self) == *old(self),
            r matches Ok(block) ==> old(self)@.state is CollectSignatures && {
                let pairs = spec_signed_pairs(old(self)@.metadata);
                &&& pairs.len() > 0
                &&& block@.merkle_root == merkle_root_of(old(self)@.leaves)
                &&& block@.signers() == spec_pair_pks(pairs)
                &&& (block@.signature is Individual <==> pairs.len() == 1)
                &&& block@.certifies()
                &&& final(self)@.state == AggregatorStateView::Finalised(block@)
                &&& final(self)@.metadata == old(self)@.metadata
                &&& final(self)@.leaves == old(self)@.leaves
            },
            old(self).sigs_ok() && old(self)@.state is CollectSignatures && spec_signed_pairs(
                old(self)@.metadata,
            ).len() >= 1 && (spec_signed_pairs(old(self)@.metadata).len() == 1 || agg_of(
                spec_pair_sigs(spec_signed_pairs(old(self)@.metadata)),
            ) is Some) ==> r is Ok,
            old(self).hashes_ok() ==> final(self).hashes_ok(),
            old(self).sigs_ok() ==> final(self).sigs_ok(),
    {
        match self.state {
            AggregatorState::CollectSignatures => {},
            _ => {
                return Err(StatelessBitcoinError::WrongState);
            },
        }
        let n = self.tx_hash_to_metadata.len();
        let mut values: Vec<(BlsPublicKey, BlsSignature)> = Vec::new();
        let mut i: usize = 0;
        while i < n
            invariant
                i <= n,
                self.wf(),
                n == self@.metadata.len(),
                self@.metadata.len() == self.tx_hash_to_metadata@.len(),
                values@.map_values(|v: (BlsPublicKey, BlsSignature)| (v.0@, v.1@))
                    == spec_signed_pairs(self@.metadata.take(i as int)),
            decreases n - i,
        {
            let ghost prefix = self@.metadata.take(i as int);
            let ghost old_pairs = values@.map_values(
                |v: (BlsPublicKey, BlsSignature)| (v.0@, v.1@),
            );
            let entry = &self.tx_hash_to_metadata[i];
            match &entry.1.signature {
                Some(signature) => {
                    values.push((entry.1.batch.from.clone(), signature.clone()));
                    proof {
                        assert(values@.map_values(|v: (BlsPublicKey, BlsSignature)| (v.0@, v.1@))
                            =~= old_pairs.push((entry.1.batch.from@, signature@)));
                    }
                },
                None => {},
            }
            i = i + 1;
            proof {
                let next = self@.metadata.take(i as int);
                assert(next.drop_last() =~= prefix);
                assert(next.last() == self@.metadata[i - 1]);
                assert(self@.metadata[i - 1].1.batch.from == self@.metadata[i - 1].0);
                match self@.metadata[i - 1].1.signature {
                    Some(s) => {
                        assert(spec_signed_pairs(next) == spec_signed_pairs(prefix).push(
                            (self@.metadata[i - 1].0, s),
                        ));
                    },
                    None => {
                        assert(spec_signed_pairs(next) == spec_signed_pairs(prefix));
                    },
                }
            }
        }
        proof {
            assert(self@.metadata.take(n as int) =~= self@.metadata);
        }
        if values.len() == 0 {
            return Err(StatelessBitcoinError::NoSignatures);
        }
        let ghost pairs = spec_signed_pairs(self@.metadata);
        let ghost values_view = values@;
        proof {
            assert(spec_values_sigs(values_view) =~= spec_pair_sigs(pairs));
            assert(spec_values_pks(values_view) =~= spec_pair_pks(pairs));
        }
        let signature = match crate::types::common::TransferBlockSignature::new(values) {
            Ok(signature) => signature,
            Err(e) => {
                proof {
                    if old(self).sigs_ok() && pairs.len() >= 1 && (pairs.len() == 1 || agg_of(
                        spec_pair_sigs(pairs),
                    ) is Some) {
                        assert(values_view.len() == pairs.len());
                        assert(false);
                    }
                }
                return Err(e);
            },
        };
        proof {
            assert(crate::types::common::spec_signers(signature@) =~= spec_pair_pks(pairs));
        }
        let root = match self.root() {
            Ok(root) => root,
            Err(e) => {
                proof {
                    assert(false);
                }
                return Err(e);
            },
        };
        let transfer_block = TransferBlock { signature, merkle_root: root };
        match transfer_block.verify() {
            Ok(()) => {},
            Err(_) => {
                proof {
                    if old(self).sigs_ok() && pairs.len() >= 1 && (pairs.len() == 1 || agg_of(
                        spec_pair_sigs(pairs),
                    ) is Some) {
                        lemma_signed_pairs_verify(
                            old(self)@.metadata,
                            merkle_root_of(old(self)@.leaves),
                        );
                        assert(root@ == merkle_root_of(old(self)@.leaves));
                        assert forall|k: int| 0 <= k < values_view.len() implies #[trigger] sig_verify_ok(
                            spec_values_sigs(values_view)[k],
                            spec_values_pks(values_view)[k],
                            root@,
                        ) by {
                            assert(sig_verify_ok(pairs[k].1, pairs[k].0, root@));
                            assert(spec_values_sigs(values_view)[k] == pairs[k].1);
                            assert(spec_values_pks(values_view)[k] == pairs[k].0);
                        }
                        assert(spec_certifies(signature@, root@));
                        assert(transfer_block@.certifies());
                        assert(false);
                    }
                }
                return Err(StatelessBitcoinError::AggregateError);
            },
        }
        self.state = AggregatorState::Finalised(transfer_block.clone());
        Ok(transfer_block)
    }
}

} // verus!
