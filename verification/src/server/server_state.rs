//! The coordinator's round state: who is connected, who sent a batch this
//! round, and the aggregator those batches sit in.
//!
//! Everything that moves bytes — sockets, timers, the settlement store —
//! lives outside the verified core. The coordinator's decisions are here:
//! which proofs go out when signature collection starts, which recipients a
//! committed batch is fanned out to, and what finalisation leaves behind.

use vstd::prelude::*;

use crate::aggregator::{spec_pair_pks, spec_pair_sigs, spec_signed_pairs, Aggregator};
use crate::assoc::{al_contains, al_map, al_wf, lemma_al_map_props, lemma_al_map_push, lemma_al_map_update};
use crate::errors::StatelessBitcoinError;
use crate::merkle::merkle_root_of;
use crate::types::common::{pks_contain, TransferBlock};
use crate::types::public_key::BlsPublicKey;
use crate::types::signatures::{agg_of, pks_view, sig_verify_ok, BlsSignature};
use crate::types::transaction::{TransactionBatch, TransactionProof, TxView};

verus! {

/// The mathematical shape of the coordinator's state.
pub ghost struct ServerStateView {
    pub connections: Seq<Seq<u8>>,
    pub connections_with_tx: Seq<(Seq<u8>, bool)>,
    pub aggregator: crate::aggregator::AggregatorView,
}

/// The coordinator's per-round state.
pub struct ServerState {
    pub connections: Vec<BlsPublicKey>,
    pub connections_with_tx: Vec<(BlsPublicKey, bool)>,
    pub aggregator: Aggregator,
}

impl View for ServerState {
    type V = ServerStateView;

    open spec fn view(&self) -> ServerStateView {
        ServerStateView {
            connections: pks_view(self.connections@),
            connections_with_tx: self.connections_with_tx@.map_values(
                |e: (BlsPublicKey, bool)| (e.0@, e.1),
            ),
            aggregator: self.aggregator@,
        }
    }
}

/// Whether the gathered proof list carries an entry for the key.
pub open spec fn proofs_cover(out: Seq<(BlsPublicKey, TransactionProof)>, k: Seq<u8>) -> bool {
    exists|j: int| 0 <= j < out.len() && (#[trigger] out[j].0)@ == k
}

/// A list of keys holds no key twice.
pub open spec fn pks_distinct(s: Seq<Seq<u8>>) -> bool {
    forall|i: int, j: int| 0 <= i < j < s.len() ==> s[i] != s[j]
}

impl ServerState {
    /// Registered keys are pairwise distinct, one sender entry per key, and
    /// the aggregator is structurally sound.
    pub open spec fn wf(&self) -> bool {
        &&& pks_distinct(self@.connections)
        &&& al_wf(self@.connections_with_tx)
        &&& self.aggregator.wf()
        &&& forall|k: Seq<u8>|
            #[trigger] al_contains(self@.connections_with_tx, k) ==> al_contains(
                self@.aggregator.metadata,
                k,
            )
    }

    /// A fresh coordinator with no connections and an open, empty round.
    pub fn new() -> (r: Result<ServerState, StatelessBitcoinError>)
        ensures
            r matches Ok(s) ==> s.wf() && s@.connections.len() == 0
                && s@.connections_with_tx.len() == 0 && s@.aggregator.state is Open
                && s@.aggregator.metadata.len() == 0 && s.aggregator.hashes_ok()
                && s.aggregator.sigs_ok(),
            r is Ok,
    {
        Ok(
            ServerState {
                connections: Vec::new(),
                connections_with_tx: Vec::new(),
                aggregator: Aggregator::new(),
            },
        )
    }

    /// Registers a wallet's connection; a key already registered stays as it
    /// was.
    pub fn add_connection(&mut self, public_key: BlsPublicKey)
        requires
            old(self).wf(),
        ensures
            final(self).wf(),
            forall|q: Seq<u8>|
                #[trigger] final(self)@.connections.contains(q) <==> (old(self)@.connections.contains(q) || q == public_key@),
            final(self)@.connections_with_tx == old(self)@.connections_with_tx,
            final(self)@.aggregator == old(self)@.aggregator,
    {
        let ghost old_view = self@.connections;
        if !pks_contain(&self.connections, &public_key) {
            self.connections.push(public_key);
            proof {
                assert(self@.connections =~= old_view.push(
                    self.connections@.last()@,
                ));
                assert forall|q: Seq<u8>| #[trigger] self@.connections.contains(q) <==> (
                old_view.contains(q) || q == self@.connections.last()) by {
                    if self@.connections.contains(q) {
                        let i = choose|i: int|
                            0 <= i < self@.connections.len() && self@.connections[i] == q;
                        if i < old_view.len() {
                            assert(old_view[i] == q);
                        }
                    }
                    if old_view.contains(q) {
                        let i = choose|i: int| 0 <= i < old_view.len() && old_view[i] == q;
                        assert(self@.connections[i] == q);
                    }
                    if q == self@.connections.last() {
                        assert(self@.connections[self@.connections.len() - 1] == q);
                    }
                }
                assert(pks_distinct(self@.connections)) by {
                    assert forall|i: int, j: int|
                        0 <= i < j < self@.connections.len() implies self@.connections[i]
                        != self@.connections[j] by {
                        if j < old_view.len() {
                            assert(old_view[i] == self@.connections[i]);
                            assert(old_view[j] == self@.connections[j]);
                        } else {
                            assert(self@.connections[i] == old_view[i]);
                            assert(old_view.contains(old_view[i]));
                        }
                    }
                }
            }
        } else {
            proof {
                assert forall|q: Seq<u8>| #[trigger] self@.connections.contains(q) <==> (
                old_view.contains(q) || q == public_key@) by {}
            }
        }
    }

    /// Deregisters a wallet's connection.
    pub fn remove_connection(&mut self, public_key: &BlsPublicKey) -> (r: Result<
        (),
        StatelessBitcoinError,
    >)
        requires
            old(self).wf(),
        ensures
            r is Ok,
            final(self).wf(),
            forall|q: Seq<u8>|
                #[trigger] final(self)@.connections.contains(q) <==> (old(self)@.connections.contains(q) && q != public_key@),
            final(self)@.connections_with_tx == old(self)@.connections_with_tx,
            final(self)@.aggregator == old(self)@.aggregator,
    {
        let ghost old_view = self@.connections;
        let n = self.connections.len();
        let mut out: Vec<BlsPublicKey> = Vec::new();
        let mut i: usize = 0;
        while i < n
            invariant
                i <= n,
                n == self.connections@.len(),
                old_view == pks_view(self.connections@),
                pks_distinct(old_view),
                forall|q: Seq<u8>|
                    #[trigger] pks_view(out@).contains(q) <==> (old_view.take(i as int).contains(q)
                        && q != public_key@),
                pks_distinct(pks_view(out@)),
            decreases n - i,
        {
            let ghost prefix = old_view.take(i as int);
            let ghost out_view = pks_view(out@);
            let keep = !(&self.connections[i]).key_eq(public_key);
            if keep {
                out.push((&self.connections[i]).clone());
                proof {
                    assert(pks_view(out@) =~= out_view.push(old_view[i as int]));
                }
            }
            i = i + 1;
            proof {
                let next = old_view.take(i as int);
                assert(next.drop_last() =~= prefix);
                assert(next.last() == old_view[i - 1]);
                assert forall|q: Seq<u8>| #[trigger] pks_view(out@).contains(q) <==> (
                next.contains(q) && q != public_key@) by {
                    if pks_view(out@).contains(q) {
                        let a = choose|a: int|
                            0 <= a < pks_view(out@).len() && pks_view(out@)[a] == q;
                        if a < out_view.len() {
                            assert(out_view[a] == q);
                            assert(out_view.contains(q));
                            let b = choose|b: int| 0 <= b < prefix.len() && prefix[b] == q;
                            assert(next[b] == q);
                        } else {
                            assert(q == old_view[i - 1]);
                            assert(next[i - 1] == q);
                        }
                    }
                    if next.contains(q) && q != public_key@ {
                        let b = choose|b: int| 0 <= b < next.len() && next[b] == q;
                        if b < i - 1 {
                            assert(prefix[b] == q);
                            assert(prefix.contains(q));
                            assert(out_view.contains(q));
                            let a = choose|a: int|
                                0 <= a < out_view.len() && out_view[a] == q;
                            assert(pks_view(out@)[a] == q);
                        } else {
                            assert(q == old_view[i - 1]);
                            if keep {
                                assert(pks_view(out@)[pks_view(out@).len() - 1] == q);
                            } else {
                                assert(old_view[i - 1] == public_key@);
                            }
                        }
                    }
                }
                assert(pks_distinct(pks_view(out@))) by {
                    assert forall|a: int, b: int|
                        0 <= a < b < pks_view(out@).len() implies pks_view(out@)[a] != pks_view(
                        out@,
                    )[b] by {
                        if keep && b == pks_view(out@).len() - 1 {
                            assert(pks_view(out@)[a] == out_view[a]);
                            assert(out_view.contains(out_view[a]));
                            assert(prefix.contains(out_view[a]));
                            let c = choose|c: int|
                                0 <= c < prefix.len() && prefix[c] == out_view[a];
                            assert(old_view[c] == out_view[a]);
                            assert(old_view[c] != old_view[i - 1]);
                        } else if !(keep && b == pks_view(out@).len() - 1) {
                            assert(pks_view(out@)[a] == out_view[a]);
                            assert(pks_view(out@)[b] == out_view[b]);
                        }
                    }
                }
            }
        }
        proof {
            assert(old_view.take(n as int) =~= old_view);
        }
        self.connections = out;
        Ok(())
    }

    /// Accepts one sender's batch into the round and remembers the sender as
    /// one to push an inclusion proof to, not yet signed.
    pub fn add_batch(&mut self, batch: &TransactionBatch) -> (r: Result<(), StatelessBitcoinError>)
        requires
            old(self).wf(),
        ensures
            final(self).wf(),
            final(self)@.connections == old(self)@.connections,
            r is Err ==> *final(self) == *old(self),
            !(old(self)@.aggregator.state is Open) ==> r == Err::<(), StatelessBitcoinError>(
                StatelessBitcoinError::WrongState,
            ),
            old(self)@.aggregator.state is Open && al_contains(
                old(self)@.aggregator.metadata,
                batch@.from,
            ) ==> r == Err::<(), StatelessBitcoinError>(StatelessBitcoinError::DuplicateSender),
            old(self)@.aggregator.state is Open && !al_contains(
                old(self)@.aggregator.metadata,
                batch@.from,
            ) ==> r is Ok && final(self)@.aggregator.metadata == old(self)@.aggregator.metadata.push(
                (
                    batch@.from,
                    crate::aggregator::TxMetadataView {
                        index: old(self)@.aggregator.metadata.len() as int,
                        batch: batch@,
                        signature: None,
                    },
                ),
            ) && al_contains(final(self)@.connections_with_tx, batch@.from),
            r is Ok ==> al_map(final(self)@.connections_with_tx) == al_map(
                old(self)@.connections_with_tx,
            ).insert(batch@.from, false),
            old(self).aggregator.hashes_ok() ==> final(self).aggregator.hashes_ok(),
            old(self).aggregator.sigs_ok() ==> final(self).aggregator.sigs_ok(),
    {
        let ghost old_metadata = self@.aggregator.metadata;
        let result = self.aggregator.add_batch(batch);
        match result {
            Ok(()) => {},
            Err(e) => {
                return Err(e);
            },
        }
        self.upsert_with_tx(&batch.from, false);
        proof {
            assert forall|k: Seq<u8>|
                #[trigger] al_contains(self@.connections_with_tx, k) implies al_contains(
                self@.aggregator.metadata,
                k,
            ) by {
                if k == batch@.from {
                    assert(self@.aggregator.metadata[old_metadata.len() as int].0 == k);
                } else {
                    assert(al_contains(old(self)@.connections_with_tx, k));
                    let j = choose|j: int| 0 <= j < old_metadata.len() && old_metadata[j].0 == k;
                    assert(self@.aggregator.metadata[j].0 == k);
                }
            }
        }
        Ok(())
    }

    /// Accepts one sender's signature over the round's root and marks the
    /// sender as having signed.
    pub fn add_signature(&mut self, public_key: &BlsPublicKey, signature: &BlsSignature) -> (r:
        Result<(), StatelessBitcoinError>)
        requires
            old(self).wf(),
        ensures
            final(self).wf(),
            final(self)@.connections == old(self)@.connections,
            r is Err ==> *final(self) == *old(self),
            r is Ok <==> old(self)@.aggregator.state is CollectSignatures && sig_verify_ok(
                signature@,
                public_key@,
                merkle_root_of(old(self)@.aggregator.leaves),
            ) && al_contains(old(self)@.aggregator.metadata, public_key@),
            r is Ok ==> al_contains(final(self)@.connections_with_tx, public_key@),
            r is Ok ==> al_map(final(self)@.connections_with_tx) == al_map(
                old(self)@.connections_with_tx,
            ).insert(public_key@, true),
            old(self).aggregator.hashes_ok() ==> final(self).aggregator.hashes_ok(),
            old(self).aggregator.sigs_ok() ==> final(self).aggregator.sigs_ok(),
    {
        let ghost old_metadata = self@.aggregator.metadata;
        let result = self.aggregator.add_signature(public_key, signature);
        match result {
            Ok(()) => {},
            Err(e) => {
                return Err(e);
            },
        }
        proof {
            assert forall|k: Seq<u8>|
                al_contains(old_metadata, k) implies #[trigger] al_contains(
                self@.aggregator.metadata,
                k,
            ) by {
                let j = choose|j: int| 0 <= j < old_metadata.len() && old_metadata[j].0 == k;
                assert(self@.aggregator.metadata[j].0 == k);
            }
        }
        self.upsert_with_tx(public_key, true);
        proof {
            assert forall|k: Seq<u8>|
                #[trigger] al_contains(self@.connections_with_tx, k) implies al_contains(
                self@.aggregator.metadata,
                k,
            ) by {
                if k != public_key@ {
                    assert(al_contains(old(self)@.connections_with_tx, k));
                }
            }
        }
        Ok(())
    }

    /// Records or updates one sender's signed flag for this round.
    fn upsert_with_tx(&mut self, public_key: &BlsPublicKey, signed: bool)
        requires
            al_wf(old(self)@.connections_with_tx),
        ensures
            al_wf(final(self)@.connections_with_tx),
            al_contains(final(self)@.connections_with_tx, public_key@),
            al_map(final(self)@.connections_with_tx) == al_map(
                old(self)@.connections_with_tx,
            ).insert(public_key@, signed),
            forall|k: Seq<u8>|
                #[trigger] al_contains(final(self)@.connections_with_tx, k) <==> (al_contains(
                    old(self)@.connections_with_tx,
                    k,
                ) || k == public_key@),
            final(self)@.connections == old(self)@.connections,
            final(self)@.aggregator == old(self)@.aggregator,
            final(self).aggregator == old(self).aggregator,
    {
        let ghost old_view = self@.connections_with_tx;
        let n = self.connections_with_tx.len();
        let mut i: usize = 0;
        while i < n
            invariant
                i <= n,
                n == self.connections_with_tx@.len(),
                old_view == self@.connections_with_tx,
                old_view == old(self)@.connections_with_tx,
                self@.connections == old(self)@.connections,
                self.aggregator == old(self).aggregator,
                al_wf(old_view),
                forall|j: int| 0 <= j < i ==> old_view[j].0 != public_key@,
            decreases n - i,
        {
            if (&self.connections_with_tx[i].0).key_eq(public_key) {
                proof {
                    assert(old_view[i as int].0 == public_key@);
                }
                self.connections_with_tx.set(i, (public_key.clone(), signed));
                proof {
                    let new_view = self@.connections_with_tx;
                    assert(new_view =~= old_view.update(i as int, (public_key@, signed)));
                    lemma_al_map_update(old_view, new_view, i as int);
                    lemma_al_map_props(old_view);
                    lemma_al_map_props(new_view);
                    assert(al_contains(new_view, public_key@)) by {
                        assert(new_view[i as int].0 == public_key@);
                    }
                    assert forall|k: Seq<u8>| #[trigger] al_contains(new_view, k) <==> (
                    al_contains(old_view, k) || k == public_key@) by {
                        assert(al_contains(new_view, k) <==> al_map(new_view).dom().contains(k));
                        assert(al_contains(old_view, k) <==> al_map(old_view).dom().contains(k));
                    }
                }
                return ;
            }
            i = i + 1;
        }
        self.connections_with_tx.push((public_key.clone(), signed));
        proof {
            let new_view = self@.connections_with_tx;
            assert(new_view =~= old_view.push((public_key@, signed)));
            lemma_al_map_push(old_view, public_key@, signed);
            assert(al_contains(new_view, public_key@)) by {
                assert(new_view[old_view.len() as int].0 == public_key@);
            }
            assert forall|k: Seq<u8>| #[trigger] al_contains(new_view, k) <==> (al_contains(
                old_view,
                k,
            ) || k == public_key@) by {
                if k != public_key@ {
                    if al_contains(new_view, k) {
                        let j = choose|j: int| 0 <= j < new_view.len() && new_view[j].0 == k;
                        assert(j < old_view.len());
                        assert(old_view[j].0 == k);
                    }
                    if al_contains(old_view, k) {
                        let j = choose|j: int| 0 <= j < old_view.len() && old_view[j].0 == k;
                        assert(new_view[j].0 == k);
                    }
                }
            }
        }
    }

    /// Moves the round into signature collection and gathers, for each sender
    /// that is still connected, the inclusion proof to push to it. `None`
    /// when the round has no batches.
    pub fn start_collecting_signatures(&mut self) -> (r: Result<
        Option<Vec<(BlsPublicKey, TransactionProof)>>,
        StatelessBitcoinError,
    >)
        requires
            old(self).wf(),
        ensures
            final(self).wf(),
            final(self)@.connections == old(self)@.connections,
            final(self)@.connections_with_tx == old(self)@.connections_with_tx,
            old(self)@.aggregator.metadata.len() == 0 ==> (r matches Ok(o) && o is None
                && *final(self) == *old(self)),
            r is Err ==> *final(self) == *old(self),
            old(self)@.aggregator.metadata.len() > 0 && !(old(self)@.aggregator.state is Open)
                ==> r == Err::<Option<Vec<(BlsPublicKey, TransactionProof)>>, StatelessBitcoinError>(
                StatelessBitcoinError::WrongState,
            ),
            old(self)@.aggregator.metadata.len() > 0 && old(self)@.aggregator.state is Open ==> (
            r matches Ok(o) && o is Some),
            r matches Ok(Some(out)) ==> final(self)@.aggregator.state is CollectSignatures
                && final(self)@.aggregator.metadata == old(self)@.aggregator.metadata && final(self)@.aggregator.leaves == old(self)@.aggregator.leaves && forall|k: int|
                0 <= k < out@.len() ==> {
                    let e = #[trigger] out@[k];
                    &&& al_contains(old(self)@.connections_with_tx, e.0@)
                    &&& old(self)@.connections.contains(e.0@)
                    &&& e.1@.valid()
                    &&& e.1@.root == merkle_root_of(old(self)@.aggregator.leaves)
                },
            r matches Ok(Some(out)) ==> forall|k: Seq<u8>|
                old(self).aggregator.hashes_ok() && #[trigger] al_contains(
                    old(self)@.connections_with_tx,
                    k,
                ) && old(self)@.connections.contains(k) ==> proofs_cover(out@, k),
            old(self).aggregator.hashes_ok() ==> final(self).aggregator.hashes_ok(),
            old(self).aggregator.sigs_ok() ==> final(self).aggregator.sigs_ok(),
    {
        if self.aggregator.tx_hash_to_metadata.len() == 0 {
            return Ok(None);
        }
        match self.aggregator.start_collecting_signatures() {
            Ok(()) => {},
            Err(e) => {
                return Err(e);
            },
        }
        let n = self.connections_with_tx.len();
        let mut out: Vec<(BlsPublicKey, TransactionProof)> = Vec::new();
        let mut i: usize = 0;
        while i < n
            invariant
                i <= n,
                n == self.connections_with_tx@.len(),
                self.wf(),
                self@.connections == old(self)@.connections,
                self@.connections_with_tx == old(self)@.connections_with_tx,
                self@.aggregator.state is CollectSignatures,
                self@.aggregator.metadata == old(self)@.aggregator.metadata,
                self@.aggregator.leaves == old(self)@.aggregator.leaves,
                old(self).aggregator.hashes_ok() ==> self.aggregator.hashes_ok(),
                forall|k: int|
                    0 <= k < out@.len() ==> {
                        let e = #[trigger] out@[k];
                        &&& al_contains(old(self)@.connections_with_tx, e.0@)
                        &&& old(self)@.connections.contains(e.0@)
                        &&& e.1@.valid()
                        &&& e.1@.root == merkle_root_of(old(self)@.aggregator.leaves)
                    },
                old(self).aggregator.hashes_ok() ==> forall|a: int|
                    0 <= a < i && old(self)@.connections.contains(
                        #[trigger] old(self)@.connections_with_tx[a].0,
                    ) ==> proofs_cover(out@, old(self)@.connections_with_tx[a].0),
            decreases n - i,
        {
            let ghost out0 = out@;
            let ghost sender_key = self@.connections_with_tx[i as int].0;
            let sender = &self.connections_with_tx[i].0;
            let connected = pks_contain(&self.connections, sender);
            if connected {
                match self.aggregator.generate_proof_for_pubkey(sender) {
                    Ok(merkle_proof) => {
                        proof {
                            assert(al_contains(self@.connections_with_tx, sender_key)) by {
                                assert(self@.connections_with_tx[i as int].0 == sender_key);
                            }
                        }
                        out.push((sender.clone(), merkle_proof));
                    },
                    Err(_) => {
                        proof {
                            if old(self).aggregator.hashes_ok() {
                                assert(al_contains(self@.connections_with_tx, sender_key)) by {
                                    assert(self@.connections_with_tx[i as int].0 == sender_key);
                                }
                                assert(al_contains(self@.aggregator.metadata, sender_key));
                                assert(false);
                            }
                        }
                    },
                }
            }
            i = i + 1;
            proof {
                if old(self).aggregator.hashes_ok() {
                    assert forall|a: int|
                        0 <= a < i && old(self)@.connections.contains(
                            #[trigger] old(self)@.connections_with_tx[a].0,
                        ) implies proofs_cover(out@, old(self)@.connections_with_tx[a].0) by {
                        if a < i - 1 {
                            assert(proofs_cover(out0, old(self)@.connections_with_tx[a].0));
                            let j = choose|j: int|
                                0 <= j < out0.len() && (#[trigger] out0[j].0)@ == old(
                                    self,
                                )@.connections_with_tx[a].0;
                            assert(out@[j] == out0[j]);
                            assert((out@[j].0)@ == old(self)@.connections_with_tx[a].0);
                        } else {
                            assert(connected);
                            assert(out@.len() == out0.len() + 1);
                            assert((out@[out0.len() as int].0)@ == sender_key);
                        }
                    }
                }
            }
        }
        proof {
            if old(self).aggregator.hashes_ok() {
                assert forall|k: Seq<u8>|
                    #[trigger] al_contains(old(self)@.connections_with_tx, k) && old(
                        self,
                    )@.connections.contains(k) implies proofs_cover(out@, k) by {
                    let a = choose|a: int|
                        0 <= a < old(self)@.connections_with_tx.len() && old(
                            self,
                        )@.connections_with_tx[a].0 == k;
                    assert(old(self)@.connections.contains(
                        old(self)@.connections_with_tx[a].0,
                    ));
                    assert(proofs_cover(out@, old(self)@.connections_with_tx[a].0));
                }
            }
        }
        Ok(Some(out))
    }

    /// The recipients of a committed batch that are currently connected, one
    /// per transaction addressed to them, in batch order.
    pub fn connected_receivers(&self, merkle_proof: &TransactionProof) -> (r: Vec<BlsPublicKey>)
        ensures
            pks_view(r@) == merkle_proof@.batch.transactions.map_values(
                |t: TxView| t.to,
            ).filter(|q: Seq<u8>| self@.connections.contains(q)),
    {
        let ghost pred = |q: Seq<u8>| self@.connections.contains(q);
        let ghost tos = merkle_proof@.batch.transactions.map_values(|t: TxView| t.to);
        let n = merkle_proof.batch.transactions.len();
        let mut out: Vec<BlsPublicKey> = Vec::new();
        let mut i: usize = 0;
        proof {
            assert(tos.take(0) =~= Seq::<Seq<u8>>::empty());
        }
        while i < n
            invariant
                i <= n,
                n == merkle_proof@.batch.transactions.len(),
                tos == merkle_proof@.batch.transactions.map_values(|t: TxView| t.to),
                pred == (|q: Seq<u8>| self@.connections.contains(q)),
                pks_view(out@) == tos.take(i as int).filter(pred),
            decreases n - i,
        {
            let ghost prefix = tos.take(i as int);
            let ghost out_view = pks_view(out@);
            let to = &merkle_proof.batch.transactions[i].to;
            let connected = pks_contain(&self.connections, to);
            if connected {
                out.push(to.clone());
                proof {
                    assert(pks_view(out@) =~= out_view.push(to@));
                }
            }
            i = i + 1;
            proof {
                let next = tos.take(i as int);
                assert(next.drop_last() =~= prefix);
                assert(next.last() == tos[i - 1]);
                assert(tos[i - 1] == to@);
                reveal_with_fuel(Seq::filter, 2);
                if pred(to@) {
                    assert(pks_view(out@) =~= prefix.filter(pred).push(to@));
                } else {
                    assert(pks_view(out@) =~= prefix.filter(pred));
                }
            }
        }
        proof {
            assert(tos.take(n as int) =~= tos);
        }
        out
    }

    /// Closes the round: builds the transfer block from whoever signed,
    /// clears the per-round sender set, and replaces the aggregator with a
    /// fresh one. The caller appends the block to the settlement view.
    pub fn finalise(&mut self) -> (r: Result<TransferBlock, StatelessBitcoinError>)
        requires
            old(self).wf(),
        ensures
            final(self).wf(),
            final(self)@.connections == old(self)@.connections,
            r is Err ==> *final(self) == *old(self),
            !(old(self)@.aggregator.state is CollectSignatures) ==> r == Err::<
                TransferBlock,
                StatelessBitcoinError,
            >(StatelessBitcoinError::WrongState),
            old(self)@.aggregator.state is CollectSignatures && spec_signed_pairs(
                old(self)@.aggregator.metadata,
            ).len() == 0 ==> r == Err::<TransferBlock, StatelessBitcoinError>(
                StatelessBitcoinError::NoSignatures,
            ),
            old(self).aggregator.sigs_ok() && old(self)@.aggregator.state is CollectSignatures
                && spec_signed_pairs(old(self)@.aggregator.metadata).len() >= 1 && (
            spec_signed_pairs(old(self)@.aggregator.metadata).len() == 1 || agg_of(
                spec_pair_sigs(spec_signed_pairs(old(self)@.aggregator.metadata)),
            ) is Some) ==> r is Ok,
            r matches Ok(block) ==> old(self)@.aggregator.state is CollectSignatures && {
                let pairs = spec_signed_pairs(old(self)@.aggregator.metadata);
                &&& pairs.len() > 0
                &&& block@.merkle_root == merkle_root_of(old(self)@.aggregator.leaves)
                &&& block@.signers() == spec_pair_pks(pairs)
                &&& (block@.signature is Individual <==> pairs.len() == 1)
                &&& block@.certifies()
                &&& final(self)@.connections_with_tx.len() == 0
                &&& final(self)@.aggregator.metadata.len() == 0
                &&& final(self)@.aggregator.state is Open
                &&& final(self).aggregator.hashes_ok()
            },
    {
        let result = self.aggregator.finalise();
        let transfer_block = match result {
            Ok(block) => block,
            Err(e) => {
                return Err(e);
            },
        };
        self.connections_with_tx = Vec::new();
        self.aggregator = Aggregator::new();
        Ok(transfer_block)
    }
}

} // verus!
