//! Balance proofs: a wallet-local map from (Merkle root, sender) to the
//! inclusion proof that justifies a received amount.
//!
//! The map is kept as a vector of entries with pairwise-distinct keys, in
//! insertion order.

use vstd::prelude::*;

use crate::assoc::{al_contains, al_map, lemma_al_map_push, al_wf, lemma_al_map_props, lemma_al_map_update};

use crate::types::common::{u8_32_eq, U8_32};
use crate::types::public_key::BlsPublicKey;
use crate::types::transaction::{ProofView, TransactionProof};

verus! {

/// The mathematical shape of a balance-proof key.
pub ghost struct BalanceProofKeyView {
    pub root: Seq<u8>,
    pub public_key: Seq<u8>,
}

/// One round's Merkle root together with one sender under it.
#[derive(Debug, PartialEq, Eq)]
pub struct BalanceProofKey {
    pub root: U8_32,
    pub public_key: BlsPublicKey,
}

impl View for BalanceProofKey {
    type V = BalanceProofKeyView;

    open spec fn view(&self) -> BalanceProofKeyView {
        BalanceProofKeyView { root: self.root@, public_key: self.public_key@ }
    }
}

impl BalanceProofKey {
    /// Key equality: root and sender both match.
    pub fn key_eq(&self, other: &BalanceProofKey) -> (r: bool)
        ensures
            r == (self@ == other@),
    {
        u8_32_eq(&self.root, &other.root) && self.public_key.key_eq(&other.public_key)
    }
}

impl Clone for BalanceProofKey {
    fn clone(&self) -> (r: Self)
        ensures
            r@ == self@,
    {
        BalanceProofKey { root: self.root, public_key: self.public_key.clone() }
    }
}

/// One entry of a balance proof.
pub type BalanceProofEntryView = (BalanceProofKeyView, ProofView);

/// Whether some entry carries the key.
pub open spec fn bp_contains(s: Seq<BalanceProofEntryView>, k: BalanceProofKeyView) -> bool {
    al_contains(s, k)
}

/// The entries read as a map, later entries shadowing earlier ones.
pub open spec fn bp_as_map(s: Seq<BalanceProofEntryView>) -> Map<BalanceProofKeyView, ProofView> {
    al_map(s)
}

/// Keys are pairwise distinct.
pub open spec fn bp_wf(s: Seq<BalanceProofEntryView>) -> bool {
    al_wf(s)
}

/// The map of an entry list has exactly the listed keys, and under distinct
/// keys each entry's value.
pub proof fn lemma_bp_as_map_props(s: Seq<BalanceProofEntryView>)
    ensures
        forall|k: BalanceProofKeyView| bp_as_map(s).dom().contains(k) <==> bp_contains(s, k),
        bp_wf(s) ==> forall|i: int|
            0 <= i < s.len() ==> #[trigger] bp_as_map(s)[s[i].0] == s[i].1,
{
    lemma_al_map_props(s);
}

/// A balance proof: the transitive chain of inclusion proofs a wallet holds.
#[derive(Debug, PartialEq, Eq)]
pub struct BalanceProof {
    entries: Vec<(BalanceProofKey, TransactionProof)>,
}

impl View for BalanceProof {
    type V = Seq<BalanceProofEntryView>;

    closed spec fn view(&self) -> Seq<BalanceProofEntryView> {
        self.entries@.map_values(|e: (BalanceProofKey, TransactionProof)| (e.0@, e.1@))
    }
}

impl BalanceProof {
    /// A balance proof is well formed when its keys are pairwise distinct.
    pub open spec fn wf(&self) -> bool {
        bp_wf(self@)
    }

    /// An empty balance proof.
    pub fn new() -> (r: Self)
        ensures
            r@.len() == 0,
            r.wf(),
    {
        BalanceProof { entries: Vec::new() }
    }

    /// How many entries the proof holds.
    pub fn len(&self) -> (r: usize)
        ensures
            r == self@.len(),
    {
        self.entries.len()
    }

    /// The key and proof at one position.
    pub fn entry_at(&self, i: usize) -> (r: (&BalanceProofKey, &TransactionProof))
        requires
            i < self@.len(),
        ensures
            r.0@ == self@[i as int].0,
            r.1@ == self@[i as int].1,
    {
        let e = &self.entries[i];
        (&e.0, &e.1)
    }

    /// The position of a key, if it is present.
    fn index_of(&self, key: &BalanceProofKey) -> (r: Option<usize>)
        ensures
            r matches Some(i) ==> i < self@.len() && self@[i as int].0 == key@,
            r is None ==> !bp_contains(self@, key@),
    {
        let n = self.entries.len();
        let mut i: usize = 0;
        while i < n
            invariant
                i <= n,
                n == self@.len(),
                self@.len() == self.entries@.len(),
                forall|j: int| 0 <= j < i ==> self@[j].0 != key@,
                forall|j: int| 0 <= j < self@.len() ==> self@[j].0 == self.entries@[j].0@,
            decreases n - i,
        {
            if (&self.entries[i].0).key_eq(key) {
                return Some(i);
            }
            i = i + 1;
        }
        None
    }

    /// Whether the key is present.
    pub fn contains_key(&self, key: &BalanceProofKey) -> (r: bool)
        ensures
            r == bp_contains(self@, key@),
    {
        match self.index_of(key) {
            Some(_) => true,
            None => false,
        }
    }

    /// The proof stored under a key.
    pub fn get(&self, key: &BalanceProofKey) -> (r: Option<&TransactionProof>)
        ensures
            r is Some <==> bp_contains(self@, key@),
            self.wf() ==> (r matches Some(p) ==> bp_as_map(self@).contains_key(key@)
                && bp_as_map(self@)[key@] == p@),
    {
        match self.index_of(key) {
            Some(i) => {
                let p = &self.entries[i].1;
                proof {
                    assert(bp_contains(self@, key@)) by {
                        assert(self@[i as int].0 == key@);
                    }
                    if self.wf() {
                        lemma_bp_as_map_props(self@);
                        assert(bp_as_map(self@)[self@[i as int].0] == self@[i as int].1);
                        assert(p@ == self@[i as int].1);
                    }
                }
                Some(p)
            },
            None => None,
        }
    }

    /// Stores a proof under a key: a fresh key is appended, a present key has
    /// its proof replaced.
    pub fn insert(&mut self, key: BalanceProofKey, proof: TransactionProof)
        ensures
            old(self).wf() ==> final(self).wf(),
            !bp_contains(old(self)@, key@) ==> final(self)@ == old(self)@.push((key@, proof@)),
            bp_contains(old(self)@, key@) ==> final(self)@.len() == old(self)@.len()
                && (exists|i: int|
                0 <= i < old(self)@.len() && old(self)@[i].0 == key@ && final(self)@ == old(
                    self,
                )@.update(i, (key@, proof@))),
            old(self).wf() ==> bp_as_map(final(self)@) == bp_as_map(old(self)@).insert(
                key@,
                proof@,
            ),
    {
        proof {
            lemma_bp_as_map_props(self@);
        }
        let ghost old_view = self@;
        match self.index_of(&key) {
            Some(i) => {
                self.entries.set(i, (key, proof));
                proof {
                    assert(self@ =~= old_view.update(i as int, (key@, proof@)));
                    if bp_wf(old_view) {
                        assert(bp_wf(self@));
                        lemma_bp_as_map_props(self@);
                        lemma_al_map_update(old_view, self@, i as int);
                    }
                }
            },
            None => {
                self.entries.push((key, proof));
                proof {
                    assert(self@ =~= old_view.push((key@, proof@)));
                    lemma_al_map_push(old_view, key@, proof@);
                }
            },
        }
    }
}

impl Clone for BalanceProof {
    fn clone(&self) -> (r: Self)
        ensures
            r@ == self@,
    {
        let n = self.entries.len();
        let mut entries: Vec<(BalanceProofKey, TransactionProof)> = Vec::new();
        let mut i: usize = 0;
        while i < n
            invariant
                i <= n,
                n == self.entries@.len(),
                entries@.len() == i,
                forall|j: int|
                    0 <= j < i ==> entries@[j].0@ == self.entries@[j].0@ && entries@[j].1@
                        == self.entries@[j].1@,
            decreases n - i,
        {
            let e = &self.entries[i];
            entries.push((e.0.clone(), e.1.clone()));
            i = i + 1;
        }
        let r = BalanceProof { entries };
        proof {
            assert(r@ =~= self@);
        }
        r
    }
}

} // verus!
