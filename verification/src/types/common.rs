//! Shared primitives: the 32-byte hash value and salt generation, and the
//! transfer block that a finalised round publishes on the settlement view.

use vstd::prelude::*;

use crate::errors::StatelessBitcoinError;
use crate::types::public_key::{bytes_eq, clone_bytes, BlsPublicKey};
use crate::types::signatures::{
    agg_of, agg_verify_ok, pks_view, sig_verify_ok, sigs_view, BlsAggregateSignature,
    BlsSignature,
};

verus! {

/// A 32-byte value: every hash and salt in the protocol has this shape.
pub type U8_32 = [u8; 32];

/// Relies on rand::random: a fresh salt drawn from a cryptographically strong
/// generator. Nothing is promised of the value.
#[verifier::external_body]
pub fn generate_salt() -> (r: U8_32) {
    rand::random::<[u8; 32]>()
}

/// Compares two 32-byte values.
pub fn u8_32_eq(a: &U8_32, b: &U8_32) -> (r: bool)
    ensures
        r == (a@ == b@),
{
    let mut i: usize = 0;
    while i < 32
        invariant
            i <= 32,
            forall|j: int| 0 <= j < i ==> a@[j] == b@[j],
        decreases 32 - i,
    {
        if a[i] != b[i] {
            return false;
        }
        i = i + 1;
    }
    assert(a@ =~= b@);
    true
}

/// The mathematical shape of a transfer block's signature.
pub ghost enum TransferBlockSignatureView {
    Aggregated(Seq<u8>, Seq<Seq<u8>>),
    Individual(Seq<u8>, Seq<u8>),
}

/// The keys a transfer block signature certifies.
pub open spec fn spec_signers(v: TransferBlockSignatureView) -> Seq<Seq<u8>> {
    match v {
        TransferBlockSignatureView::Aggregated(_, pks) => pks,
        TransferBlockSignatureView::Individual(_, pk) => seq![pk],
    }
}

/// Whether the signature certifies that each of its keys signed `msg`.
pub open spec fn spec_certifies(v: TransferBlockSignatureView, msg: Seq<u8>) -> bool {
    match v {
        TransferBlockSignatureView::Aggregated(agg, pks) => agg_verify_ok(agg, pks, msg),
        TransferBlockSignatureView::Individual(sig, pk) => sig_verify_ok(sig, pk, msg),
    }
}

/// The signature of a transfer block: one sender signs alone, two or more
/// are carried as one aggregate. The two forms are kept apart because an
/// aggregate of a single signature is not guaranteed representable.
#[derive(Debug, PartialEq, Eq)]
pub enum TransferBlockSignature {
    Aggregated(BlsAggregateSignature, Vec<BlsPublicKey>),
    Individual(BlsSignature, BlsPublicKey),
}

impl View for TransferBlockSignature {
    type V = TransferBlockSignatureView;

    open spec fn view(&self) -> TransferBlockSignatureView {
        match self {
            TransferBlockSignature::Aggregated(agg, pks) => TransferBlockSignatureView::Aggregated(
                agg@,
                pks_view(pks@),
            ),
            TransferBlockSignature::Individual(sig, pk) => TransferBlockSignatureView::Individual(
                sig@,
                pk@,
            ),
        }
    }
}

/// Whether a key occurs in a list of keys.
pub fn pks_contain(pks: &Vec<BlsPublicKey>, public_key: &BlsPublicKey) -> (r: bool)
    ensures
        r == pks_view(pks@).contains(public_key@),
{
    let n = pks.len();
    let mut i: usize = 0;
    while i < n
        invariant
            i <= n,
            n == pks@.len(),
            forall|j: int| 0 <= j < i ==> pks@[j]@ != public_key@,
        decreases n - i,
    {
        if (&pks[i]).key_eq(public_key) {
            proof {
                assert(pks_view(pks@)[i as int] == public_key@);
                assert(pks_view(pks@).contains(public_key@));
            }
            return true;
        }
        i = i + 1;
    }
    proof {
        if pks_view(pks@).contains(public_key@) {
            let j = choose|j: int|
                0 <= j < pks_view(pks@).len() && pks_view(pks@)[j] == public_key@;
            assert(pks@[j]@ == public_key@);
        }
    }
    false
}

/// Copies a vector of public keys.
pub fn clone_pks(v: &Vec<BlsPublicKey>) -> (r: Vec<BlsPublicKey>)
    ensures
        pks_view(r@) == pks_view(v@),
        r@.len() == v@.len(),
{
    let n = v.len();
    let mut out: Vec<BlsPublicKey> = Vec::new();
    let mut i: usize = 0;
    while i < n
        invariant
            i <= n,
            n == v@.len(),
            out@.len() == i,
            forall|j: int| 0 <= j < i ==> out@[j]@ == v@[j]@,
        decreases n - i,
    {
        out.push((&v[i]).clone());
        i = i + 1;
    }
    assert(pks_view(out@) =~= pks_view(v@));
    out
}

/// The key encodings of a list of `(key, signature)` pairs, in order.
pub open spec fn spec_values_pks(values: Seq<(BlsPublicKey, BlsSignature)>) -> Seq<Seq<u8>> {
    values.map_values(|v: (BlsPublicKey, BlsSignature)| v.0@)
}

/// The signature encodings of a list of `(key, signature)` pairs, in order.
pub open spec fn spec_values_sigs(values: Seq<(BlsPublicKey, BlsSignature)>) -> Seq<Seq<u8>> {
    values.map_values(|v: (BlsPublicKey, BlsSignature)| v.1@)
}

impl TransferBlockSignature {
    /// Binds the collected `(key, signature)` pairs into one signature value:
    /// a single pair stands alone, two or more are aggregated. An empty list
    /// is refused — an aggregate over no signatures is not constructible —
    /// and whatever is built certifies any message all the pairs signed.
    pub fn new(values: Vec<(BlsPublicKey, BlsSignature)>) -> (r: Result<
        Self,
        StatelessBitcoinError,
    >)
        ensures
            values@.len() == 1 ==> (r matches Ok(s) && s@ == TransferBlockSignatureView::Individual(
                values@[0].1@,
                values@[0].0@,
            )),
            values@.len() == 0 ==> r == Err::<Self, StatelessBitcoinError>(
                StatelessBitcoinError::AggregateError,
            ),
            values@.len() >= 2 ==> (r is Ok <==> agg_of(spec_values_sigs(values@)) is Some),
            r matches Ok(s) ==> spec_signers(s@) == spec_values_pks(values@),
            r matches Ok(s) ==> (s@ is Individual <==> values@.len() == 1),
            r matches Ok(s) ==> (values@.len() >= 2 ==> (s@ matches
                TransferBlockSignatureView::Aggregated(a, pks) && agg_of(
                spec_values_sigs(values@),
            ) == Some(a))),
            r matches Ok(s) ==> forall|msg: Seq<u8>|
                (forall|i: int|
                    0 <= i < values@.len() ==> #[trigger] sig_verify_ok(
                        spec_values_sigs(values@)[i],
                        spec_values_pks(values@)[i],
                        msg,
                    )) ==> #[trigger] spec_certifies(s@, msg),
            r is Err ==> r == Err::<Self, StatelessBitcoinError>(
                StatelessBitcoinError::AggregateError,
            ),
    {
        if values.len() == 1 {
            let s = TransferBlockSignature::Individual(
                (&values[0].1).clone(),
                (&values[0].0).clone(),
            );
            proof {
                assert(spec_signers(s@) =~= spec_values_pks(values@));
                assert forall|msg: Seq<u8>|
                    (forall|i: int|
                        0 <= i < values@.len() ==> #[trigger] sig_verify_ok(
                            spec_values_sigs(values@)[i],
                            spec_values_pks(values@)[i],
                            msg,
                        )) implies #[trigger] spec_certifies(s@, msg) by {
                    if forall|i: int|
                        0 <= i < values@.len() ==> #[trigger] sig_verify_ok(
                            spec_values_sigs(values@)[i],
                            spec_values_pks(values@)[i],
                            msg,
                        ) {
                        assert(sig_verify_ok(
                            spec_values_sigs(values@)[0],
                            spec_values_pks(values@)[0],
                            msg,
                        ));
                    }
                }
            }
            Ok(s)
        } else {
            let n = values.len();
            let mut sigs: Vec<BlsSignature> = Vec::new();
            let mut pks: Vec<BlsPublicKey> = Vec::new();
            let mut i: usize = 0;
            while i < n
                invariant
                    i <= n,
                    n == values@.len(),
                    sigs@.len() == i,
                    pks@.len() == i,
                    forall|j: int| 0 <= j < i ==> pks@[j]@ == values@[j].0@,
                    forall|j: int| 0 <= j < i ==> sigs@[j]@ == values@[j].1@,
                decreases n - i,
            {
                sigs.push((&values[i].1).clone());
                pks.push((&values[i].0).clone());
                i = i + 1;
            }
            proof {
                assert(sigs_view(sigs@) =~= spec_values_sigs(values@));
                assert(pks_view(pks@) =~= spec_values_pks(values@));
            }
            match BlsAggregateSignature::from_signatures(&sigs) {
                Some(agg) => {
                    let s = TransferBlockSignature::Aggregated(agg, pks);
                    proof {
                        assert(spec_signers(s@) =~= spec_values_pks(values@));
                        assert forall|msg: Seq<u8>|
                            (forall|i: int|
                                0 <= i < values@.len() ==> #[trigger] sig_verify_ok(
                                    spec_values_sigs(values@)[i],
                                    spec_values_pks(values@)[i],
                                    msg,
                                )) implies #[trigger] spec_certifies(s@, msg) by {
                            if forall|i: int|
                                0 <= i < values@.len() ==> #[trigger] sig_verify_ok(
                                    spec_values_sigs(values@)[i],
                                    spec_values_pks(values@)[i],
                                    msg,
                                ) {
                                assert forall|i: int|
                                    0 <= i < spec_values_pks(values@).len() implies #[trigger] sig_verify_ok(
                                    sigs_view(sigs@)[i],
                                    spec_values_pks(values@)[i],
                                    msg,
                                ) by {
                                    assert(sig_verify_ok(
                                        spec_values_sigs(values@)[i],
                                        spec_values_pks(values@)[i],
                                        msg,
                                    ));
                                }
                                assert(agg_verify_ok(agg@, spec_values_pks(values@), msg));
                            }
                        }
                    }
                    Ok(s)
                },
                None => Err(StatelessBitcoinError::AggregateError),
            }
        }
    }
}

impl Clone for TransferBlockSignature {
    fn clone(&self) -> (r: Self)
        ensures
            r@ == self@,
    {
        match self {
            TransferBlockSignature::Aggregated(agg, pks) => {
                let r = TransferBlockSignature::Aggregated(agg.clone(), clone_pks(pks));
                r
            },
            TransferBlockSignature::Individual(sig, pk) => TransferBlockSignature::Individual(
                sig.clone(),
                pk.clone(),
            ),
        }
    }
}

/// The mathematical shape of a transfer block.
pub ghost struct TransferBlockView {
    pub signature: TransferBlockSignatureView,
    pub merkle_root: Seq<u8>,
}

impl TransferBlockView {
    /// The block's signature certifies its own root.
    pub open spec fn certifies(self) -> bool {
        spec_certifies(self.signature, self.merkle_root)
    }

    /// The keys the block records as signers.
    pub open spec fn signers(self) -> Seq<Seq<u8>> {
        spec_signers(self.signature)
    }
}

/// The on-chain record of one finalised round: a Merkle root and the
/// signature that certifies it.
#[derive(Debug, PartialEq, Eq)]
pub struct TransferBlock {
    pub signature: TransferBlockSignature,
    pub merkle_root: U8_32,
}

impl View for TransferBlock {
    type V = TransferBlockView;

    open spec fn view(&self) -> TransferBlockView {
        TransferBlockView { signature: self.signature@, merkle_root: self.merkle_root@ }
    }
}

impl TransferBlock {
    /// Checks that the block's signature certifies each listed key as having
    /// signed exactly this block's root.
    pub fn verify(&self) -> (r: Result<(), StatelessBitcoinError>)
        ensures
            r is Ok <==> self@.certifies(),
            r is Err ==> r == Err::<(), StatelessBitcoinError>(
                StatelessBitcoinError::BadTransferBlock,
            ),
    {
        let ok = match &self.signature {
            TransferBlockSignature::Aggregated(agg, pks) => agg.verify_bool(
                pks,
                &self.merkle_root,
            ),
            TransferBlockSignature::Individual(sig, pk) => sig.verify_bool(pk, &self.merkle_root),
        };
        if ok {
            Ok(())
        } else {
            Err(StatelessBitcoinError::BadTransferBlock)
        }
    }

    /// Whether the block's signer set includes the key.
    pub fn contains_pubkey(&self, public_key: &BlsPublicKey) -> (r: bool)
        ensures
            r == self@.signers().contains(public_key@),
    {
        match &self.signature {
            TransferBlockSignature::Aggregated(_, pks) => pks_contain(pks, public_key),
            TransferBlockSignature::Individual(_, pk) => {
                let r = pk.key_eq(public_key);
                proof {
                    let single = seq![pk@];
                    if pk@ == public_key@ {
                        assert(single[0] == public_key@);
                        assert(single.contains(public_key@));
                    } else {
                        if single.contains(public_key@) {
                            let j = choose|j: int| 0 <= j < single.len() && single[j]
                                == public_key@;
                            assert(j == 0);
                        }
                    }
                }
                r
            },
        }
    }
}

/// Whether two lists of keys are the same, key for key.
pub fn pks_list_eq(a: &Vec<BlsPublicKey>, b: &Vec<BlsPublicKey>) -> (r: bool)
    ensures
        r == (pks_view(a@) == pks_view(b@)),
{
    if a.len() != b.len() {
        proof {
            assert(pks_view(a@).len() != pks_view(b@).len());
        }
        return false;
    }
    let n = a.len();
    let mut i: usize = 0;
    while i < n
        invariant
            i <= n,
            n == a@.len() == b@.len(),
            forall|j: int| 0 <= j < i ==> a@[j]@ == b@[j]@,
        decreases n - i,
    {
        if !(&a[i]).key_eq(&b[i]) {
            proof {
                assert(pks_view(a@)[i as int] != pks_view(b@)[i as int]);
            }
            return false;
        }
        i = i + 1;
    }
    proof {
        assert(pks_view(a@) =~= pks_view(b@));
    }
    true
}

impl TransferBlockSignature {
    /// Whether two signature values are the same, byte for byte.
    pub fn sig_eq(&self, other: &TransferBlockSignature) -> (r: bool)
        ensures
            r == (self@ == other@),
    {
        match (self, other) {
            (
                TransferBlockSignature::Aggregated(a, a_pks),
                TransferBlockSignature::Aggregated(b, b_pks),
            ) => bytes_eq(&a.bytes, &b.bytes) && pks_list_eq(a_pks, b_pks),
            (
                TransferBlockSignature::Individual(a, a_pk),
                TransferBlockSignature::Individual(b, b_pk),
            ) => bytes_eq(&a.bytes, &b.bytes) && a_pk.key_eq(b_pk),
            _ => false,
        }
    }
}

impl TransferBlock {
    /// Whether two blocks are the same record: same root, same signature.
    pub fn block_eq(&self, other: &TransferBlock) -> (r: bool)
        ensures
            r == (self@ == other@),
    {
        u8_32_eq(&self.merkle_root, &other.merkle_root) && self.signature.sig_eq(&other.signature)
    }
}

impl Clone for TransferBlock {
    fn clone(&self) -> (r: Self)
        ensures
            r@ == self@,
    {
        TransferBlock { signature: self.signature.clone(), merkle_root: self.merkle_root }
    }
}

} // verus!
