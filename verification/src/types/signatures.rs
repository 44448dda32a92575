//! BLS keys and signatures, held by their byte encodings.
//!
//! Signing uses the message-augmentation scheme: the signer's public key is
//! prepended to the message before hashing to the curve. The library never
//! reasons about curve points; whether a signature verifies is named as a
//! function of the byte values, and everything the library builds is checked
//! through that name.

use vstd::prelude::*;

use crate::errors::StatelessBitcoinError;
use crate::types::common::U8_32;
use crate::types::public_key::{clone_bytes, BlsPublicKey};

verus! {

/// Whether `sig` is a valid message-augmentation signature by `pk` over
/// `msg`. The outcome is a function of the three byte values alone.
pub uninterp spec fn sig_verify_ok(sig: Seq<u8>, pk: Seq<u8>, msg: Seq<u8>) -> bool;

/// Whether `agg_sig` certifies that every key of `pks` signed `msg`. The
/// outcome is a function of the byte values alone.
pub uninterp spec fn agg_verify_ok(agg_sig: Seq<u8>, pks: Seq<Seq<u8>>, msg: Seq<u8>) -> bool;

/// The byte views of a sequence of public keys.
pub open spec fn pks_view(s: Seq<BlsPublicKey>) -> Seq<Seq<u8>> {
    s.map_values(|p: BlsPublicKey| p@)
}

/// The byte views of a sequence of signatures.
pub open spec fn sigs_view(s: Seq<BlsSignature>) -> Seq<Seq<u8>> {
    s.map_values(|x: BlsSignature| x@)
}

/// Whether 32 bytes decode to a scalar that signs: canonical and nonzero.
/// The outcome is a function of the bytes alone.
pub uninterp spec fn sk_well_formed(sk: Seq<u8>) -> bool;

/// The public key derived from a secret key's bytes. A function of the bytes
/// alone.
pub uninterp spec fn pubkey_of(sk: Seq<u8>) -> Seq<u8>;

/// The message-augmentation signature of a key over a message. Signing draws
/// no randomness; the signature is a function of key and message alone.
pub uninterp spec fn sig_of(sk: Seq<u8>, msg: Seq<u8>) -> Seq<u8>;

/// The aggregate formed from a list of signature encodings: the sum of the
/// decoded points, absent when the list is empty, undecodable, or of mixed
/// schemes. A function of the byte values alone.
pub uninterp spec fn agg_of(sigs: Seq<Seq<u8>>) -> Option<Seq<u8>>;

/// A BLS secret key as its 32 big-endian scalar bytes.
#[derive(Debug)]
pub struct BlsSecretKey {
    bytes: U8_32,
}

impl View for BlsSecretKey {
    type V = Seq<u8>;

    closed spec fn view(&self) -> Seq<u8> {
        self.bytes@
    }
}

/// A single BLS signature as its byte encoding.
#[derive(Debug, PartialEq, Eq)]
pub struct BlsSignature {
    pub bytes: Vec<u8>,
}

impl View for BlsSignature {
    type V = Seq<u8>;

    open spec fn view(&self) -> Seq<u8> {
        self.bytes@
    }
}

impl Clone for BlsSignature {
    fn clone(&self) -> (r: Self)
        ensures
            r@ == self@,
    {
        BlsSignature { bytes: clone_bytes(&self.bytes) }
    }
}

/// An aggregated BLS signature as its byte encoding.
#[derive(Debug, PartialEq, Eq)]
pub struct BlsAggregateSignature {
    pub bytes: Vec<u8>,
}

impl View for BlsAggregateSignature {
    type V = Seq<u8>;

    open spec fn view(&self) -> Seq<u8> {
        self.bytes@
    }
}

impl Clone for BlsAggregateSignature {
    fn clone(&self) -> (r: Self)
        ensures
            r@ == self@,
    {
        BlsAggregateSignature { bytes: clone_bytes(&self.bytes) }
    }
}

/// Relies on blsful::SecretKey::{new, to_be_bytes, public_key}: a freshly
/// generated key is a canonical nonzero scalar, so its bytes decode back to a
/// key that signs, and the returned public key is the one those bytes derive.
#[verifier::external_body]
pub fn generate_keypair() -> (r: (BlsSecretKey, BlsPublicKey))
    ensures
        sk_well_formed(r.0@),
        r.1@ == pubkey_of(r.0@),
{
    let sk = blsful::SecretKey::<blsful::Bls12381G1Impl>::new();
    let pk = sk.public_key();
    (BlsSecretKey { bytes: sk.to_be_bytes() }, BlsPublicKey { bytes: Vec::<u8>::from(&pk) })
}

impl BlsSecretKey {
    /// The key's byte encoding, for callers that persist it.
    pub fn to_bytes(&self) -> (r: U8_32)
        ensures
            r@ == self@,
    {
        self.bytes
    }

    /// A key rebuilt from persisted bytes. Whether the bytes name a usable
    /// key shows only when the key is used.
    pub fn from_bytes(bytes: U8_32) -> (r: Self)
        ensures
            r@ == bytes@,
    {
        BlsSecretKey { bytes }
    }

    /// Relies on blsful::SecretKey::{from_be_bytes, public_key}: the result
    /// is the public key the bytes derive, present whenever the bytes decode
    /// — in particular for every well-formed key.
    #[verifier::external_body]
    pub fn public_key(&self) -> (r: Option<BlsPublicKey>)
        ensures
            sk_well_formed(self@) ==> r is Some,
            r matches Some(pk) ==> pk@ == pubkey_of(self@),
    {
        let sk_opt: Option<blsful::SecretKey<blsful::Bls12381G1Impl>> =
            blsful::SecretKey::from_be_bytes(&self.bytes).into();
        sk_opt.map(|sk| BlsPublicKey { bytes: Vec::<u8>::from(&sk.public_key()) })
    }

    /// Relies on blsful::SecretKey::sign with the message-augmentation
    /// scheme: signing refuses exactly the zero scalar, is deterministic in
    /// key and message, and yields a signature that verifies under the key's
    /// own public key.
    #[verifier::external_body]
    pub fn sign(&self, msg: &U8_32) -> (r: Option<BlsSignature>)
        ensures
            sk_well_formed(self@) ==> r is Some,
            r matches Some(s) ==> (sk_well_formed(self@) ==> s@ == sig_of(self@, msg@)
                && sig_verify_ok(s@, pubkey_of(self@), msg@)),
    {
        let sk_opt: Option<blsful::SecretKey<blsful::Bls12381G1Impl>> =
            blsful::SecretKey::from_be_bytes(&self.bytes).into();
        let sig = sk_opt?.sign(blsful::SignatureSchemes::MessageAugmentation, msg).ok()?;
        Some(BlsSignature { bytes: Vec::<u8>::try_from(&sig).ok()? })
    }
}

impl BlsSignature {
    /// Relies on blsful::Signature::verify: the outcome depends on the
    /// signature, key, and message bytes alone. Bytes that decode to no
    /// signature or no key verify nothing.
    #[verifier::external_body]
    pub(crate) fn verify_bool(&self, pk: &BlsPublicKey, msg: &U8_32) -> (r: bool)
        ensures
            r == sig_verify_ok(self@, pk@, msg@),
    {
        let sig = blsful::Signature::<blsful::Bls12381G1Impl>::try_from(self.bytes.as_slice());
        let pk = blsful::PublicKey::<blsful::Bls12381G1Impl>::try_from(pk.bytes.as_slice());
        match (sig, pk) {
            (Ok(sig), Ok(pk)) => sig.verify(&pk, msg).is_ok(),
            _ => false,
        }
    }

    /// Checks this signature against a key and a message.
    pub fn verify(&self, pk: &BlsPublicKey, msg: &U8_32) -> (r: Result<
        (),
        StatelessBitcoinError,
    >)
        ensures
            r is Ok <==> sig_verify_ok(self@, pk@, msg@),
            r is Err ==> r == Err::<(), StatelessBitcoinError>(StatelessBitcoinError::BadSignature),
    {
        if self.verify_bool(pk, msg) {
            Ok(())
        } else {
            Err(StatelessBitcoinError::BadSignature)
        }
    }
}

impl BlsAggregateSignature {
    /// Relies on blsful::AggregateSignature::{from_signatures, verify}: the
    /// aggregate is the sum of the decoded signatures — a function of their
    /// bytes alone, refused exactly when the list is empty, undecodable, or
    /// of mixed schemes — and a sum of signatures that each verify one
    /// message itself certifies all of their keys over that message.
    #[verifier::external_body]
    pub(crate) fn from_signatures(sigs: &Vec<BlsSignature>) -> (r: Option<BlsAggregateSignature>)
        ensures
            r is Some <==> agg_of(sigs_view(sigs@)) is Some,
            r matches Some(a) ==> agg_of(sigs_view(sigs@)) == Some(a@),
            sigs@.len() == 0 ==> r is None,
            r matches Some(a) ==> forall|pks: Seq<Seq<u8>>, msg: Seq<u8>|
                (pks.len() == sigs@.len() && (forall|i: int|
                    0 <= i < pks.len() ==> #[trigger] sig_verify_ok(
                        sigs_view(sigs@)[i],
                        pks[i],
                        msg,
                    ))) ==> #[trigger] agg_verify_ok(a@, pks, msg),
    {
        let mut raw: Vec<blsful::Signature<blsful::Bls12381G1Impl>> = Vec::new();
        for s in sigs.iter() {
            raw.push(blsful::Signature::try_from(s.bytes.as_slice()).ok()?);
        }
        let agg = blsful::AggregateSignature::from_signatures(&raw).ok()?;
        Some(BlsAggregateSignature { bytes: Vec::<u8>::try_from(&agg).ok()? })
    }

    /// Relies on blsful::AggregateSignature::verify over one shared message:
    /// the outcome depends on the aggregate, key, and message bytes alone.
    /// Bytes that decode to no aggregate or no key verify nothing.
    #[verifier::external_body]
    pub(crate) fn verify_bool(&self, pks: &Vec<BlsPublicKey>, msg: &U8_32) -> (r: bool)
        ensures
            r == agg_verify_ok(self@, pks_view(pks@), msg@),
    {
        let decoded = blsful::AggregateSignature::<blsful::Bls12381G1Impl>::try_from(
            self.bytes.as_slice(),
        );
        let mut pairs: Vec<(blsful::PublicKey<blsful::Bls12381G1Impl>, [u8; 32])> = Vec::new();
        for pk in pks.iter() {
            match blsful::PublicKey::try_from(pk.bytes.as_slice()) {
                Ok(p) => pairs.push((p, *msg)),
                Err(_) => return false,
            }
        }
        decoded.map(|agg| agg.verify(&pairs).is_ok()).unwrap_or(false)
    }
}

} // verus!
