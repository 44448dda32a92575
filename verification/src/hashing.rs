//! SHA-256 hashing, the primitive every hash in the protocol is built from.

use vstd::prelude::*;

use sha2::Digest;

use crate::types::common::U8_32;

verus! {

/// The 32-byte digest that SHA-256 assigns to a byte sequence. The digest is a
/// function of the input bytes alone; what it is on given bytes is left to the
/// outside implementation.
pub uninterp spec fn sha256_of(data: Seq<u8>) -> Seq<u8>;

/// The hashing algorithm used throughout: SHA-256 with a 32-byte output.
#[derive(Clone, Copy)]
pub struct Sha256Algorithm {}

impl Sha256Algorithm {
    /// Relies on sha2::Sha256: the digest depends on the input bytes alone.
    #[verifier::external_body]
    pub fn hash(data: &[u8]) -> (r: U8_32)
        ensures
            r@ == sha256_of(data@),
    {
        let mut hasher = sha2::Sha256::new();
        hasher.update(data);
        <[u8; 32]>::from(hasher.finalize())
    }
}

/// Hash of a transaction hash re-salted: `SHA256(txhash ‖ salt)`.
pub open spec fn spec_salted_hash(txhash: Seq<u8>, salt: Seq<u8>) -> Seq<u8> {
    sha256_of(txhash + salt)
}

/// Appends the bytes of a 32-byte value to a buffer.
pub fn push_u8_32(data: &mut Vec<u8>, block: &U8_32)
    ensures
        final(data)@ == old(data)@ + block@,
{
    let mut i: usize = 0;
    while i < 32
        invariant
            i <= 32,
            data@ == old(data)@ + block@.take(i as int),
        decreases 32 - i,
    {
        data.push(block[i]);
        i = i + 1;
        assert(data@ =~= old(data)@ + block@.take(i as int));
    }
    assert(block@.take(32) =~= block@);
}

/// Appends the bytes of a byte vector to a buffer.
pub fn push_bytes(data: &mut Vec<u8>, bytes: &Vec<u8>)
    ensures
        final(data)@ == old(data)@ + bytes@,
{
    let n = bytes.len();
    let mut i: usize = 0;
    while i < n
        invariant
            i <= n,
            n == bytes@.len(),
            data@ == old(data)@ + bytes@.take(i as int),
        decreases n - i,
    {
        data.push(bytes[i]);
        i = i + 1;
        assert(data@ =~= old(data)@ + bytes@.take(i as int));
    }
    assert(bytes@.take(n as int) =~= bytes@);
}

/// Recomputes the salted form of a transaction hash.
pub fn hash_tx_hash_with_salt(txhash: &U8_32, salt: &U8_32) -> (r: U8_32)
    ensures
        r@ == spec_salted_hash(txhash@, salt@),
{
    let mut data: Vec<u8> = Vec::new();
    push_u8_32(&mut data, txhash);
    push_u8_32(&mut data, salt);
    
    Sha256Algorithm::hash(data.as_slice())
}

} // verus!
