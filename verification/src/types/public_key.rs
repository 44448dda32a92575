//! BLS public keys, held by their byte encoding.
//!
//! The underlying curve points are opaque to the verified logic; everything
//! the protocol reads of a key — equality, use as a lookup key — is decided
//! by its canonical byte encoding, which is what this type holds.

use vstd::prelude::*;

verus! {

/// A BLS public key as its compressed byte encoding.
#[derive(Debug, PartialEq, Eq)]
pub struct BlsPublicKey {
    pub bytes: Vec<u8>,
}

impl View for BlsPublicKey {
    type V = Seq<u8>;

    open spec fn view(&self) -> Seq<u8> {
        self.bytes@
    }
}

/// Compares two byte vectors.
pub fn bytes_eq(a: &Vec<u8>, b: &Vec<u8>) -> (r: bool)
    ensures
        r == (a@ == b@),
{
    if a.len() != b.len() {
        return false;
    }
    let n = a.len();
    let mut i: usize = 0;
    while i < n
        invariant
            i <= n,
            n == a@.len() == b@.len(),
            forall|j: int| 0 <= j < i ==> a@[j] == b@[j],
        decreases n - i,
    {
        if a[i] != b[i] {
            return false;
        }
        i = i + 1;
    }
    assert(a@ =~= b@);
    true
}

/// Copies a byte vector.
pub fn clone_bytes(a: &Vec<u8>) -> (r: Vec<u8>)
    ensures
        r@ == a@,
{
    let n = a.len();
    let mut out: Vec<u8> = Vec::new();
    let mut i: usize = 0;
    while i < n
        invariant
            i <= n,
            n == a@.len(),
            out@ == a@.take(i as int),
        decreases n - i,
    {
        out.push(a[i]);
        i = i + 1;
        assert(out@ =~= a@.take(i as int));
    }
    assert(a@.take(n as int) =~= a@);
    out
}

impl BlsPublicKey {
    /// Key equality: two keys are the same exactly when their encodings are.
    pub fn key_eq(&self, other: &BlsPublicKey) -> (r: bool)
        ensures
            r == (self@ == other@),
    {
        bytes_eq(&self.bytes, &other.bytes)
    }
}

impl Clone for BlsPublicKey {
    fn clone(&self) -> (r: Self)
        ensures
            r@ == self@,
    {
        BlsPublicKey { bytes: clone_bytes(&self.bytes) }
    }
}

} // verus!
