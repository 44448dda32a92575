//! A handle to a disk-backed settlement store.
//!
//! The handle itself is intentionally empty: the store's state lives outside
//! the process, and the code that reads and writes it lives with the rest of
//! the I/O, outside the verified core. What that code manipulates between a
//! read and a write is the in-memory settlement view of this crate.

use vstd::prelude::*;

use crate::errors::StatelessBitcoinError;

verus! {

/// A stateless handle to a settlement store kept on disk.
#[derive(Clone, Copy, Debug, PartialEq, Eq)]
pub struct MockRollupFS {}

impl MockRollupFS {
    /// A fresh handle.
    pub fn new() -> (r: Result<MockRollupFS, StatelessBitcoinError>)
        ensures
            r is Ok,
    {
        Ok(MockRollupFS {})
    }
}

} // verus!
