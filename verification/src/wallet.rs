//! The wallet: the per-account state machine and the balance-proof
//! validator it relies on.

pub mod utils;
pub mod wallet;
