//! The settlement view: per-account deposit and withdrawal totals and the
//! append-only log of transfer blocks.

pub mod mock_rollup_memory;
pub mod mock_rollup_fs;
