//! The coordinator's state: the connection registry, the per-round sender
//! set, and the aggregator the round runs on.

pub mod server_state;
pub mod ws_message;
