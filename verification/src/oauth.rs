//! Where the tokens for servers are stored.

pub mod resolved_store;
pub mod store_lock;
