//! The pool of transactions that were submitted and are not yet committed.

pub mod index;
pub mod laws;
pub mod model;
pub mod pool;
pub mod status;
pub mod transaction;
pub mod transaction_store;
pub mod ttl_cache;
