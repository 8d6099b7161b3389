//! Commit rule of a DAG-based Byzantine-fault-tolerant consensus engine,
//! together with the bookkeeping of a local benchmark testbed.

pub mod block_store;
pub mod client;
pub mod committee;
pub mod consensus;
pub mod error;
pub mod executor;
pub mod local_executor;
pub mod metrics;
pub mod options;
pub mod ssh;
pub mod types;
