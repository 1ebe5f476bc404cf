//! A set-associative cache simulator: three block-replacement policies,
//! address decomposition, and a per-core multi-level cache hierarchy that
//! attributes misses to the instructions that caused them.

pub mod block;
pub mod lru;
pub mod fifo;
pub mod random;
pub mod set;
pub mod cache;
pub mod hierarchy;
pub mod laws;
