//! A versioned, authenticated key-value store ("state tree").
//!
//! The store sits in front of an external sparse Merkle tree algorithm and a
//! durable node store, both consumed as black boxes through the traits
//! [`algorithm::TreeAlgorithm`] and [`store::NodeStore`]. Callers stage writes
//! in a pending buffer, turn the buffer into a new authenticated root with
//! `commit` (in memory only), and later drain all accumulated generations into
//! durable storage with `flush`.

pub mod hash;
pub mod errors;
pub mod blob;
pub mod node;
pub mod raw_key;
pub mod keys;
pub mod change_set;
pub mod cache;
pub mod store;
pub mod algorithm;
pub mod tree;
pub mod state_set;
pub mod account_iter;
pub mod laws;
