//! An off-chain mirror of an append/delete Merkle identity tree.
//!
//! The crate keeps a fixed-depth Poseidon Merkle tree in step with an ordered
//! stream of insertion and deletion events, answers inclusion-proof queries
//! against the latest root and against a bounded window of earlier roots, and
//! decides when a root has to be relayed to a secondary chain.

pub mod bridge;
pub mod error;
pub mod field;
pub mod history;
pub mod merkle;
mod node;
pub mod path;
pub mod retry;
pub mod server;
pub mod tree;
pub mod world_tree;
