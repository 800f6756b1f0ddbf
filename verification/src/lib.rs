//! An authenticated, append-only history tree: a Merkle Mountain Range over
//! block-like entries, with append, delete-last-leaf and node hashing.
//!
//! The tree is never kept between calls. Every operation takes a snapshot of
//! the tree (its length and the stored nodes that make up its peaks), does one
//! thing, and hands back what changed. Nodes are decoded, hashed and combined
//! by zcash_history; this crate decides which rules an epoch selects, checks
//! that a snapshot is coherent before the tree engine sees it, and says what
//! each operation returns.

pub mod bridge;
pub mod codec;
pub mod counting;
pub mod engine;
pub mod epoch;
pub mod layout;
pub mod totals;
pub mod tree;
