//! An append-only, hash-chained ledger of content-addressed documents.
//!
//! Documents are fingerprinted with SHA-256, batched into blocks that are
//! anchored by a Merkle root over the batch, and the blocks are chained by
//! hash so that later edits can be detected.

pub mod digest;
pub mod text;
mod platform;
pub mod models;
pub mod merkle_tree;
pub mod blockchain;
