//! Arity-parameterized Merkle-style commitment tree construction over a
//! pluggable batched-hash capability.
//!
//! The crate builds a full intermediate tree bottom-up and in place over a
//! single buffer, chunking the work so that no single hash computation is
//! ever split across two backend calls, and returns the leaf row together
//! with a pruned upper-tree snapshot.

pub mod batch_hasher;
pub mod column_tree_builder;
pub mod error;
pub mod field;
pub mod hasher;
pub mod laws;
pub mod model;
pub mod shape;
pub mod tree_builder;
