//! Local document retrieval: cache bookkeeping, sector partitioning, corpus
//! indexing, configuration and evaluation helpers.
pub mod text;
pub mod paths;
pub mod hashing;
pub mod order;
pub mod perm;
pub mod cache;
pub mod config;
pub mod dense;
pub mod extract;
pub mod search;
pub mod eval;
pub mod dataset;
pub mod model;
pub mod facade;
pub mod bench;
pub mod optimize;
