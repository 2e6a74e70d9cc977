//! Lineage resolution core for a blockchain indexer.
//!
//! A transaction executes by spawning receipts, which spawn further receipts
//! and data items over later blocks.  Every receipt and data item must be
//! traced back to the one root transaction that caused it.  This crate holds
//! the pieces that do that tracing:
//!
//! * [`types`] — the identifiers and block-scoped snapshots the resolver reads;
//! * [`cache`] — a bounded, LRU-evicting map from receipt/data id to root
//!   transaction hash, carried across blocks;
//! * [`resolved`] — the per-chunk map of resolution results;
//! * [`store`] — an in-memory image of the persisted lineage tables, with the
//!   fallback join queries the resolver issues when the cache cannot answer;
//! * [`resolver`] — the cascading, multi-tier resolution algorithm;
//! * [`pipeline`] — the per-block stage ordering (seed transactions, resolve
//!   receipts, consume execution outcomes) that the resolver depends on;
//! * [`laws`] — the crate-level guarantees, stated and proved once;
//! * [`models`], [`events`], [`opts`] — SQL placeholder generation, event
//!   standards, and start-up options shared by the indexer binaries.

pub mod cache;
pub mod events;
pub mod laws;
pub mod models;
pub mod opts;
pub mod pipeline;
pub mod resolved;
pub mod resolver;
pub mod store;
pub mod types;
