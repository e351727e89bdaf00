//! Core of a fee-funded, cron-style task scheduler over a replicated ledger.
//!
//! The crate models the on-ledger state machine — a paginated node registry
//! with consistency snapshots, global admin config, and the daemon / task /
//! fee lifecycle — together with the off-ledger cache that mirrors task
//! records, deduplicates change notifications, and decides which tasks are
//! due for execution. Every operation carries a contract describing exactly
//! when it succeeds, which error it returns otherwise, and how the records
//! change.

pub mod address;
pub mod cache;
pub mod config;
pub mod cron;
pub mod errors;
pub mod instruction;
pub mod registry;
pub mod scheduler;
pub mod snapshot;
