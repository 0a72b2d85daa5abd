//! Indexing of token-transfer logs and net-flow accounting for a watched set
//! of addresses.
//!
//! Transfers are decoded from raw log entries, stored exactly once, and
//! summed into cumulative inflow, outflow and net figures with exact integer
//! arithmetic on decimal strings.

pub mod text;
pub mod decimal;
pub mod amount;
pub mod models;
pub mod watch;
pub mod db;
pub mod encoding;
pub mod decoder;
pub mod indexer;
pub mod subscription;
