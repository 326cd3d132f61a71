//! A verified engine for recording per-validator staking metrics.
//!
//! The library keeps a roster of delegated validators, takes batched,
//! resumable snapshots of their rewards, delegations and slashing effects at
//! cron timestamps, stores the snapshots in a time-indexed metrics store, and
//! derives annualized-return figures from pairs of snapshots.  All arithmetic
//! is fixed-point with 18 fractional digits, widened to 256 bits for
//! intermediate products.
pub mod admin;
pub mod apr;
pub mod conversion_utils;
pub mod dec;
pub mod error;
pub mod queries;
pub mod rates;
pub mod record;
pub mod state;
pub mod store;
