//! Typed client library for a lending-marketplace REST API.
//!
//! The heart of the crate is the incremental listing watch: a polling
//! engine that deduplicates snapshots against a timestamp watermark and
//! emits only genuinely new listings, in non-decreasing `listed_date`
//! order.  The engine and its ordering/dedup guarantees are verified;
//! the HTTP transport around it lives outside this crate.

pub mod errors;
pub mod models;
pub mod watch;
