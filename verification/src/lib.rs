//! Verified core of a cache-aside, batch-bounded data-fetching pipeline.
//!
//! Given an ordered list of numeric identifiers naming remote items, the
//! pipeline derives one request key per identifier, consults a key-value
//! cache, fetches and stores the raw payload on a miss, classifies each
//! payload with a pure predicate, and aggregates the matching payloads while
//! keeping monotonic progress counters. Network and storage I/O live with
//! the caller; this crate holds the decisions, the data model and the
//! classification rules, each with a proved contract.

pub mod counter;
pub mod store;
pub mod classify;
pub mod urls;
pub mod fetch;
