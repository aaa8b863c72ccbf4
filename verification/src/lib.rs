//! A schema-less JSON document store with append-only version history,
//! soft-delete archival, filtered and paginated listing, and a bearer-token
//! authentication guard.
//!
//! The store keeps three logical partitions: `active` (current versions),
//! `history` (contents superseded by an update, append-only) and `deleted`
//! (contents removed by a delete, append-only). Every lifecycle transition
//! is specified and verified against a mathematical model of the store.

pub mod auth;
pub mod error;
pub mod filter;
pub mod json;
pub mod laws;
pub mod models;
pub mod oid;
pub mod store;
