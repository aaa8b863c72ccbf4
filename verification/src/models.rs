//! Plain data carried across the store's boundary.

use vstd::prelude::*;

use crate::json::Json;

verus! {

/// A document: an opaque JSON content plus an optional store-assigned
/// identifier.
#[derive(Debug)]
pub struct Policy {
    pub id: Option<String>,
    pub content: Json,
}

/// A user record; plain single-collection storage, no versioning.
#[derive(Debug)]
pub struct User {
    pub id: Option<String>,
    pub name: String,
    pub location: String,
    pub title: String,
}

/// The outcome of a delete: how many records were removed.
#[derive(Debug)]
pub struct DeleteResult {
    pub deleted_count: u64,
}

} // verus!
