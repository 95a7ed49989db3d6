//! Core of a small blog service: an entity store for users and
//! posts-with-tags, and a searchable, paginated post-listing engine.
//!
//! The relational state (users, posts, post-tag associations) is held in a
//! [`store::Store`]. The write path creates users and posts atomically; the
//! read path filters posts with a case-insensitive free-text search across
//! title, body, author names and tags, aggregates each post's tags,
//! tolerates dangling author references, and computes pagination metadata
//! consistent with the same filter.

use vstd::prelude::*;

pub mod error;
pub mod laws;
pub mod listing;
pub mod models;
pub mod repository;
pub mod store;
pub mod text;

verus! {

} // verus!
