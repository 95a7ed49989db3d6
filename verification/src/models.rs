//! Entities of the blog service and the derived pagination metadata.
//!
//! Identifiers are 128-bit values (the numeric form of a UUID) and creation
//! timestamps are signed 64-bit instants from a monotone store clock.

use vstd::prelude::*;

verus! {

/// A stored user row: identity, names, creation instant.
#[derive(Debug, Clone)]
pub struct User {
    pub id: u128,
    pub username: String,
    pub first_name: String,
    pub last_name: String,
    pub created_at: i64,
}

/// Input for creating a user; identity and timestamp are store-generated.
#[derive(Debug, Clone)]
pub struct NewUser {
    pub username: String,
    pub first_name: String,
    pub last_name: String,
}

/// A stored post row; `created_by` references a user by id and may dangle.
#[derive(Debug, Clone)]
pub struct Post {
    pub id: u128,
    pub title: String,
    pub body: String,
    pub created_by: u128,
    pub created_at: i64,
}

/// Input for a bare post row.
#[derive(Debug, Clone)]
pub struct NewPost {
    pub title: String,
    pub body: String,
    pub created_by: u128,
}

/// Input for creating a post together with its tag set.
#[derive(Debug, Clone)]
pub struct NewPostWithTags {
    pub title: String,
    pub body: String,
    pub created_by: u128,
    pub tags: Vec<String>,
}

/// A stored post-to-tag association row; the pair itself is the identity.
#[derive(Debug, Clone)]
pub struct PostTag {
    pub fk_post_id: u128,
    pub tag: String,
}

/// Input form of a post-to-tag association row.
#[derive(Debug, Clone)]
pub struct NewPostTag {
    pub fk_post_id: u128,
    pub tag: String,
}

/// The author sub-record carried by a listed post, present only when the
/// author reference resolved.
#[derive(Debug, Clone)]
pub struct CreatedBy {
    pub user_id: u128,
    pub username: String,
    pub first_name: String,
    pub last_name: Option<String>,
}

/// One listed post: its own columns, the optional author, and the full
/// deduplicated tag set.
#[derive(Debug, Clone)]
pub struct PostWithUserAndTags {
    pub id: u128,
    pub title: String,
    pub body: String,
    pub created_by: Option<CreatedBy>,
    pub created_at: i64,
    pub tags: Vec<String>,
}

/// A page of records together with its pagination metadata.
#[derive(Debug, Clone)]
pub struct PaginatedResponse<T> {
    pub records: Vec<T>,
    pub meta: PaginationMeta,
}

/// Metadata describing one result page, always computed against the same
/// filter as the records themselves.
#[derive(Debug, Clone, Copy, PartialEq, Eq, Structural)]
pub struct PaginationMeta {
    pub current_page: i64,
    pub per_page: i64,
    pub from: i64,
    pub to: i64,
    pub total_pages: i64,
    pub total_docs: i64,
}

} // verus!
