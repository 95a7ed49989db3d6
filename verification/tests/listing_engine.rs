use blog_core::error::Error;
use blog_core::models::{NewPostWithTags, NewUser, PaginationMeta, PostWithUserAndTags};
use blog_core::repository::{PostRepository, UserRepository};
use blog_core::store::Store;

fn add_user(store: &mut Store, username: &str) -> u128 {
    UserRepository::create(
        store,
        NewUser {
            username: username.to_string(),
            first_name: format!("{username}-first"),
            last_name: format!("{username}-last"),
        },
    )
    .unwrap()
    .id
}

fn add_post(store: &mut Store, title: &str, body: &str, author: u128, tags: &[&str]) -> u128 {
    PostRepository::create_with_tags(
        store,
        NewPostWithTags {
            title: title.to_string(),
            body: body.to_string(),
            created_by: author,
            tags: tags.iter().map(|t| t.to_string()).collect(),
        },
    )
    .unwrap()
    .id
}

fn list(
    store: &Store,
    page: i64,
    limit: i64,
    search: Option<&str>,
) -> (Vec<PostWithUserAndTags>, PaginationMeta) {
    PostRepository::find_with_user_and_tags(store, page, limit, search).unwrap()
}

#[test]
fn non_positive_page_or_limit_is_rejected() {
    let store = Store::new();
    let r = PostRepository::find_with_user_and_tags(&store, 0, 10, None);
    assert_eq!(r.unwrap_err(), Error::ValidationError);
    let r = PostRepository::find_with_user_and_tags(&store, 1, 0, None);
    assert_eq!(r.unwrap_err(), Error::ValidationError);
    let r = PostRepository::find_with_user_and_tags(&store, -3, -5, None);
    assert_eq!(r.unwrap_err(), Error::ValidationError);
    let r = PostRepository::find_with_user_and_tags(&store, i64::MAX, 2, None);
    assert_eq!(r.unwrap_err(), Error::ValidationError);
}

#[test]
fn empty_store_lists_nothing() {
    let store = Store::new();
    let (records, meta) = list(&store, 1, 10, None);
    assert!(records.is_empty());
    assert_eq!(meta.total_docs, 0);
    assert_eq!(meta.total_pages, 0);
    assert_eq!(meta.to, 0);
    assert_eq!(meta.from, 1);
}

#[test]
fn newest_posts_come_first() {
    let mut store = Store::new();
    let u = add_user(&mut store, "author");
    add_post(&mut store, "oldest", "b", u, &[]);
    add_post(&mut store, "middle", "b", u, &[]);
    add_post(&mut store, "newest", "b", u, &[]);
    let (records, meta) = list(&store, 1, 10, None);
    assert_eq!(meta.total_docs, 3);
    let titles: Vec<&str> = records.iter().map(|r| r.title.as_str()).collect();
    assert_eq!(titles, vec!["newest", "middle", "oldest"]);
}

#[test]
fn tags_come_back_complete_and_unduplicated() {
    let mut store = Store::new();
    let u = add_user(&mut store, "tagger");
    add_post(&mut store, "tagged", "b", u, &["a", "b", "c"]);
    let (records, _) = list(&store, 1, 10, None);
    assert_eq!(records.len(), 1);
    let mut tags = records[0].tags.clone();
    tags.sort();
    assert_eq!(tags, vec!["a".to_string(), "b".to_string(), "c".to_string()]);
}

#[test]
fn author_record_is_present_when_the_reference_resolves() {
    let mut store = Store::new();
    let u = add_user(&mut store, "alice");
    add_post(&mut store, "t", "b", u, &[]);
    let (records, _) = list(&store, 1, 10, None);
    let author = records[0].created_by.as_ref().unwrap();
    assert_eq!(author.user_id, u);
    assert_eq!(author.username, "alice");
    assert_eq!(author.first_name, "alice-first");
    assert_eq!(author.last_name.as_deref(), Some("alice-last"));
}

#[test]
fn dangling_author_is_listed_as_authorless() {
    let mut store = Store::new();
    let u = add_user(&mut store, "kept");
    add_post(&mut store, "orphaned", "b", 0xdead_beef, &["t"]);
    add_post(&mut store, "owned", "b", u, &[]);
    let (records, meta) = list(&store, 1, 10, None);
    assert_eq!(meta.total_docs, 2);
    let orphan = records.iter().find(|r| r.title == "orphaned").unwrap();
    assert!(orphan.created_by.is_none());
    assert_eq!(orphan.tags, vec!["t".to_string()]);
}

#[test]
fn search_matches_title_body_author_and_tags_case_insensitively() {
    let mut store = Store::new();
    let alice = add_user(&mut store, "alice");
    add_post(&mut store, "Rust Basics", "intro", alice, &[]);
    add_post(&mut store, "Other", "text", alice, &["rust"]);
    add_post(&mut store, "Unrelated", "words", alice, &["cooking"]);
    for term in ["rust", "RUST", "rUsT"] {
        let (records, meta) = list(&store, 1, 10, Some(term));
        assert_eq!(meta.total_docs, 2, "term {term}");
        let mut titles: Vec<&str> = records.iter().map(|r| r.title.as_str()).collect();
        titles.sort();
        assert_eq!(titles, vec!["Other", "Rust Basics"]);
    }
}

#[test]
fn search_matches_author_name_columns() {
    let mut store = Store::new();
    let rustacean = add_user(&mut store, "rustacean");
    let plain = add_user(&mut store, "plain");
    add_post(&mut store, "first", "body", rustacean, &[]);
    add_post(&mut store, "second", "body", plain, &[]);
    let (records, meta) = list(&store, 1, 10, Some("RUSTA"));
    assert_eq!(meta.total_docs, 1);
    assert_eq!(records[0].title, "first");
}

#[test]
fn search_is_an_unanchored_substring_match() {
    let mut store = Store::new();
    let u = add_user(&mut store, "u");
    add_post(&mut store, "abcdef", "b", u, &[]);
    let (_, meta) = list(&store, 1, 10, Some("cde"));
    assert_eq!(meta.total_docs, 1);
    let (_, meta) = list(&store, 1, 10, Some("cdf"));
    assert_eq!(meta.total_docs, 0);
    let (_, meta) = list(&store, 1, 10, Some(""));
    assert_eq!(meta.total_docs, 1);
}

#[test]
fn search_with_no_match_yields_empty_page_and_zero_totals() {
    let mut store = Store::new();
    let u = add_user(&mut store, "u");
    add_post(&mut store, "something", "b", u, &[]);
    let (records, meta) = list(&store, 1, 10, Some("zzz"));
    assert!(records.is_empty());
    assert_eq!(meta.total_docs, 0);
    assert_eq!(meta.total_pages, 0);
    assert_eq!(meta.to, 0);
}

#[test]
fn twelve_posts_paginate_as_ten_then_two() {
    let mut store = Store::new();
    let u = add_user(&mut store, "writer");
    for i in 0..12 {
        add_post(&mut store, &format!("post-{i}"), "b", u, &[]);
    }
    let (records, meta) = list(&store, 1, 10, None);
    assert_eq!(records.len(), 10);
    assert_eq!(
        meta,
        PaginationMeta {
            current_page: 1,
            per_page: 10,
            from: 1,
            to: 10,
            total_pages: 2,
            total_docs: 12,
        }
    );
    let (records, meta) = list(&store, 2, 10, None);
    assert_eq!(records.len(), 2);
    assert_eq!(meta.current_page, 2);
    assert_eq!(meta.from, 11);
    assert_eq!(meta.to, 12);
    assert_eq!(records[0].title, "post-1");
    assert_eq!(records[1].title, "post-0");
}

#[test]
fn page_past_the_end_is_empty_with_clamped_upper_bound() {
    let mut store = Store::new();
    let u = add_user(&mut store, "u");
    for i in 0..3 {
        add_post(&mut store, &format!("p{i}"), "b", u, &[]);
    }
    let (records, meta) = list(&store, 5, 10, None);
    assert!(records.is_empty());
    assert_eq!(meta.total_docs, 3);
    assert_eq!(meta.to, 3);
    assert_eq!(meta.from, 41);
    assert_eq!(meta.total_pages, 1);
}

#[test]
fn total_pages_rounds_up() {
    let mut store = Store::new();
    let u = add_user(&mut store, "u");
    for i in 0..5 {
        add_post(&mut store, &format!("p{i}"), "b", u, &[]);
    }
    let (_, meta) = list(&store, 1, 2, None);
    assert_eq!(meta.total_pages, 3);
    let (records, meta) = list(&store, 2, 2, None);
    assert_eq!(records.len(), 2);
    assert_eq!(meta.from, 3);
    assert_eq!(meta.to, 4);
    let (_, meta) = list(&store, 1, 5, None);
    assert_eq!(meta.total_pages, 1);
}

#[test]
fn each_matching_post_appears_exactly_once_despite_many_tags() {
    let mut store = Store::new();
    let u = add_user(&mut store, "u");
    let id = add_post(&mut store, "multi", "b", u, &["rust", "trust", "crust"]);
    add_post(&mut store, "single", "rusty body", u, &[]);
    let (records, meta) = list(&store, 1, 10, Some("rust"));
    assert_eq!(meta.total_docs, 2);
    assert_eq!(records.len(), 2);
    assert_eq!(records.iter().filter(|r| r.id == id).count(), 1);
}
