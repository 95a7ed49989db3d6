use blog_core::error::Error;
use blog_core::models::{NewPostWithTags, NewUser};
use blog_core::repository::{PostRepository, UserRepository};
use blog_core::store::Store;

fn new_user(username: &str, first: &str, last: &str) -> NewUser {
    NewUser {
        username: username.to_string(),
        first_name: first.to_string(),
        last_name: last.to_string(),
    }
}

fn new_post(title: &str, body: &str, author: u128, tags: &[&str]) -> NewPostWithTags {
    NewPostWithTags {
        title: title.to_string(),
        body: body.to_string(),
        created_by: author,
        tags: tags.iter().map(|t| t.to_string()).collect(),
    }
}

#[test]
fn create_user_returns_the_stored_row() {
    let mut store = Store::new();
    let user = UserRepository::create(&mut store, new_user("alice", "Alice", "Smith")).unwrap();
    assert_eq!(user.username, "alice");
    assert_eq!(user.first_name, "Alice");
    assert_eq!(user.last_name, "Smith");
    assert_eq!(user.created_at, 0);
    assert_eq!(store.users.len(), 1);
    assert_eq!(store.users[0].id, user.id);
    assert_eq!(store.clock, 1);
}

#[test]
fn create_user_with_taken_id_is_a_constraint_violation() {
    let mut store = Store::new();
    let first = UserRepository::create_with_id(&mut store, new_user("a", "A", "A"), 7).unwrap();
    assert_eq!(first.id, 7);
    let second = UserRepository::create_with_id(&mut store, new_user("b", "B", "B"), 7);
    assert_eq!(second.unwrap_err(), Error::ConstraintViolation);
    assert_eq!(store.users.len(), 1);
    assert_eq!(store.clock, 1);
}

#[test]
fn create_post_with_tags_stores_post_and_association_rows() {
    let mut store = Store::new();
    let user = UserRepository::create(&mut store, new_user("alice", "Alice", "Smith")).unwrap();
    let post = PostRepository::create_with_tags(
        &mut store,
        new_post("Hello", "World", user.id, &["a", "b", "c"]),
    )
    .unwrap();
    assert_eq!(post.title, "Hello");
    assert_eq!(post.created_by, user.id);
    assert_eq!(store.posts.len(), 1);
    assert_eq!(store.post_tags.len(), 3);
    for row in &store.post_tags {
        assert_eq!(row.fk_post_id, post.id);
    }
}

#[test]
fn create_post_without_tags_writes_no_association_rows() {
    let mut store = Store::new();
    let post = PostRepository::create_with_tags(&mut store, new_post("T", "B", 1, &[])).unwrap();
    assert_eq!(post.title, "T");
    assert_eq!(store.posts.len(), 1);
    assert_eq!(store.post_tags.len(), 0);
}

#[test]
fn duplicate_tags_fail_and_nothing_persists() {
    let mut store = Store::new();
    PostRepository::create_with_tags(&mut store, new_post("Keep", "Me", 1, &["k"])).unwrap();
    let before_posts = store.posts.len();
    let before_tags = store.post_tags.len();
    let before_clock = store.clock;
    let r = PostRepository::create_with_tags(&mut store, new_post("New", "One", 1, &["x", "x"]));
    assert_eq!(r.unwrap_err(), Error::WriteFailed);
    assert_eq!(store.posts.len(), before_posts);
    assert_eq!(store.post_tags.len(), before_tags);
    assert_eq!(store.clock, before_clock);
}

#[test]
fn create_post_with_taken_id_fails_and_nothing_persists() {
    let mut store = Store::new();
    PostRepository::create_with_tags_and_id(&mut store, new_post("A", "a", 1, &["t"]), 42)
        .unwrap();
    let r = PostRepository::create_with_tags_and_id(&mut store, new_post("B", "b", 1, &["u"]), 42);
    assert_eq!(r.unwrap_err(), Error::WriteFailed);
    assert_eq!(store.posts.len(), 1);
    assert_eq!(store.post_tags.len(), 1);
}

#[test]
fn creation_instants_increase_with_every_write() {
    let mut store = Store::new();
    let u = UserRepository::create(&mut store, new_user("u", "U", "U")).unwrap();
    let p1 = PostRepository::create_with_tags(&mut store, new_post("P1", "b", u.id, &[])).unwrap();
    let p2 = PostRepository::create_with_tags(&mut store, new_post("P2", "b", u.id, &[])).unwrap();
    assert!(u.created_at < p1.created_at);
    assert!(p1.created_at < p2.created_at);
}
