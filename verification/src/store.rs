//! The in-memory relational state: three tables and a monotone clock.

use vstd::prelude::*;

use crate::models::{CreatedBy, Post, PostTag, User};

verus! {

/// True when some row of `users` carries `id`.
pub open spec fn has_user(users: Seq<User>, id: u128) -> bool {
    exists|k: int| 0 <= k < users.len() && (#[trigger] users[k]).id == id
}

/// True when some row of `posts` carries `id`.
pub open spec fn has_post(posts: Seq<Post>, id: u128) -> bool {
    exists|k: int| 0 <= k < posts.len() && (#[trigger] posts[k]).id == id
}

/// The author sub-record built from a user row.
pub open spec fn created_by_from(u: User) -> CreatedBy {
    CreatedBy {
        user_id: u.id,
        username: u.username,
        first_name: u.first_name,
        last_name: Some(u.last_name),
    }
}

/// `r` is the correct author sub-record for `author_id`: absent exactly when
/// no user row resolves, else built from the resolving row.
pub open spec fn is_author_record(users: Seq<User>, author_id: u128, r: Option<CreatedBy>) -> bool {
    match r {
        None => !has_user(users, author_id),
        Some(cb) => exists|k: int|
            0 <= k < users.len() && (#[trigger] users[k]).id == author_id && cb == created_by_from(
                users[k],
            ),
    }
}

/// The tags of the first `n` association rows that belong to post `id`,
/// in table order.
pub open spec fn tags_of_upto(tags: Seq<PostTag>, id: u128, n: int) -> Seq<String>
    decreases n,
{
    if n <= 0 {
        Seq::empty()
    } else {
        tags_of_upto(tags, id, n - 1) + if tags[n - 1].fk_post_id == id {
            seq![tags[n - 1].tag]
        } else {
            Seq::empty()
        }
    }
}

/// All tags that belong to post `id`, in table order.
pub open spec fn tags_of(tags: Seq<PostTag>, id: u128) -> Seq<String> {
    tags_of_upto(tags, id, tags.len() as int)
}

/// The relational state shared by the write path and the listing engine:
/// the three tables and the clock that stamps creation instants.
#[derive(Debug, Clone)]
pub struct Store {
    pub users: Vec<User>,
    pub posts: Vec<Post>,
    pub post_tags: Vec<PostTag>,
    pub clock: i64,
}

impl Store {
    /// Well-formedness: unique user and post ids, association pairs form a
    /// set, no association row is orphaned, the post table fits the count
    /// type, and every creation instant precedes the clock.
    pub open spec fn wf(&self) -> bool {
        &&& forall|i: int, j: int|
            0 <= i < j < self.users@.len() ==> (#[trigger] self.users@[i]).id != (
            #[trigger] self.users@[j]).id
        &&& forall|i: int, j: int|
            0 <= i < j < self.posts@.len() ==> (#[trigger] self.posts@[i]).id != (
            #[trigger] self.posts@[j]).id
        &&& forall|i: int, j: int|
            0 <= i < j < self.post_tags@.len() ==> !((#[trigger] self.post_tags@[i]).fk_post_id == (
            #[trigger] self.post_tags@[j]).fk_post_id && self.post_tags@[i].tag@
                == self.post_tags@[j].tag@)
        &&& forall|i: int|
            0 <= i < self.post_tags@.len() ==> has_post(
                self.posts@,
                (#[trigger] self.post_tags@[i]).fk_post_id,
            )
        &&& self.posts@.len() <= i64::MAX
        &&& 0 <= self.clock
        &&& forall|i: int|
            0 <= i < self.users@.len() ==> (#[trigger] self.users@[i]).created_at < self.clock
        &&& forall|i: int|
            0 <= i < self.posts@.len() ==> (#[trigger] self.posts@[i]).created_at < self.clock
    }

    /// An empty, well-formed store.
    pub fn new() -> (s: Store)
        ensures
            s.wf(),
            s.users@.len() == 0,
            s.posts@.len() == 0,
            s.post_tags@.len() == 0,
            s.clock == 0,
    {
        Store { users: Vec::new(), posts: Vec::new(), post_tags: Vec::new(), clock: 0 }
    }

    /// Whether a user row with `id` exists.
    pub fn has_user_id(&self, id: u128) -> (b: bool)
        ensures
            b == has_user(self.users@, id),
    {
        let mut k: usize = 0;
        while k < self.users.len()
            invariant
                k <= self.users@.len(),
                forall|j: int| 0 <= j < k ==> (#[trigger] self.users@[j]).id != id,
            decreases self.users@.len() - k,
        {
            if self.users[k].id == id {
                return true;
            }
            k += 1;
        }
        false
    }

    /// Whether a post row with `id` exists.
    pub fn has_post_id(&self, id: u128) -> (b: bool)
        ensures
            b == has_post(self.posts@, id),
    {
        let mut k: usize = 0;
        while k < self.posts.len()
            invariant
                k <= self.posts@.len(),
                forall|j: int| 0 <= j < k ==> (#[trigger] self.posts@[j]).id != id,
            decreases self.posts@.len() - k,
        {
            if self.posts[k].id == id {
                return true;
            }
            k += 1;
        }
        false
    }

    /// The author sub-record for `author_id`, absent when the reference
    /// dangles.
    pub fn author_record(&self, author_id: u128) -> (r: Option<CreatedBy>)
        ensures
            is_author_record(self.users@, author_id, r),
    {
        let mut k: usize = 0;
        while k < self.users.len()
            invariant
                k <= self.users@.len(),
                forall|j: int| 0 <= j < k ==> (#[trigger] self.users@[j]).id != author_id,
            decreases self.users@.len() - k,
        {
            let u = &self.users[k];
            if u.id == author_id {
                return Some(
                    CreatedBy {
                        user_id: u.id,
                        username: u.username.clone(),
                        first_name: u.first_name.clone(),
                        last_name: Some(u.last_name.clone()),
                    },
                );
            }
            k += 1;
        }
        None
    }

    /// All tags of post `post_id`, in table order.
    pub fn tags_for(&self, post_id: u128) -> (v: Vec<String>)
        ensures
            v@ == tags_of(self.post_tags@, post_id),
    {
        let mut v: Vec<String> = Vec::new();
        let mut k: usize = 0;
        while k < self.post_tags.len()
            invariant
                k <= self.post_tags@.len(),
                v@ == tags_of_upto(self.post_tags@, post_id, k as int),
            decreases self.post_tags@.len() - k,
        {
            let row = &self.post_tags[k];
            if row.fk_post_id == post_id {
                v.push(row.tag.clone());
                proof {
                    assert(tags_of_upto(self.post_tags@, post_id, k + 1 as int) =~= tags_of_upto(
                        self.post_tags@,
                        post_id,
                        k as int,
                    ).push(self.post_tags@[k as int].tag));
                }
            } else {
                proof {
                    assert(tags_of_upto(self.post_tags@, post_id, k + 1 as int) =~= tags_of_upto(
                        self.post_tags@,
                        post_id,
                        k as int,
                    ));
                }
            }
            k += 1;
        }
        v
    }
}

} // verus!
