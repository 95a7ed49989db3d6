//! The write path (atomic creation of users and posts-with-tags) and the
//! read path (the paginated, searchable post listing).

use vstd::prelude::*;

use vstd::arithmetic::div_mod::{
    lemma_fundamental_div_mod, lemma_fundamental_div_mod_converse, lemma_mod_bound,
};

use crate::error::Error;
use crate::listing::{
    listing_ok, matching_indices, opt_chars_view, pat_view, record_matches, sort_by_recency,
    valid_params, lemma_selected_upto_props,
};
use crate::models::{
    NewPostWithTags, NewUser, PaginationMeta, Post, PostTag, PostWithUserAndTags, User,
};
use crate::store::{has_post, has_user, Store};
use crate::text::chars_of;

verus! {

/// Relies on uuid::Uuid::new_v4, read out through Uuid::as_u128: a freshly
/// drawn random 128-bit identifier. Nothing is promised of the value;
/// callers test it against the store and fail on a collision.
#[verifier::external_body]
fn fresh_id() -> u128 {
    uuid::Uuid::new_v4().as_u128()
}

/// The store after a user was created from `nu` under identity `id`:
/// one row appended, stamped with the old clock, everything else kept.
pub open spec fn user_created(pre: Store, post: Store, nu: NewUser, id: u128, u: User) -> bool {
    &&& u == (User {
        id,
        username: nu.username,
        first_name: nu.first_name,
        last_name: nu.last_name,
        created_at: pre.clock,
    })
    &&& post.users@ == pre.users@.push(u)
    &&& post.posts@ == pre.posts@
    &&& post.post_tags@ == pre.post_tags@
    &&& post.clock == pre.clock + 1
}

/// The association row that links tag `t` to post `id`.
pub open spec fn tag_row(id: u128, t: String) -> PostTag {
    PostTag { fk_post_id: id, tag: t }
}

/// The association rows for post `id`, one per tag, in input order.
pub open spec fn tag_rows(id: u128, tags: Seq<String>) -> Seq<PostTag> {
    tags.map_values(|t: String| tag_row(id, t))
}

/// Two entries of the supplied tag list spell the same text.
pub open spec fn has_dup_tags(tags: Seq<String>) -> bool {
    exists|i: int, j: int| 0 <= i < j < tags.len() && (#[trigger] tags[i])@ == (#[trigger] tags[j])@
}

/// The store after a post was created from `np` under identity `id`: the
/// post row and its association rows appended in one unit, everything else
/// kept.
pub open spec fn post_created(pre: Store, post: Store, np: NewPostWithTags, id: u128, p: Post) -> bool {
    &&& p == (Post {
        id,
        title: np.title,
        body: np.body,
        created_by: np.created_by,
        created_at: pre.clock,
    })
    &&& post.posts@ == pre.posts@.push(p)
    &&& post.users@ == pre.users@
    &&& post.post_tags@ == pre.post_tags@ + tag_rows(id, np.tags@)
    &&& post.clock == pre.clock + 1
}

/// The write path for users.
pub struct UserRepository;

impl UserRepository {
    /// Create a user under a caller-supplied identity. Fails with
    /// `ConstraintViolation` exactly when the identity is already taken,
    /// and with `WriteFailed` exactly when the clock is exhausted; on any
    /// failure the store is unchanged.
    pub fn create_with_id(store: &mut Store, new_user: NewUser, id: u128) -> (r: Result<
        User,
        Error,
    >)
        requires
            old(store).wf(),
        ensures
            final(store).wf(),
            match r {
                Ok(u) => !has_user(old(store).users@, id) && old(store).clock < i64::MAX
                    && user_created(*old(store), *final(store), new_user, id, u),
                Err(e) => *final(store) == *old(store) && ((e == Error::ConstraintViolation
                    && has_user(old(store).users@, id)) || (e == Error::WriteFailed && !has_user(
                    old(store).users@,
                    id,
                ) && old(store).clock == i64::MAX)),
            },
    {
        if store.has_user_id(id) {
            return Err(Error::ConstraintViolation);
        }
        if store.clock == i64::MAX {
            return Err(Error::WriteFailed);
        }
        let created_at = store.clock;
        let stored = User {
            id,
            username: new_user.username.clone(),
            first_name: new_user.first_name.clone(),
            last_name: new_user.last_name.clone(),
            created_at,
        };
        store.users.push(stored);
        store.clock = created_at + 1;
        let u = User {
            id,
            username: new_user.username,
            first_name: new_user.first_name,
            last_name: new_user.last_name,
            created_at,
        };
        Ok(u)
    }

    /// Create a user under a freshly drawn identity. The identity source is
    /// random, so success is not owed: a collision or an exhausted clock
    /// fails and leaves the store unchanged.
    pub fn create(store: &mut Store, new_user: NewUser) -> (r: Result<User, Error>)
        requires
            old(store).wf(),
        ensures
            final(store).wf(),
            match r {
                Ok(u) => !has_user(old(store).users@, u.id) && old(store).clock < i64::MAX
                    && user_created(*old(store), *final(store), new_user, u.id, u),
                Err(e) => *final(store) == *old(store) && (e == Error::ConstraintViolation || e
                    == Error::WriteFailed),
            },
    {
        let id = fresh_id();
        UserRepository::create_with_id(store, new_user, id)
    }
}

/// The write path and the read path for posts.
pub struct PostRepository;

impl PostRepository {
    /// Create a post and its association rows as one unit, under a
    /// caller-supplied identity. Fails with `WriteFailed` exactly when the
    /// identity is taken, the supplied tag list repeats a text (the
    /// composite key would reject the pair), or a capacity bound is hit;
    /// on any failure the store is unchanged — nothing partial persists.
    #[verifier::loop_isolation(false)]
    pub fn create_with_tags_and_id(
        store: &mut Store,
        new_post_with_tags: NewPostWithTags,
        id: u128,
    ) -> (r: Result<Post, Error>)
        requires
            old(store).wf(),
        ensures
            final(store).wf(),
            match r {
                Ok(p) => !has_post(old(store).posts@, id) && !has_dup_tags(
                    new_post_with_tags.tags@,
                ) && old(store).posts@.len() < i64::MAX && old(store).clock < i64::MAX
                    && post_created(*old(store), *final(store), new_post_with_tags, id, p),
                Err(e) => *final(store) == *old(store) && e == Error::WriteFailed && (has_post(
                    old(store).posts@,
                    id,
                ) || has_dup_tags(new_post_with_tags.tags@) || old(store).posts@.len() >= i64::MAX
                    || old(store).clock == i64::MAX),
            },
    {
        if store.has_post_id(id) {
            return Err(Error::WriteFailed);
        }
        let n = new_post_with_tags.tags.len();
        let mut i: usize = 1;
        while i < n
            invariant
                n == new_post_with_tags.tags@.len(),
                1 <= i || n == 0,
                i <= n || n == 0,
                forall|a: int, b: int|
                    0 <= a < b < i ==> (#[trigger] new_post_with_tags.tags@[a])@ != (
                    #[trigger] new_post_with_tags.tags@[b])@,
            decreases n - i,
        {
            let mut j: usize = 0;
            while j < i
                invariant
                    i < n,
                    n == new_post_with_tags.tags@.len(),
                    j <= i,
                    forall|a: int|
                        0 <= a < j ==> (#[trigger] new_post_with_tags.tags@[a])@
                            != new_post_with_tags.tags@[i as int]@,
                decreases i - j,
            {
                if new_post_with_tags.tags[j] == new_post_with_tags.tags[i] {
                    assert(has_dup_tags(new_post_with_tags.tags@));
                    return Err(Error::WriteFailed);
                }
                j += 1;
            }
            i += 1;
        }
        assert(!has_dup_tags(new_post_with_tags.tags@));
        if store.clock == i64::MAX {
            return Err(Error::WriteFailed);
        }
        if store.posts.len() as u64 >= (i64::MAX as u64) {
            return Err(Error::WriteFailed);
        }
        let ghost pre = *store;
        let created_at = store.clock;
        let stored = Post {
            id,
            title: new_post_with_tags.title.clone(),
            body: new_post_with_tags.body.clone(),
            created_by: new_post_with_tags.created_by,
            created_at,
        };
        store.posts.push(stored);
        let mut k: usize = 0;
        while k < new_post_with_tags.tags.len()
            invariant
                old(store).wf(),
                pre == *old(store),
                !has_post(pre.posts@, id),
                k <= new_post_with_tags.tags@.len(),
                store.users@ == pre.users@,
                store.clock == pre.clock,
                pre.clock < i64::MAX,
                store.posts@ == pre.posts@.push(
                    Post {
                        id,
                        title: new_post_with_tags.title,
                        body: new_post_with_tags.body,
                        created_by: new_post_with_tags.created_by,
                        created_at: pre.clock,
                    },
                ),
                store.post_tags@ == pre.post_tags@ + tag_rows(
                    id,
                    new_post_with_tags.tags@.subrange(0, k as int),
                ),
            decreases new_post_with_tags.tags@.len() - k,
        {
            let row = PostTag { fk_post_id: id, tag: new_post_with_tags.tags[k].clone() };
            store.post_tags.push(row);
            proof {
                assert(tag_rows(id, new_post_with_tags.tags@.subrange(0, k + 1 as int))
                    =~= tag_rows(id, new_post_with_tags.tags@.subrange(0, k as int)).push(
                    tag_row(id, new_post_with_tags.tags@[k as int]),
                ));
                assert(store.post_tags@ =~= pre.post_tags@ + tag_rows(
                    id,
                    new_post_with_tags.tags@.subrange(0, k + 1 as int),
                ));
            }
            k += 1;
        }
        store.clock = created_at + 1;
        let p = Post {
            id,
            title: new_post_with_tags.title.clone(),
            body: new_post_with_tags.body.clone(),
            created_by: new_post_with_tags.created_by,
            created_at,
        };
        proof {
            assert(new_post_with_tags.tags@.subrange(0, new_post_with_tags.tags@.len() as int)
                =~= new_post_with_tags.tags@);
            let m = pre.post_tags@.len() as int;
            let rows = tag_rows(id, new_post_with_tags.tags@);
            assert forall|a: int, b: int| 0 <= a < b < store.post_tags@.len() implies !((
            #[trigger] store.post_tags@[a]).fk_post_id == (
            #[trigger] store.post_tags@[b]).fk_post_id && store.post_tags@[a].tag@
                == store.post_tags@[b].tag@) by {
                if b < m {
                    assert(store.post_tags@[a] == pre.post_tags@[a]);
                    assert(store.post_tags@[b] == pre.post_tags@[b]);
                } else if a < m {
                    assert(store.post_tags@[a] == pre.post_tags@[a]);
                    assert(has_post(pre.posts@, pre.post_tags@[a].fk_post_id));
                    assert(store.post_tags@[b].fk_post_id == id);
                } else {
                    assert(store.post_tags@[a] == rows[a - m]);
                    assert(store.post_tags@[b] == rows[b - m]);
                    assert(store.post_tags@[a].tag@ == new_post_with_tags.tags@[a - m]@);
                    assert(store.post_tags@[b].tag@ == new_post_with_tags.tags@[b - m]@);
                }
            }
            assert forall|t: int| 0 <= t < store.post_tags@.len() implies has_post(
                store.posts@,
                (#[trigger] store.post_tags@[t]).fk_post_id,
            ) by {
                if t < m {
                    assert(has_post(pre.posts@, pre.post_tags@[t].fk_post_id));
                    let w = choose|w: int|
                        0 <= w < pre.posts@.len() && (#[trigger] pre.posts@[w]).id
                            == pre.post_tags@[t].fk_post_id;
                    assert(store.posts@[w].id == store.post_tags@[t].fk_post_id);
                } else {
                    assert(store.post_tags@[t].fk_post_id == id);
                    assert(store.posts@[pre.posts@.len() as int].id == id);
                }
            }
        }
        Ok(p)
    }

    /// Create a post and its tags as one unit, under a freshly drawn
    /// identity. The identity source is random, so success is not owed; a
    /// duplicated tag text always fails, and any failure leaves the store
    /// unchanged — nothing partial persists.
    pub fn create_with_tags(store: &mut Store, new_post_with_tags: NewPostWithTags) -> (r: Result<
        Post,
        Error,
    >)
        requires
            old(store).wf(),
        ensures
            final(store).wf(),
            match r {
                Ok(p) => !has_post(old(store).posts@, p.id) && !has_dup_tags(
                    new_post_with_tags.tags@,
                ) && post_created(*old(store), *final(store), new_post_with_tags, p.id, p),
                Err(e) => *final(store) == *old(store) && e == Error::WriteFailed,
            },
            has_dup_tags(new_post_with_tags.tags@) ==> r is Err,
    {
        let id = fresh_id();
        PostRepository::create_with_tags_and_id(store, new_post_with_tags, id)
    }
}

/// Euclidean form of the rounded-up quotient.
proof fn lemma_ceil_div(t: int, l: int)
    requires
        0 <= t,
        1 <= l,
    ensures
        (t + l - 1) / l == t / l + if t % l == 0 {
            0int
        } else {
            1int
        },
{
    let q = t / l;
    let r = t % l;
    lemma_fundamental_div_mod(t, l);
    lemma_mod_bound(t, l);
    if r == 0 {
        lemma_fundamental_div_mod_converse(t + l - 1, l, q, l - 1);
    } else {
        assert((q + 1) * l == q * l + l) by (nonlinear_arith);
        lemma_fundamental_div_mod_converse(t + l - 1, l, q + 1, r - 1);
    }
}

impl PostRepository {
    /// The read path: one page of the posts the filter selects, newest
    /// first, each with its optional author and its full tag set, plus
    /// metadata computed against the same filter. Fails with
    /// `ValidationError` exactly when the page or the page size is not
    /// positive or the last record index would overflow the metadata type.
    #[verifier::loop_isolation(false)]
    pub fn find_with_user_and_tags(
        store: &Store,
        page: i64,
        limit: i64,
        search: Option<&str>,
    ) -> (r: Result<(Vec<PostWithUserAndTags>, PaginationMeta), Error>)
        requires
            store.wf(),
        ensures
            match r {
                Ok(out) => valid_params(page as int, limit as int) && listing_ok(
                    *store,
                    pat_view(search),
                    page as int,
                    limit as int,
                    out.0@,
                    out.1,
                ),
                Err(e) => e == Error::ValidationError && !valid_params(page as int, limit as int),
            },
    {
        if page < 1 || limit < 1 {
            return Err(Error::ValidationError);
        }
        let maxq = (i64::MAX as u64) / (limit as u64);
        proof {
            lemma_fundamental_div_mod(i64::MAX as int, limit as int);
            lemma_mod_bound(i64::MAX as int, limit as int);
        }
        let ghost q = i64::MAX as int / limit as int;
        let ghost rr = i64::MAX as int % limit as int;
        if (page as u64) > maxq {
            proof {
                assert(page as int * limit as int > i64::MAX) by (nonlinear_arith)
                    requires
                        page as int >= q + 1,
                        limit as int >= 1,
                        i64::MAX as int == limit as int * q + rr,
                        0 <= rr,
                        rr < limit as int,
                ;
            }
            return Err(Error::ValidationError);
        }
        proof {
            assert(page as int * limit as int <= i64::MAX) by (nonlinear_arith)
                requires
                    1 <= page as int <= q,
                    1 <= limit as int,
                    i64::MAX as int == limit as int * q + rr,
                    0 <= rr,
            ;
            assert(0 <= (page as int - 1) * (limit as int) && (page as int - 1) * (limit as int)
                + limit as int == page as int * limit as int) by (nonlinear_arith)
                requires
                    1 <= page as int,
                    1 <= limit as int,
            ;
        }
        let term: Option<Vec<char>> = match search {
            None => None,
            Some(s2) => Some(chars_of(s2)),
        };
        let nposts = store.posts.len();
        proof {
            assert(opt_chars_view(term) == pat_view(search));
            lemma_selected_upto_props(*store, opt_chars_view(term), nposts as int);
        }
        let sel = matching_indices(store, &term);
        let order = sort_by_recency(&store.posts, &sel);
        let total = sel.len() as i64;
        let offset = (page - 1) * limit;
        let to = if offset + limit <= total {
            offset + limit
        } else {
            total
        };
        let from = offset + 1;
        let tp0 = (total as u64) / (limit as u64);
        let rem = (total as u64) % (limit as u64);
        proof {
            lemma_fundamental_div_mod(total as int, limit as int);
            lemma_mod_bound(total as int, limit as int);
            lemma_ceil_div(total as int, limit as int);
            assert(0 <= tp0 as int && tp0 as int <= i64::MAX && (rem as int != 0 ==> (tp0 as int) < i64::MAX)) by (nonlinear_arith)
                requires
                    total as int == limit as int * (tp0 as int) + rem as int,
                    0 <= rem as int,
                    (rem as int) < limit as int,
                    0 <= total as int,
                    total as int <= i64::MAX;
        }
        let total_pages = if rem != 0 {
            (tp0 + 1) as i64
        } else {
            tp0 as i64
        };
        let meta = PaginationMeta {
            current_page: page,
            per_page: limit,
            from,
            to,
            total_pages,
            total_docs: total,
        };
        let mut records: Vec<PostWithUserAndTags> = Vec::new();
        if offset < total {
            let start = offset as usize;
            let end = to as usize;
            let mut m = start;
            while m < end
                invariant
                    start <= m <= end,
                    records@.len() == m - start,
                    forall|w: int|
                        0 <= w < records@.len() ==> record_matches(
                            *store,
                            #[trigger] records@[w],
                            order@[start + w],
                        ),
                decreases end - m,
            {
                let idx = order[m];
                let p = &store.posts[idx];
                let created_by = store.author_record(p.created_by);
                let tags = store.tags_for(p.id);
                let rec = PostWithUserAndTags {
                    id: p.id,
                    title: p.title.clone(),
                    body: p.body.clone(),
                    created_by,
                    created_at: p.created_at,
                    tags,
                };
                records.push(rec);
                m += 1;
            }
        }
        Ok((records, meta))
    }
}

} // verus!
