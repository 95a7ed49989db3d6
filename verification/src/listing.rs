//! The model of the read path: which posts a search term selects, in which
//! order a listing presents them, and what the pagination metadata says.
//!
//! A listing filters the post table with one predicate, orders the matching
//! rows by creation instant (newest first, ties kept in table order), and
//! serves one page of that order. The same predicate feeds the metadata.

use vstd::prelude::*;

use crate::models::{PaginationMeta, Post, PostTag, PostWithUserAndTags, User};
use crate::store::{is_author_record, tags_of, Store};
use crate::text::contains_ci;

verus! {

/// The search term as a character sequence, if one was given.
pub open spec fn pat_view(search: Option<&str>) -> Option<Seq<char>> {
    match search {
        None => None,
        Some(s) => Some(s@),
    }
}

/// View of an executable optional character pattern.
pub open spec fn opt_chars_view(pat: Option<Vec<char>>) -> Option<Seq<char>> {
    match pat {
        None => None,
        Some(v) => Some(v@),
    }
}

/// Some user row carries `author_id` and one of its name columns contains
/// the term.
pub open spec fn author_text_matches(users: Seq<User>, author_id: u128, term: Seq<char>) -> bool {
    exists|k: int|
        0 <= k < users.len() && (#[trigger] users[k]).id == author_id && (contains_ci(
            users[k].username@,
            term,
        ) || contains_ci(users[k].first_name@, term) || contains_ci(users[k].last_name@, term))
}

/// Some association row belongs to `post_id` and its tag contains the term.
pub open spec fn tag_text_matches(tags: Seq<PostTag>, post_id: u128, term: Seq<char>) -> bool {
    exists|k: int|
        0 <= k < tags.len() && (#[trigger] tags[k]).fk_post_id == post_id && contains_ci(
            tags[k].tag@,
            term,
        )
}

/// The filter predicate: the term occurs in the post's title or body, in a
/// name column of its author, or in one of its tags. A post whose author
/// reference dangles or whose tag set is empty is still matched on its own
/// columns.
pub open spec fn post_matches(users: Seq<User>, tags: Seq<PostTag>, p: Post, term: Seq<char>) -> bool {
    ||| contains_ci(p.title@, term)
    ||| contains_ci(p.body@, term)
    ||| author_text_matches(users, p.created_by, term)
    ||| tag_text_matches(tags, p.id, term)
}

/// Selection under an optional term: no term selects every post.
pub open spec fn post_selected(
    users: Seq<User>,
    tags: Seq<PostTag>,
    p: Post,
    term: Option<Seq<char>>,
) -> bool {
    match term {
        None => true,
        Some(t) => post_matches(users, tags, p, t),
    }
}

/// Indices of the selected rows among the first `n` posts, ascending.
pub open spec fn selected_upto(s: Store, term: Option<Seq<char>>, n: int) -> Seq<usize>
    decreases n,
{
    if n <= 0 {
        Seq::empty()
    } else {
        selected_upto(s, term, n - 1) + if post_selected(
            s.users@,
            s.post_tags@,
            s.posts@[n - 1],
            term,
        ) {
            seq![(n - 1) as usize]
        } else {
            Seq::empty()
        }
    }
}

/// Indices of all selected rows, ascending.
pub open spec fn selected(s: Store, term: Option<Seq<char>>) -> Seq<usize> {
    selected_upto(s, term, s.posts@.len() as int)
}

/// The number of distinct posts the filter selects.
pub open spec fn match_count(s: Store, term: Option<Seq<char>>) -> int {
    selected(s, term).len() as int
}

/// Row `a` is listed ahead of row `b`: strictly newer, or equally new and
/// earlier in the table.
pub open spec fn idx_before(posts: Seq<Post>, a: usize, b: usize) -> bool {
    posts[a as int].created_at > posts[b as int].created_at || (posts[a as int].created_at
        == posts[b as int].created_at && a < b)
}

/// `x` inserted into `s` ahead of the first row it precedes.
pub open spec fn insert_desc(posts: Seq<Post>, s: Seq<usize>, x: usize) -> Seq<usize>
    decreases s.len(),
{
    if s.len() == 0 {
        seq![x]
    } else if idx_before(posts, x, s[0]) {
        seq![x] + s
    } else {
        seq![s[0]] + insert_desc(posts, s.drop_first(), x)
    }
}

/// Insertion sort of row indices into listing order.
pub open spec fn sort_desc(posts: Seq<Post>, s: Seq<usize>) -> Seq<usize>
    decreases s.len(),
{
    if s.len() == 0 {
        Seq::empty()
    } else {
        insert_desc(posts, sort_desc(posts, s.drop_last()), s.last())
    }
}

/// The full listing order for a filter: selected rows, newest first.
pub open spec fn listing_order(s: Store, term: Option<Seq<char>>) -> Seq<usize> {
    sort_desc(s.posts@, selected(s, term))
}

/// The page and page size are usable and the last record index fits the
/// metadata type.
pub open spec fn valid_params(page: int, limit: int) -> bool {
    1 <= page && 1 <= limit && page * limit <= i64::MAX
}

/// What the metadata of a page must say, given the filter's match count.
pub open spec fn meta_ok(s: Store, term: Option<Seq<char>>, page: int, limit: int, m: PaginationMeta) -> bool {
    let total = match_count(s, term);
    let offset = (page - 1) * limit;
    &&& m.current_page == page
    &&& m.per_page == limit
    &&& m.from == offset + 1
    &&& m.to == if offset + limit <= total {
        offset + limit
    } else {
        total
    }
    &&& m.total_pages == (total + limit - 1) / limit
    &&& m.total_docs == total
}

/// `r` is the listed record of post row `i`: the post's own columns, the
/// author sub-record exactly when the reference resolves, and the post's
/// full tag set in table order.
pub open spec fn record_matches(s: Store, r: PostWithUserAndTags, i: usize) -> bool {
    let p = s.posts@[i as int];
    &&& r.id == p.id
    &&& r.title == p.title
    &&& r.body == p.body
    &&& r.created_at == p.created_at
    &&& is_author_record(s.users@, p.created_by, r.created_by)
    &&& r.tags@ == tags_of(s.post_tags@, p.id)
}

/// A successful listing: correct metadata, and the records are exactly the
/// requested slice of the listing order.
pub open spec fn listing_ok(
    s: Store,
    term: Option<Seq<char>>,
    page: int,
    limit: int,
    records: Seq<PostWithUserAndTags>,
    meta: PaginationMeta,
) -> bool {
    let order = listing_order(s, term);
    let total = match_count(s, term);
    let offset = (page - 1) * limit;
    let lo = if offset <= total {
        offset
    } else {
        total
    };
    let hi = if offset + limit <= total {
        offset + limit
    } else {
        total
    };
    &&& meta_ok(s, term, page, limit, meta)
    &&& records.len() == hi - lo
    &&& forall|m: int| 0 <= m < records.len() ==> record_matches(s, #[trigger] records[m], order[lo + m])
}

/// The sequence of row indices is in listing order: every earlier entry is
/// strictly newer than a later one, or equally new and earlier in the table.
pub open spec fn ordered_newest_first(posts: Seq<Post>, s: Seq<usize>) -> bool {
    forall|i: int, j: int| 0 <= i < j < s.len() ==> idx_before(posts, #[trigger] s[i], #[trigger] s[j])
}

/// There are at most `n` selected rows among the first `n` posts, and each
/// selected index is an in-range row that the filter selects, in ascending
/// order.
pub proof fn lemma_selected_upto_props(s: Store, term: Option<Seq<char>>, n: int)
    requires
        0 <= n <= usize::MAX,
    ensures
        selected_upto(s, term, n).len() <= n,
        forall|q: int|
            0 <= q < selected_upto(s, term, n).len() ==> (#[trigger] selected_upto(s, term, n)[q])
                < n,
        forall|q: int|
            0 <= q < selected_upto(s, term, n).len() ==> post_selected(
                s.users@,
                s.post_tags@,
                s.posts@[#[trigger] selected_upto(s, term, n)[q] as int],
                term,
            ),
        forall|q1: int, q2: int|
            0 <= q1 < q2 < selected_upto(s, term, n).len() ==> (#[trigger] selected_upto(
                s,
                term,
                n,
            )[q1]) < (#[trigger] selected_upto(s, term, n)[q2]),
    decreases n,
{
    if n > 0 {
        lemma_selected_upto_props(s, term, n - 1);
        let prev = selected_upto(s, term, n - 1);
        let cur = selected_upto(s, term, n);
        if post_selected(s.users@, s.post_tags@, s.posts@[n - 1], term) {
            assert(cur =~= prev.push((n - 1) as usize));
        } else {
            assert(cur =~= prev);
        }
        assert forall|q: int| 0 <= q < cur.len() implies post_selected(
            s.users@,
            s.post_tags@,
            s.posts@[(#[trigger] cur[q]) as int],
            term,
        ) by {
            if q < prev.len() {
                assert(cur[q] == prev[q]);
            } else {
                assert(cur[q] == (n - 1) as usize);
            }
        }
        assert forall|q1: int, q2: int| 0 <= q1 < q2 < cur.len() implies (#[trigger] cur[q1]) < (
        #[trigger] cur[q2]) by {
            assert(cur[q1] == prev[q1]);
            if q2 < prev.len() {
                assert(cur[q2] == prev[q2]);
            } else {
                assert(prev[q1] < n - 1);
            }
        }
    }
}

/// Every in-range selected row index occurs in the selection; no other
/// value does.
pub proof fn lemma_selected_upto_membership(s: Store, term: Option<Seq<char>>, n: int, x: usize)
    requires
        0 <= n <= usize::MAX,
    ensures
        selected_upto(s, term, n).contains(x) <==> (x < n && post_selected(
            s.users@,
            s.post_tags@,
            s.posts@[x as int],
            term,
        )),
    decreases n,
{
    if n > 0 {
        lemma_selected_upto_membership(s, term, n - 1, x);
        let prev = selected_upto(s, term, n - 1);
        let cur = selected_upto(s, term, n);
        if post_selected(s.users@, s.post_tags@, s.posts@[n - 1], term) {
            assert(cur =~= prev.push((n - 1) as usize));
        } else {
            assert(cur =~= prev);
        }
        if x < n - 1 && post_selected(s.users@, s.post_tags@, s.posts@[x as int], term) {
            let q = choose|q: int|
                0 <= q < selected_upto(s, term, n - 1).len() && #[trigger] selected_upto(
                    s,
                    term,
                    n - 1,
                )[q] == x;
            assert(selected_upto(s, term, n)[q] == x);
        }
        if x == n - 1 && post_selected(s.users@, s.post_tags@, s.posts@[x as int], term) {
            let m = selected_upto(s, term, n).len() - 1;
            assert(selected_upto(s, term, n)[m] == x);
        }
        if selected_upto(s, term, n).contains(x) {
            let q = choose|q: int|
                0 <= q < selected_upto(s, term, n).len() && #[trigger] selected_upto(s, term, n)[q]
                    == x;
            if q < selected_upto(s, term, n - 1).len() {
                assert(selected_upto(s, term, n - 1)[q] == x);
            }
        }
    }
}

/// Where `insert_desc` puts the new row: ahead of the first row it
/// precedes, behind everything it does not.
pub proof fn lemma_insert_desc_at(posts: Seq<Post>, s: Seq<usize>, x: usize, p: int)
    requires
        0 <= p <= s.len(),
        forall|i: int| 0 <= i < p ==> !idx_before(posts, x, #[trigger] s[i]),
        p < s.len() ==> idx_before(posts, x, s[p]),
    ensures
        insert_desc(posts, s, x) == s.subrange(0, p).push(x) + s.subrange(p, s.len() as int),
    decreases s.len(),
{
    if s.len() == 0 {
        assert(insert_desc(posts, s, x) =~= s.subrange(0, 0).push(x) + s.subrange(0, 0));
    } else if idx_before(posts, x, s[0]) {
        assert(p == 0);
        assert(insert_desc(posts, s, x) =~= s.subrange(0, 0).push(x) + s.subrange(
            0,
            s.len() as int,
        ));
    } else {
        let t = s.drop_first();
        assert(forall|i: int| 0 <= i < p - 1 ==> !idx_before(posts, x, #[trigger] t[i]));
        lemma_insert_desc_at(posts, t, x, p - 1);
        assert(insert_desc(posts, s, x) =~= s.subrange(0, p).push(x) + s.subrange(
            p,
            s.len() as int,
        ));
    }
}

/// Inserting one row grows the sequence by one and adds no other values.
pub proof fn lemma_insert_desc_elems(posts: Seq<Post>, s: Seq<usize>, x: usize)
    ensures
        insert_desc(posts, s, x).len() == s.len() + 1,
        forall|i: int|
            0 <= i < insert_desc(posts, s, x).len() ==> (#[trigger] insert_desc(posts, s, x)[i])
                == x || s.contains(insert_desc(posts, s, x)[i]),
    decreases s.len(),
{
    if s.len() != 0 && !idx_before(posts, x, s[0]) {
        lemma_insert_desc_elems(posts, s.drop_first(), x);
        assert forall|i: int| 0 <= i < insert_desc(posts, s, x).len() implies (
        #[trigger] insert_desc(posts, s, x)[i]) == x || s.contains(insert_desc(posts, s, x)[i]) by {
            if i > 0 {
                let t = s.drop_first();
                let v = insert_desc(posts, t, x)[i - 1];
                assert(insert_desc(posts, s, x)[i] == v);
                if v != x {
                    let q = choose|q: int| 0 <= q < t.len() && #[trigger] t[q] == v;
                    assert(s[q + 1] == v);
                }
            }
        }
    }
}

/// Sorting keeps the length.
pub proof fn lemma_sort_desc_len(posts: Seq<Post>, s: Seq<usize>)
    ensures
        sort_desc(posts, s).len() == s.len(),
    decreases s.len(),
{
    if s.len() != 0 {
        lemma_sort_desc_len(posts, s.drop_last());
        lemma_insert_desc_elems(posts, sort_desc(posts, s.drop_last()), s.last());
    }
}

/// Whether row `a` is listed ahead of row `b`, executably.
fn is_before(posts: &Vec<Post>, a: usize, b: usize) -> (r: bool)
    requires
        a < posts@.len(),
        b < posts@.len(),
    ensures
        r == idx_before(posts@, a, b),
{
    let ca = posts[a].created_at;
    let cb = posts[b].created_at;
    ca > cb || (ca == cb && a < b)
}

/// Insert row index `x` into the already ordered `v`, keeping the order.
fn insert_sorted(posts: &Vec<Post>, v: &mut Vec<usize>, x: usize)
    requires
        forall|i: int| 0 <= i < old(v)@.len() ==> (#[trigger] old(v)@[i]) < posts@.len(),
        x < posts@.len(),
    ensures
        final(v)@ == insert_desc(posts@, old(v)@, x),
        final(v)@.len() == old(v)@.len() + 1,
        forall|i: int| 0 <= i < final(v)@.len() ==> (#[trigger] final(v)@[i]) < posts@.len(),
{
    let n = v.len();
    let mut p: usize = 0;
    let mut stop: bool = false;
    while p < n && !stop
        invariant
            n == v@.len(),
            p <= n,
            x < posts@.len(),
            forall|i: int| 0 <= i < v@.len() ==> (#[trigger] v@[i]) < posts@.len(),
            forall|i: int| 0 <= i < p ==> !idx_before(posts@, x, #[trigger] v@[i]),
            stop ==> p < n && idx_before(posts@, x, v@[p as int]),
        decreases n - p + (if stop { 0int } else { 1int }),
    {
        if is_before(posts, x, v[p]) {
            stop = true;
        } else {
            p += 1;
        }
    }
    proof {
        lemma_insert_desc_at(posts@, v@, x, p as int);
        lemma_insert_desc_elems(posts@, v@, x);
    }
    let ghost pre = v@;
    v.insert(p, x);
    proof {
        assert(v@ =~= insert_desc(posts@, pre, x));
        assert forall|i: int| 0 <= i < v@.len() implies (#[trigger] v@[i]) < posts@.len() by {
            if v@[i] != x {
                assert(pre.contains(v@[i]));
                let q = choose|q: int| 0 <= q < pre.len() && #[trigger] pre[q] == v@[i];
                assert(pre[q] < posts@.len());
            }
        }
    }
}

/// Sort the selected row indices into listing order: newest first, ties in
/// table order.
pub fn sort_by_recency(posts: &Vec<Post>, sel: &Vec<usize>) -> (r: Vec<usize>)
    requires
        forall|i: int| 0 <= i < sel@.len() ==> (#[trigger] sel@[i]) < posts@.len(),
    ensures
        r@ == sort_desc(posts@, sel@),
        r@.len() == sel@.len(),
        forall|i: int| 0 <= i < r@.len() ==> (#[trigger] r@[i]) < posts@.len(),
{
    let mut r: Vec<usize> = Vec::new();
    let mut k: usize = 0;
    while k < sel.len()
        invariant
            k <= sel@.len(),
            forall|i: int| 0 <= i < sel@.len() ==> (#[trigger] sel@[i]) < posts@.len(),
            r@ == sort_desc(posts@, sel@.subrange(0, k as int)),
            r@.len() == k,
            forall|i: int| 0 <= i < r@.len() ==> (#[trigger] r@[i]) < posts@.len(),
        decreases sel@.len() - k,
    {
        insert_sorted(posts, &mut r, sel[k]);
        proof {
            let pre = sel@.subrange(0, k as int);
            let cur = sel@.subrange(0, k + 1 as int);
            assert(cur.drop_last() =~= pre);
            assert(cur.last() == sel@[k as int]);
        }
        k += 1;
    }
    proof {
        assert(sel@.subrange(0, sel@.len() as int) =~= sel@);
    }
    r
}

/// Whether the filter selects post row `k`, executably.
#[verifier::loop_isolation(false)]
fn post_selected_x(s: &Store, k: usize, term: &Option<Vec<char>>) -> (b: bool)
    requires
        k < s.posts@.len(),
    ensures
        b == post_selected(s.users@, s.post_tags@, s.posts@[k as int], opt_chars_view(*term)),
{
    match term {
        None => true,
        Some(t) => {
            let p = &s.posts[k];
            if crate::text::field_contains_ci(p.title.as_str(), t) {
                return true;
            }
            if crate::text::field_contains_ci(p.body.as_str(), t) {
                return true;
            }
            let mut j: usize = 0;
            while j < s.users.len()
                invariant
                    k < s.posts@.len(),
                    j <= s.users@.len(),
                    forall|q: int|
                        0 <= q < j ==> !((#[trigger] s.users@[q]).id == s.posts@[k as int].created_by
                            && (contains_ci(s.users@[q].username@, t@) || contains_ci(
                            s.users@[q].first_name@,
                            t@,
                        ) || contains_ci(s.users@[q].last_name@, t@))),
                decreases s.users@.len() - j,
            {
                let u = &s.users[j];
                if u.id == p.created_by {
                    if crate::text::field_contains_ci(u.username.as_str(), t) {
                        return true;
                    }
                    if crate::text::field_contains_ci(u.first_name.as_str(), t) {
                        return true;
                    }
                    if crate::text::field_contains_ci(u.last_name.as_str(), t) {
                        return true;
                    }
                }
                j += 1;
            }
            let mut j: usize = 0;
            while j < s.post_tags.len()
                invariant
                    k < s.posts@.len(),
                    j <= s.post_tags@.len(),
                    forall|q: int|
                        0 <= q < j ==> !((#[trigger] s.post_tags@[q]).fk_post_id == s.posts@[k as int].id
                            && contains_ci(s.post_tags@[q].tag@, t@)),
                decreases s.post_tags@.len() - j,
            {
                let row = &s.post_tags[j];
                if row.fk_post_id == p.id {
                    if crate::text::field_contains_ci(row.tag.as_str(), t) {
                        return true;
                    }
                }
                j += 1;
            }
            false
        },
    }
}

/// Indices of all posts the filter selects, ascending.
pub fn matching_indices(s: &Store, term: &Option<Vec<char>>) -> (v: Vec<usize>)
    ensures
        v@ == selected(*s, opt_chars_view(*term)),
        forall|i: int| 0 <= i < v@.len() ==> (#[trigger] v@[i]) < s.posts@.len(),
{
    let mut v: Vec<usize> = Vec::new();
    let mut k: usize = 0;
    while k < s.posts.len()
        invariant
            k <= s.posts@.len(),
            v@ == selected_upto(*s, opt_chars_view(*term), k as int),
            forall|i: int| 0 <= i < v@.len() ==> (#[trigger] v@[i]) < s.posts@.len(),
        decreases s.posts@.len() - k,
    {
        if post_selected_x(s, k, term) {
            v.push(k);
            proof {
                assert(selected_upto(*s, opt_chars_view(*term), k + 1 as int) =~= selected_upto(
                    *s,
                    opt_chars_view(*term),
                    k as int,
                ).push(k));
            }
        } else {
            proof {
                assert(selected_upto(*s, opt_chars_view(*term), k + 1 as int) =~= selected_upto(
                    *s,
                    opt_chars_view(*term),
                    k as int,
                ));
            }
        }
        k += 1;
    }
    v
}

} // verus!
