//! The engine's general guarantees, stated and proved once for every store,
//! filter and page.

use vstd::prelude::*;

use crate::models::{NewPostWithTags, PaginationMeta, Post, PostTag, PostWithUserAndTags};
use crate::listing::{
    idx_before, insert_desc, listing_ok, listing_order, match_count, post_matches, post_selected,
    ordered_newest_first, record_matches, selected, sort_desc, valid_params,
    lemma_selected_upto_membership,
    lemma_selected_upto_props, lemma_sort_desc_len,
};
use crate::repository::{has_dup_tags, post_created, tag_row, tag_rows};
use crate::store::{has_post, has_user, tags_of, tags_of_upto, Store};
use crate::text::contains_ci;

verus! {

/// A value occurs in a sequence exactly when it occurs before the last
/// position or at it.
proof fn lemma_contains_split(s: Seq<usize>, y: usize)
    requires
        s.len() > 0,
    ensures
        s.contains(y) <==> (s.drop_last().contains(y) || y == s.last()),
{
    let t = s.drop_last();
    if s.contains(y) {
        let q = choose|q: int| 0 <= q < s.len() && #[trigger] s[q] == y;
        if q < s.len() - 1 {
            assert(t[q] == y);
        }
    }
    if t.contains(y) {
        let q = choose|q: int| 0 <= q < t.len() && #[trigger] t[q] == y;
        assert(s[q] == y);
    }
    if y == s.last() {
        assert(s[s.len() - 1] == y);
    }
}

/// Inserting a row index adds exactly that value to the sequence.
proof fn lemma_insert_desc_mem(posts: Seq<Post>, s: Seq<usize>, x: usize, y: usize)
    ensures
        insert_desc(posts, s, x).contains(y) <==> (y == x || s.contains(y)),
    decreases s.len(),
{
    let out = insert_desc(posts, s, x);
    if s.len() == 0 {
        if y == x {
            assert(out[0] == y);
        }
        if out.contains(y) {
            let q = choose|q: int| 0 <= q < out.len() && #[trigger] out[q] == y;
        }
    } else if idx_before(posts, x, s[0]) {
        if y == x {
            assert(out[0] == y);
        }
        if s.contains(y) {
            let q = choose|q: int| 0 <= q < s.len() && #[trigger] s[q] == y;
            assert(out[q + 1] == y);
        }
        if out.contains(y) {
            let q = choose|q: int| 0 <= q < out.len() && #[trigger] out[q] == y;
            if q > 0 {
                assert(s[q - 1] == y);
            }
        }
    } else {
        let t = s.drop_first();
        let inner = insert_desc(posts, t, x);
        lemma_insert_desc_mem(posts, t, x, y);
        if y == x {
            let q = choose|q: int| 0 <= q < inner.len() && #[trigger] inner[q] == y;
            assert(out[q + 1] == y);
        }
        if s.contains(y) {
            let q = choose|q: int| 0 <= q < s.len() && #[trigger] s[q] == y;
            if q == 0 {
                assert(out[0] == y);
            } else {
                assert(t[q - 1] == y);
                let w = choose|w: int| 0 <= w < inner.len() && #[trigger] inner[w] == y;
                assert(out[w + 1] == y);
            }
        }
        if out.contains(y) {
            let q = choose|q: int| 0 <= q < out.len() && #[trigger] out[q] == y;
            if q == 0 {
                assert(s[0] == y);
            } else {
                assert(inner[q - 1] == y);
                if y != x {
                    let w = choose|w: int| 0 <= w < t.len() && #[trigger] t[w] == y;
                    assert(s[w + 1] == y);
                }
            }
        }
    }
}

/// Inserting a fresh row index keeps the sequence free of duplicates.
proof fn lemma_insert_desc_no_dup(posts: Seq<Post>, s: Seq<usize>, x: usize)
    requires
        s.no_duplicates(),
        !s.contains(x),
    ensures
        insert_desc(posts, s, x).no_duplicates(),
    decreases s.len(),
{
    let out = insert_desc(posts, s, x);
    if s.len() == 0 {
    } else if idx_before(posts, x, s[0]) {
        assert forall|i: int, j: int| 0 <= i < j < out.len() implies out[i] != out[j] by {
            if i == 0 {
                assert(out[j] == s[j - 1]);
                assert(s.contains(s[j - 1]));
            } else {
                assert(out[i] == s[i - 1] && out[j] == s[j - 1]);
            }
        }
    } else {
        let t = s.drop_first();
        let inner = insert_desc(posts, t, x);
        assert(t.no_duplicates()) by {
            assert(forall|i: int, j: int|
                0 <= i < j < t.len() ==> #[trigger] t[i] == s[i + 1] && #[trigger] t[j] == s[j + 1]);
        }
        assert(!t.contains(x)) by {
            if t.contains(x) {
                let q = choose|q: int| 0 <= q < t.len() && #[trigger] t[q] == x;
                assert(s[q + 1] == x);
                assert(s.contains(x));
            }
        }
        lemma_insert_desc_no_dup(posts, t, x);
        assert(!inner.contains(s[0])) by {
            lemma_insert_desc_mem(posts, t, x, s[0]);
            assert(s.contains(s[0]));
            if t.contains(s[0]) {
                let q = choose|q: int| 0 <= q < t.len() && #[trigger] t[q] == s[0];
                assert(s[q + 1] == s[0]);
            }
        }
        assert forall|i: int, j: int| 0 <= i < j < out.len() implies out[i] != out[j] by {
            if i == 0 {
                assert(out[j] == inner[j - 1]);
                assert(inner.contains(inner[j - 1]));
            } else {
                assert(out[i] == inner[i - 1] && out[j] == inner[j - 1]);
            }
        }
    }
}

/// Sorting into listing order is a permutation: same values, no value
/// duplicated, none invented.
proof fn lemma_sort_desc_mem_no_dup(posts: Seq<Post>, s: Seq<usize>)
    requires
        s.no_duplicates(),
    ensures
        sort_desc(posts, s).no_duplicates(),
        forall|y: usize| #[trigger] sort_desc(posts, s).contains(y) <==> s.contains(y),
    decreases s.len(),
{
    if s.len() != 0 {
        let t = s.drop_last();
        let x = s.last();
        assert(t.no_duplicates()) by {
            assert(forall|i: int, j: int|
                0 <= i < j < t.len() ==> #[trigger] t[i] == s[i] && #[trigger] t[j] == s[j]);
        }
        lemma_sort_desc_mem_no_dup(posts, t);
        let st = sort_desc(posts, t);
        assert(!st.contains(x)) by {
            if t.contains(x) {
                let q = choose|q: int| 0 <= q < t.len() && #[trigger] t[q] == x;
                assert(s[q] == x && s[s.len() - 1] == x);
            }
        }
        lemma_insert_desc_no_dup(posts, st, x);
        assert forall|y: usize| #[trigger] sort_desc(posts, s).contains(y) <==> s.contains(y) by {
            lemma_insert_desc_mem(posts, st, x, y);
            lemma_contains_split(s, y);
        }
    } else {
        assert forall|y: usize| #[trigger] sort_desc(posts, s).contains(y) <==> s.contains(y) by {
            if sort_desc(posts, s).contains(y) {
                let q = choose|q: int|
                    0 <= q < sort_desc(posts, s).len() && #[trigger] sort_desc(posts, s)[q] == y;
            }
            if s.contains(y) {
                let q = choose|q: int| 0 <= q < s.len() && #[trigger] s[q] == y;
            }
        }
    }
}

/// Inserting a fresh row index at its place keeps the sequence in listing
/// order.
proof fn lemma_insert_desc_sorted(posts: Seq<Post>, s: Seq<usize>, x: usize)
    requires
        ordered_newest_first(posts, s),
        !s.contains(x),
    ensures
        ordered_newest_first(posts, insert_desc(posts, s, x)),
    decreases s.len(),
{
    let out = insert_desc(posts, s, x);
    if s.len() == 0 {
    } else if idx_before(posts, x, s[0]) {
        assert forall|i: int, j: int| 0 <= i < j < out.len() implies idx_before(
            posts,
            out[i],
            out[j],
        ) by {
            if i == 0 {
                assert(out[j] == s[j - 1]);
                if j > 1 {
                    assert(idx_before(posts, s[0], s[j - 1]));
                }
            } else {
                assert(out[i] == s[i - 1] && out[j] == s[j - 1]);
            }
        }
    } else {
        let t = s.drop_first();
        let inner = insert_desc(posts, t, x);
        assert(ordered_newest_first(posts, t)) by {
            assert(forall|i: int, j: int|
                0 <= i < j < t.len() ==> #[trigger] t[i] == s[i + 1] && #[trigger] t[j] == s[j + 1]);
        }
        assert(!t.contains(x)) by {
            if t.contains(x) {
                let q = choose|q: int| 0 <= q < t.len() && #[trigger] t[q] == x;
                assert(s[q + 1] == x);
            }
        }
        lemma_insert_desc_sorted(posts, t, x);
        assert(s[0] != x) by {
            assert(s.contains(s[0]));
        }
        assert forall|i: int, j: int| 0 <= i < j < out.len() implies idx_before(
            posts,
            out[i],
            out[j],
        ) by {
            if i == 0 {
                assert(out[j] == inner[j - 1]);
                lemma_insert_desc_mem(posts, t, x, inner[j - 1]);
                if inner[j - 1] == x {
                    assert(idx_before(posts, s[0], x));
                } else {
                    let q = choose|q: int| 0 <= q < t.len() && #[trigger] t[q] == inner[j - 1];
                    assert(s[q + 1] == inner[j - 1]);
                    assert(idx_before(posts, s[0], s[q + 1]));
                }
            } else {
                assert(out[i] == inner[i - 1] && out[j] == inner[j - 1]);
            }
        }
    }
}

/// Sorting the selected rows puts them in listing order.
proof fn lemma_sort_desc_sorted(posts: Seq<Post>, s: Seq<usize>)
    requires
        s.no_duplicates(),
    ensures
        ordered_newest_first(posts, sort_desc(posts, s)),
    decreases s.len(),
{
    if s.len() != 0 {
        let t = s.drop_last();
        let x = s.last();
        assert(t.no_duplicates()) by {
            assert(forall|i: int, j: int|
                0 <= i < j < t.len() ==> #[trigger] t[i] == s[i] && #[trigger] t[j] == s[j]);
        }
        lemma_sort_desc_sorted(posts, t);
        lemma_sort_desc_mem_no_dup(posts, t);
        let st = sort_desc(posts, t);
        assert(!st.contains(x)) by {
            if t.contains(x) {
                let q = choose|q: int| 0 <= q < t.len() && #[trigger] t[q] == x;
                assert(s[q] == x && s[s.len() - 1] == x);
            }
        }
        lemma_insert_desc_sorted(posts, st, x);
    }
}

/// Newest first: the full listing order presents a strictly newer post, or
/// an equally new one from an earlier table row, ahead of a later one.
pub proof fn lemma_listing_newest_first(s: Store, term: Option<Seq<char>>)
    requires
        s.wf(),
        s.posts@.len() <= usize::MAX,
    ensures
        ordered_newest_first(s.posts@, listing_order(s, term)),
{
    lemma_selected_upto_props(s, term, s.posts@.len() as int);
    lemma_sort_desc_sorted(s.posts@, selected(s, term));
}

/// Pagination consistency: the metadata's total is the number of posts the
/// filter selects — each selected exactly once — and the page count is that
/// total divided by the page size, rounded up.
pub proof fn lemma_pagination_consistency(
    s: Store,
    term: Option<Seq<char>>,
    page: int,
    limit: int,
    records: Seq<PostWithUserAndTags>,
    meta: PaginationMeta,
)
    requires
        s.wf(),
        s.posts@.len() <= usize::MAX,
        valid_params(page, limit),
        listing_ok(s, term, page, limit, records, meta),
    ensures
        meta.total_docs == match_count(s, term),
        meta.total_pages == (match_count(s, term) + limit - 1) / limit,
        selected(s, term).no_duplicates(),
        forall|x: usize|
            #[trigger] selected(s, term).contains(x) <==> (x < s.posts@.len() && post_selected(
                s.users@,
                s.post_tags@,
                s.posts@[x as int],
                term,
            )),
{
    let n = s.posts@.len() as int;
    lemma_selected_upto_props(s, term, n);
    assert(selected(s, term).no_duplicates());
    assert forall|x: usize|
        #[trigger] selected(s, term).contains(x) <==> (x < s.posts@.len() && post_selected(
            s.users@,
            s.post_tags@,
            s.posts@[x as int],
            term,
        )) by {
        lemma_selected_upto_membership(s, term, n, x);
    }
}

/// No duplication: the full listing order lists exactly the selected rows,
/// each exactly once.
pub proof fn lemma_no_duplication(s: Store, term: Option<Seq<char>>)
    requires
        s.wf(),
        s.posts@.len() <= usize::MAX,
    ensures
        listing_order(s, term).len() == match_count(s, term),
        listing_order(s, term).no_duplicates(),
        forall|x: usize|
            #[trigger] listing_order(s, term).contains(x) <==> (x < s.posts@.len()
                && post_selected(s.users@, s.post_tags@, s.posts@[x as int], term)),
{
    let n = s.posts@.len() as int;
    let sel = selected(s, term);
    lemma_selected_upto_props(s, term, n);
    lemma_sort_desc_len(s.posts@, sel);
    lemma_sort_desc_mem_no_dup(s.posts@, sel);
    assert forall|x: usize|
        #[trigger] listing_order(s, term).contains(x) <==> (x < s.posts@.len() && post_selected(
            s.users@,
            s.post_tags@,
            s.posts@[x as int],
            term,
        )) by {
        lemma_selected_upto_membership(s, term, n, x);
    }
}

/// No duplication, seen on a page: no post appears twice among the
/// returned records.
pub proof fn lemma_page_ids_distinct(
    s: Store,
    term: Option<Seq<char>>,
    page: int,
    limit: int,
    records: Seq<PostWithUserAndTags>,
    meta: PaginationMeta,
)
    requires
        s.wf(),
        s.posts@.len() <= usize::MAX,
        valid_params(page, limit),
        listing_ok(s, term, page, limit, records, meta),
    ensures
        forall|a: int, b: int| 0 <= a < b < records.len() ==> records[a].id != records[b].id,
{
    lemma_no_duplication(s, term);
    let order = listing_order(s, term);
    let total = match_count(s, term);
    let offset = (page - 1) * limit;
    let lo = if offset <= total {
        offset
    } else {
        total
    };
    assert forall|a: int, b: int| 0 <= a < b < records.len() implies records[a].id
        != records[b].id by {
        let ia = order[lo + a];
        let ib = order[lo + b];
        assert(order.contains(ia));
        assert(order.contains(ib));
        assert(ia != ib);
        assert(records[a].id == s.posts@[ia as int].id);
        assert(records[b].id == s.posts@[ib as int].id);
        if (ia as int) < ib {
            assert(s.posts@[ia as int].id != s.posts@[ib as int].id);
        } else {
            assert(s.posts@[ib as int].id != s.posts@[ia as int].id);
        }
    }
}

/// Association rows keep the tags of the first `k` rows of `s1` when those
/// rows agree with `s2`.
proof fn lemma_tags_of_upto_prefix(s1: Seq<PostTag>, s2: Seq<PostTag>, id: u128, k: int)
    requires
        0 <= k <= s1.len(),
        k <= s2.len(),
        forall|i: int| 0 <= i < k ==> s1[i] == s2[i],
    ensures
        tags_of_upto(s1, id, k) == tags_of_upto(s2, id, k),
    decreases k,
{
    if k > 0 {
        lemma_tags_of_upto_prefix(s1, s2, id, k - 1);
    }
}

/// The tags of a concatenation are the tags of the parts, in order.
proof fn lemma_tags_of_concat(a: Seq<PostTag>, b: Seq<PostTag>, id: u128)
    ensures
        tags_of(a + b, id) == tags_of(a, id) + tags_of(b, id),
    decreases b.len(),
{
    if b.len() == 0 {
        assert(a + b =~= a);
        assert(tags_of(b, id) =~= Seq::<String>::empty());
        assert(tags_of(a + b, id) =~= tags_of(a, id) + tags_of(b, id));
    } else {
        let b0 = b.drop_last();
        lemma_tags_of_concat(a, b0, id);
        lemma_tags_of_upto_prefix(a + b, a + b0, id, a.len() + b.len() - 1);
        lemma_tags_of_upto_prefix(b, b0, id, b.len() - 1);
        assert((a + b).len() == a.len() + b.len());
        assert((a + b)[a.len() + b.len() - 1] == b[b.len() - 1]);
        assert(a + b0 =~= (a + b).subrange(0, a.len() + b.len() - 1));
        assert(tags_of(a + b, id) =~= tags_of(a, id) + tags_of(b, id));
    }
}

/// A table whose rows all belong to other posts contributes no tags.
proof fn lemma_tags_of_none(s: Seq<PostTag>, id: u128, k: int)
    requires
        0 <= k <= s.len(),
        forall|i: int| 0 <= i < s.len() ==> (#[trigger] s[i]).fk_post_id != id,
    ensures
        tags_of_upto(s, id, k) == Seq::<String>::empty(),
    decreases k,
{
    if k > 0 {
        lemma_tags_of_none(s, id, k - 1);
        assert(tags_of_upto(s, id, k) =~= Seq::<String>::empty());
    }
}

/// The association rows written for a post yield back exactly the written
/// tag list, in order.
proof fn lemma_tags_of_rows(id: u128, tags: Seq<String>, k: int)
    requires
        0 <= k <= tags.len(),
    ensures
        tags_of_upto(tag_rows(id, tags), id, k) == tags.subrange(0, k),
    decreases k,
{
    if k == 0 {
        assert(tags_of_upto(tag_rows(id, tags), id, 0) =~= tags.subrange(0, 0));
    } else {
        lemma_tags_of_rows(id, tags, k - 1);
        assert(tag_rows(id, tags)[k - 1] == tag_row(id, tags[k - 1]));
        assert(tags_of_upto(tag_rows(id, tags), id, k) =~= tags.subrange(0, k));
    }
}

/// Tag completeness: a post created with a tag list is listed with exactly
/// those tags — none lost, none invented, none duplicated.
pub proof fn lemma_tag_completeness(
    pre: Store,
    post: Store,
    np: NewPostWithTags,
    id: u128,
    p: Post,
    r: PostWithUserAndTags,
)
    requires
        pre.wf(),
        pre.posts@.len() < usize::MAX,
        !has_post(pre.posts@, id),
        !has_dup_tags(np.tags@),
        post_created(pre, post, np, id, p),
        record_matches(post, r, pre.posts@.len() as usize),
    ensures
        r.tags@ == np.tags@,
        forall|i: int, j: int|
            0 <= i < j < r.tags@.len() ==> (#[trigger] r.tags@[i])@ != (#[trigger] r.tags@[j])@,
{
    let rows = tag_rows(id, np.tags@);
    assert(post.posts@[pre.posts@.len() as int] == p);
    assert(p.id == id);
    lemma_tags_of_concat(pre.post_tags@, rows, id);
    assert(tags_of(post.post_tags@, id) == tags_of(pre.post_tags@, id) + tags_of(rows, id));
    assert forall|i: int| 0 <= i < pre.post_tags@.len() implies (
    #[trigger] pre.post_tags@[i]).fk_post_id != id by {
        assert(has_post(pre.posts@, pre.post_tags@[i].fk_post_id));
    }
    lemma_tags_of_none(pre.post_tags@, id, pre.post_tags@.len() as int);
    lemma_tags_of_rows(id, np.tags@, np.tags@.len() as int);
    assert(np.tags@.subrange(0, np.tags@.len() as int) =~= np.tags@);
    assert(r.tags@ =~= np.tags@);
}

/// Dangling author tolerance: a post whose author reference resolves to no
/// user is still listed — selected by an empty filter, and matched by a
/// term that occurs in its own title — and carries no author sub-record.
pub proof fn lemma_dangling_author(s: Store, r: PostWithUserAndTags, i: usize, term: Seq<char>)
    requires
        s.wf(),
        i < s.posts@.len(),
        record_matches(s, r, i),
        !has_user(s.users@, s.posts@[i as int].created_by),
    ensures
        r.created_by is None,
        post_selected(s.users@, s.post_tags@, s.posts@[i as int], None),
        contains_ci(s.posts@[i as int].title@, term) ==> post_matches(
            s.users@,
            s.post_tags@,
            s.posts@[i as int],
            term,
        ),
{
    match r.created_by {
        None => {},
        Some(cb) => {
            assert(false);
        },
    }
}

/// Boundary page: a page past the last one holds no records, its upper
/// bound is clamped to the total, and its lower bound follows the formula
/// even beyond the total.
pub proof fn lemma_boundary_page(
    s: Store,
    term: Option<Seq<char>>,
    page: int,
    limit: int,
    records: Seq<PostWithUserAndTags>,
    meta: PaginationMeta,
)
    requires
        valid_params(page, limit),
        listing_ok(s, term, page, limit, records, meta),
        (page - 1) * limit >= match_count(s, term),
    ensures
        records.len() == 0,
        meta.to == meta.total_docs,
        meta.from == (page - 1) * limit + 1,
{
}

} // verus!
