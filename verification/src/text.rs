//! Case-insensitive, unanchored substring matching on character sequences.
//!
//! Folding is ASCII-only: the code points of `A`..`Z` are mapped onto
//! `a`..`z`, every other character only matches itself. Characters of the
//! search term are taken literally; there are no wildcards.

use vstd::prelude::*;

verus! {

/// The code point of `c` with ASCII uppercase letters folded to lowercase.
pub open spec fn fold_code(c: char) -> int {
    if 65 <= c as u32 <= 90 {
        c as u32 + 32
    } else {
        c as int
    }
}

/// Case-insensitive equality of two characters.
pub open spec fn chars_eq_ci(a: char, b: char) -> bool {
    fold_code(a) == fold_code(b)
}

/// `needle` occurs in `hay` starting at position `i`, case-insensitively.
pub open spec fn matches_at(hay: Seq<char>, needle: Seq<char>, i: int) -> bool {
    forall|j: int| 0 <= j < needle.len() ==> chars_eq_ci(#[trigger] hay[i + j], needle[j])
}

/// `needle` occurs somewhere in `hay`, case-insensitively. An empty needle
/// occurs in every haystack.
pub open spec fn contains_ci(hay: Seq<char>, needle: Seq<char>) -> bool {
    exists|i: int| 0 <= i && i + needle.len() <= hay.len() && #[trigger] matches_at(hay, needle, i)
}

/// The folded code point, executably.
fn fold_code_x(c: char) -> (r: u32)
    ensures
        r == fold_code(c),
{
    let u = c as u32;
    if 65 <= u && u <= 90 {
        u + 32
    } else {
        u
    }
}

/// The characters of `s`, in order.
pub fn chars_of(s: &str) -> (v: Vec<char>)
    ensures
        v@ == s@,
{
    let n = s.unicode_len();
    let mut v: Vec<char> = Vec::new();
    let mut k: usize = 0;
    while k < n
        invariant
            n == s@.len(),
            k <= n,
            v@ == s@.subrange(0, k as int),
        decreases n - k,
    {
        v.push(s.get_char(k));
        proof {
            assert(s@.subrange(0, k as int).push(s@[k as int]) =~= s@.subrange(0, k + 1 as int));
        }
        k += 1;
    }
    proof {
        assert(v@ =~= s@);
    }
    v
}

/// Whether `needle` occurs in `hay`, case-insensitively.
pub fn contains_chars_ci(hay: &Vec<char>, needle: &Vec<char>) -> (r: bool)
    ensures
        r == contains_ci(hay@, needle@),
{
    let hn = hay.len();
    let nn = needle.len();
    if nn > hn {
        return false;
    }
    let mut i: usize = 0;
    while i <= hn - nn
        invariant
            nn <= hn,
            hn == hay@.len(),
            nn == needle@.len(),
            i <= hn - nn + 1,
            forall|x: int| 0 <= x < i ==> !#[trigger] matches_at(hay@, needle@, x),
        decreases hn - nn + 1 - i,
    {
        let mut j: usize = 0;
        let mut mismatch: bool = false;
        while j < nn && !mismatch
            invariant
                i + nn <= hn,
                hn == hay@.len(),
                nn == needle@.len(),
                j <= nn,
                !mismatch ==> forall|y: int|
                    0 <= y < j ==> chars_eq_ci(#[trigger] hay@[i + y], needle@[y]),
                mismatch ==> !matches_at(hay@, needle@, i as int),
            decreases nn - j + (if mismatch { 0int } else { 1int }),
        {
            if fold_code_x(hay[i + j]) != fold_code_x(needle[j]) {
                mismatch = true;
            } else {
                j += 1;
            }
        }
        if !mismatch {
            proof {
                assert(matches_at(hay@, needle@, i as int));
            }
            return true;
        }
        i += 1;
    }
    proof {
        assert forall|x: int| 0 <= x && x + needle@.len() <= hay@.len() implies !matches_at(
            hay@,
            needle@,
            x,
        ) by {
            assert(x < i);
        }
    }
    false
}

/// Whether the term occurs in the field, case-insensitively; the field is a
/// string, the term has been split into characters already.
pub fn field_contains_ci(field: &str, term: &Vec<char>) -> (r: bool)
    ensures
        r == contains_ci(field@, term@),
{
    let f = chars_of(field);
    contains_chars_ci(&f, term)
}

} // verus!
