//! Character-level text primitives: occurrence of one string inside another,
//! and first-occurrence search, all stated over sequences of Unicode scalar
//! values so that offset arithmetic never touches raw bytes.

use vstd::prelude::*;

verus! {

use vstd::string::StrSliceExecFns;

/// `pat` occurs in `s` starting at character index `i`.
pub open spec fn occurs_at(s: Seq<char>, pat: Seq<char>, i: int) -> bool {
    0 <= i && i + pat.len() <= s.len() && s.subrange(i, i + pat.len() as int) == pat
}

/// Index of the first occurrence of `pat` in `s` at or after `i`, if any.
pub open spec fn find_from_spec(s: Seq<char>, pat: Seq<char>, i: int) -> Option<int>
    decreases s.len() + 1 - i,
{
    if i < 0 || i + pat.len() > s.len() {
        None
    } else if occurs_at(s, pat, i) {
        Some(i)
    } else {
        find_from_spec(s, pat, i + 1)
    }
}

/// Index of the first occurrence of `pat` in `s`, if any.
pub open spec fn find_spec(s: Seq<char>, pat: Seq<char>) -> Option<int> {
    find_from_spec(s, pat, 0)
}

/// What `find_from_spec` returns: the least occurrence at or after `i`,
/// or `None` exactly when there is none.
pub proof fn lemma_find_from_spec(s: Seq<char>, pat: Seq<char>, i: int)
    requires
        0 <= i,
    ensures
        match find_from_spec(s, pat, i) {
            Some(j) => i <= j && occurs_at(s, pat, j) && (forall|k: int|
                i <= k < j ==> !occurs_at(s, pat, k)),
            None => forall|k: int| i <= k ==> !occurs_at(s, pat, k),
        },
    decreases s.len() + 1 - i,
{
    if i + pat.len() > s.len() {
        assert(forall|k: int| i <= k ==> !occurs_at(s, pat, k));
    } else if occurs_at(s, pat, i) {
    } else {
        lemma_find_from_spec(s, pat, i + 1);
    }
}

/// Exact character-for-character equality of two string slices.
pub fn str_eq(a: &str, b: &str) -> (r: bool)
    ensures
        r == (a@ == b@),
{
    let n = a.unicode_len();
    if n != b.unicode_len() {
        return false;
    }
    let mut i: usize = 0;
    while i < n
        invariant
            n == a@.len(),
            n == b@.len(),
            0 <= i <= n,
            forall|k: int| 0 <= k < i ==> a@[k] == b@[k],
        decreases n - i,
    {
        if a.get_char(i) != b.get_char(i) {
            return false;
        }
        i += 1;
    }
    proof {
        assert(a@ =~= b@);
    }
    true
}

/// Whether `pat` occurs in `s` at character index `i`.
pub fn matches_at(s: &str, pat: &str, i: usize) -> (r: bool)
    ensures
        r == occurs_at(s@, pat@, i as int),
{
    let n = s.unicode_len();
    let p = pat.unicode_len();
    if p > n || i > n - p {
        return false;
    }
    let mut k: usize = 0;
    while k < p
        invariant
            n == s@.len(),
            p == pat@.len(),
            p <= n,
            i <= n - p,
            0 <= k <= p,
            forall|j: int| 0 <= j < k ==> s@[i + j] == pat@[j],
        decreases p - k,
    {
        if s.get_char(i + k) != pat.get_char(k) {
            proof {
                assert(s@.subrange(i as int, i + p) != pat@) by {
                    assert(s@.subrange(i as int, i + p)[k as int] == s@[i + k]);
                }
            }
            return false;
        }
        k += 1;
    }
    proof {
        assert(s@.subrange(i as int, i + p) =~= pat@);
    }
    true
}

/// First occurrence of `pat` in `s` at or after character index `from`.
pub fn find_from(s: &str, pat: &str, from: usize) -> (r: Option<usize>)
    ensures
        match r {
            Some(j) => find_from_spec(s@, pat@, from as int) == Some(j as int),
            None => find_from_spec(s@, pat@, from as int) is None,
        },
{
    let n = s.unicode_len();
    let p = pat.unicode_len();
    if p > n || from > n - p {
        return None;
    }
    if p == 0 {
        proof {
            assert(s@.subrange(from as int, from as int) =~= pat@);
        }
        return Some(from);
    }
    let mut i: usize = from;
    while i <= n - p
        invariant
            n == s@.len(),
            p == pat@.len(),
            1 <= p <= n,
            from <= i,
            i <= n - p + 1,
            find_from_spec(s@, pat@, from as int) == find_from_spec(s@, pat@, i as int),
        decreases n - i,
    {
        if matches_at(s, pat, i) {
            return Some(i);
        }
        i += 1;
    }
    None
}

} // verus!
