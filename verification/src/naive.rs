//! Brute-force matcher: the reference strategy against which the others are
//! proved equivalent.

use crate::matching::is_first_match;
use crate::matching::occurs_at;
use vstd::prelude::*;

verus! {

/// Compares the needle byte-for-byte against the haystack at offset `i`.
pub(crate) fn eq_at(haystack: &[u8], needle: &[u8], i: usize) -> (r: bool)
    requires
        i + needle@.len() <= haystack@.len(),
    ensures
        r == occurs_at(haystack@, needle@, i as int),
{
    let m = needle.len();
    let n = haystack.len();
    let mut j: usize = 0;
    while j < m
        invariant
            0 <= j <= m,
            m == needle@.len(),
            n == haystack@.len(),
            i + m <= n,
            forall|k: int| 0 <= k < j ==> haystack@[i + k] == needle@[k],
        decreases m - j,
    {
        if haystack[i + j] != needle[j] {
            assert(!occurs_at(haystack@, needle@, i as int)) by {
                if occurs_at(haystack@, needle@, i as int) {
                    assert(haystack@.subrange(i as int, i + m as int)[j as int] == haystack@[i + j]);
                }
            }
            return false;
        }
        j += 1;
    }
    assert(haystack@.subrange(i as int, i + m as int) =~= needle@);
    true
}

/// A simple, brute-force byte-slice search that returns the index of the
/// first occurrence of `needle` inside `haystack`, or `None` if not found.
///
/// This is the reference strategy: for each candidate start position it
/// compares the needle byte-for-byte, and the first full match wins.
pub fn naive_search(haystack: &[u8], needle: &[u8]) -> (r: Option<usize>)
    ensures
        is_first_match(haystack@, needle@, r),
{
    let m = needle.len();
    let n = haystack.len();
    if m == 0 || n < m {
        return None;
    }
    let last_start = n - m;
    let mut i: usize = 0;
    while i <= last_start
        invariant
            m == needle@.len(),
            n == haystack@.len(),
            1 <= m <= n,
            last_start == n - m,
            0 <= i <= last_start + 1,
            forall|j: int| 0 <= j < i ==> !occurs_at(haystack@, needle@, j),
        decreases last_start + 1 - i,
    {
        if eq_at(haystack, needle, i) {
            return Some(i);
        }
        i += 1;
    }
    None
}

} // verus!
