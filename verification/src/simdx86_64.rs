//! Architecture-specialized matcher, rendered portably: short needles are
//! matched by comparing a full needle-width window at every position, sliding
//! one byte at a time — the scalar equivalent of the 128-bit register compare
//! — while longer needles fall back to the portable vectorized strategy.

use crate::matching::is_first_match;
use crate::naive::eq_at;
use crate::simd::simd_search;
use vstd::prelude::*;

verus! {

/// Window width of the specialized strategy; needles longer than this fall
/// back to the portable vectorized search.
pub const SPECIALIZED_NEEDLE_MAX: usize = 16;

/// Architecture-specialized search: for needles of at most 16 bytes, compare
/// the whole needle against the window at each position, sliding one byte at
/// a time; longer needles fall back to `simd_search`.
pub fn simd_search_x86_64(haystack: &[u8], needle: &[u8]) -> (r: Option<usize>)
    ensures
        is_first_match(haystack@, needle@, r),
{
    let m = needle.len();
    let n = haystack.len();
    // No match is possible for an empty needle or a short haystack
    if m == 0 || n < m {
        return None;
    }
    // For needles longer than one window, fall back to the portable strategy
    if m > SPECIALIZED_NEEDLE_MAX {
        return simd_search(haystack, needle);
    }
    let last_start = n - m;
    let mut i: usize = 0;
    // Slide by one byte, comparing a full needle-width window each time
    while i <= last_start
        invariant
            last_start == n - m,
            m == needle@.len(),
            n == haystack@.len(),
            1 <= m <= n,
            0 <= i <= n,
            forall|j: int| 0 <= j < i ==> !crate::matching::occurs_at(haystack@, needle@, j),
        decreases last_start + 1 - i,
    {
        if eq_at(haystack, needle, i) {
            return Some(i);
        }
        i += 1;
    }
    proof {
        assert forall|j: int| !crate::matching::occurs_at(haystack@, needle@, j) by {
            if crate::matching::occurs_at(haystack@, needle@, j) && j >= i {
                assert(j + m > n);
            }
        }
    }
    None
}

} // verus!
