//! Portable vectorized-style matcher: scan for the needle's first byte to
//! find candidate positions, then verify the full needle at each candidate.
//! The lane-parallel byte comparison of the hardware version is rendered here
//! as a verified scalar scan with the same two-step structure.

use crate::matching::is_first_match;
use crate::matching::occurs_at;
use crate::naive::eq_at;
use vstd::prelude::*;
use vstd::slice::slice_subrange;

verus! {

/// Scan helper that searches for the first occurrence of a single byte,
/// the candidate-generation step of the vectorized strategy.
pub fn simd_scan_first_byte(haystack: &[u8], first_byte: u8) -> (r: Option<usize>)
    ensures
        match r {
            Some(i) => {
                &&& (i as int) < haystack@.len()
                &&& haystack@[i as int] == first_byte
                &&& forall|j: int| 0 <= j < i as int ==> haystack@[j] != first_byte
            },
            None => forall|j: int| 0 <= j < haystack@.len() ==> haystack@[j] != first_byte,
        },
{
    let n = haystack.len();
    let mut i: usize = 0;
    while i < n
        invariant
            0 <= i <= n,
            n == haystack@.len(),
            forall|j: int| 0 <= j < i ==> haystack@[j] != first_byte,
        decreases n - i,
    {
        if haystack[i] == first_byte {
            return Some(i);
        }
        i += 1;
    }
    None
}

/// An occurrence of a non-empty needle demands its first byte at the start.
proof fn lemma_first_byte_must_match(h: Seq<u8>, n: Seq<u8>, p: int)
    requires
        n.len() >= 1,
        occurs_at(h, n, p),
    ensures
        h[p] == n[0],
{
    assert(h.subrange(p, p + n.len() as int)[0] == h[p]);
}

/// Vectorized-style search: find candidates by scanning for the needle's
/// first byte, then verify the full needle at each candidate position.
///
/// Single-byte needles are resolved by the scan alone, with no verification
/// step.
pub fn simd_search(haystack: &[u8], needle: &[u8]) -> (r: Option<usize>)
    ensures
        is_first_match(haystack@, needle@, r),
{
    let m = needle.len();
    let n = haystack.len();
    if m == 0 || n < m {
        return None;
    }
    let first_byte = needle[0];

    // Single byte needle - the scan is the whole search
    if m == 1 {
        let r = simd_scan_first_byte(haystack, first_byte);
        proof {
            match r {
                Some(i) => {
                    assert(haystack@.subrange(i as int, i + 1) =~= needle@);
                    assert forall|j: int| 0 <= j < i as int implies !occurs_at(
                        haystack@,
                        needle@,
                        j,
                    ) by {
                        if occurs_at(haystack@, needle@, j) {
                            lemma_first_byte_must_match(haystack@, needle@, j);
                        }
                    }
                },
                None => {
                    assert forall|j: int| !occurs_at(haystack@, needle@, j) by {
                        if occurs_at(haystack@, needle@, j) {
                            lemma_first_byte_must_match(haystack@, needle@, j);
                        }
                    }
                },
            }
        }
        return r;
    }
    let last_start = n - m;
    let mut search_start: usize = 0;
    while search_start <= last_start
        invariant
            last_start == n - m,
            m == needle@.len(),
            n == haystack@.len(),
            1 <= m <= n,
            0 <= search_start,
            search_start <= n,
            first_byte == needle@[0],
            forall|j: int| 0 <= j < search_start ==> !occurs_at(haystack@, needle@, j),
        decreases last_start + 1 - search_start,
    {
        // Scan the unsearched suffix for the next candidate position
        let tail = slice_subrange(haystack, search_start, n);
        match simd_scan_first_byte(tail, first_byte) {
            Some(offset) => {
                let candidate_pos = search_start + offset;
                proof {
                    assert forall|j: int|
                        search_start <= j < candidate_pos implies !occurs_at(
                        haystack@,
                        needle@,
                        j,
                    ) by {
                        assert(tail@[j - search_start] == haystack@[j]);
                        if occurs_at(haystack@, needle@, j) {
                            lemma_first_byte_must_match(haystack@, needle@, j);
                        }
                    }
                    assert(haystack@[candidate_pos as int] == first_byte);
                }
                // Check if enough bytes remain for a full needle
                if candidate_pos > last_start {
                    proof {
                        assert forall|j: int| !occurs_at(haystack@, needle@, j) by {
                            if occurs_at(haystack@, needle@, j) && j >= candidate_pos {
                                assert(j + m > n);
                            }
                        }
                    }
                    return None;
                }
                // Verify the full needle at the candidate position
                if eq_at(haystack, needle, candidate_pos) {
                    return Some(candidate_pos);
                }
                // Move past this candidate
                search_start = candidate_pos + 1;
            },
            None => {
                proof {
                    assert forall|j: int| !occurs_at(haystack@, needle@, j) by {
                        if occurs_at(haystack@, needle@, j) && j >= search_start {
                            assert(tail@[j - search_start] == haystack@[j]);
                            lemma_first_byte_must_match(haystack@, needle@, j);
                        }
                    }
                }
                return None;
            },
        }
    }
    proof {
        assert forall|j: int| !occurs_at(haystack@, needle@, j) by {
            if occurs_at(haystack@, needle@, j) && j >= search_start {
                assert(j + m > n);
            }
        }
    }
    None
}

} // verus!
