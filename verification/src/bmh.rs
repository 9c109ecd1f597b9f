//! Boyer-Moore-Horspool matcher: a 256-entry bad-character shift table,
//! built from the needle, lets the scan skip several positions after a
//! mismatch without missing any occurrence.

use crate::matching::is_first_match;
use crate::matching::occurs_at;
use vstd::prelude::*;

verus! {

/// Soundness of a shift entry for byte `b`: the byte does not appear in the
/// needle between the position the shift would jump from and the needle's
/// last byte, so skipping by `shift` cannot step over an occurrence.
spec fn shift_sound(n: Seq<u8>, b: u8, shift: int) -> bool {
    &&& 1 <= shift <= n.len()
    &&& forall|j: int| n.len() - 1 - shift < j < n.len() - 1 ==> n[j] != b
}

/// Boyer-Moore-Horspool search.
///
/// Builds the bad-character shift table from the needle (excluding its last
/// byte, later assignments winning for repeated bytes), then scans each
/// window right-to-left, advancing by the shift of the window's boundary
/// byte on a mismatch.
pub fn bmh_search(haystack: &[u8], needle: &[u8]) -> (r: Option<usize>)
    ensures
        is_first_match(haystack@, needle@, r),
{
    let m = needle.len();
    let n = haystack.len();
    if m == 0 || n < m {
        return None;
    }

    // Build bad-character shift table
    let mut shift: Vec<usize> = vec![m; 256];
    let mut t: usize = 0;
    while t < m - 1
        invariant
            m == needle@.len(),
            1 <= m,
            0 <= t <= m - 1,
            shift@.len() == 256,
            forall|b: int|
                0 <= b < 256 ==> 1 <= #[trigger] shift@[b] <= m && (forall|j: int|
                    m - 1 - shift@[b] < j < t ==> needle@[j] != b as u8),
        decreases m - 1 - t,
    {
        let b = needle[t];
        shift[b as usize] = m - 1 - t;
        t += 1;
    }
    assert(forall|b: u8| shift_sound(needle@, b, shift@[b as int] as int));

    let last_start = n - m;
    let mut i: usize = 0;
    while i <= last_start
        invariant
            m == needle@.len(),
            n == haystack@.len(),
            1 <= m <= n,
            last_start == n - m,
            0 <= i,
            shift@.len() == 256,
            forall|b: u8| shift_sound(needle@, b, shift@[b as int] as int),
            forall|q: int| 0 <= q < i ==> !occurs_at(haystack@, needle@, q),
        decreases n - i,
    {
        // Compare right-to-left within the window starting at i
        let mut j: usize = m;
        while j > 0
            invariant_except_break
                m == needle@.len(),
                n == haystack@.len(),
                i + m <= n,
                0 <= j <= m,
                forall|k: int| j <= k < m ==> haystack@[i + k] == needle@[k],
            ensures
                0 <= j <= m,
                i + m <= n,
                j == 0 ==> forall|k: int| 0 <= k < m ==> haystack@[i + k] == needle@[k],
                j > 0 ==> haystack@[i + j - 1] != needle@[j - 1],
            decreases j,
        {
            if haystack[i + j - 1] != needle[j - 1] {
                break ;
            }
            j -= 1;
        }
        if j == 0 {
            proof {
                assert(haystack@.subrange(i as int, i + m as int) =~= needle@);
            }
            return Some(i);
        }
        // Mismatch: the window at i is not an occurrence
        proof {
            assert(!occurs_at(haystack@, needle@, i as int)) by {
                if occurs_at(haystack@, needle@, i as int) {
                    assert(haystack@.subrange(i as int, i + m as int)[j - 1] == haystack@[i + j
                        - 1]);
                }
            }
        }
        let boundary = haystack[i + m - 1];
        let s = shift[boundary as usize];
        // No occurrence can start inside the skipped span
        proof {
            assert forall|q: int| i < q < i + s implies !occurs_at(haystack@, needle@, q) by {
                if occurs_at(haystack@, needle@, q) {
                    let d = i + m - 1 - q;
                    assert(haystack@.subrange(q, q + m as int)[d] == haystack@[i + m - 1]);
                    assert(needle@[d] == boundary);
                    assert(shift_sound(needle@, boundary, s as int));
                    assert(m - 1 - s < d < m - 1);
                }
            }
        }
        i += s;
    }
    proof {
        assert forall|q: int| !occurs_at(haystack@, needle@, q) by {
            if occurs_at(haystack@, needle@, q) && q >= i {
                assert(q + m > n);
            }
        }
    }
    None
}

} // verus!
