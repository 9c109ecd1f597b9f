//! Knuth-Morris-Pratt matcher: a failure table over the needle lets the scan
//! fall back after a mismatch instead of restarting, never re-reading a
//! haystack byte. The table entry for each needle prefix is its longest
//! border (a proper prefix that is also a suffix), and the fallback is proved
//! to skip no occurrence because any occurrence overlapping the current
//! partial match would induce a longer border.

use crate::matching::is_first_match;
use crate::matching::occurs_at;
use vstd::prelude::*;

verus! {

/// `k` is the length of a border of `s`: a proper prefix of `s` that is also
/// a suffix of `s`.
spec fn is_border(s: Seq<u8>, k: int) -> bool {
    &&& 0 <= k < s.len()
    &&& forall|t: int| 0 <= t < k ==> #[trigger] s[t] == s[s.len() - k + t]
}

/// `k` is the length of the longest border of `s`.
spec fn max_border(s: Seq<u8>, k: int) -> bool {
    &&& is_border(s, k)
    &&& forall|l: int| is_border(s, l) ==> l <= k
}

/// The first `upto` entries of the failure table are correct: entry `t - 1`
/// is the longest border of the needle's prefix of length `t`.
spec fn table_ok(pi: Seq<usize>, nd: Seq<u8>, upto: int) -> bool {
    forall|t: int| 1 <= t <= upto ==> max_border(nd.subrange(0, t), #[trigger] pi[t - 1] as int)
}

/// A border of `s.push(c)` of length `l + 1` is exactly a border `l` of `s`
/// whose next needle byte equals `c`.
proof fn lemma_border_extend(s: Seq<u8>, c: u8, l: int)
    requires
        0 <= l <= s.len(),
    ensures
        is_border(s.push(c), l + 1) <==> (l < s.len() && is_border(s, l) && s[l] == c),
{
    let t = s.push(c);
    if l < s.len() {
        if is_border(s, l) && s[l] == c {
            assert forall|k: int| 0 <= k < l + 1 implies #[trigger] t[k] == t[t.len() - (l + 1) + k] by {
                if k < l {
                    assert(s[k] == s[s.len() - l + k]);
                }
            }
        }
        if is_border(t, l + 1) {
            assert forall|k: int| 0 <= k < l implies #[trigger] s[k] == s[s.len() - l + k] by {
                assert(t[k] == t[t.len() - (l + 1) + k]);
            }
            assert(t[l] == t[t.len() - 1]);
        }
    }
}

/// A border of a prefix of `s` that is itself bordered by `s`'s own border
/// is again a border of `s` (transitivity downward).
proof fn lemma_border_trans(s: Seq<u8>, b: int, a: int)
    requires
        is_border(s, b),
        is_border(s.subrange(0, b), a),
    ensures
        is_border(s, a),
{
    let p = s.subrange(0, b);
    assert forall|t: int| 0 <= t < a implies #[trigger] s[t] == s[s.len() - a + t] by {
        assert(p[t] == p[b - a + t]);
        assert(s[b - a + t] == s[s.len() - b + (b - a + t)]);
    }
}

/// Two nested borders of `s`: the shorter is a border of the prefix cut at
/// the longer one.
proof fn lemma_border_chain(s: Seq<u8>, a: int, b: int)
    requires
        is_border(s, a),
        is_border(s, b),
        a < b,
    ensures
        is_border(s.subrange(0, b), a),
{
    let p = s.subrange(0, b);
    assert forall|t: int| 0 <= t < a implies #[trigger] p[t] == p[b - a + t] by {
        assert(s[t] == s[s.len() - a + t]);
        assert(s[b - a + t] == s[s.len() - b + (b - a + t)]);
    }
}

/// Knuth-Morris-Pratt search.
///
/// Builds the failure table over the needle, then scans the haystack left to
/// right, maintaining the length of the current partial match and falling
/// back through the table on a mismatch.
pub fn kmp_search(haystack: &[u8], needle: &[u8]) -> (r: Option<usize>)
    ensures
        is_first_match(haystack@, needle@, r),
{
    let n = haystack.len();
    let m = needle.len();
    if m == 0 || n < m {
        return None;
    }

    // Build prefix table (failure function)
    let mut prefix: Vec<usize> = vec![0; m];
    let mut j: usize = 0;
    proof {
        assert(is_border(needle@.subrange(0, 1), 0));
        assert(max_border(needle@.subrange(0, 1), 0));
    }
    let mut i: usize = 1;
    while i < m
        invariant
            m == needle@.len(),
            1 <= m,
            prefix@.len() == m,
            1 <= i <= m,
            0 <= j < i,
            table_ok(prefix@, needle@, i as int),
            max_border(needle@.subrange(0, i as int), j as int),
        decreases m - i,
    {
        while j > 0 && needle[i] != needle[j]
            invariant
                m == needle@.len(),
                prefix@.len() == m,
                1 <= i < m,
                0 <= j < i,
                table_ok(prefix@, needle@, i as int),
                is_border(needle@.subrange(0, i as int), j as int),
                forall|l: int|
                    #[trigger] is_border(needle@.subrange(0, i as int), l) && needle@[l]
                        == needle@[i as int] ==> l <= j,
            decreases j,
        {
            let jn = prefix[j - 1];
            proof {
                let nd = needle@;
                let s = nd.subrange(0, i as int);
                assert(max_border(nd.subrange(0, j as int), jn as int));
                assert(s.subrange(0, j as int) =~= nd.subrange(0, j as int));
                lemma_border_trans(s, j as int, jn as int);
                assert forall|l: int|
                    #[trigger] is_border(s, l) && nd[l] == nd[i as int] implies l <= jn as int by {
                    if l == j {
                        assert(s[l] == nd[l]);
                    } else if l < j {
                        lemma_border_chain(s, l, j as int);
                        assert(is_border(nd.subrange(0, j as int), l));
                    }
                }
            }
            j = jn;
        }
        let ghost s = needle@.subrange(0, i as int);
        proof {
            assert(s.push(needle@[i as int]) =~= needle@.subrange(0, i as int + 1));
        }
        if needle[i] == needle[j] {
            proof {
                assert(s[j as int] == needle@[j as int]);
                lemma_border_extend(s, needle@[i as int], j as int);
                assert(is_border(needle@.subrange(0, i as int + 1), j as int + 1));
                assert forall|ll: int|
                    #[trigger] is_border(needle@.subrange(0, i as int + 1), ll) implies ll <= j as int
                    + 1 by {
                    if ll >= 1 {
                        lemma_border_extend(s, needle@[i as int], ll - 1);
                        assert(s[ll - 1] == needle@[ll - 1]);
                    }
                }
            }
            j += 1;
        } else {
            proof {
                assert(is_border(needle@.subrange(0, i as int + 1), 0));
                assert forall|ll: int|
                    #[trigger] is_border(needle@.subrange(0, i as int + 1), ll) implies ll <= j as int by {
                    if ll >= 1 {
                        lemma_border_extend(s, needle@[i as int], ll - 1);
                        assert(s[ll - 1] == needle@[ll - 1]);
                    }
                }
            }
        }
        prefix[i] = j;
        proof {
            assert(max_border(needle@.subrange(0, i as int + 1), j as int));
            assert forall|t: int| 1 <= t <= i as int + 1 implies max_border(
                needle@.subrange(0, t),
                #[trigger] prefix@[t - 1] as int,
            ) by {}
        }
        i += 1;
    }

    // Search
    let mut i: usize = 0;
    let mut k: usize = 0;
    while i < n
        invariant
            m == needle@.len(),
            n == haystack@.len(),
            1 <= m <= n,
            prefix@.len() == m,
            table_ok(prefix@, needle@, m as int),
            0 <= k < m,
            k <= i <= n,
            forall|t: int| 0 <= t < k ==> #[trigger] needle@[t] == haystack@[i - k + t],
            forall|q: int| 0 <= q < i - k ==> !occurs_at(haystack@, needle@, q),
        decreases n - i, k,
    {
        if haystack[i] == needle[k] {
            i += 1;
            k += 1;
            if k == m {
                let pos = i - m;
                proof {
                    assert(haystack@.subrange(pos as int, pos + m as int) =~= needle@);
                }
                return Some(pos);
            }
        } else if k > 0 {
            let kn = prefix[k - 1];
            proof {
                let h = haystack@;
                let nd = needle@;
                let ndk = nd.subrange(0, k as int);
                assert(max_border(ndk, kn as int));
                // The current position is not an occurrence: its byte at
                // offset k disagrees with the haystack byte just read.
                assert forall|q: int| i - k <= q < i - kn implies !occurs_at(h, nd, q) by {
                    if occurs_at(h, nd, q) {
                        assert(forall|t: int|
                            0 <= t < m ==> #[trigger] h.subrange(q, q + m as int)[t] == h[q + t]);
                        assert(forall|t: int| 0 <= t < m ==> #[trigger] nd[t] == h[q + t]);
                        if q == i - k {
                            assert(nd[k as int] == h[i as int]);
                        } else {
                            let l = i - q;
                            assert(0 < l < k);
                            // l is a border of the needle's prefix of length k
                            assert forall|t: int| 0 <= t < l implies #[trigger] ndk[t] == ndk[k - l + t] by {
                                assert(nd[t] == h[q + t]);
                                assert(nd[k - l + t] == h[i - k + (k - l + t)]);
                            }
                            assert(is_border(ndk, l));
                            assert(l <= kn as int);
                        }
                    }
                }
                // The partial match survives the fallback
                assert forall|t: int| 0 <= t < kn implies #[trigger] nd[t] == h[i - kn + t] by {
                    assert(ndk[t] == ndk[k - kn + t]);
                    assert(nd[k - kn + t] == h[i - k + (k - kn + t)]);
                }
            }
            k = kn;
        } else {
            proof {
                assert(!occurs_at(haystack@, needle@, i as int)) by {
                    if occurs_at(haystack@, needle@, i as int) {
                        assert(haystack@.subrange(i as int, i + m as int)[0] == haystack@[i as int]);
                    }
                }
            }
            i += 1;
        }
    }
    proof {
        assert forall|q: int| !occurs_at(haystack@, needle@, q) by {
            if occurs_at(haystack@, needle@, q) && q >= i - k {
                assert(q + m > n);
            }
        }
    }
    None
}

} // verus!
