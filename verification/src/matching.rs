//! The mathematical model of byte-pattern matching: what it means for a
//! needle to occur in a haystack, and the ordered sequence of all match
//! positions. Every matcher and both finders are specified against these
//! definitions.

use vstd::prelude::*;

verus! {

/// The needle `n` occurs in the haystack `h` starting at position `i`.
pub open spec fn occurs_at(h: Seq<u8>, n: Seq<u8>, i: int) -> bool {
    &&& 0 <= i
    &&& i + n.len() <= h.len()
    &&& h.subrange(i, i + n.len() as int) == n
}

/// The contract shared by every matcher: `r` is the position of the first
/// occurrence of `n` in `h`, or `None` when `n` is empty or does not occur.
pub open spec fn is_first_match(h: Seq<u8>, n: Seq<u8>, r: Option<usize>) -> bool {
    match r {
        Some(i) => {
            &&& n.len() >= 1
            &&& occurs_at(h, n, i as int)
            &&& forall|j: int| 0 <= j < i as int ==> !occurs_at(h, n, j)
        },
        None => n.len() == 0 || (forall|j: int| !occurs_at(h, n, j)),
    }
}

/// All positions `p < f` at which `n` occurs in `h`, in increasing order.
pub open spec fn match_positions_upto(h: Seq<u8>, n: Seq<u8>, f: int) -> Seq<int>
    decreases f,
{
    if f <= 0 {
        Seq::empty()
    } else if occurs_at(h, n, f - 1) {
        match_positions_upto(h, n, f - 1).push(f - 1)
    } else {
        match_positions_upto(h, n, f - 1)
    }
}

/// All positions at which `n` occurs in `h`, in increasing order.
pub open spec fn match_positions(h: Seq<u8>, n: Seq<u8>) -> Seq<int> {
    match_positions_upto(h, n, h.len() as int)
}

/// Any two results that both satisfy the matcher contract on the same
/// haystack and needle are equal; hence all matching strategies return the
/// identical result on identical inputs.
pub proof fn lemma_first_match_unique(h: Seq<u8>, n: Seq<u8>, r1: Option<usize>, r2: Option<usize>)
    requires
        is_first_match(h, n, r1),
        is_first_match(h, n, r2),
    ensures
        r1 == r2,
{
    if r1 is Some && r2 is Some {
        let i1 = r1->0 as int;
        let i2 = r2->0 as int;
        if i1 < i2 {
            assert(!occurs_at(h, n, i1));
        } else if i2 < i1 {
            assert(!occurs_at(h, n, i2));
        }
    } else if r1 is Some && r2 is None {
        assert(occurs_at(h, n, r1->0 as int));
    } else if r1 is None && r2 is Some {
        assert(occurs_at(h, n, r2->0 as int));
    }
}

/// Every element of `match_positions_upto(h, n, f)` lies in `[0, f)` and is
/// an occurrence; conversely every occurrence below `f` is an element; and
/// the sequence is strictly increasing.
pub proof fn lemma_upto_elements(h: Seq<u8>, n: Seq<u8>, f: int)
    ensures
        forall|k: int|
            0 <= k < match_positions_upto(h, n, f).len() ==> {
                &&& 0 <= #[trigger] match_positions_upto(h, n, f)[k] < f
                &&& occurs_at(h, n, match_positions_upto(h, n, f)[k])
            },
        forall|k1: int, k2: int|
            0 <= k1 < k2 < match_positions_upto(h, n, f).len() ==> #[trigger] match_positions_upto(
                h,
                n,
                f,
            )[k1] < #[trigger] match_positions_upto(h, n, f)[k2],
    decreases f,
{
    if f > 0 {
        lemma_upto_elements(h, n, f - 1);
        let prev = match_positions_upto(h, n, f - 1);
        let cur = match_positions_upto(h, n, f);
        if occurs_at(h, n, f - 1) {
            assert forall|k1: int, k2: int| 0 <= k1 < k2 < cur.len() implies #[trigger] cur[k1]
                < #[trigger] cur[k2] by {
                if k2 < prev.len() {
                    assert(prev[k1] < prev[k2]);
                } else {
                    assert(cur[k2] == f - 1);
                    assert(prev[k1] < f - 1);
                }
            }
        }
    }
}

/// Extending the bound `f` over a gap that holds no occurrence leaves the
/// position sequence unchanged.
pub proof fn lemma_upto_extend_no_match(h: Seq<u8>, n: Seq<u8>, f1: int, f2: int)
    requires
        f1 <= f2,
        forall|p: int| f1 <= p < f2 ==> !occurs_at(h, n, p),
    ensures
        match_positions_upto(h, n, f2) == match_positions_upto(h, n, f1),
    decreases f2 - f1,
{
    if f1 < f2 {
        lemma_upto_extend_no_match(h, n, f1, f2 - 1);
    }
}

/// Extending the bound past exactly one new occurrence appends it.
pub proof fn lemma_upto_extend_match(h: Seq<u8>, n: Seq<u8>, f1: int, p: int)
    requires
        f1 <= p,
        occurs_at(h, n, p),
        forall|q: int| f1 <= q < p ==> !occurs_at(h, n, q),
    ensures
        match_positions_upto(h, n, p + 1) == match_positions_upto(h, n, f1).push(p),
{
    lemma_upto_extend_no_match(h, n, f1, p);
}

/// Occurrence at a position that already fits inside `h` is unaffected by
/// appending further bytes to `h`.
pub proof fn lemma_occurs_stable_append(h: Seq<u8>, ext: Seq<u8>, n: Seq<u8>, p: int)
    requires
        p + n.len() <= h.len(),
    ensures
        occurs_at(h, n, p) == occurs_at(h + ext, n, p),
{
    if 0 <= p {
        assert(h.subrange(p, p + n.len() as int) =~= (h + ext).subrange(p, p + n.len() as int));
    }
}

/// The position sequence below a bound `f` that already fits inside `h` is
/// unaffected by appending further bytes to `h`.
pub proof fn lemma_upto_stable_append(h: Seq<u8>, ext: Seq<u8>, n: Seq<u8>, f: int)
    requires
        f == 0 || f + n.len() <= h.len() + 1,
    ensures
        match_positions_upto(h + ext, n, f) == match_positions_upto(h, n, f),
    decreases f,
{
    if f > 0 {
        lemma_upto_stable_append(h, ext, n, f - 1);
        lemma_occurs_stable_append(h, ext, n, f - 1);
    }
}

/// Occurrence inside a window cut from `h` is occurrence in `h` at the
/// shifted position, provided the occurrence fits inside the window.
pub proof fn lemma_occurs_in_window(h: Seq<u8>, n: Seq<u8>, a: int, b: int, i: int)
    requires
        0 <= a <= b <= h.len(),
        0 <= i,
        a + i + n.len() <= b,
    ensures
        occurs_at(h.subrange(a, b), n, i) == occurs_at(h, n, a + i),
{
    let w = h.subrange(a, b);
    assert(w.subrange(i, i + n.len() as int) =~= h.subrange(a + i, a + i + n.len() as int));
}

/// A needle longer than the haystack never occurs, so the position sequence
/// is empty.
pub proof fn lemma_needle_longer_no_match(h: Seq<u8>, n: Seq<u8>)
    requires
        n.len() > h.len(),
    ensures
        match_positions(h, n) == Seq::<int>::empty(),
{
    assert(forall|p: int| !occurs_at(h, n, p));
    lemma_upto_extend_no_match(h, n, 0, h.len() as int);
}

/// Nothing occurs in an empty haystack when the needle is non-empty.
pub proof fn lemma_empty_haystack(n: Seq<u8>)
    requires
        n.len() >= 1,
    ensures
        match_positions(Seq::<u8>::empty(), n) == Seq::<int>::empty(),
{
    lemma_needle_longer_no_match(Seq::<u8>::empty(), n);
}

/// A needle equal to the whole haystack occurs exactly once, at position 0.
pub proof fn lemma_exact_match(h: Seq<u8>, n: Seq<u8>)
    requires
        h == n,
        n.len() >= 1,
    ensures
        match_positions(h, n) == seq![0int],
{
    assert(h.subrange(0, n.len() as int) =~= n);
    assert(occurs_at(h, n, 0));
    assert(forall|p: int| 0 < p ==> !occurs_at(h, n, p));
    lemma_upto_extend_match(h, n, 0, 0);
    lemma_upto_extend_no_match(h, n, 1, h.len() as int);
    assert(match_positions(h, n) =~= seq![0int]);
}

/// Raising the bound only appends: the positions below a lower bound are a
/// prefix of those below a higher one.
pub proof fn lemma_upto_prefix(h: Seq<u8>, n: Seq<u8>, f1: int, f2: int)
    requires
        f1 <= f2,
    ensures
        match_positions_upto(h, n, f1).is_prefix_of(match_positions_upto(h, n, f2)),
    decreases f2 - f1,
{
    if f1 < f2 {
        lemma_upto_prefix(h, n, f1, f2 - 1);
        let a = match_positions_upto(h, n, f1);
        let b = match_positions_upto(h, n, f2 - 1);
        let c = match_positions_upto(h, n, f2);
        assert(b.is_prefix_of(c)) by {
            assert(c.subrange(0, b.len() as int) =~= b);
        }
        assert(c.subrange(0, a.len() as int) =~= a);
    }
}

} // verus!
