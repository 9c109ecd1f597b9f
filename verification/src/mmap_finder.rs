//! Zero-copy finder for memory-mapped files: the matcher runs directly over
//! the resident mapped region, with no buffering or compaction. Opening and
//! mapping a file is left to the caller; the finder accepts a mapped region
//! and is verified from there on.

use crate::matching::is_first_match;
use crate::matching::lemma_occurs_in_window;
use crate::matching::lemma_upto_extend_match;
use crate::matching::lemma_upto_extend_no_match;
use crate::matching::match_positions;
use crate::matching::match_positions_upto;
use crate::matching::occurs_at;
use crate::search::search_with;
use crate::search::Algorithm;
use memmap2::Mmap;
use vstd::prelude::*;
use vstd::slice::slice_subrange;

verus! {

/// Declares `memmap2::Mmap` so a mapped region can live in the finder; the
/// region is opaque here except for the bytes it holds.
#[verifier::external_type_specification]
#[verifier::external_body]
pub struct ExMmap(Mmap);

/// The bytes a mapped region holds.
pub uninterp spec fn mmap_bytes(m: Mmap) -> Seq<u8>;

/// Relies on `memmap2::Mmap`'s `Deref<Target = [u8]>`: a mapped region
/// dereferences to the slice of its mapped bytes.
#[verifier::external_body]
fn mmap_as_slice(m: &Mmap) -> (r: &[u8])
    ensures
        r@ == mmap_bytes(*m),
{
    &*m
}

/// Errors that can occur when working with memory-mapped files.
#[derive(Debug)]
pub enum MmapFinderError {
    Io(std::io::Error),
    EmptyNeedle,
}

/// Zero-copy finder over a memory-mapped region.
///
/// Provides searching in memory-mapped files without copying data: the
/// matcher addresses the mapped bytes directly.
pub struct MmapFinder {
    mmap: Mmap,
    needle: Vec<u8>,
}

impl MmapFinder {
    /// The bytes of the mapped region being searched.
    pub closed spec fn haystack_bytes(self) -> Seq<u8> {
        mmap_bytes(self.mmap)
    }

    /// The needle bound at construction.
    pub closed spec fn needle_seq(self) -> Seq<u8> {
        self.needle@
    }

    /// The finder's invariant: the needle is non-empty.
    pub closed spec fn wf(self) -> bool {
        self.needle@.len() >= 1
    }

    /// Creates a finder from an already-mapped region, rejecting an empty
    /// needle.
    pub fn from_mmap(mmap: Mmap, needle: Vec<u8>) -> (r: Result<Self, MmapFinderError>)
        ensures
            match r {
                Ok(f) => {
                    &&& needle@.len() >= 1
                    &&& f.wf()
                    &&& f.needle_seq() == needle@
                    &&& f.haystack_bytes() == mmap_bytes(mmap)
                },
                Err(e) => needle@.len() == 0 && e is EmptyNeedle,
            },
    {
        if needle.len() == 0 {
            return Err(MmapFinderError::EmptyNeedle);
        }
        Ok(MmapFinder { mmap, needle })
    }

    /// Finds all occurrences of the needle: a lazy, forward-only sequence of
    /// positions, restartable — every call starts fresh from position 0.
    pub fn find_all(&self, algo: Algorithm) -> (it: MmapFinderIter<'_>)
        requires
            self.wf(),
        ensures
            it.wf(),
            it.haystack_seq() == self.haystack_bytes(),
            it.needle_seq() == self.needle_seq(),
            it.position() == 0,
            it.found_seq() == Seq::<int>::empty(),
    {
        MmapFinderIter {
            haystack: mmap_as_slice(&self.mmap),
            needle: self.needle.as_slice(),
            algo,
            pos: 0,
            found: Ghost(Seq::empty()),
        }
    }

    /// Finds the first occurrence of the needle, or `None` if it does not
    /// occur. Every algorithm returns the same position.
    pub fn find_first(&self, algo: Algorithm) -> (r: Option<usize>)
        requires
            self.wf(),
        ensures
            is_first_match(self.haystack_bytes(), self.needle_seq(), r),
    {
        let search_area = mmap_as_slice(&self.mmap);
        search_with(algo, search_area, self.needle.as_slice())
    }

    /// Read-only access to the raw mapped bytes, for callers that need to
    /// inspect context around a match.
    pub fn as_bytes(&self) -> (r: &[u8])
        ensures
            r@ == self.haystack_bytes(),
    {
        mmap_as_slice(&self.mmap)
    }
}

/// Iterator over all occurrences in a resident byte region. After a match
/// at position `p`, scanning resumes at `p + 1`, so overlapping matches are
/// all reported.
pub struct MmapFinderIter<'a> {
    haystack: &'a [u8],
    needle: &'a [u8],
    algo: Algorithm,
    pos: usize,
    found: Ghost<Seq<int>>,
}

impl<'a> MmapFinderIter<'a> {
    /// The resident bytes being searched.
    pub closed spec fn haystack_seq(self) -> Seq<u8> {
        self.haystack@
    }

    /// The needle being searched for.
    pub closed spec fn needle_seq(self) -> Seq<u8> {
        self.needle@
    }

    /// The position scanning resumes from.
    pub closed spec fn position(self) -> int {
        self.pos as int
    }

    /// The positions yielded so far, in order.
    pub closed spec fn found_seq(self) -> Seq<int> {
        self.found@
    }

    /// The iterator's invariant: the needle is non-empty and the yielded
    /// positions are exactly the match positions below the resume point.
    pub closed spec fn wf(self) -> bool {
        &&& self.needle@.len() >= 1
        &&& self.pos as int <= self.haystack@.len()
        &&& self.found@ == match_positions_upto(self.haystack@, self.needle@, self.pos as int)
    }

    /// Yields the next match position, or `None` once the remaining region
    /// holds no further occurrence. After `None`, every later call returns
    /// `None` as well, and the yielded positions are exactly the ordered
    /// match positions of the whole region.
    pub fn next(&mut self) -> (r: Option<usize>)
        requires
            old(self).wf(),
        ensures
            final(self).wf(),
            final(self).haystack_seq() == old(self).haystack_seq(),
            final(self).needle_seq() == old(self).needle_seq(),
            match r {
                Some(p) => {
                    &&& occurs_at(old(self).haystack_seq(), old(self).needle_seq(), p as int)
                    &&& old(self).position() <= p
                    &&& forall|q: int|
                        old(self).position() <= q < p ==> !occurs_at(
                            old(self).haystack_seq(),
                            old(self).needle_seq(),
                            q,
                        )
                    &&& final(self).position() == p + 1
                    &&& final(self).found_seq() == old(self).found_seq().push(p as int)
                },
                None => {
                    &&& final(self).position() == old(self).position()
                    &&& final(self).found_seq() == old(self).found_seq()
                    &&& final(self).found_seq() == match_positions(
                        final(self).haystack_seq(),
                        final(self).needle_seq(),
                    )
                },
            },
    {
        let ghost h = self.haystack@;
        let ghost nd = self.needle@;
        let n = self.haystack.len();
        let m = self.needle.len();
        if self.pos >= n {
            proof {
                assert forall|q: int| self.pos <= q implies !occurs_at(h, nd, q) by {
                    if occurs_at(h, nd, q) {
                        assert(q + m > n);
                    }
                }
                lemma_upto_extend_no_match(h, nd, self.pos as int, h.len() as int);
            }
            return None;
        }

        let search_area = slice_subrange(self.haystack, self.pos, n);
        let found = search_with(self.algo, search_area, self.needle);

        match found {
            Some(i) => {
                let match_pos = self.pos + i;
                proof {
                    lemma_occurs_in_window(h, nd, self.pos as int, h.len() as int, i as int);
                    assert forall|q: int|
                        self.pos <= q < match_pos implies !occurs_at(h, nd, q) by {
                        if occurs_at(h, nd, q) {
                            lemma_occurs_in_window(
                                h,
                                nd,
                                self.pos as int,
                                h.len() as int,
                                q - self.pos,
                            );
                        }
                    }
                    lemma_upto_extend_match(h, nd, self.pos as int, match_pos as int);
                }
                self.pos = match_pos + 1;
                self.found = Ghost(self.found@.push(match_pos as int));
                Some(match_pos)
            },
            None => {
                proof {
                    assert forall|q: int| self.pos <= q implies !occurs_at(h, nd, q) by {
                        if occurs_at(h, nd, q) {
                            lemma_occurs_in_window(
                                h,
                                nd,
                                self.pos as int,
                                h.len() as int,
                                q - self.pos,
                            );
                        }
                    }
                    lemma_upto_extend_no_match(h, nd, self.pos as int, h.len() as int);
                }
                None
            },
        }
    }
}

/// Builds an iterator over all occurrences of `needle` in an already-mapped
/// region. With an empty needle the iterator yields nothing.
pub fn find_in_mmap<'a>(mmap: &'a Mmap, needle: &'a [u8], algo: Algorithm) -> (it: MmapFinderIter<
    'a,
>)
    requires
        needle@.len() >= 1,
    ensures
        it.wf(),
        it.haystack_seq() == mmap_bytes(*mmap),
        it.needle_seq() == needle@,
        it.position() == 0,
        it.found_seq() == Seq::<int>::empty(),
{
    MmapFinderIter { haystack: mmap_as_slice(mmap), needle, algo, pos: 0, found: Ghost(Seq::empty()) }
}

/// The positions an iterator yields depend only on the region's bytes, the
/// needle and the resume point — not on the selected algorithm: two
/// iterators agreeing on those have yielded the identical position
/// sequence.
pub proof fn lemma_iter_output_determined(a: MmapFinderIter<'_>, b: MmapFinderIter<'_>)
    requires
        a.wf(),
        b.wf(),
        a.haystack_seq() == b.haystack_seq(),
        a.needle_seq() == b.needle_seq(),
        a.position() == b.position(),
    ensures
        a.found_seq() == b.found_seq(),
{
}

/// Positions yielded by an iterator are strictly increasing.
pub proof fn lemma_iter_positions_strictly_increasing(it: MmapFinderIter<'_>)
    requires
        it.wf(),
    ensures
        forall|k1: int, k2: int|
            0 <= k1 < k2 < it.found_seq().len() ==> it.found_seq()[k1] < it.found_seq()[k2],
{
    crate::matching::lemma_upto_elements(it.haystack_seq(), it.needle_seq(), it.position());
}

} // verus!
