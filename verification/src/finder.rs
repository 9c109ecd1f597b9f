//! The streaming finder: drives a matcher repeatedly over a bounded buffer
//! refilled from a sequential source, handling matches that straddle a read
//! boundary. The reported positions are proved to be exactly the ordered
//! match positions of the logical byte stream, however that stream happens
//! to be split into physical reads and whichever matcher is selected.

use crate::matching::lemma_occurs_in_window;
use crate::matching::lemma_upto_elements;
use crate::matching::lemma_upto_extend_match;
use crate::matching::lemma_upto_extend_no_match;
use crate::matching::lemma_upto_stable_append;
use crate::matching::match_positions;
use crate::matching::match_positions_upto;
use crate::matching::occurs_at;
use crate::search::search_with;
use crate::search::Algorithm;
use crate::source::ByteSource;
use vstd::prelude::*;
use vstd::slice::slice_subrange;

verus! {

/// Configuration errors raised when constructing a streaming finder.
#[derive(Debug, Clone, Copy, PartialEq, Eq, Structural)]
pub enum FinderError {
    EmptyNeedle,
    BufferTooSmall,
}

/// Default buffer size for the finder (8KB)
pub const DEFAULT_BUF_SIZE: usize = 8 * 1024;

/// A streaming finder that searches for a needle in a sequential source.
///
/// One reusable buffer of fixed capacity is refilled from the source; the
/// cursor and fill length slide over it, and an absolute base offset records
/// the bytes permanently consumed before the buffer's start. The capacity
/// exceeds the requested size by `needle.len() - 1` so a full needle can be
/// resident even when it straddles two reads.
pub struct Finder<R: ByteSource> {
    haystack: R,
    needle: Vec<u8>,
    buffer: Vec<u8>,
    haystack_pos: usize,
    buffer_pos: usize,
    buffer_fill_len: usize,
    algo: Algorithm,
    requested_buffer_size: usize,
    done: bool,
    stream: Ghost<Seq<u8>>,
    found: Ghost<Seq<int>>,
    failed: Ghost<bool>,
}

impl<R: ByteSource> Finder<R> {
    /// The bytes received from the source so far: the logical haystack as
    /// far as it has been revealed.
    pub closed spec fn stream_seq(self) -> Seq<u8> {
        self.stream@
    }

    /// The match positions reported so far, in the order they were yielded.
    pub closed spec fn found_seq(self) -> Seq<int> {
        self.found@
    }

    /// The needle bound at construction.
    pub closed spec fn needle_seq(self) -> Seq<u8> {
        self.needle@
    }

    /// The matcher selected at construction.
    pub closed spec fn selected_algo(self) -> Algorithm {
        self.algo
    }

    /// The requested buffer size (the true capacity exceeds it by
    /// `needle.len() - 1`).
    pub closed spec fn requested_size(self) -> usize {
        self.requested_buffer_size
    }

    /// The finder is exhausted: the source was drained or a read failed;
    /// nothing further will be yielded.
    pub closed spec fn is_done(self) -> bool {
        self.done
    }

    /// A read error was observed.
    pub closed spec fn has_failed(self) -> bool {
        self.failed@
    }

    /// The absolute position of the next unsearched byte: every match below
    /// it has been reported, and no match at or above it has.
    spec fn frontier(self) -> int {
        self.haystack_pos + self.buffer_pos
    }

    /// The finder's invariant. Among else: the buffer holds exactly the
    /// not-yet-consumed suffix of the received stream, every position below
    /// the search frontier is decided, and the reported positions are
    /// exactly the match positions below the frontier. Once the source is
    /// drained without a read error, the reported positions are exactly the
    /// match positions of the whole received stream.
    pub closed spec fn wf(self) -> bool {
        &&& 1 <= self.needle@.len() <= self.requested_buffer_size
        &&& self.buffer@.len() == self.requested_buffer_size + self.needle@.len() - 1
        &&& self.buffer_pos <= self.buffer_fill_len <= self.buffer@.len()
        &&& self.haystack_pos + self.buffer_fill_len == self.stream@.len()
        &&& self.stream@.len() + self.haystack.stream_remaining() <= usize::MAX
        &&& self.buffer@.subrange(0, self.buffer_fill_len as int) == self.stream@.subrange(
            self.haystack_pos as int,
            self.stream@.len() as int,
        )
        &&& (self.frontier() == 0 || self.frontier() + self.needle@.len() <= self.stream@.len()
            + 1)
        &&& self.found@ == match_positions_upto(self.stream@, self.needle@, self.frontier())
        &&& (self.done && !self.failed@ ==> self.found@ == match_positions(
            self.stream@,
            self.needle@,
        ))
    }

    /// Shared constructor logic: validates the needle against the requested
    /// buffer size and builds a fresh finder whose capacity allows a needle
    /// to straddle two reads.
    fn build(
        haystack: R,
        needle: Vec<u8>,
        buffer_size: usize,
        algo: Option<Algorithm>,
    ) -> (r: Result<Self, FinderError>)
        requires
            haystack.stream_remaining() <= usize::MAX,
        ensures
            match r {
                Ok(f) => {
                    &&& 1 <= needle@.len() <= buffer_size
                    &&& buffer_size - 1 <= usize::MAX - needle@.len()
                    &&& f.wf()
                    &&& f.needle_seq() == needle@
                    &&& f.stream_seq() == Seq::<u8>::empty()
                    &&& f.found_seq() == Seq::<int>::empty()
                    &&& !f.is_done()
                    &&& !f.has_failed()
                    &&& f.requested_size() == buffer_size
                    &&& f.selected_algo() == (match algo {
                        Some(a) => a,
                        None => Algorithm::Naive,
                    })
                },
                Err(FinderError::EmptyNeedle) => needle@.len() == 0,
                Err(FinderError::BufferTooSmall) => {
                    &&& needle@.len() >= 1
                    &&& (needle@.len() > buffer_size || buffer_size - 1 > usize::MAX
                        - needle@.len())
                },
            },
    {
        if needle.len() == 0 {
            return Err(FinderError::EmptyNeedle);
        }
        if needle.len() > buffer_size {
            return Err(FinderError::BufferTooSmall);
        }
        // The true capacity must still be representable
        if buffer_size - 1 > usize::MAX - needle.len() {
            return Err(FinderError::BufferTooSmall);
        }
        let capacity = buffer_size + (needle.len() - 1);
        let buffer = vec![0u8; capacity];
        let chosen = match algo {
            Some(a) => a,
            None => Algorithm::Naive,
        };
        let f = Finder {
            haystack,
            needle,
            buffer,
            haystack_pos: 0,
            buffer_pos: 0,
            buffer_fill_len: 0,
            algo: chosen,
            requested_buffer_size: buffer_size,
            done: false,
            stream: Ghost(Seq::empty()),
            found: Ghost(Seq::empty()),
            failed: Ghost(false),
        };
        proof {
            assert(f.buffer@.subrange(0, 0) =~= f.stream@.subrange(0, 0));
        }
        Ok(f)
    }

    /// One iteration step: yields the next match position, a read error, or
    /// `None` once the source is drained. After a match at position `p` the
    /// scan resumes at `p + 1`, so overlapping matches are all reported.
    ///
    /// Whatever bytes the source delivers, the positions yielded so far are
    /// always a prefix of the match positions of the received stream, and
    /// when the source is drained without error they are all of them.
    #[verifier::rlimit(100)]
    #[verifier::spinoff_prover]
    pub fn next(&mut self) -> (r: Option<Result<usize, std::io::Error>>)
        requires
            old(self).wf(),
        ensures
            final(self).wf(),
            final(self).needle_seq() == old(self).needle_seq(),
            final(self).selected_algo() == old(self).selected_algo(),
            final(self).requested_size() == old(self).requested_size(),
            old(self).stream_seq().is_prefix_of(final(self).stream_seq()),
            old(self).is_done() ==> *final(self) == *old(self),
            match r {
                None => {
                    &&& final(self).is_done()
                    &&& final(self).found_seq() == old(self).found_seq()
                    &&& (!final(self).has_failed() ==> final(self).found_seq() == match_positions(
                        final(self).stream_seq(),
                        final(self).needle_seq(),
                    ))
                },
                Some(Ok(p)) => {
                    &&& final(self).found_seq() == old(self).found_seq().push(p as int)
                    &&& final(self).found_seq() == match_positions_upto(
                        final(self).stream_seq(),
                        final(self).needle_seq(),
                        p + 1,
                    )
                    &&& occurs_at(final(self).stream_seq(), final(self).needle_seq(), p as int)
                    &&& !final(self).is_done()
                    &&& final(self).has_failed() == old(self).has_failed()
                },
                Some(Err(_)) => {
                    &&& final(self).is_done()
                    &&& final(self).has_failed()
                    &&& final(self).found_seq() == old(self).found_seq()
                },
            },
    {
        if self.done {
            return None;
        }
        let m = self.needle.len();

        if self.buffer_pos >= self.buffer_fill_len {
            // Buffer is exhausted: fold consumed bytes into the absolute
            // offset and refill from the buffer's start.
            proof {
                lemma_upto_elements(self.stream@, self.needle@, self.frontier());
            }
            self.haystack_pos = self.haystack_pos + self.buffer_pos;
            self.buffer_fill_len = 0;
            self.buffer_pos = 0;
            let ghost pre = *self;
            match self.haystack.read_into(&mut self.buffer, 0) {
                Ok(n) => {
                    if n == 0 {
                        self.done = true;
                        proof {
                            assert(self.buffer@.subrange(0, 0) =~= self.stream@.subrange(
                                self.haystack_pos as int,
                                self.stream@.len() as int,
                            ));
                        }
                        return None;
                    }
                    proof {
                        let ext = self.buffer@.subrange(0, n as int);
                        lemma_upto_stable_append(pre.stream@, ext, pre.needle@, pre.frontier());
                    }
                    self.stream = Ghost(self.stream@ + self.buffer@.subrange(0, n as int));
                    self.buffer_fill_len = n;
                    proof {
                        let base2 = self.haystack_pos as int;
                        let pre_len = pre.stream@.len() as int;
                        assert forall|t: int| 0 <= t < n implies self.buffer@[t]
                            == self.stream@[base2 + t] by {
                            assert(self.stream@[pre_len + t] == self.buffer@.subrange(
                                0,
                                n as int,
                            )[t]);
                        }
                        assert(self.buffer@.subrange(0, n as int) =~= self.stream@.subrange(
                            base2,
                            self.stream@.len() as int,
                        ));
                        assert(self.stream@.subrange(0, pre_len) =~= pre.stream@);
                    }
                },
                Err(e) => {
                    self.done = true;
                    self.failed = Ghost(true);
                    proof {
                        assert(self.buffer@.subrange(0, 0) =~= self.stream@.subrange(
                            self.haystack_pos as int,
                            self.stream@.len() as int,
                        ));
                    }
                    return Some(Err(e));
                },
            }
        }

        loop
            invariant
                self.wf(),
                !self.done,
                m == self.needle@.len(),
                self.needle@ == old(self).needle@,
                self.algo == old(self).algo,
                self.requested_buffer_size == old(self).requested_buffer_size,
                self.found@ == old(self).found@,
                self.failed@ == old(self).failed@,
                !old(self).done,
                old(self).stream@.is_prefix_of(self.stream@),
            decreases self.haystack.stream_remaining(),
        {
            let ghost nd = self.needle@;
            let ghost stream = self.stream@;
            let ghost base = self.haystack_pos as int;
            let ghost f0 = self.frontier();

            // Run the selected matcher over the unsearched window.
            let window = slice_subrange(
                self.buffer.as_slice(),
                self.buffer_pos,
                self.buffer_fill_len,
            );
            proof {
                assert forall|t: int| 0 <= t < window@.len() implies window@[t] == stream[f0
                    + t] by {
                    assert(self.buffer@.subrange(0, self.buffer_fill_len as int)[self.buffer_pos
                        + t] == stream.subrange(base, stream.len() as int)[self.buffer_pos + t]);
                }
                assert(window@ =~= stream.subrange(f0, stream.len() as int));
            }
            let found = search_with(self.algo, window, self.needle.as_slice());

            if let Some(i) = found {
                // A match at window-relative offset i: report its absolute
                // position and resume one byte past it.
                let match_pos = self.buffer_pos + i;
                let abs = self.haystack_pos + match_pos;
                proof {
                    lemma_occurs_in_window(stream, nd, f0, stream.len() as int, i as int);
                    assert forall|q: int| f0 <= q < f0 + i implies !occurs_at(stream, nd, q) by {
                        if occurs_at(stream, nd, q) {
                            lemma_occurs_in_window(stream, nd, f0, stream.len() as int, q - f0);
                        }
                    }
                    lemma_upto_extend_match(stream, nd, f0, f0 + i);
                }
                self.buffer_pos = match_pos + 1;
                self.found = Ghost(self.found@.push(abs as int));
                return Some(Ok(abs));
            }

            // No match: every decided position in the window is ruled out.
            proof {
                assert forall|q: int|
                    f0 <= q && q + nd.len() <= stream.len() implies !occurs_at(stream, nd, q) by {
                    if occurs_at(stream, nd, q) {
                        lemma_occurs_in_window(stream, nd, f0, stream.len() as int, q - f0);
                    }
                }
            }

            if self.buffer_fill_len - self.buffer_pos >= m {
                // Slide the window forward without a new read, retaining
                // exactly the tail a boundary-spanning match could need.
                let advance = (self.buffer_fill_len - self.buffer_pos) - (m - 1);
                proof {
                    lemma_upto_extend_no_match(stream, nd, f0, stream.len() - nd.len() + 1);
                }
                self.buffer_pos = self.buffer_pos + advance;
            }

            if self.buffer_fill_len >= self.buffer.len() {
                // Buffer full: copy the needle-length-minus-one tail to the
                // start and fold the discarded prefix into the base offset.
                let tail_len = m - 1;
                let cap = self.buffer.len();
                let src_base = self.buffer_fill_len - tail_len;
                let ghost old_buffer = self.buffer@;
                let ghost old_base = self.haystack_pos as int;
                let ghost pre_c = *self;
                let mut k: usize = 0;
                while k < tail_len
                    invariant
                        0 <= k <= tail_len,
                        tail_len < src_base,
                        src_base + tail_len == cap,
                        cap == self.buffer@.len(),
                        cap == old_buffer.len(),
                        forall|t: int| 0 <= t < k ==> self.buffer@[t] == old_buffer[src_base + t],
                        forall|t: int| k <= t < cap ==> self.buffer@[t] == old_buffer[t],
                        pre_c.wf(),
                        old_buffer == pre_c.buffer@,
                        self.haystack == pre_c.haystack,
                        self.needle == pre_c.needle,
                        self.haystack_pos == pre_c.haystack_pos,
                        self.buffer_pos == pre_c.buffer_pos,
                        self.buffer_fill_len == pre_c.buffer_fill_len,
                        self.algo == pre_c.algo,
                        self.requested_buffer_size == pre_c.requested_buffer_size,
                        self.done == pre_c.done,
                        self.stream == pre_c.stream,
                        self.found == pre_c.found,
                        self.failed == pre_c.failed,
                    decreases tail_len - k,
                {
                    let b = self.buffer[src_base + k];
                    self.buffer[k] = b;
                    k += 1;
                }
                proof {
                    assert(self.haystack_pos + src_base <= self.stream@.len());
                }
                self.haystack_pos = self.haystack_pos + src_base;
                self.buffer_fill_len = tail_len;
                self.buffer_pos = 0;
                proof {
                    let len = self.stream@.len() as int;
                    assert forall|t: int| 0 <= t < tail_len implies self.buffer@[t]
                        == self.stream@[self.haystack_pos + t] by {
                        assert(self.buffer@[t] == old_buffer[src_base + t]);
                        assert(old_buffer.subrange(0, cap as int)[src_base + t]
                            == self.stream@.subrange(old_base, len)[src_base + t]);
                    }
                    assert(self.buffer@.subrange(0, tail_len as int) =~= self.stream@.subrange(
                        self.haystack_pos as int,
                        len,
                    ));
                }
            }

            // Read more data appended after the retained tail.
            let ghost pre = *self;
            let start = self.buffer_fill_len;
            match self.haystack.read_into(&mut self.buffer, start) {
                Ok(n) => {
                    if n == 0 {
                        // Source drained: everything received was searched.
                        self.done = true;
                        proof {
                            assert(self.buffer@.subrange(0, self.buffer_fill_len as int)
                                =~= self.stream@.subrange(
                                self.haystack_pos as int,
                                self.stream@.len() as int,
                            ));
                            lemma_upto_extend_no_match(
                                self.stream@,
                                nd,
                                self.frontier(),
                                self.stream@.len() as int,
                            );
                        }
                        return None;
                    }
                    proof {
                        let ext = self.buffer@.subrange(start as int, start + n);
                        lemma_upto_stable_append(pre.stream@, ext, nd, pre.frontier());
                    }
                    self.stream = Ghost(self.stream@ + self.buffer@.subrange(start as int, start + n));
                    self.buffer_fill_len = self.buffer_fill_len + n;
                    proof {
                        let base2 = self.haystack_pos as int;
                        let len2 = self.stream@.len() as int;
                        let pre_len = pre.stream@.len() as int;
                        assert forall|t: int| 0 <= t < self.buffer_fill_len implies self.buffer@[t]
                            == self.stream@[base2 + t] by {
                            if t < start {
                                assert(pre.buffer@.subrange(0, start as int)[t]
                                    == pre.stream@.subrange(base2, pre_len)[t]);
                                assert(self.stream@[base2 + t] == pre.stream@[base2 + t]);
                            } else {
                                assert(self.stream@[base2 + t] == self.buffer@.subrange(
                                    start as int,
                                    start + n,
                                )[base2 + t - pre_len]);
                            }
                        }
                        assert(self.buffer@.subrange(0, self.buffer_fill_len as int)
                            =~= self.stream@.subrange(base2, len2));
                        assert(self.stream@.subrange(0, pre_len) =~= pre.stream@);
                        assert(self.stream@.subrange(0, old(self).stream@.len() as int)
                            =~= old(self).stream@);
                        assert(old(self).stream@.is_prefix_of(self.stream@));
                    }
                },
                Err(e) => {
                    self.done = true;
                    self.failed = Ghost(true);
                    return Some(Err(e));
                },
            }
        }
    }
}

/// The positions reported so far are always a prefix of the full ordered
/// match-position list of the received stream.
pub proof fn lemma_found_prefix_of_matches<R: ByteSource>(f: Finder<R>)
    requires
        f.wf(),
    ensures
        f.found_seq().is_prefix_of(match_positions(f.stream_seq(), f.needle_seq())),
{
    crate::matching::lemma_upto_prefix(
        f.stream_seq(),
        f.needle_seq(),
        f.frontier(),
        f.stream_seq().len() as int,
    );
}

/// Reported positions are strictly increasing.
pub proof fn lemma_positions_strictly_increasing<R: ByteSource>(f: Finder<R>)
    requires
        f.wf(),
    ensures
        forall|k1: int, k2: int|
            0 <= k1 < k2 < f.found_seq().len() ==> f.found_seq()[k1] < f.found_seq()[k2],
{
    lemma_upto_elements(f.stream_seq(), f.needle_seq(), f.frontier());
}

/// Chunk-size invariance and determinism: the positions a finder reports
/// depend only on the received byte stream and the needle. Two drained,
/// error-free finders over the same logical haystack and the same needle
/// report the identical position sequence, however their streams were split
/// into physical reads and whichever matchers either of them used.
pub proof fn lemma_output_determined_by_stream<R1: ByteSource, R2: ByteSource>(
    a: Finder<R1>,
    b: Finder<R2>,
)
    requires
        a.wf(),
        b.wf(),
        a.is_done(),
        !a.has_failed(),
        b.is_done(),
        !b.has_failed(),
        a.stream_seq() == b.stream_seq(),
        a.needle_seq() == b.needle_seq(),
    ensures
        a.found_seq() == b.found_seq(),
{
}


/// The three construction entry points of a streaming finder. All validate
/// the needle and the buffer size the same way, failing with a configuration
/// error rather than returning a partially valid finder.
pub trait FinderTrait<R: ByteSource>: Sized {
    /// The finder is well-formed and ready to search.
    spec fn valid(&self) -> bool;

    /// The needle bound at construction.
    spec fn needle_view(&self) -> Seq<u8>;

    /// The bytes received from the source so far.
    spec fn stream_view(&self) -> Seq<u8>;

    /// The match positions reported so far.
    spec fn found_view(&self) -> Seq<int>;

    /// The finder has already been exhausted.
    spec fn exhausted(&self) -> bool;

    /// The matcher selected at construction.
    spec fn algo_view(&self) -> Algorithm;

    /// Creates a new finder with the default buffer size.
    ///
    /// Fails with `EmptyNeedle` on an empty needle and with `BufferTooSmall`
    /// when the needle exceeds the default buffer size.
    fn new(haystack: R, needle: Vec<u8>, algo: Option<Algorithm>) -> (r: Result<Self, FinderError>)
        requires
            haystack.stream_remaining() <= usize::MAX,
        ensures
            match r {
                Ok(f) => {
                    &&& 1 <= needle@.len() <= DEFAULT_BUF_SIZE
                    &&& f.valid()
                    &&& f.needle_view() == needle@
                    &&& f.stream_view() == Seq::<u8>::empty()
                    &&& f.found_view() == Seq::<int>::empty()
                    &&& !f.exhausted()
                    &&& f.algo_view() == (match algo {
                        Some(a) => a,
                        None => Algorithm::Naive,
                    })
                },
                Err(FinderError::EmptyNeedle) => needle@.len() == 0,
                Err(FinderError::BufferTooSmall) => needle@.len() > DEFAULT_BUF_SIZE,
            },
    ;

    /// Creates a new finder with a custom buffer size.
    ///
    /// Fails with `EmptyNeedle` on an empty needle and with `BufferTooSmall`
    /// when the needle exceeds the requested buffer size (or the resulting
    /// capacity cannot be represented).
    fn with_buffer_size(
        haystack: R,
        needle: Vec<u8>,
        buffer_size: usize,
        algo: Option<Algorithm>,
    ) -> (r: Result<Self, FinderError>)
        requires
            haystack.stream_remaining() <= usize::MAX,
        ensures
            match r {
                Ok(f) => {
                    &&& 1 <= needle@.len() <= buffer_size
                    &&& f.valid()
                    &&& f.needle_view() == needle@
                    &&& f.stream_view() == Seq::<u8>::empty()
                    &&& f.found_view() == Seq::<int>::empty()
                    &&& !f.exhausted()
                    &&& f.algo_view() == (match algo {
                        Some(a) => a,
                        None => Algorithm::Naive,
                    })
                },
                Err(FinderError::EmptyNeedle) => needle@.len() == 0,
                Err(FinderError::BufferTooSmall) => {
                    &&& needle@.len() >= 1
                    &&& (needle@.len() > buffer_size || buffer_size - 1 > usize::MAX
                        - needle@.len())
                },
            },
    ;

    /// Creates a new finder with the given algorithm and the default buffer
    /// size; validation is identical to `new`.
    fn with_algorithm(haystack: R, needle: Vec<u8>, algo: Algorithm) -> (r: Result<
        Self,
        FinderError,
    >)
        requires
            haystack.stream_remaining() <= usize::MAX,
        ensures
            match r {
                Ok(f) => {
                    &&& 1 <= needle@.len() <= DEFAULT_BUF_SIZE
                    &&& f.valid()
                    &&& f.needle_view() == needle@
                    &&& f.stream_view() == Seq::<u8>::empty()
                    &&& f.found_view() == Seq::<int>::empty()
                    &&& !f.exhausted()
                    &&& f.algo_view() == algo
                },
                Err(FinderError::EmptyNeedle) => needle@.len() == 0,
                Err(FinderError::BufferTooSmall) => needle@.len() > DEFAULT_BUF_SIZE,
            },
    ;
}

impl<R: ByteSource> FinderTrait<R> for Finder<R> {
    open spec fn valid(&self) -> bool {
        self.wf()
    }

    open spec fn needle_view(&self) -> Seq<u8> {
        self.needle_seq()
    }

    open spec fn stream_view(&self) -> Seq<u8> {
        self.stream_seq()
    }

    open spec fn found_view(&self) -> Seq<int> {
        self.found_seq()
    }

    open spec fn exhausted(&self) -> bool {
        self.is_done()
    }

    open spec fn algo_view(&self) -> Algorithm {
        self.selected_algo()
    }

    fn new(haystack: R, needle: Vec<u8>, algo: Option<Algorithm>) -> (r: Result<
        Self,
        FinderError,
    >) {
        Self::build(haystack, needle, DEFAULT_BUF_SIZE, algo)
    }

    fn with_buffer_size(
        haystack: R,
        needle: Vec<u8>,
        buffer_size: usize,
        algo: Option<Algorithm>,
    ) -> (r: Result<Self, FinderError>) {
        Self::build(haystack, needle, buffer_size, algo)
    }

    fn with_algorithm(haystack: R, needle: Vec<u8>, algo: Algorithm) -> (r: Result<
        Self,
        FinderError,
    >) {
        Self::build(haystack, needle, DEFAULT_BUF_SIZE, Some(algo))
    }
}

} // verus!
