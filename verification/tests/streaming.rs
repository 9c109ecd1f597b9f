//! Tests of the streaming finder: construction validation, match positions
//! across algorithms, overlap handling, boundary-spanning matches, and
//! invariance of the output under the read-chunk size.

use simd_needle::ByteSource;
use simd_needle::Finder;
use simd_needle::FinderTrait;
use simd_needle::SearchAlgo;
use simd_needle::DEFAULT_BUF_SIZE;

/// An in-memory source that hands out its data in chunks of a fixed size,
/// so the same logical haystack can be delivered under any chunking.
struct ChunkedSource {
    data: Vec<u8>,
    pos: usize,
    chunk: usize,
}

impl ChunkedSource {
    fn new(data: &[u8], chunk: usize) -> Self {
        ChunkedSource { data: data.to_vec(), pos: 0, chunk }
    }
}

impl ByteSource for ChunkedSource {
    fn read_into(&mut self, buf: &mut Vec<u8>, start: usize) -> Result<usize, std::io::Error> {
        let space = buf.len() - start;
        let left = self.data.len() - self.pos;
        let want = space.min(self.chunk).min(left);
        buf[start..start + want].copy_from_slice(&self.data[self.pos..self.pos + want]);
        self.pos += want;
        Ok(want)
    }
}

/// A source that fails on its first read.
struct FailingSource;

impl ByteSource for FailingSource {
    fn read_into(&mut self, _buf: &mut Vec<u8>, _start: usize) -> Result<usize, std::io::Error> {
        Err(std::io::Error::new(std::io::ErrorKind::Other, "broken source"))
    }
}

fn find_all(haystack: &[u8], needle: &[u8], algo: SearchAlgo) -> Vec<usize> {
    find_all_chunked(haystack, needle, algo, usize::MAX)
}

fn find_all_chunked(haystack: &[u8], needle: &[u8], algo: SearchAlgo, chunk: usize) -> Vec<usize> {
    let source = ChunkedSource::new(haystack, chunk);
    let mut finder = Finder::new(source, needle.to_vec(), Some(algo)).unwrap();
    let mut out = Vec::new();
    while let Some(item) = finder.next() {
        out.push(item.unwrap());
    }
    out
}

#[test]
fn test_empty_needle_naive() {
    let algo = SearchAlgo::Naive;
    let result = Finder::new(ChunkedSource::new(b"test", usize::MAX), vec![], Some(algo));
    assert!(result.is_err());
}

#[test]
fn test_empty_needle_bmh() {
    let algo = SearchAlgo::Bmh;
    let result = Finder::new(ChunkedSource::new(b"test", usize::MAX), vec![], Some(algo));
    assert!(result.is_err());
}

#[test]
fn test_empty_needle_kmp() {
    let algo = SearchAlgo::Kmp;
    let result = Finder::new(ChunkedSource::new(b"test", usize::MAX), vec![], Some(algo));
    assert!(result.is_err());
}

#[test]
fn test_empty_needle_every_entry_point() {
    let source = ChunkedSource::new(b"test", usize::MAX);
    assert!(matches!(
        Finder::new(source, vec![], None),
        Err(simd_needle::FinderError::EmptyNeedle)
    ));
    let source = ChunkedSource::new(b"test", usize::MAX);
    assert!(matches!(
        Finder::with_buffer_size(source, vec![], 64, None),
        Err(simd_needle::FinderError::EmptyNeedle)
    ));
    let source = ChunkedSource::new(b"test", usize::MAX);
    assert!(matches!(
        Finder::with_algorithm(source, vec![], SearchAlgo::Bmh),
        Err(simd_needle::FinderError::EmptyNeedle)
    ));
}

#[test]
fn test_simple_find() {
    for algo in [
        SearchAlgo::Naive,
        SearchAlgo::Bmh,
        SearchAlgo::Kmp,
        SearchAlgo::SimdX8664,
        SearchAlgo::Simd,
    ] {
        assert_eq!(find_all(b"this is a test string", b"test", algo), vec![10]);
    }
}

#[test]
fn test_no_match() {
    for algo in [
        SearchAlgo::Naive,
        SearchAlgo::Bmh,
        SearchAlgo::Kmp,
        SearchAlgo::SimdX8664,
        SearchAlgo::Simd,
    ] {
        assert_eq!(
            find_all(b"this is a test string", b"nothere", algo),
            Vec::<usize>::new()
        );
    }
}

#[test]
fn test_match_at_beginning() {
    for algo in [SearchAlgo::Naive, SearchAlgo::Bmh, SearchAlgo::Kmp, SearchAlgo::Simd] {
        assert_eq!(find_all(b"test string", b"test", algo), vec![0]);
    }
}

#[test]
fn test_match_at_end() {
    for algo in [SearchAlgo::Naive, SearchAlgo::Bmh, SearchAlgo::Kmp, SearchAlgo::Simd] {
        assert_eq!(find_all(b"string test", b"test", algo), vec![7]);
    }
}

#[test]
fn test_multiple_matches() {
    for algo in [SearchAlgo::Naive, SearchAlgo::Bmh, SearchAlgo::Kmp, SearchAlgo::Simd] {
        assert_eq!(find_all(b"test test test", b"test", algo), vec![0, 5, 10]);
    }
}

#[test]
fn test_overlapping_matches() {
    for algo in [
        SearchAlgo::Naive,
        SearchAlgo::Bmh,
        SearchAlgo::Kmp,
        SearchAlgo::SimdX8664,
        SearchAlgo::Simd,
    ] {
        assert_eq!(find_all(b"ababab", b"abab", algo), vec![0, 2]);
        assert_eq!(find_all(b"aaaaa", b"aa", algo), vec![0, 1, 2, 3]);
    }
}

#[test]
fn test_empty_haystack() {
    for algo in [SearchAlgo::Naive, SearchAlgo::Bmh, SearchAlgo::Kmp, SearchAlgo::Simd] {
        assert_eq!(find_all(b"", b"test", algo), Vec::<usize>::new());
    }
}

#[test]
fn test_needle_longer_than_haystack() {
    for algo in [SearchAlgo::Naive, SearchAlgo::Bmh, SearchAlgo::Kmp, SearchAlgo::Simd] {
        assert_eq!(find_all(b"hi", b"hello", algo), Vec::<usize>::new());
    }
}

#[test]
fn test_exact_match() {
    for algo in [SearchAlgo::Naive, SearchAlgo::Bmh, SearchAlgo::Kmp, SearchAlgo::Simd] {
        assert_eq!(find_all(b"test", b"test", algo), vec![0]);
    }
}

#[test]
fn test_match_across_buffer_boundary() {
    for algo in [SearchAlgo::Naive, SearchAlgo::Bmh, SearchAlgo::Kmp, SearchAlgo::Simd] {
        let mut haystack = Vec::new();
        haystack.extend_from_slice(&[0; DEFAULT_BUF_SIZE - 2]);
        haystack.extend_from_slice(b"needle");
        let source = ChunkedSource::new(&haystack, usize::MAX);
        let mut finder = Finder::new(source, b"needle".to_vec(), Some(algo)).unwrap();
        let mut results = Vec::new();
        while let Some(item) = finder.next() {
            results.push(item.unwrap());
        }
        assert_eq!(results, vec![DEFAULT_BUF_SIZE - 2]);
    }
}

#[test]
fn test_match_across_buffer_boundary_any_chunk_size() {
    let mut haystack = Vec::new();
    haystack.extend_from_slice(&[0; DEFAULT_BUF_SIZE - 2]);
    haystack.extend_from_slice(b"needle");
    for chunk in [1, 2, 3, 7, 1024, DEFAULT_BUF_SIZE - 1, DEFAULT_BUF_SIZE + 4] {
        assert_eq!(
            find_all_chunked(&haystack, b"needle", SearchAlgo::Naive, chunk),
            vec![DEFAULT_BUF_SIZE - 2]
        );
    }
}

#[test]
fn test_needle_longer_than_buffer() {
    for algo in [SearchAlgo::Naive, SearchAlgo::Bmh, SearchAlgo::Kmp, SearchAlgo::Simd] {
        let needle = vec![b'a'; DEFAULT_BUF_SIZE * 2];
        let mut haystack = vec![b'b'; 10];
        haystack.extend_from_slice(&needle);
        let result = Finder::with_buffer_size(
            ChunkedSource::new(&haystack, usize::MAX),
            needle.clone(),
            DEFAULT_BUF_SIZE,
            Some(algo),
        );
        assert!(result.is_err());
    }
}

#[test]
fn test_buffer_too_small_error() {
    let result = Finder::with_buffer_size(
        ChunkedSource::new(b"abcdef", usize::MAX),
        b"abcd".to_vec(),
        2,
        None,
    );
    assert!(matches!(result, Err(simd_needle::FinderError::BufferTooSmall)));
}

#[test]
fn test_chunk_size_invariance() {
    let haystack = b"abab test abab test ab, aaaa-aaaa test ababab";
    let needle = b"ab";
    let reference = find_all_chunked(haystack, needle, SearchAlgo::Naive, haystack.len());
    for chunk in 1..=haystack.len() {
        for algo in [SearchAlgo::Naive, SearchAlgo::Bmh, SearchAlgo::Kmp, SearchAlgo::Simd] {
            assert_eq!(find_all_chunked(haystack, needle, algo, chunk), reference);
        }
    }
}

#[test]
fn test_first_read_shorter_than_needle() {
    // A first chunk shorter than the needle must not end the search
    assert_eq!(
        find_all_chunked(b"aaaa", b"aaa", SearchAlgo::Naive, 1),
        vec![0, 1]
    );
}

#[test]
fn test_determinism_repeated_runs() {
    let haystack = b"test test test";
    let first = find_all(haystack, b"test", SearchAlgo::Bmh);
    for _ in 0..3 {
        assert_eq!(find_all(haystack, b"test", SearchAlgo::Bmh), first);
    }
}

#[test]
fn test_read_error_is_yielded_then_terminal() {
    let mut finder = Finder::new(FailingSource, b"abc".to_vec(), None).unwrap();
    let first = finder.next();
    assert!(matches!(first, Some(Err(_))));
    assert!(finder.next().is_none());
    assert!(finder.next().is_none());
}

#[test]
fn test_with_algorithm_constructor() {
    let source = ChunkedSource::new(b"needle in a haystack full of needles", 5);
    let mut finder = Finder::with_algorithm(source, b"needle".to_vec(), SearchAlgo::Kmp).unwrap();
    let mut out = Vec::new();
    while let Some(item) = finder.next() {
        out.push(item.unwrap());
    }
    assert_eq!(out, vec![0, 29]);
}

#[test]
fn test_needle_exactly_buffer_size() {
    // The largest needle a buffer admits: exactly the requested size
    let needle = vec![b'a'; 16];
    let mut haystack = vec![b'b'; 3];
    haystack.extend_from_slice(&needle);
    let result = Finder::with_buffer_size(
        ChunkedSource::new(&haystack, 4),
        needle.clone(),
        16,
        None,
    );
    let mut finder = result.unwrap();
    let mut out = Vec::new();
    while let Some(item) = finder.next() {
        out.push(item.unwrap());
    }
    assert_eq!(out, vec![3]);
}

#[test]
fn test_single_byte_needle_at_stream_end() {
    assert_eq!(
        find_all_chunked(b"bbbba", b"a", SearchAlgo::Simd, 2),
        vec![4]
    );
}
