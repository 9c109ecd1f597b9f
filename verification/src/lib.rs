//! A streaming needle-in-haystack searcher offering several interchangeable
//! matching strategies.
//!
//! The crate provides verified utilities for locating every occurrence of a
//! byte pattern in a byte source:
//! - `Finder`: a bounded-memory streaming searcher over any `ByteSource`
//! - `MmapFinder`: a zero-copy searcher over a memory-mapped region
//!
//! All matchers are proved to return the first occurrence of the needle, so
//! every strategy yields the same ordered list of match positions.

mod bmh;
mod finder;
pub mod hex;
mod kmp;
mod matching;
mod mmap_finder;
mod naive;
pub mod search;
mod simd;
mod simdx86_64;
mod source;

pub use bmh::bmh_search;
pub use finder::lemma_found_prefix_of_matches;
pub use finder::lemma_output_determined_by_stream;
pub use finder::lemma_positions_strictly_increasing;
pub use finder::Finder;
pub use finder::FinderError;
pub use finder::FinderTrait;
pub use finder::DEFAULT_BUF_SIZE;
pub use kmp::kmp_search;
pub use matching::is_first_match;
pub use matching::lemma_empty_haystack;
pub use matching::lemma_exact_match;
pub use matching::lemma_first_match_unique;
pub use matching::lemma_needle_longer_no_match;
pub use matching::match_positions;
pub use matching::match_positions_upto;
pub use matching::occurs_at;
pub use mmap_finder::find_in_mmap;
pub use mmap_finder::lemma_iter_output_determined;
pub use mmap_finder::lemma_iter_positions_strictly_increasing;
pub use mmap_finder::mmap_bytes;
pub use mmap_finder::MmapFinder;
pub use mmap_finder::MmapFinderError;
pub use mmap_finder::MmapFinderIter;
pub use naive::naive_search;
pub use search::search_with;
pub use search::Algorithm as SearchAlgo;
pub use simd::simd_scan_first_byte;
pub use simd::simd_search;
pub use simdx86_64::simd_search_x86_64;
pub use source::ByteSource;
