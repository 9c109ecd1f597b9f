//! The closed set of matching strategies and their uniform dispatch.

use crate::bmh::bmh_search;
use crate::kmp::kmp_search;
use crate::matching::is_first_match;
use crate::naive::naive_search;
use crate::simd::simd_search;
use crate::simdx86_64::simd_search_x86_64;
use vstd::prelude::*;

verus! {

/// Supported search algorithms. Every variant satisfies the same matcher
/// contract, so the choice never changes which positions are reported.
#[derive(Clone, Copy, Debug, PartialEq, Eq, Structural)]
pub enum Algorithm {
    Naive,
    Bmh,
    Kmp,
    SimdX8664,
    Simd,
}

/// Runs the selected matcher over one window. Whatever the selection, the
/// result is the first occurrence of the needle in the window.
pub fn search_with(algo: Algorithm, haystack: &[u8], needle: &[u8]) -> (r: Option<usize>)
    ensures
        is_first_match(haystack@, needle@, r),
{
    match algo {
        Algorithm::Naive => naive_search(haystack, needle),
        Algorithm::Bmh => bmh_search(haystack, needle),
        Algorithm::Kmp => kmp_search(haystack, needle),
        Algorithm::SimdX8664 => simd_search_x86_64(haystack, needle),
        Algorithm::Simd => simd_search(haystack, needle),
    }
}

} // verus!
