//! Conformance tests shared by every matching strategy: empty-needle
//! rejection, needle longer than the window, matches at the start, middle
//! and end, repeated patterns, and single-byte needles.

use simd_needle::bmh_search;
use simd_needle::kmp_search;
use simd_needle::naive_search;
use simd_needle::simd_scan_first_byte;
use simd_needle::simd_search;
use simd_needle::simd_search_x86_64;

#[test]
fn bmh_test_empty_needle() {
    let haystack = b"hello world";
    assert_eq!(bmh_search(haystack, b""), None);
}

#[test]
fn bmh_test_needle_longer_than_haystack() {
    let haystack = b"hi";
    let needle = b"hello";
    assert_eq!(bmh_search(haystack, needle), None);
}

#[test]
fn bmh_test_no_match() {
    let haystack = b"hello world";
    let needle = b"xyz";
    assert_eq!(bmh_search(haystack, needle), None);
}

#[test]
fn bmh_test_match_at_beginning() {
    let haystack = b"hello world";
    let needle = b"hello";
    assert_eq!(bmh_search(haystack, needle), Some(0));
}

#[test]
fn bmh_test_match_in_middle() {
    let haystack = b"hello world";
    let needle = b"world";
    assert_eq!(bmh_search(haystack, needle), Some(6));
}

#[test]
fn bmh_test_match_at_end() {
    let haystack = b"hello world";
    let needle = b"world";
    assert_eq!(bmh_search(haystack, needle), Some(6));
}

#[test]
fn bmh_test_repeating_pattern() {
    let haystack = b"abababab";
    let needle = b"aba";
    assert_eq!(bmh_search(haystack, needle), Some(0));
}

#[test]
fn bmh_test_single_character() {
    let haystack = b"abc";
    let needle = b"b";
    assert_eq!(bmh_search(haystack, needle), Some(1));
}

#[test]
fn kmp_test_empty_needle() {
    let haystack = b"hello world";
    assert_eq!(kmp_search(haystack, b""), None);
}

#[test]
fn kmp_test_needle_longer_than_haystack() {
    let haystack = b"hi";
    let needle = b"hello";
    assert_eq!(kmp_search(haystack, needle), None);
}

#[test]
fn kmp_test_no_match() {
    let haystack = b"hello world";
    let needle = b"xyz";
    assert_eq!(kmp_search(haystack, needle), None);
}

#[test]
fn kmp_test_match_at_beginning() {
    let haystack = b"hello world";
    let needle = b"hello";
    assert_eq!(kmp_search(haystack, needle), Some(0));
}

#[test]
fn kmp_test_match_in_middle() {
    let haystack = b"hello world";
    let needle = b"world";
    assert_eq!(kmp_search(haystack, needle), Some(6));
}

#[test]
fn kmp_test_match_at_end() {
    let haystack = b"hello world";
    let needle = b"world";
    assert_eq!(kmp_search(haystack, needle), Some(6));
}

#[test]
fn kmp_test_repeating_pattern() {
    let haystack = b"abababab";
    let needle = b"aba";
    assert_eq!(kmp_search(haystack, needle), Some(0));
}

#[test]
fn kmp_test_single_character() {
    let haystack = b"abc";
    let needle = b"b";
    assert_eq!(kmp_search(haystack, needle), Some(1));
}

#[test]
fn naive_test_empty_needle() {
    let haystack = b"hello world";
    assert_eq!(naive_search(haystack, b""), None);
}

#[test]
fn naive_test_needle_longer_than_haystack() {
    let haystack = b"hi";
    let needle = b"hello";
    assert_eq!(naive_search(haystack, needle), None);
}

#[test]
fn naive_test_no_match() {
    let haystack = b"hello world";
    let needle = b"xyz";
    assert_eq!(naive_search(haystack, needle), None);
}

#[test]
fn naive_test_match_at_beginning() {
    let haystack = b"hello world";
    let needle = b"hello";
    assert_eq!(naive_search(haystack, needle), Some(0));
}

#[test]
fn naive_test_match_in_middle() {
    let haystack = b"hello world";
    let needle = b"world";
    assert_eq!(naive_search(haystack, needle), Some(6));
}

#[test]
fn naive_test_match_at_end() {
    let haystack = b"hello world";
    let needle = b"world";
    assert_eq!(naive_search(haystack, needle), Some(6));
}

#[test]
fn naive_test_repeating_pattern() {
    let haystack = b"abababab";
    let needle = b"aba";
    assert_eq!(naive_search(haystack, needle), Some(0));
}

#[test]
fn naive_test_single_character() {
    let haystack = b"abc";
    let needle = b"b";
    assert_eq!(naive_search(haystack, needle), Some(1));
}

#[test]
fn simd_test_empty_needle() {
    let haystack = b"hello world";
    assert_eq!(simd_search(haystack, b""), None);
}

#[test]
fn simd_test_needle_longer_than_haystack() {
    let haystack = b"hi";
    let needle = b"hello";
    assert_eq!(simd_search(haystack, needle), None);
}

#[test]
fn simd_test_no_match() {
    let haystack = b"hello world";
    let needle = b"xyz";
    assert_eq!(simd_search(haystack, needle), None);
}

#[test]
fn simd_test_match_at_beginning() {
    let haystack = b"hello world";
    let needle = b"hello";
    assert_eq!(simd_search(haystack, needle), Some(0));
}

#[test]
fn simd_test_match_in_middle() {
    let haystack = b"hello world";
    let needle = b"world";
    assert_eq!(simd_search(haystack, needle), Some(6));
}

#[test]
fn simd_test_match_at_end() {
    let haystack = b"hello world";
    let needle = b"ld";
    assert_eq!(simd_search(haystack, needle), Some(9));
}

#[test]
fn simd_test_repeating_pattern() {
    let haystack = b"abababab";
    let needle = b"aba";
    assert_eq!(simd_search(haystack, needle), Some(0));
}

#[test]
fn simd_test_single_character() {
    let haystack = b"abc";
    let needle = b"b";
    assert_eq!(simd_search(haystack, needle), Some(1));
}

#[test]
fn test_scan_first_byte() {
    let haystack = b"hello world";
    assert_eq!(simd_scan_first_byte(haystack, b'w'), Some(6));
    assert_eq!(simd_scan_first_byte(haystack, b'z'), None);
}

#[test]
fn simdx86_64_test_empty_needle() {
    let haystack = b"hello world";
    assert_eq!(simd_search_x86_64(haystack, b""), None);
}

#[test]
fn simdx86_64_test_needle_longer_than_haystack() {
    let haystack = b"hi";
    let needle = b"hello";
    assert_eq!(simd_search_x86_64(haystack, needle), None);
}

#[test]
fn simdx86_64_test_no_match() {
    let haystack = b"hello world";
    let needle = b"xyz";
    assert_eq!(simd_search_x86_64(haystack, needle), None);
}

#[test]
fn simdx86_64_test_match_at_beginning() {
    let haystack = b"hello world";
    let needle = b"hello";
    assert_eq!(simd_search_x86_64(haystack, needle), Some(0));
}

#[test]
fn simdx86_64_test_match_in_middle() {
    let haystack = b"hello world";
    let needle = b"world";
    assert_eq!(simd_search_x86_64(haystack, needle), Some(6));
}

#[test]
fn simdx86_64_test_match_at_end() {
    let haystack = b"hello world";
    let needle = b"world";
    assert_eq!(simd_search_x86_64(haystack, needle), Some(6));
}

#[test]
fn simdx86_64_test_repeating_pattern() {
    let haystack = b"abababab";
    let needle = b"aba";
    assert_eq!(simd_search_x86_64(haystack, needle), Some(0));
}

#[test]
fn simdx86_64_test_single_character() {
    let haystack = b"abc";
    let needle = b"b";
    assert_eq!(simd_search_x86_64(haystack, needle), Some(1));
}

#[test]
fn all_algorithms_agree_on_first_match() {
    let cases: Vec<(&[u8], &[u8])> = vec![
        (b"this is a test string", b"test"),
        (b"aaaaa", b"aa"),
        (b"ababab", b"abab"),
        (b"hello world", b"o w"),
        (b"", b"x"),
        (b"xyz", b"xyz"),
        (b"mississippi", b"issi"),
        (b"abcabcabcd", b"abcd"),
    ];
    for (haystack, needle) in cases {
        let expected = naive_search(haystack, needle);
        assert_eq!(bmh_search(haystack, needle), expected);
        assert_eq!(kmp_search(haystack, needle), expected);
        assert_eq!(simd_search(haystack, needle), expected);
        assert_eq!(simd_search_x86_64(haystack, needle), expected);
    }
}

#[test]
fn long_needle_uses_portable_fallback() {
    // 17 bytes: one past the specialized window width
    let needle = b"abcdefghijklmnopq";
    let mut haystack = Vec::new();
    haystack.extend_from_slice(b"zzzz");
    haystack.extend_from_slice(needle);
    haystack.extend_from_slice(b"zzzz");
    assert_eq!(simd_search_x86_64(&haystack, needle), Some(4));
    assert_eq!(simd_search(&haystack, needle), Some(4));
}
