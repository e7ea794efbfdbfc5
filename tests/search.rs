use cheetah_string::search::{
    compare_bytes, ends_with_bytes, eq_bytes, eq_bytes_blocks, eq_bytes_scalar, find_byte_blocks,
    find_byte_scalar, find_bytes, find_bytes_blocks, find_bytes_scalar, rfind_bytes,
    starts_with_bytes,
};
use std::cmp::Ordering;

#[test]
fn test_eq_bytes() {
    let a = b"hello world, this is a test";
    let b = b"hello world, this is a test";
    let c = b"hello world, this is b test";

    assert!(eq_bytes(a, b));
    assert!(!eq_bytes(a, c));
    assert!(!eq_bytes(&a[..10], a));
}

#[test]
fn test_starts_with_bytes() {
    let haystack = b"hello world, this is a test";
    assert!(starts_with_bytes(haystack, b"hello"));
    assert!(starts_with_bytes(haystack, b"hello world"));
    assert!(!starts_with_bytes(haystack, b"world"));
    assert!(starts_with_bytes(haystack, b""));
}

#[test]
fn test_ends_with_bytes() {
    let haystack = b"hello world, this is a test";
    assert!(ends_with_bytes(haystack, b"test"));
    assert!(ends_with_bytes(haystack, b"a test"));
    assert!(!ends_with_bytes(haystack, b"hello"));
    assert!(ends_with_bytes(haystack, b""));
}

#[test]
fn test_find_bytes() {
    let haystack = b"hello world, this is a test";
    assert_eq!(find_bytes(haystack, b"world"), Some(6));
    assert_eq!(find_bytes(haystack, b"test"), Some(23));
    assert_eq!(find_bytes(haystack, b"xyz"), None);
    assert_eq!(find_bytes(haystack, b""), Some(0));
}

#[test]
fn test_find_byte() {
    let haystack = b"hello world";
    assert_eq!(find_byte_blocks(haystack, b'w'), Some(6));
    assert_eq!(find_byte_blocks(haystack, b'h'), Some(0));
    assert_eq!(find_byte_blocks(haystack, b'd'), Some(10));
    assert_eq!(find_byte_blocks(haystack, b'x'), None);
}

#[test]
fn test_simd_threshold() {
    // Below the block threshold
    let small_a = b"hello";
    let small_b = b"hello";
    assert!(eq_bytes(small_a, small_b));

    // Above the block threshold
    let large_a = b"this is a longer string that exceeds the SIMD threshold";
    let large_b = b"this is a longer string that exceeds the SIMD threshold";
    assert!(eq_bytes(large_a, large_b));
}

/// A small deterministic generator, so that the inputs are the same on every run.
struct Lcg(u64);

impl Lcg {
    fn next(&mut self) -> u64 {
        self.0 = self
            .0
            .wrapping_mul(6364136223846793005)
            .wrapping_add(1442695040888963407);
        self.0 >> 33
    }

    /// Bytes over a small alphabet, so that matches are frequent.
    fn bytes(&mut self, len: usize) -> Vec<u8> {
        (0..len).map(|_| b'a' + (self.next() % 3) as u8).collect()
    }
}

fn reference_find(h: &[u8], n: &[u8]) -> Option<usize> {
    if n.is_empty() {
        return Some(0);
    }
    if n.len() > h.len() {
        return None;
    }
    h.windows(n.len()).position(|w| w == n)
}

#[test]
fn block_and_scalar_paths_agree() {
    let mut rng = Lcg(42);
    let lengths = [0usize, 1, 2, 15, 16, 17, 31, 32, 33, 100, 255, 1024, 4096];
    for &hl in lengths.iter() {
        for &nl in [0usize, 1, 2, 3, 16, 17, 40].iter() {
            for _ in 0..4 {
                let h = rng.bytes(hl);
                let n = if nl <= hl && hl > 0 && rng.next() % 2 == 0 {
                    let start = (rng.next() as usize) % (hl - nl + 1);
                    h[start..start + nl].to_vec()
                } else {
                    rng.bytes(nl)
                };
                let expected = reference_find(&h, &n);
                assert_eq!(find_bytes_scalar(&h, &n), expected);
                assert_eq!(find_bytes_blocks(&h, &n), expected);
                assert_eq!(find_bytes(&h, &n), expected);
                assert_eq!(eq_bytes_scalar(&h, &n), h == n);
                assert_eq!(eq_bytes_blocks(&h, &n), h == n);
                assert_eq!(eq_bytes_blocks(&h, &h.clone()), true);
                assert_eq!(starts_with_bytes(&h, &n), h.starts_with(&n));
                assert_eq!(ends_with_bytes(&h, &n), h.ends_with(&n));
                if let Some(&b) = n.first() {
                    let pos = h.iter().position(|&x| x == b);
                    assert_eq!(find_byte_scalar(&h, b), pos);
                    assert_eq!(find_byte_blocks(&h, b), pos);
                }
            }
        }
    }
}

#[test]
fn rfind_bytes_finds_last_occurrence() {
    assert_eq!(rfind_bytes(b"hello hello", b"hello"), Some(6));
    assert_eq!(rfind_bytes(b"hello hello", b"l"), Some(9));
    assert_eq!(rfind_bytes(b"hello hello", b""), Some(11));
    assert_eq!(rfind_bytes(b"abc", b"abcd"), None);
}

#[test]
fn compare_bytes_is_lexicographic() {
    assert_eq!(compare_bytes(b"apple", b"banana"), Ordering::Less);
    assert_eq!(compare_bytes(b"abc", b"ab"), Ordering::Greater);
    assert_eq!(compare_bytes(b"ab", b"ab"), Ordering::Equal);
    assert_eq!(compare_bytes(b"", b"a"), Ordering::Less);
}
