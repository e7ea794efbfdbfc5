//! Byte-level comparison and substring search.
//!
//! Every predicate has a plain byte-at-a-time routine and a block-wise routine
//! that works on 16-byte chunks; the dispatching functions pick the block-wise
//! routine once the operands reach `BLOCK_THRESHOLD` bytes. Both routines of
//! each pair are proved against the same specification, so the choice never
//! changes a result.
use vstd::prelude::*;

verus! {

/// Width of one block of the block-wise routines, in bytes.
pub const BLOCK_WIDTH: usize = 16;

/// Operands shorter than this are handled by the byte-at-a-time routines.
pub const BLOCK_THRESHOLD: usize = 16;

/// `n` occurs in `h` starting at byte offset `i`.
pub open spec fn matches_at(h: Seq<u8>, n: Seq<u8>, i: int) -> bool {
    0 <= i && i + n.len() <= h.len() && h.subrange(i, i + n.len()) == n
}

/// The lowest offset `>= start` at which `n` occurs in `h`.
pub open spec fn find_from(h: Seq<u8>, n: Seq<u8>, start: int) -> Option<int>
    decreases h.len() + 1 - start,
{
    if start < 0 || start + n.len() > h.len() {
        None
    } else if matches_at(h, n, start) {
        Some(start)
    } else {
        find_from(h, n, start + 1)
    }
}

/// The lowest offset at which `n` occurs in `h`.
pub open spec fn find_first(h: Seq<u8>, n: Seq<u8>) -> Option<int> {
    find_from(h, n, 0)
}

/// The highest offset `<= i` at which `n` occurs in `h`.
pub open spec fn rfind_from(h: Seq<u8>, n: Seq<u8>, i: int) -> Option<int>
    decreases i + 1,
{
    if i < 0 {
        None
    } else if matches_at(h, n, i) {
        Some(i)
    } else {
        rfind_from(h, n, i - 1)
    }
}

/// The highest offset at which `n` occurs in `h`.
pub open spec fn find_last(h: Seq<u8>, n: Seq<u8>) -> Option<int> {
    rfind_from(h, n, h.len() - n.len())
}

/// `h` begins with `n`.
pub open spec fn has_prefix(h: Seq<u8>, n: Seq<u8>) -> bool {
    n.len() <= h.len() && h.subrange(0, n.len() as int) == n
}

/// `h` ends with `n`.
pub open spec fn has_suffix(h: Seq<u8>, n: Seq<u8>) -> bool {
    n.len() <= h.len() && h.subrange(h.len() - n.len(), h.len() as int) == n
}

/// An optional offset as an optional integer.
pub open spec fn offset_of(r: Option<usize>) -> Option<int> {
    match r {
        Some(i) => Some(i as int),
        None => None,
    }
}

/// What `find_from` returns: the first match at or after `start`, or no match at all.
pub proof fn lemma_find_from(h: Seq<u8>, n: Seq<u8>, start: int)
    requires
        0 <= start,
    ensures
        match find_from(h, n, start) {
            Some(i) => start <= i && matches_at(h, n, i) && forall|j: int|
                start <= j < i ==> !matches_at(h, n, j),
            None => forall|j: int| start <= j ==> !matches_at(h, n, j),
        },
    decreases h.len() + 1 - start,
{
    if start + n.len() > h.len() {
    } else if matches_at(h, n, start) {
    } else {
        lemma_find_from(h, n, start + 1);
        assert forall|j: int| start <= j && j < start + 1 implies !matches_at(h, n, j) by {
            assert(j == start);
        }
    }
}

/// Offsets without a match can be skipped.
proof fn lemma_find_skip(h: Seq<u8>, n: Seq<u8>, a: int, b: int)
    requires
        0 <= a <= b,
        forall|j: int| a <= j < b ==> !matches_at(h, n, j),
    ensures
        find_from(h, n, a) == find_from(h, n, b),
    decreases b - a,
{
    if a < b {
        lemma_find_skip(h, n, a + 1, b);
    }
}

/// No match at or after `a`: nothing is found from `a`.
proof fn lemma_find_none(h: Seq<u8>, n: Seq<u8>, a: int)
    requires
        0 <= a,
        forall|j: int| a <= j ==> !matches_at(h, n, j),
    ensures
        find_from(h, n, a) is None,
    decreases h.len() + 1 - a,
{
    if a + n.len() <= h.len() {
        lemma_find_none(h, n, a + 1);
    }
}

/// Compares `a[i..i + len]` with `b[j..j + len]` byte by byte.
fn range_eq(a: &[u8], i: usize, b: &[u8], j: usize, len: usize) -> (r: bool)
    requires
        i + len <= a@.len(),
        j + len <= b@.len(),
    ensures
        r == (a@.subrange(i as int, i + len) == b@.subrange(j as int, j + len)),
{
    let alen = a.len();
    let blen = b.len();
    let mut k: usize = 0;
    while k < len
        invariant
            k <= len,
            alen == a@.len(),
            blen == b@.len(),
            i + len <= a@.len(),
            j + len <= b@.len(),
            forall|t: int| 0 <= t < k ==> #[trigger] a@[i + t] == b@[j + t],
        decreases len - k,
    {
        if a[i + k] != b[j + k] {
            assert(a@.subrange(i as int, i + len)[k as int] != b@.subrange(j as int, j + len)[k as int]);
            return false;
        }
        k = k + 1;
    }
    assert forall|t: int| 0 <= t < len implies #[trigger] a@.subrange(i as int, i + len)[t]
        == b@.subrange(j as int, j + len)[t] by {
        assert(a@[i + t] == b@[j + t]);
    }
    assert(a@.subrange(i as int, i + len) =~= b@.subrange(j as int, j + len));
    true
}

/// Equality of two byte strings, one byte at a time.
pub fn eq_bytes_scalar(a: &[u8], b: &[u8]) -> (r: bool)
    ensures
        r == (a@ == b@),
{
    if a.len() != b.len() {
        return false;
    }
    let r = range_eq(a, 0, b, 0, a.len());
    assert(a@.subrange(0, a@.len() as int) =~= a@);
    assert(b@.subrange(0, b@.len() as int) =~= b@);
    r
}

/// Equality of two byte strings, one 16-byte block at a time, then the tail.
pub fn eq_bytes_blocks(a: &[u8], b: &[u8]) -> (r: bool)
    ensures
        r == (a@ == b@),
{
    if a.len() != b.len() {
        return false;
    }
    let len = a.len();
    let mut offset: usize = 0;
    while len - offset >= BLOCK_WIDTH
        invariant
            len == a@.len() == b@.len(),
            offset <= len,
            a@.subrange(0, offset as int) == b@.subrange(0, offset as int),
        decreases len - offset,
    {
        if !range_eq(a, offset, b, offset, BLOCK_WIDTH) {
            assert(a@.subrange(offset as int, offset + BLOCK_WIDTH) =~= a@.subrange(
                0,
                offset + BLOCK_WIDTH,
            ).subrange(offset as int, offset + BLOCK_WIDTH));
            assert(b@.subrange(offset as int, offset + BLOCK_WIDTH) =~= b@.subrange(
                0,
                offset + BLOCK_WIDTH,
            ).subrange(offset as int, offset + BLOCK_WIDTH));
            return false;
        }
        assert(a@.subrange(0, offset + BLOCK_WIDTH) =~= a@.subrange(0, offset as int)
            + a@.subrange(offset as int, offset + BLOCK_WIDTH));
        assert(b@.subrange(0, offset + BLOCK_WIDTH) =~= b@.subrange(0, offset as int)
            + b@.subrange(offset as int, offset + BLOCK_WIDTH));
        offset = offset + BLOCK_WIDTH;
    }
    let tail = range_eq(a, offset, b, offset, len - offset);
    assert(a@ =~= a@.subrange(0, offset as int) + a@.subrange(offset as int, len as int));
    assert(b@ =~= b@.subrange(0, offset as int) + b@.subrange(offset as int, len as int));
    tail
}

/// Equality of two byte strings; long operands go block-wise.
pub fn eq_bytes(a: &[u8], b: &[u8]) -> (r: bool)
    ensures
        r == (a@ == b@),
{
    if a.len() != b.len() {
        return false;
    }
    if a.len() >= BLOCK_THRESHOLD {
        eq_bytes_blocks(a, b)
    } else {
        eq_bytes_scalar(a, b)
    }
}

/// `haystack` begins with `needle`.
pub fn starts_with_bytes(haystack: &[u8], needle: &[u8]) -> (r: bool)
    ensures
        r == has_prefix(haystack@, needle@),
{
    if needle.len() > haystack.len() {
        return false;
    }
    if needle.len() == 0 {
        assert(haystack@.subrange(0, 0) =~= needle@);
        return true;
    }
    let head = &haystack[0..needle.len()];
    eq_bytes(head, needle)
}

/// `haystack` ends with `needle`.
pub fn ends_with_bytes(haystack: &[u8], needle: &[u8]) -> (r: bool)
    ensures
        r == has_suffix(haystack@, needle@),
{
    if needle.len() > haystack.len() {
        return false;
    }
    if needle.len() == 0 {
        assert(haystack@.subrange(haystack@.len() as int, haystack@.len() as int) =~= needle@);
        return true;
    }
    let start = haystack.len() - needle.len();
    let tail = &haystack[start..haystack.len()];
    eq_bytes(tail, needle)
}

/// Offset of the first occurrence of `byte` in `haystack`, one byte at a time.
pub fn find_byte_scalar(haystack: &[u8], byte: u8) -> (r: Option<usize>)
    ensures
        match r {
            Some(i) => i < haystack@.len() && haystack@[i as int] == byte && forall|j: int|
                0 <= j < i ==> haystack@[j] != byte,
            None => forall|j: int| 0 <= j < haystack@.len() ==> haystack@[j] != byte,
        },
{
    let mut i: usize = 0;
    while i < haystack.len()
        invariant
            i <= haystack@.len(),
            forall|j: int| 0 <= j < i ==> haystack@[j] != byte,
        decreases haystack@.len() - i,
    {
        if haystack[i] == byte {
            return Some(i);
        }
        i = i + 1;
    }
    None
}

/// Offset of the first occurrence of `byte` in `haystack`, scanning whole
/// 16-byte blocks first and the remaining tail last.
pub fn find_byte_blocks(haystack: &[u8], byte: u8) -> (r: Option<usize>)
    ensures
        match r {
            Some(i) => i < haystack@.len() && haystack@[i as int] == byte && forall|j: int|
                0 <= j < i ==> haystack@[j] != byte,
            None => forall|j: int| 0 <= j < haystack@.len() ==> haystack@[j] != byte,
        },
{
    let len = haystack.len();
    let mut offset: usize = 0;
    while len - offset >= BLOCK_WIDTH
        invariant
            len == haystack@.len(),
            offset <= len,
            forall|j: int| 0 <= j < offset ==> haystack@[j] != byte,
        decreases len - offset,
    {
        let mut k: usize = 0;
        while k < BLOCK_WIDTH
            invariant
                len == haystack@.len(),
                offset + BLOCK_WIDTH <= len,
                k <= BLOCK_WIDTH,
                forall|j: int| 0 <= j < offset + k ==> haystack@[j] != byte,
            decreases BLOCK_WIDTH - k,
        {
            if haystack[offset + k] == byte {
                return Some(offset + k);
            }
            k = k + 1;
        }
        offset = offset + BLOCK_WIDTH;
    }
    let mut i: usize = offset;
    while i < len
        invariant
            len == haystack@.len(),
            offset <= i <= len,
            forall|j: int| 0 <= j < i ==> haystack@[j] != byte,
        decreases len - i,
    {
        if haystack[i] == byte {
            return Some(i);
        }
        i = i + 1;
    }
    None
}

/// Offset of the first occurrence of `needle` in `haystack`, trying every
/// offset in turn.
pub fn find_bytes_scalar(haystack: &[u8], needle: &[u8]) -> (r: Option<usize>)
    ensures
        offset_of(r) == find_first(haystack@, needle@),
{
    if needle.len() > haystack.len() {
        return None;
    }
    let last = haystack.len() - needle.len();
    let mut i: usize = 0;
    loop
        invariant
            needle@.len() <= haystack@.len(),
            last == haystack@.len() - needle@.len(),
            i <= last,
            find_first(haystack@, needle@) == find_from(haystack@, needle@, i as int),
        decreases last - i,
    {
        assert(needle@.subrange(0, needle@.len() as int) =~= needle@);
        if range_eq(haystack, i, needle, 0, needle.len()) {
            return Some(i);
        }
        if i == last {
            assert(find_from(haystack@, needle@, i + 1) is None);
            return None;
        }
        i = i + 1;
    }
}

/// Offset of the first occurrence of `needle` in `haystack`: jumps to each
/// occurrence of the needle's first byte with the block-wise byte finder, then
/// checks the whole needle there block-wise, moving one byte past a failed
/// candidate.
pub fn find_bytes_blocks(haystack: &[u8], needle: &[u8]) -> (r: Option<usize>)
    ensures
        offset_of(r) == find_first(haystack@, needle@),
{
    let hlen = haystack.len();
    let nlen = needle.len();
    if nlen > hlen {
        return None;
    }
    if nlen == 0 {
        assert(haystack@.subrange(0, 0) =~= needle@);
        return Some(0);
    }
    let first = needle[0];
    let mut pos: usize = 0;
    while pos <= hlen - nlen
        invariant
            hlen == haystack@.len(),
            nlen == needle@.len(),
            0 < nlen <= hlen,
            first == needle@[0],
            pos <= hlen - nlen + 1,
            find_first(haystack@, needle@) == find_from(haystack@, needle@, pos as int),
        decreases hlen - pos,
    {
        let rest = &haystack[pos..hlen];
        match find_byte_blocks(rest, first) {
            Some(offset) => {
                let candidate = pos + offset;
                assert forall|j: int| pos <= j < candidate implies !matches_at(
                    haystack@,
                    needle@,
                    j,
                ) by {
                    assert(rest@[j - pos] == haystack@[j]);
                    if matches_at(haystack@, needle@, j) {
                        assert(haystack@.subrange(j, j + nlen)[0] == needle@[0]);
                    }
                }
                proof {
                    lemma_find_skip(haystack@, needle@, pos as int, candidate as int);
                }
                if candidate <= hlen - nlen {
                    let window = &haystack[candidate..candidate + nlen];
                    if eq_bytes_blocks(window, needle) {
                        return Some(candidate);
                    }
                    pos = candidate + 1;
                } else {
                    proof {
                        lemma_find_none(haystack@, needle@, candidate as int);
                    }
                    return None;
                }
            },
            None => {
                assert forall|j: int| pos <= j implies !matches_at(haystack@, needle@, j) by {
                    if matches_at(haystack@, needle@, j) {
                        assert(haystack@.subrange(j, j + nlen)[0] == needle@[0]);
                        assert(rest@[j - pos] == haystack@[j]);
                    }
                }
                proof {
                    lemma_find_none(haystack@, needle@, pos as int);
                }
                return None;
            },
        }
    }
    None
}

/// Offset of the first occurrence of `needle` in `haystack`; the block-wise
/// search is used once both operands reach the threshold.
pub fn find_bytes(haystack: &[u8], needle: &[u8]) -> (r: Option<usize>)
    ensures
        offset_of(r) == find_first(haystack@, needle@),
{
    if needle.len() >= BLOCK_THRESHOLD && haystack.len() >= BLOCK_THRESHOLD {
        find_bytes_blocks(haystack, needle)
    } else {
        find_bytes_scalar(haystack, needle)
    }
}

/// Offset of the last occurrence of `needle` in `haystack`.
pub fn rfind_bytes(haystack: &[u8], needle: &[u8]) -> (r: Option<usize>)
    ensures
        offset_of(r) == find_last(haystack@, needle@),
{
    if needle.len() > haystack.len() {
        return None;
    }
    let mut i: usize = haystack.len() - needle.len();
    loop
        invariant
            needle@.len() <= haystack@.len(),
            i <= haystack@.len() - needle@.len(),
            find_last(haystack@, needle@) == rfind_from(haystack@, needle@, i as int),
        decreases i,
    {
        assert(needle@.subrange(0, needle@.len() as int) =~= needle@);
        if range_eq(haystack, i, needle, 0, needle.len()) {
            return Some(i);
        }
        if i == 0 {
            assert(rfind_from(haystack@, needle@, -1) is None);
            return None;
        }
        i = i - 1;
    }
}

/// Lexicographic order of two byte strings: the first differing byte decides,
/// and a proper prefix comes first.
pub open spec fn lex_cmp(a: Seq<u8>, b: Seq<u8>) -> core::cmp::Ordering
    decreases a.len(),
{
    if a.len() == 0 {
        if b.len() == 0 {
            core::cmp::Ordering::Equal
        } else {
            core::cmp::Ordering::Less
        }
    } else if b.len() == 0 {
        core::cmp::Ordering::Greater
    } else if a[0] < b[0] {
        core::cmp::Ordering::Less
    } else if a[0] > b[0] {
        core::cmp::Ordering::Greater
    } else {
        lex_cmp(a.drop_first(), b.drop_first())
    }
}

/// Lexicographic comparison of two byte strings.
pub fn compare_bytes(a: &[u8], b: &[u8]) -> (r: core::cmp::Ordering)
    ensures
        r == lex_cmp(a@, b@),
{
    let alen = a.len();
    let blen = b.len();
    let mut i: usize = 0;
    assert(a@.subrange(0, alen as int) =~= a@);
    assert(b@.subrange(0, blen as int) =~= b@);
    loop
        invariant
            alen == a@.len(),
            blen == b@.len(),
            i <= alen,
            i <= blen,
            lex_cmp(a@, b@) == lex_cmp(a@.subrange(i as int, alen as int), b@.subrange(i as int, blen as int)),
        decreases alen - i,
    {
        let ghost sa = a@.subrange(i as int, alen as int);
        let ghost sb = b@.subrange(i as int, blen as int);
        if i == alen {
            if i == blen {
                return core::cmp::Ordering::Equal;
            }
            return core::cmp::Ordering::Less;
        }
        if i == blen {
            return core::cmp::Ordering::Greater;
        }
        assert(sa[0] == a@[i as int]);
        assert(sb[0] == b@[i as int]);
        if a[i] < b[i] {
            return core::cmp::Ordering::Less;
        }
        if a[i] > b[i] {
            return core::cmp::Ordering::Greater;
        }
        assert(sa.drop_first() =~= a@.subrange(i + 1, alen as int));
        assert(sb.drop_first() =~= b@.subrange(i + 1, blen as int));
        i = i + 1;
    }
}

} // verus!
