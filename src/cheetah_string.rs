//! The text value and its storage variants.
use std::sync::Arc;
use vstd::prelude::*;
use vstd::string::StringExecFns;
use vstd::string::StringSliceAdditionalSpecFns;
use vstd::utf8::*;

use crate::error::{Error, Utf8Error};
use crate::pattern::encode_char;

verus! {

broadcast use vstd::utf8::group_utf8_lib;

/// Text of at most this many bytes is stored inline, without allocation.
pub const INLINE_CAPACITY: usize = 23;

/// The shared byte buffer of the `bytes` crate, carried as an opaque value.
#[verifier::external_type_specification]
#[verifier::external_body]
pub struct ExBytes(bytes::Bytes);

/// The bytes that a `bytes::Bytes` handle refers to.
pub uninterp spec fn buffer_bytes(b: bytes::Bytes) -> Seq<u8>;

/// Relies on `<bytes::Bytes as AsRef<[u8]>>::as_ref`: the slice of the bytes
/// the handle refers to.
#[verifier::external_body]
fn buffer_as_slice(b: &bytes::Bytes) -> (r: &[u8])
    ensures
        r@ == buffer_bytes(*b),
{
    b.as_ref()
}

/// Relies on `<bytes::Bytes as Clone>::clone`: a new handle on the same bytes.
#[verifier::external_body]
fn buffer_clone(b: &bytes::Bytes) -> (r: bytes::Bytes)
    ensures
        buffer_bytes(r) == buffer_bytes(*b),
{
    b.clone()
}

/// Relies on `bytes::Bytes::copy_from_slice`: a new buffer holding a copy of
/// the bytes.
#[verifier::external_body]
fn buffer_copy_from(data: &[u8]) -> (r: bytes::Bytes)
    ensures
        buffer_bytes(r) == data@,
{
    bytes::Bytes::copy_from_slice(data)
}

/// Relies on `std::str::from_utf8`: the text when the bytes are valid UTF-8;
/// otherwise `Utf8Error::valid_up_to`, the length of the longest valid prefix.
#[verifier::external_body]
fn str_from_utf8(b: &[u8]) -> (r: Result<&str, usize>)
    ensures
        match r {
            Ok(s) => valid_utf8(b@) && s.spec_bytes() == b@,
            Err(k) => !valid_utf8(b@) && k < b@.len() && valid_utf8(b@.subrange(0, k as int))
                && forall|j: int| k < j <= b@.len() ==> !valid_utf8(#[trigger] b@.subrange(0, j)),
        },
{
    match std::str::from_utf8(b) {
        Ok(s) => Ok(s),
        Err(e) => Err(e.valid_up_to()),
    }
}

/// Relies on `std::sync::Arc::try_unwrap`: the shared value itself when no
/// other handle refers to it, else the handle back unchanged.
#[verifier::external_body]
fn arc_try_unwrap<T>(a: Arc<T>) -> (r: Result<T, Arc<T>>)
    ensures
        match r {
            Ok(t) => t == *a,
            Err(b) => *b == *a,
        },
{
    Arc::try_unwrap(a)
}

/// Relies on `<Arc<T> as Clone>::clone`: a new handle on the same value.
#[verifier::external_body]
fn arc_clone<T>(a: &Arc<T>) -> (r: Arc<T>)
    ensures
        *r == **a,
{
    Arc::clone(a)
}

/// Relies on `String::reserve`: room for more bytes, the text unchanged. It
/// panics when the new capacity passes `isize::MAX` bytes, which `requires`
/// leaves out.
#[verifier::external_body]
fn string_reserve(s: &mut String, additional: usize)
    requires
        encode_utf8(old(s)@).len() + additional <= isize::MAX,
    ensures
        final(s)@ == old(s)@,
{
    s.reserve(additional)
}

/// The encoding of a concatenation is the concatenation of the encodings.
pub proof fn lemma_encode_concat(a: Seq<char>, b: Seq<char>)
    ensures
        encode_utf8(a + b) == encode_utf8(a) + encode_utf8(b),
    decreases a.len(),
{
    if a.len() == 0 {
        assert(a + b =~= b);
        assert(encode_utf8(a) + encode_utf8(b) =~= encode_utf8(b));
    } else {
        lemma_encode_concat(a.drop_first(), b);
        assert((a + b).drop_first() =~= a.drop_first() + b);
        assert((a + b)[0] == a[0]);
        assert(encode_utf8(a + b) =~= encode_scalar(a[0] as u32) + encode_utf8(a.drop_first() + b));
        assert(encode_utf8(a) + encode_utf8(b) =~= encode_scalar(a[0] as u32) + (encode_utf8(
            a.drop_first(),
        ) + encode_utf8(b)));
    }
}

/// Appends the bytes of `b` to `v`.
pub(crate) fn extend_bytes(v: &mut Vec<u8>, b: &[u8])
    ensures
        final(v)@ == old(v)@ + b@,
{
    let n = b.len();
    let mut i: usize = 0;
    while i < n
        invariant
            n == b@.len(),
            i <= n,
            v@ == old(v)@ + b@.subrange(0, i as int),
        decreases n - i,
    {
        v.push(b[i]);
        assert(b@.subrange(0, i + 1) =~= b@.subrange(0, i as int).push(b@[i as int]));
        i = i + 1;
    }
    assert(b@.subrange(0, n as int) =~= b@);
}

/// A new buffer holding `a` then `b`, allocated once for both.
fn concat_bytes(a: &[u8], b: &[u8]) -> (r: Vec<u8>)
    ensures
        r@ == a@ + b@,
{
    let mut v: Vec<u8> = match a.len().checked_add(b.len()) {
        Some(n) => Vec::with_capacity(n),
        None => Vec::new(),
    };
    extend_bytes(&mut v, a);
    extend_bytes(&mut v, b);
    assert(v@ =~= a@ + b@);
    v
}

/// `k` is the length of the longest prefix of `b` that is valid UTF-8, and
/// `b` itself is not valid: the first invalid byte is at `k`.
pub open spec fn is_longest_valid_prefix(b: Seq<u8>, k: int) -> bool {
    &&& 0 <= k < b.len()
    &&& valid_utf8(b.subrange(0, k))
    &&& forall|j: int| k < j <= b.len() ==> !valid_utf8(#[trigger] b.subrange(0, j))
}

/// The storage variants.
#[derive(Debug)]
enum InnerString {
    /// Short text held in place: the first `len` bytes of `buf`.
    Inline { len: usize, buf: [u8; INLINE_CAPACITY] },
    /// Text that lives for the whole program; never copied, never mutated.
    StaticStr(&'static str),
    /// Shared owned text.
    ArcString(Arc<String>),
    /// Shared owned bytes, valid UTF-8.
    ArcVecString(Arc<Vec<u8>>),
    /// A shared external byte buffer, valid UTF-8.
    Bytes(bytes::Bytes),
}

/// A text value that keeps short text inline, borrows static text, and shares
/// longer text behind a reference count, so that cloning never copies a long
/// buffer.
///
/// Its view is the UTF-8 encoding of the text, whatever the variant.
#[derive(Debug)]
pub struct CheetahString {
    inner: InnerString,
}

impl View for CheetahString {
    type V = Seq<u8>;

    closed spec fn view(&self) -> Seq<u8> {
        match &self.inner {
            InnerString::Inline { len, buf } => buf@.subrange(0, *len as int),
            InnerString::StaticStr(s) => s.spec_bytes(),
            InnerString::ArcString(s) => encode_utf8((**s)@),
            InnerString::ArcVecString(v) => (**v)@,
            InnerString::Bytes(b) => buffer_bytes(*b),
        }
    }
}

impl CheetahString {
    #[verifier::type_invariant]
    closed spec fn inv(&self) -> bool {
        &&& valid_utf8(self@)
        &&& match &self.inner {
            InnerString::Inline { len, buf } => *len <= INLINE_CAPACITY,
            _ => true,
        }
    }

    /// The value holds its bytes inline.
    pub closed spec fn spec_is_inline(&self) -> bool {
        self.inner is Inline
    }

    /// The value owns a shared heap buffer.
    pub closed spec fn spec_is_shared_buffer(&self) -> bool {
        self.inner is ArcString || self.inner is ArcVecString
    }

    /// The value borrows text that lives for the whole program.
    pub closed spec fn spec_is_static(&self) -> bool {
        self.inner is StaticStr
    }

    /// The text of the value, as characters.
    pub open spec fn text(&self) -> Seq<char> {
        decode_utf8(self@)
    }

    /// Copies `b` into an inline buffer.
    fn inline_from(b: &[u8]) -> (r: CheetahString)
        requires
            b@.len() <= INLINE_CAPACITY,
            valid_utf8(b@),
        ensures
            r@ == b@,
            r.spec_is_inline(),
    {
        let mut buf = [0u8; INLINE_CAPACITY];
        let n = b.len();
        let mut i: usize = 0;
        while i < n
            invariant
                n == b@.len() <= INLINE_CAPACITY,
                i <= n,
                forall|j: int| 0 <= j < i ==> buf@[j] == b@[j],
            decreases n - i,
        {
            buf[i] = b[i];
            i = i + 1;
        }
        assert(buf@.subrange(0, n as int) =~= b@);
        CheetahString { inner: InnerString::Inline { len: n, buf } }
    }

    /// The empty value: inline, with no allocation.
    pub fn empty() -> (r: CheetahString)
        ensures
            r@ == Seq::<u8>::empty(),
            r.spec_is_inline(),
    {
        let buf = [0u8; INLINE_CAPACITY];
        assert(buf@.subrange(0, 0) =~= Seq::<u8>::empty());
        CheetahString { inner: InnerString::Inline { len: 0, buf } }
    }

    /// The empty value.
    pub fn new() -> (r: CheetahString)
        ensures
            r@ == Seq::<u8>::empty(),
            r.spec_is_inline(),
    {
        CheetahString::empty()
    }

    /// Borrows text that lives for the whole program: no copy, no allocation.
    pub fn from_static_str(s: &'static str) -> (r: CheetahString)
        ensures
            r@ == s.spec_bytes(),
            r.spec_is_static(),
    {
        CheetahString { inner: InnerString::StaticStr(s) }
    }

    /// Copies borrowed text: inline when it fits, else into a new shared buffer.
    pub fn from_slice(s: &str) -> (r: CheetahString)
        ensures
            r@ == s.spec_bytes(),
            r.spec_is_inline() <==> s.spec_bytes().len() <= INLINE_CAPACITY,
            !r.spec_is_inline() ==> r.spec_is_shared_buffer(),
    {
        let b = s.as_bytes();
        if b.len() <= INLINE_CAPACITY {
            CheetahString::inline_from(b)
        } else {
            CheetahString { inner: InnerString::ArcString(Arc::new(s.to_owned())) }
        }
    }

    /// Takes owned text: short text is copied inline, longer text keeps its
    /// buffer, wrapped without a second copy.
    pub fn from_string(s: String) -> (r: CheetahString)
        ensures
            r@ == encode_utf8(s@),
            r.spec_is_inline() <==> encode_utf8(s@).len() <= INLINE_CAPACITY,
            !r.spec_is_inline() ==> r.spec_is_shared_buffer(),
    {
        let b = s.as_str().as_bytes();
        if b.len() <= INLINE_CAPACITY {
            CheetahString::inline_from(b)
        } else {
            CheetahString { inner: InnerString::ArcString(Arc::new(s)) }
        }
    }

    /// Takes shared text: short text is copied inline, longer text keeps the
    /// shared buffer.
    pub fn from_arc_string(s: Arc<String>) -> (r: CheetahString)
        ensures
            r@ == encode_utf8((*s)@),
            r.spec_is_inline() <==> encode_utf8((*s)@).len() <= INLINE_CAPACITY,
            !r.spec_is_inline() ==> r.spec_is_shared_buffer(),
    {
        let b = s.as_str().as_bytes();
        if b.len() <= INLINE_CAPACITY {
            CheetahString::inline_from(b)
        } else {
            CheetahString { inner: InnerString::ArcString(s) }
        }
    }

    /// The bytes of the text, borrowed; no copy.
    pub fn as_bytes(&self) -> (r: &[u8])
        ensures
            r@ == self@,
            valid_utf8(self@),
    {
        proof {
            use_type_invariant(self);
        }
        match &self.inner {
            InnerString::Inline { len, buf } => &buf[0..*len],
            InnerString::StaticStr(s) => s.as_bytes(),
            InnerString::ArcString(s) => s.as_str().as_bytes(),
            InnerString::ArcVecString(v) => v.as_slice(),
            InnerString::Bytes(b) => buffer_as_slice(b),
        }
    }

    /// The text, borrowed; no copy.
    pub fn as_str(&self) -> (r: &str)
        ensures
            r.spec_bytes() == self@,
    {
        proof {
            use_type_invariant(self);
        }
        match &self.inner {
            InnerString::StaticStr(s) => s,
            InnerString::ArcString(s) => s.as_str(),
            _ => {
                match str_from_utf8(self.as_bytes()) {
                    Ok(s) => s,
                    Err(_) => {
                        assert(false);
                        ""
                    },
                }
            },
        }
    }

    /// Length of the text in bytes.
    pub fn len(&self) -> (r: usize)
        ensures
            r == self@.len(),
            valid_utf8(self@),
    {
        self.as_bytes().len()
    }

    /// The text is empty.
    pub fn is_empty(&self) -> (r: bool)
        ensures
            r == (self@.len() == 0),
    {
        self.len() == 0
    }

    /// The value is stored inline.
    pub fn is_inline(&self) -> (r: bool)
        ensures
            r == self.spec_is_inline(),
    {
        match &self.inner {
            InnerString::Inline { .. } => true,
            _ => false,
        }
    }
    /// Wraps owned bytes without checking them; they must be valid UTF-8.
    /// Short bytes are copied inline; longer bytes keep their buffer.
    pub fn from_vec(v: Vec<u8>) -> (r: CheetahString)
        requires
            valid_utf8(v@),
        ensures
            r@ == v@,
            r.spec_is_inline() <==> v@.len() <= INLINE_CAPACITY,
            !r.spec_is_inline() ==> r.spec_is_shared_buffer(),
    {
        if v.len() <= INLINE_CAPACITY {
            CheetahString::inline_from(v.as_slice())
        } else {
            CheetahString { inner: InnerString::ArcVecString(Arc::new(v)) }
        }
    }

    /// Wraps shared bytes without checking them; they must be valid UTF-8.
    /// Short bytes are copied inline; longer bytes keep the shared buffer.
    pub fn from_arc_vec(v: Arc<Vec<u8>>) -> (r: CheetahString)
        requires
            valid_utf8((*v)@),
        ensures
            r@ == (*v)@,
            r.spec_is_inline() <==> (*v)@.len() <= INLINE_CAPACITY,
            !r.spec_is_inline() ==> r.spec_is_shared_buffer(),
    {
        if v.len() <= INLINE_CAPACITY {
            CheetahString::inline_from(v.as_slice())
        } else {
            CheetahString { inner: InnerString::ArcVecString(v) }
        }
    }

    /// Wraps an external shared byte buffer without copying or checking it;
    /// its bytes must be valid UTF-8.
    pub fn from_bytes(b: bytes::Bytes) -> (r: CheetahString)
        requires
            valid_utf8(buffer_bytes(b)),
        ensures
            r@ == buffer_bytes(b),
    {
        CheetahString { inner: InnerString::Bytes(b) }
    }

    /// Checks that the bytes of an external shared buffer are valid UTF-8,
    /// then wraps the buffer without copying it. On failure nothing is built
    /// and the error gives the offset of the first invalid byte.
    pub fn try_from_buffer(b: bytes::Bytes) -> (r: Result<CheetahString, Error>)
        ensures
            match r {
                Ok(s) => valid_utf8(buffer_bytes(b)) && s@ == buffer_bytes(b),
                Err(e) => e matches Error::Utf8Error(u) && !valid_utf8(buffer_bytes(b))
                    && is_longest_valid_prefix(buffer_bytes(b), u.valid_up_to as int),
            },
    {
        match str_from_utf8(buffer_as_slice(&b)) {
            Ok(_) => Ok(CheetahString { inner: InnerString::Bytes(b) }),
            Err(k) => Err(Error::Utf8Error(Utf8Error { valid_up_to: k })),
        }
    }

    /// The text as an external shared buffer: a value that already holds one
    /// hands out a new handle on it, any other value copies its bytes once.
    pub fn to_bytes(&self) -> (r: bytes::Bytes)
        ensures
            buffer_bytes(r) == self@,
    {
        match &self.inner {
            InnerString::Bytes(b) => buffer_clone(b),
            _ => buffer_copy_from(self.as_bytes()),
        }
    }

    /// Checks that `b` is valid UTF-8, then copies it: inline when it fits,
    /// else into a new shared buffer. On failure nothing is built and the
    /// error gives the offset of the first invalid byte.
    pub fn try_from_bytes(b: &[u8]) -> (r: Result<CheetahString, Error>)
        ensures
            match r {
                Ok(s) => valid_utf8(b@) && s@ == b@ && (s.spec_is_inline() <==> b@.len()
                    <= INLINE_CAPACITY),
                Err(e) => e matches Error::Utf8Error(u) && !valid_utf8(b@)
                    && is_longest_valid_prefix(b@, u.valid_up_to as int),
            },
    {
        match str_from_utf8(b) {
            Ok(text) => Ok(CheetahString::from_slice(text)),
            Err(k) => Err(Error::Utf8Error(Utf8Error { valid_up_to: k })),
        }
    }

    /// Checks that `v` is valid UTF-8, then keeps it: inline when it fits,
    /// else the buffer itself, without a copy. On failure nothing is built
    /// and the error gives the offset of the first invalid byte.
    pub fn try_from_vec(v: Vec<u8>) -> (r: Result<CheetahString, Error>)
        ensures
            match r {
                Ok(s) => valid_utf8(v@) && s@ == v@ && (s.spec_is_inline() <==> v@.len()
                    <= INLINE_CAPACITY),
                Err(e) => e matches Error::Utf8Error(u) && !valid_utf8(v@)
                    && is_longest_valid_prefix(v@, u.valid_up_to as int),
            },
    {
        match str_from_utf8(v.as_slice()) {
            Ok(_) => {
                if v.len() <= INLINE_CAPACITY {
                    Ok(CheetahString::inline_from(v.as_slice()))
                } else {
                    Ok(CheetahString { inner: InnerString::ArcVecString(Arc::new(v)) })
                }
            },
            Err(k) => Err(Error::Utf8Error(Utf8Error { valid_up_to: k })),
        }
    }

    /// A copy of the text in a new owned `String`, whatever the variant.
    pub fn to_owned_string(&self) -> (r: String)
        ensures
            encode_utf8(r@) == self@,
    {
        self.as_str().to_owned()
    }

    /// The text of one character, inline.
    pub fn from_char(c: char) -> (r: CheetahString)
        ensures
            r@ == encode_utf8(seq![c]),
            r.spec_is_inline(),
    {
        let v = encode_char(c);
        CheetahString::inline_from(v.as_slice())
    }

    /// A copy of the bytes from `start` up to `end`. Both offsets must lie on
    /// character boundaries, in order, within the text.
    pub fn substring(&self, start: usize, end: usize) -> (r: CheetahString)
        requires
            start <= end <= self@.len(),
            is_char_boundary(self@, start as int),
            is_char_boundary(self@, end as int),
        ensures
            r@ == self@.subrange(start as int, end as int),
    {
        proof {
            use_type_invariant(self);
        }
        let text = self.as_str();
        let (_, rest) = text.split_at(start);
        proof {
            let h = self@;
            let t = rest.spec_bytes();
            assert(t == h.subrange(start as int, h.len() as int));
            valid_utf8_split(h, start as int);
            if end < h.len() {
                assert(t[end - start] == h[end as int]);
                is_char_boundary_iff_not_is_continuation_byte(h, end as int);
                is_char_boundary_iff_not_is_continuation_byte(t, (end - start) as int);
            } else {
                is_char_boundary_start_end_of_seq(t);
            }
            assert(is_char_boundary(t, (end - start) as int));
        }
        let (mid, _) = rest.split_at(end - start);
        proof {
            assert(mid.spec_bytes() =~= self@.subrange(start as int, end as int));
        }
        CheetahString::from_slice(mid)
    }

    /// A copy of the bytes from `start` up to `end`, or the reason there is
    /// none: an offset past the text or past `end`, or one inside a character.
    pub fn try_substring(&self, start: usize, end: usize) -> (r: Result<CheetahString, Error>)
        ensures
            end > self@.len() ==> r == Err::<CheetahString, Error>(
                Error::IndexOutOfBounds { index: end, len: self@.len() as usize },
            ),
            end <= self@.len() && start > end ==> r == Err::<CheetahString, Error>(
                Error::IndexOutOfBounds { index: start, len: end },
            ),
            start <= end <= self@.len() && !is_char_boundary(self@, start as int) ==> r == Err::<
                CheetahString,
                Error,
            >(Error::InvalidCharBoundary { index: start }),
            start <= end <= self@.len() && is_char_boundary(self@, start as int)
                && !is_char_boundary(self@, end as int) ==> r == Err::<CheetahString, Error>(
                Error::InvalidCharBoundary { index: end },
            ),
            start <= end <= self@.len() && is_char_boundary(self@, start as int) && is_char_boundary(
                self@,
                end as int,
            ) ==> (r matches Ok(s) && s@ == self@.subrange(start as int, end as int)),
    {
        let len = self.len();
        if end > len {
            return Err(Error::IndexOutOfBounds { index: end, len });
        }
        if start > end {
            return Err(Error::IndexOutOfBounds { index: start, len: end });
        }
        let text = self.as_str();
        if !text.is_char_boundary(start) {
            return Err(Error::InvalidCharBoundary { index: start });
        }
        if !text.is_char_boundary(end) {
            return Err(Error::InvalidCharBoundary { index: end });
        }
        Ok(self.substring(start, end))
    }

    /// Makes room for `additional` more bytes, keeping the text. A shared
    /// buffer that no other value refers to grows in place; any other value
    /// moves, once, to a new buffer with the room asked for.
    pub fn reserve(&mut self, additional: usize)
        requires
            old(self)@.len() + additional <= isize::MAX,
        ensures
            final(self)@ == old(self)@,
            additional > 0 ==> final(self).spec_is_shared_buffer(),
            additional == 0 ==> *final(self) == *old(self),
    {
        if additional == 0 {
            return;
        }
        let mut owned = CheetahString::empty();
        std::mem::swap(self, &mut owned);
        proof {
            use_type_invariant(&owned);
        }
        let ghost before = owned@;
        let grown = match owned.inner {
            InnerString::ArcString(arc) => {
                match arc_try_unwrap(arc) {
                    Ok(text) => {
                        let mut text = text;
                        string_reserve(&mut text, additional);
                        CheetahString { inner: InnerString::ArcString(Arc::new(text)) }
                    },
                    Err(arc) => CheetahString::with_room(arc.as_str().as_bytes(), additional),
                }
            },
            InnerString::ArcVecString(arc) => {
                match arc_try_unwrap(arc) {
                    Ok(v) => {
                        let mut v = v;
                        v.reserve(additional);
                        CheetahString { inner: InnerString::ArcVecString(Arc::new(v)) }
                    },
                    Err(arc) => CheetahString::with_room(arc.as_slice(), additional),
                }
            },
            InnerString::Bytes(b) => CheetahString::with_room(buffer_as_slice(&b), additional),
            InnerString::StaticStr(t) => CheetahString::with_room(t.as_bytes(), additional),
            InnerString::Inline { len, buf } => CheetahString::with_room(&buf[0..len], additional),
        };
        assert(grown@ == before);
        *self = grown;
    }

    /// A new shared buffer holding `b`, with room for `additional` more bytes.
    fn with_room(b: &[u8], additional: usize) -> (r: CheetahString)
        requires
            valid_utf8(b@),
            b@.len() + additional <= isize::MAX,
        ensures
            r@ == b@,
            r.spec_is_shared_buffer(),
    {
        let mut v: Vec<u8> = Vec::with_capacity(b.len() + additional);
        extend_bytes(&mut v, b);
        assert(v@ =~= b@);
        CheetahString { inner: InnerString::ArcVecString(Arc::new(v)) }
    }

    /// Appends `s`. Text that still fits stays inline; a shared buffer that no
    /// other value refers to grows in place; otherwise a new buffer is
    /// allocated for the whole result and the old one is released. Other
    /// values that shared the old buffer keep their text.
    pub fn push_str(&mut self, s: &str)
        ensures
            final(self)@ == old(self)@ + s.spec_bytes(),
            s.spec_bytes().len() == 0 ==> *final(self) == *old(self),
            0 < s.spec_bytes().len() && old(self)@.len() + s.spec_bytes().len() <= INLINE_CAPACITY
                ==> final(self).spec_is_inline(),
            0 < s.spec_bytes().len() && old(self)@.len() + s.spec_bytes().len() > INLINE_CAPACITY
                ==> final(self).spec_is_shared_buffer(),
    {
        proof {
            use_type_invariant(&*self);
        }
        let add = s.as_bytes();
        if add.len() == 0 {
            assert(self@ + add@ =~= self@);
            return;
        }
        let cur = self.len();
        if add.len() <= INLINE_CAPACITY && cur <= INLINE_CAPACITY - add.len() {
            let joined = concat_bytes(self.as_bytes(), add);
            *self = CheetahString::inline_from(joined.as_slice());
            return;
        }
        let mut owned = CheetahString::empty();
        std::mem::swap(self, &mut owned);
        proof {
            use_type_invariant(&owned);
        }
        let ghost before = owned@;
        let joined = match owned.inner {
            InnerString::ArcString(arc) => {
                match arc_try_unwrap(arc) {
                    Ok(text) => {
                        let mut text = text;
                        let ghost t0 = text@;
                        text.append(s);
                        proof {
                            lemma_encode_concat(t0, s@);
                        }
                        CheetahString { inner: InnerString::ArcString(Arc::new(text)) }
                    },
                    Err(arc) => {
                        let v = concat_bytes(arc.as_str().as_bytes(), add);
                        CheetahString { inner: InnerString::ArcVecString(Arc::new(v)) }
                    },
                }
            },
            InnerString::ArcVecString(arc) => {
                match arc_try_unwrap(arc) {
                    Ok(v) => {
                        let mut v = v;
                        extend_bytes(&mut v, add);
                        CheetahString { inner: InnerString::ArcVecString(Arc::new(v)) }
                    },
                    Err(arc) => {
                        let v = concat_bytes(arc.as_slice(), add);
                        CheetahString { inner: InnerString::ArcVecString(Arc::new(v)) }
                    },
                }
            },
            InnerString::Bytes(b) => {
                let v = concat_bytes(buffer_as_slice(&b), add);
                CheetahString { inner: InnerString::ArcVecString(Arc::new(v)) }
            },
            InnerString::StaticStr(t) => {
                let v = concat_bytes(t.as_bytes(), add);
                CheetahString { inner: InnerString::ArcVecString(Arc::new(v)) }
            },
            InnerString::Inline { len, buf } => {
                let v = concat_bytes(&buf[0..len], add);
                CheetahString { inner: InnerString::ArcVecString(Arc::new(v)) }
            },
        };
        assert(joined@ == before + add@);
        *self = joined;
    }
}

impl Clone for CheetahString {
    /// A new value with the same text; a shared buffer is shared once more,
    /// never copied.
    fn clone(&self) -> (r: CheetahString)
        ensures
            r@ == self@,
    {
        proof {
            use_type_invariant(self);
        }
        match &self.inner {
            InnerString::Inline { len, buf } => CheetahString {
                inner: InnerString::Inline { len: *len, buf: *buf },
            },
            InnerString::StaticStr(s) => CheetahString { inner: InnerString::StaticStr(s) },
            InnerString::ArcString(a) => CheetahString {
                inner: InnerString::ArcString(arc_clone(a)),
            },
            InnerString::ArcVecString(a) => CheetahString {
                inner: InnerString::ArcVecString(arc_clone(a)),
            },
            InnerString::Bytes(b) => CheetahString { inner: InnerString::Bytes(buffer_clone(b)) },
        }
    }
}

} // verus!
