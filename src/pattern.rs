//! Patterns, and the queries that take one: prefix, suffix, containment and
//! search.
use vstd::prelude::*;
use vstd::string::StringSliceAdditionalSpecFns;
use vstd::utf8::*;

use crate::cheetah_string::{extend_bytes, CheetahString};
use crate::search::{
    ends_with_bytes, find_bytes, find_first, find_last, has_prefix, has_suffix, offset_of,
    rfind_bytes, starts_with_bytes,
};

verus! {

broadcast use vstd::utf8::group_utf8_lib;

/// The UTF-8 encoding of one character.
pub fn encode_char(c: char) -> (r: Vec<u8>)
    ensures
        r@ == encode_utf8(seq![c]),
        1 <= r@.len() <= 4,
{
    let v = c as u32;
    proof {
        assert(encode_utf8(seq![c]) =~= encode_scalar(v) + encode_utf8(seq![c].drop_first()));
        assert(seq![c].drop_first() =~= Seq::<char>::empty());
        assert(encode_utf8(seq![c]) =~= encode_scalar(v));
    }
    let mut out: Vec<u8> = Vec::with_capacity(4);
    if v <= 0x7F {
        out.push((v & 0x7F) as u8);
    } else if v <= 0x7FF {
        out.push(0xC0 | ((v >> 6) & 0x1F) as u8);
        out.push(0x80 | (v & 0x3F) as u8);
    } else if v <= 0xFFFF {
        out.push(0xE0 | ((v >> 12) & 0x0F) as u8);
        out.push(0x80 | ((v >> 6) & 0x3F) as u8);
        out.push(0x80 | (v & 0x3F) as u8);
    } else {
        out.push(0xF0 | ((v >> 18) & 0x7) as u8);
        out.push(0x80 | ((v >> 12) & 0x3F) as u8);
        out.push(0x80 | ((v >> 6) & 0x3F) as u8);
        out.push(0x80 | (v & 0x3F) as u8);
    }
    assert(out@ =~= encode_scalar(v));
    out
}

/// A copy of the bytes of `s`.
fn bytes_of(s: &str) -> (r: Vec<u8>)
    ensures
        r@ == s.spec_bytes(),
{
    let mut v: Vec<u8> = Vec::new();
    extend_bytes(&mut v, s.as_bytes());
    assert(v@ =~= s.spec_bytes());
    v
}

/// Something to search for in a text: a character or a string.
pub trait StrPattern {
    /// The bytes that the pattern matches.
    spec fn pattern_view(&self) -> Seq<u8>;

    /// The pattern is a single character.
    spec fn spec_is_char(&self) -> bool;

    /// The bytes that the pattern matches; always valid UTF-8.
    fn pattern_bytes(&self) -> (r: Vec<u8>)
        ensures
            r@ == self.pattern_view(),
            valid_utf8(r@),
    ;

    /// The pattern is a single character.
    fn is_char(&self) -> (r: bool)
        ensures
            r == self.spec_is_char(),
    ;
}

impl StrPattern for char {
    open spec fn pattern_view(&self) -> Seq<u8> {
        encode_utf8(seq![*self])
    }

    open spec fn spec_is_char(&self) -> bool {
        true
    }

    fn pattern_bytes(&self) -> (r: Vec<u8>) {
        encode_char(*self)
    }

    fn is_char(&self) -> (r: bool) {
        true
    }
}

impl<'a> StrPattern for &'a str {
    open spec fn pattern_view(&self) -> Seq<u8> {
        (**self).spec_bytes()
    }

    open spec fn spec_is_char(&self) -> bool {
        false
    }

    fn pattern_bytes(&self) -> (r: Vec<u8>) {
        bytes_of(*self)
    }

    fn is_char(&self) -> (r: bool) {
        false
    }
}

impl<'a> StrPattern for &'a String {
    open spec fn pattern_view(&self) -> Seq<u8> {
        encode_utf8((**self)@)
    }

    open spec fn spec_is_char(&self) -> bool {
        false
    }

    fn pattern_bytes(&self) -> (r: Vec<u8>) {
        bytes_of(self.as_str())
    }

    fn is_char(&self) -> (r: bool) {
        false
    }
}

impl StrPattern for String {
    open spec fn pattern_view(&self) -> Seq<u8> {
        encode_utf8(self@)
    }

    open spec fn spec_is_char(&self) -> bool {
        false
    }

    fn pattern_bytes(&self) -> (r: Vec<u8>) {
        bytes_of(self.as_str())
    }

    fn is_char(&self) -> (r: bool) {
        false
    }
}

impl<'a> StrPattern for &'a CheetahString {
    open spec fn pattern_view(&self) -> Seq<u8> {
        (**self)@
    }

    open spec fn spec_is_char(&self) -> bool {
        false
    }

    fn pattern_bytes(&self) -> (r: Vec<u8>) {
        bytes_of(self.as_str())
    }

    fn is_char(&self) -> (r: bool) {
        false
    }
}

/// The bytes of a sequence of text fragments, one after another.
pub open spec fn fragments_bytes<P: StrPattern>(parts: Seq<P>) -> Seq<u8> {
    parts.map_values(|p: P| p.pattern_view()).flatten()
}

impl CheetahString {
    /// The text made of the fragments one after another: inline when it
    /// fits, else in one new shared buffer.
    pub fn from_fragments<P: StrPattern>(parts: &[P]) -> (r: CheetahString)
        ensures
            r@ == fragments_bytes(parts@),
    {
        let mut v: Vec<u8> = Vec::new();
        let n = parts.len();
        let mut i: usize = 0;
        assert(parts@.subrange(0, 0).map_values(|p: P| p.pattern_view()) =~= Seq::<Seq<u8>>::empty());
        while i < n
            invariant
                n == parts@.len(),
                i <= n,
                valid_utf8(v@),
                v@ == fragments_bytes(parts@.subrange(0, i as int)),
            decreases n - i,
        {
            let piece = parts[i].pattern_bytes();
            let ghost before = v@;
            extend_bytes(&mut v, piece.as_slice());
            proof {
                let f = |p: P| p.pattern_view();
                assert(parts@.subrange(0, i + 1).map_values(f) =~= parts@.subrange(0, i as int).map_values(
                    f,
                ).push(parts@[i as int].pattern_view()));
                parts@.subrange(0, i as int).map_values(f).lemma_flatten_push(
                    parts@[i as int].pattern_view(),
                );
            }
            i = i + 1;
        }
        assert(parts@.subrange(0, n as int) =~= parts@);
        match CheetahString::try_from_vec(v) {
            Ok(s) => s,
            Err(_) => {
                assert(false);
                CheetahString::empty()
            },
        }
    }

    /// The text begins with the pattern.
    pub fn starts_with<P: StrPattern>(&self, pat: P) -> (r: bool)
        ensures
            r == has_prefix(self@, pat.pattern_view()),
    {
        let p = pat.pattern_bytes();
        starts_with_bytes(self.as_bytes(), p.as_slice())
    }

    /// The text ends with the pattern.
    pub fn ends_with<P: StrPattern>(&self, pat: P) -> (r: bool)
        ensures
            r == has_suffix(self@, pat.pattern_view()),
    {
        let p = pat.pattern_bytes();
        ends_with_bytes(self.as_bytes(), p.as_slice())
    }

    /// The pattern occurs somewhere in the text.
    pub fn contains<P: StrPattern>(&self, pat: P) -> (r: bool)
        ensures
            r == find_first(self@, pat.pattern_view()) is Some,
    {
        let p = pat.pattern_bytes();
        find_bytes(self.as_bytes(), p.as_slice()).is_some()
    }

    /// Byte offset of the first occurrence of the pattern.
    pub fn find<P: StrPattern>(&self, pat: P) -> (r: Option<usize>)
        ensures
            offset_of(r) == find_first(self@, pat.pattern_view()),
    {
        let p = pat.pattern_bytes();
        find_bytes(self.as_bytes(), p.as_slice())
    }

    /// Byte offset of the last occurrence of the pattern.
    pub fn rfind<P: StrPattern>(&self, pat: P) -> (r: Option<usize>)
        ensures
            offset_of(r) == find_last(self@, pat.pattern_view()),
    {
        let p = pat.pattern_bytes();
        rfind_bytes(self.as_bytes(), p.as_slice())
    }
}

} // verus!
