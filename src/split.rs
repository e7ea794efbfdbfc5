//! Splitting a text at the occurrences of a pattern.
use vstd::prelude::*;
use vstd::string::StringSliceAdditionalSpecFns;
use vstd::utf8::*;

use crate::cheetah_string::CheetahString;
use crate::error::Error;
use crate::pattern::StrPattern;
use crate::search::{find_bytes, find_first, lemma_find_from, matches_at};

verus! {

broadcast use vstd::utf8::group_utf8_lib;

/// The pieces of `h` between the successive non-overlapping occurrences of a
/// non-empty pattern `p`, found from the left.
pub open spec fn split_nonempty(h: Seq<u8>, p: Seq<u8>) -> Seq<Seq<u8>>
    decreases h.len(),
{
    match find_first(h, p) {
        Some(i) => if 0 < p.len() && 0 <= i && i + p.len() <= h.len() {
            seq![h.subrange(0, i)] + split_nonempty(h.subrange(i + p.len(), h.len() as int), p)
        } else {
            seq![h]
        },
        None => seq![h],
    }
}

/// The encodings of the successive characters of `h`.
pub open spec fn scalar_pieces(h: Seq<u8>) -> Seq<Seq<u8>>
    decreases h.len(),
{
    if h.len() == 0 {
        seq![]
    } else {
        let k = length_of_first_scalar(h);
        if 0 < k <= h.len() {
            seq![h.subrange(0, k)] + scalar_pieces(h.subrange(k, h.len() as int))
        } else {
            seq![h]
        }
    }
}

/// The pieces of `h` split at `p`. An empty pattern matches before, between
/// and after the characters, so each character is a piece, with an empty
/// piece at either end; an empty text is one empty piece whatever the pattern.
pub open spec fn split_pieces(h: Seq<u8>, p: Seq<u8>) -> Seq<Seq<u8>> {
    if h.len() == 0 {
        seq![Seq::<u8>::empty()]
    } else if p.len() == 0 {
        seq![Seq::<u8>::empty()] + scalar_pieces(h) + seq![Seq::<u8>::empty()]
    } else {
        split_nonempty(h, p)
    }
}

/// The bytes of each of a sequence of texts.
pub open spec fn pieces_bytes<'a>(s: Seq<&'a str>) -> Seq<Seq<u8>> {
    s.map_values(|t: &'a str| t.spec_bytes())
}

/// A valid pattern that starts a valid text ends on a character boundary.
proof fn lemma_prefix_boundary(s: Seq<u8>, p: Seq<u8>)
    requires
        valid_utf8(s),
        valid_utf8(p),
        p.len() <= s.len(),
        s.subrange(0, p.len() as int) == p,
    ensures
        is_char_boundary(s, p.len() as int),
    decreases p.len(),
{
    if p.len() > 0 {
        assert(s[0] == s.subrange(0, p.len() as int)[0]);
        let k = length_of_first_scalar(p);
        assert(length_of_first_scalar(s) == k);
        let s2 = pop_first_scalar(s);
        let p2 = pop_first_scalar(p);
        assert forall|j: int| 0 <= j < p2.len() implies s2.subrange(0, p2.len() as int)[j]
            == p2[j] by {
            assert(s2[j] == s[j + k]);
            assert(p2[j] == p[j + k]);
            assert(s.subrange(0, p.len() as int)[j + k] == s[j + k]);
        }
        assert(s2.subrange(0, p2.len() as int) =~= p2);
        lemma_prefix_boundary(s2, p2);
    }
}

/// An occurrence of a valid non-empty pattern in a valid text starts and ends
/// on character boundaries.
proof fn lemma_match_boundaries(h: Seq<u8>, p: Seq<u8>, i: int)
    requires
        valid_utf8(h),
        valid_utf8(p),
        p.len() > 0,
        matches_at(h, p, i),
    ensures
        is_char_boundary(h, i),
        is_char_boundary(h.subrange(i, h.len() as int), p.len() as int),
{
    assert(h[i] == h.subrange(i, i + p.len())[0]);
    assert(is_char_boundary(h, i));
    let tail = h.subrange(i, h.len() as int);
    assert(valid_utf8(tail));
    assert(tail.subrange(0, p.len() as int) =~= h.subrange(i, i + p.len()));
    lemma_prefix_boundary(tail, p);
}

/// Splits `text` at each occurrence of the non-empty pattern `p`: find the
/// next occurrence, take the text before it, move past it; at the end, take
/// what is left.
fn split_at_matches<'a>(text: &'a str, p: &[u8]) -> (r: Vec<&'a str>)
    requires
        p@.len() > 0,
        valid_utf8(p@),
    ensures
        pieces_bytes(r@) == split_nonempty(text.spec_bytes(), p@),
{
    let mut pieces: Vec<&'a str> = Vec::new();
    let mut rest: &'a str = text;
    loop
        invariant
            p@.len() > 0,
            valid_utf8(p@),
            pieces_bytes(pieces@) + split_nonempty(rest.spec_bytes(), p@) == split_nonempty(
                text.spec_bytes(),
                p@,
            ),
        decreases rest.spec_bytes().len(),
    {
        let hb = rest.as_bytes();
        match find_bytes(hb, p) {
            None => {
                proof {
                    assert(split_nonempty(rest.spec_bytes(), p@) == seq![rest.spec_bytes()]);
                    assert(pieces_bytes(pieces@.push(rest)) =~= pieces_bytes(pieces@) + seq![
                        rest.spec_bytes(),
                    ]);
                }
                pieces.push(rest);
                return pieces;
            },
            Some(i) => {
                proof {
                    lemma_find_from(hb@, p@, 0);
                    lemma_match_boundaries(hb@, p@, i as int);
                }
                let (head, tail) = rest.split_at(i);
                let (_, after) = tail.split_at(p.len());
                proof {
                    let h = rest.spec_bytes();
                    assert(after.spec_bytes() =~= h.subrange(i + p@.len(), h.len() as int));
                    assert(split_nonempty(h, p@) == seq![head.spec_bytes()] + split_nonempty(
                        after.spec_bytes(),
                        p@,
                    ));
                    assert(pieces_bytes(pieces@.push(head)) =~= pieces_bytes(pieces@) + seq![
                        head.spec_bytes(),
                    ]);
                    assert(pieces_bytes(pieces@.push(head)) + split_nonempty(after.spec_bytes(), p@)
                        =~= pieces_bytes(pieces@) + split_nonempty(h, p@));
                }
                pieces.push(head);
                rest = after;
            },
        }
    }
}

/// Byte length of the character whose encoding starts with `b`.
fn scalar_width(b: u8) -> (r: usize)
    ensures
        r == length_of_first_codepoint(seq![b]),
{
    if b <= 0x7f {
        1
    } else if 0xc0 <= b && b <= 0xdf {
        2
    } else if 0xe0 <= b && b <= 0xef {
        3
    } else {
        4
    }
}

/// The successive characters of `text`, each as a text of its own.
fn split_scalars<'a>(text: &'a str) -> (r: Vec<&'a str>)
    ensures
        pieces_bytes(r@) == scalar_pieces(text.spec_bytes()),
{
    let mut pieces: Vec<&'a str> = Vec::new();
    let mut rest: &'a str = text;
    loop
        invariant
            pieces_bytes(pieces@) + scalar_pieces(rest.spec_bytes()) == scalar_pieces(
                text.spec_bytes(),
            ),
        decreases rest.spec_bytes().len(),
    {
        let hb = rest.as_bytes();
        if hb.len() == 0 {
            assert(pieces_bytes(pieces@) + scalar_pieces(rest.spec_bytes()) =~= pieces_bytes(
                pieces@,
            ));
            return pieces;
        }
        let k = scalar_width(hb[0]);
        proof {
            let h = rest.spec_bytes();
            assert(k == length_of_first_scalar(h));
            reveal_with_fuel(is_char_boundary, 2);
            assert(is_char_boundary(h, k as int));
        }
        let (head, after) = rest.split_at(k);
        proof {
            let h = rest.spec_bytes();
            assert(scalar_pieces(h) == seq![head.spec_bytes()] + scalar_pieces(after.spec_bytes()));
            assert(pieces_bytes(pieces@.push(head)) =~= pieces_bytes(pieces@) + seq![
                head.spec_bytes(),
            ]);
            assert(pieces_bytes(pieces@.push(head)) + scalar_pieces(after.spec_bytes())
                =~= pieces_bytes(pieces@) + scalar_pieces(h));
        }
        pieces.push(head);
        rest = after;
    }
}

/// The pieces of a text split at a pattern, handed out from the front, and
/// from the back when the pattern is a single character.
pub struct Split<'a> {
    pieces: Vec<&'a str>,
    front: usize,
    back: usize,
    reversible: bool,
}

impl<'a> Split<'a> {
    #[verifier::type_invariant]
    closed spec fn inv(&self) -> bool {
        self.front <= self.back <= self.pieces@.len()
    }

    /// The bytes of the pieces not handed out yet, in order.
    pub closed spec fn remaining(&self) -> Seq<Seq<u8>> {
        pieces_bytes(self.pieces@.subrange(self.front as int, self.back as int))
    }

    /// Pieces may be taken from the back.
    pub closed spec fn spec_reversible(&self) -> bool {
        self.reversible
    }

    /// Pieces may be taken from the back: the pattern was a single character.
    pub fn is_reversible(&self) -> (r: bool)
        ensures
            r == self.spec_reversible(),
    {
        self.reversible
    }

    /// Hands out the first piece not handed out yet.
    pub fn next(&mut self) -> (r: Option<&'a str>)
        ensures
            final(self).spec_reversible() == old(self).spec_reversible(),
            old(self).remaining().len() == 0 ==> r is None && final(self).remaining()
                == old(self).remaining(),
            old(self).remaining().len() > 0 ==> (r matches Some(t) && t.spec_bytes() == old(
                self,
            ).remaining()[0] && final(self).remaining() == old(self).remaining().drop_first()),
    {
        proof {
            use_type_invariant(&*self);
        }
        if self.front < self.back {
            let t = self.pieces[self.front];
            let ghost before = self.pieces@.subrange(self.front as int, self.back as int);
            self.front = self.front + 1;
            assert(self.pieces@.subrange(self.front as int, self.back as int) =~= before.drop_first());
            assert(pieces_bytes(before.drop_first()) =~= pieces_bytes(before).drop_first());
            Some(t)
        } else {
            None
        }
    }

    /// Hands out the last piece not handed out yet. A split by a string
    /// pattern only runs forwards: asking it for a piece from the back is
    /// refused with an error, and nothing is handed out.
    pub fn next_back(&mut self) -> (r: Result<Option<&'a str>, Error>)
        ensures
            final(self).spec_reversible() == old(self).spec_reversible(),
            !old(self).spec_reversible() ==> r == Err::<Option<&'a str>, Error>(
                Error::ReverseSplitUnsupported,
            ) && final(self).remaining() == old(self).remaining(),
            old(self).spec_reversible() && old(self).remaining().len() == 0 ==> r == Ok::<
                Option<&'a str>,
                Error,
            >(None) && final(self).remaining() == old(self).remaining(),
            old(self).spec_reversible() && old(self).remaining().len() > 0 ==> (r matches Ok(
                Some(t),
            ) && t.spec_bytes() == old(self).remaining().last() && final(self).remaining() == old(
                self,
            ).remaining().drop_last()),
    {
        proof {
            use_type_invariant(&*self);
        }
        if !self.reversible {
            return Err(Error::ReverseSplitUnsupported);
        }
        if self.front < self.back {
            let t = self.pieces[self.back - 1];
            let ghost before = self.pieces@.subrange(self.front as int, self.back as int);
            self.back = self.back - 1;
            assert(self.pieces@.subrange(self.front as int, self.back as int) =~= before.drop_last());
            assert(pieces_bytes(before.drop_last()) =~= pieces_bytes(before).drop_last());
            Ok(Some(t))
        } else {
            Ok(None)
        }
    }

    /// The pieces not handed out yet, in order.
    pub fn collect(self) -> (r: Vec<&'a str>)
        ensures
            pieces_bytes(r@) == self.remaining(),
    {
        proof {
            use_type_invariant(&self);
        }
        let mut out: Vec<&'a str> = Vec::new();
        let mut i: usize = self.front;
        while i < self.back
            invariant
                self.front <= i <= self.back <= self.pieces@.len(),
                out@ == self.pieces@.subrange(self.front as int, i as int),
            decreases self.back - i,
        {
            out.push(self.pieces[i]);
            assert(self.pieces@.subrange(self.front as int, i + 1) =~= self.pieces@.subrange(
                self.front as int,
                i as int,
            ).push(self.pieces@[i as int]));
            i = i + 1;
        }
        out
    }

    /// The pieces not handed out yet, last first. Refused, with nothing handed
    /// out, for a split by a string pattern.
    pub fn rev(self) -> (r: Result<Vec<&'a str>, Error>)
        ensures
            !self.spec_reversible() ==> r == Err::<Vec<&'a str>, Error>(
                Error::ReverseSplitUnsupported,
            ),
            self.spec_reversible() ==> (r matches Ok(v) && pieces_bytes(v@)
                == self.remaining().reverse()),
    {
        proof {
            use_type_invariant(&self);
        }
        if !self.reversible {
            return Err(Error::ReverseSplitUnsupported);
        }
        let mut out: Vec<&'a str> = Vec::new();
        let mut i: usize = self.back;
        while i > self.front
            invariant
                self.front <= i <= self.back <= self.pieces@.len(),
                out@ == self.pieces@.subrange(i as int, self.back as int).reverse(),
            decreases i,
        {
            out.push(self.pieces[i - 1]);
            assert(self.pieces@.subrange(i - 1, self.back as int).reverse() =~= self.pieces@.subrange(
                i as int,
                self.back as int,
            ).reverse().push(self.pieces@[i - 1]));
            i = i - 1;
        }
        assert(pieces_bytes(out@) =~= self.remaining().reverse());
        Ok(out)
    }
}

impl CheetahString {
    /// Splits the text at each occurrence of the pattern, from the left.
    /// With an empty pattern every character is a piece, between an empty
    /// first and an empty last piece; an empty text gives one empty piece.
    /// Pieces can be taken from the back only when the pattern is a character.
    pub fn split<P: StrPattern>(&self, pat: P) -> (r: Split<'_>)
        ensures
            r.remaining() == split_pieces(self@, pat.pattern_view()),
            r.spec_reversible() == pat.spec_is_char(),
    {
        let text = self.as_str();
        let p = pat.pattern_bytes();
        let pieces: Vec<&str>;
        if text.as_bytes().len() == 0 {
            let mut one: Vec<&str> = Vec::new();
            one.push(text);
            assert(text.spec_bytes() =~= Seq::<u8>::empty());
            assert(pieces_bytes(one@) =~= seq![Seq::<u8>::empty()]);
            pieces = one;
        } else if p.len() == 0 {
            let inner = split_scalars(text);
            let mut all: Vec<&str> = Vec::new();
            let (empty, _) = text.split_at(0);
            all.push(empty);
            let mut i: usize = 0;
            while i < inner.len()
                invariant
                    i <= inner@.len(),
                    all@ == seq![empty] + inner@.subrange(0, i as int),
                decreases inner@.len() - i,
            {
                all.push(inner[i]);
                assert(inner@.subrange(0, i + 1) =~= inner@.subrange(0, i as int).push(inner@[i as int]));
                i = i + 1;
            }
            all.push(empty);
            assert(inner@.subrange(0, inner@.len() as int) =~= inner@);
            assert(empty.spec_bytes() =~= Seq::<u8>::empty());
            assert(pieces_bytes(all@) =~= seq![Seq::<u8>::empty()] + pieces_bytes(inner@) + seq![
                Seq::<u8>::empty(),
            ]);
            pieces = all;
        } else {
            pieces = split_at_matches(text, p.as_slice());
        }
        let n = pieces.len();
        assert(pieces@.subrange(0, n as int) =~= pieces@);
        Split { pieces, front: 0, back: n, reversible: pat.is_char() }
    }
}

} // verus!
