//! Laws that relate several operations of `CheetahString`.
use vstd::prelude::*;
use vstd::std_specs::cmp::{PartialEqSpec, PartialOrdSpec};
use vstd::string::StringSliceAdditionalSpecFns;
use vstd::utf8::*;

use crate::cheetah_string::CheetahString;
use crate::search::lex_cmp;

verus! {

broadcast use vstd::utf8::group_utf8_lib;

/// Every byte string is ordered equal to itself.
pub proof fn lemma_lex_cmp_reflexive(a: Seq<u8>)
    ensures
        lex_cmp(a, a) == core::cmp::Ordering::Equal,
    decreases a.len(),
{
    if a.len() > 0 {
        lemma_lex_cmp_reflexive(a.drop_first());
    }
}

/// Round trip: a value built from the text `t` (borrowed, as `from_slice`
/// builds it, or owned, as `from_string` does, both of which give the value
/// the bytes of `t`) holds the text `t`, and any text read back from it is `t`.
pub proof fn lemma_round_trip(t: &str, v: CheetahString)
    requires
        v@ == t.spec_bytes(),
    ensures
        v.text() == t@,
        forall|back: &str| #[trigger] back.spec_bytes() == v@ ==> back@ == t@,
{
    assert forall|back: &str| #[trigger] back.spec_bytes() == v@ implies back@ == t@ by {
        encode_utf8_decode_utf8(back@);
        encode_utf8_decode_utf8(t@);
    }
}

/// Equality and order look at the text alone: two values with the same text,
/// one inline and one in a shared buffer or in any other storage, are equal,
/// compare equal, and compare alike against every third value; and the order
/// is that of the texts' bytes.
pub proof fn lemma_storage_independent(a: CheetahString, b: CheetahString, c: CheetahString)
    requires
        a@ == b@,
    ensures
        a.eq_spec(&b),
        a.partial_cmp_spec(&b) == Some(core::cmp::Ordering::Equal),
        a.partial_cmp_spec(&c) == b.partial_cmp_spec(&c),
        c.partial_cmp_spec(&a) == c.partial_cmp_spec(&b),
        a.partial_cmp_spec(&c) == Some(lex_cmp(a@, c@)),
{
    lemma_lex_cmp_reflexive(a@);
}

} // verus!
