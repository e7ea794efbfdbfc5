//! The standard traits of `CheetahString`: comparison, hashing, borrowing
//! and conversion, all defined over the text, never over the variant.
use std::borrow::Cow;
use std::sync::Arc;
use vstd::prelude::*;
use vstd::string::StringSliceAdditionalSpecFns;
use vstd::pervasive::arbitrary;
use vstd::std_specs::convert::FromSpecImpl;
use vstd::std_specs::ops::AddSpecImpl;
use vstd::utf8::*;

use crate::cheetah_string::CheetahString;
use crate::search::{compare_bytes, eq_bytes, lex_cmp};

verus! {

impl Default for CheetahString {
    /// The empty value.
    fn default() -> (r: CheetahString)
        ensures
            r@ == Seq::<u8>::empty(),
    {
        CheetahString::empty()
    }
}

impl PartialEq for CheetahString {
    /// Equal texts, byte for byte, whatever the variants.
    fn eq(&self, other: &CheetahString) -> (r: bool)
        ensures
            r == (self@ == other@),
    {
        eq_bytes(self.as_bytes(), other.as_bytes())
    }
}

impl vstd::std_specs::cmp::PartialEqSpecImpl for CheetahString {
    open spec fn obeys_eq_spec() -> bool {
        true
    }

    open spec fn eq_spec(&self, other: &CheetahString) -> bool {
        self@ == other@
    }
}

impl Eq for CheetahString {

}

impl PartialEq<str> for CheetahString {
    fn eq(&self, other: &str) -> (r: bool)
        ensures
            r == (self@ == other.spec_bytes()),
    {
        eq_bytes(self.as_bytes(), other.as_bytes())
    }
}

impl vstd::std_specs::cmp::PartialEqSpecImpl<str> for CheetahString {
    open spec fn obeys_eq_spec() -> bool {
        true
    }

    open spec fn eq_spec(&self, other: &str) -> bool {
        self@ == other.spec_bytes()
    }
}

impl<'a> PartialEq<&'a str> for CheetahString {
    fn eq(&self, other: &&'a str) -> (r: bool)
        ensures
            r == (self@ == (**other).spec_bytes()),
    {
        eq_bytes(self.as_bytes(), other.as_bytes())
    }
}

impl<'a> vstd::std_specs::cmp::PartialEqSpecImpl<&'a str> for CheetahString {
    open spec fn obeys_eq_spec() -> bool {
        true
    }

    open spec fn eq_spec(&self, other: &&'a str) -> bool {
        self@ == (**other).spec_bytes()
    }
}

impl PartialEq<String> for CheetahString {
    fn eq(&self, other: &String) -> (r: bool)
        ensures
            r == (self@ == encode_utf8(other@)),
    {
        eq_bytes(self.as_bytes(), other.as_str().as_bytes())
    }
}

impl vstd::std_specs::cmp::PartialEqSpecImpl<String> for CheetahString {
    open spec fn obeys_eq_spec() -> bool {
        true
    }

    open spec fn eq_spec(&self, other: &String) -> bool {
        self@ == encode_utf8(other@)
    }
}

impl PartialEq<Vec<u8>> for CheetahString {
    fn eq(&self, other: &Vec<u8>) -> (r: bool)
        ensures
            r == (self@ == other@),
    {
        eq_bytes(self.as_bytes(), other.as_slice())
    }
}

impl vstd::std_specs::cmp::PartialEqSpecImpl<Vec<u8>> for CheetahString {
    open spec fn obeys_eq_spec() -> bool {
        true
    }

    open spec fn eq_spec(&self, other: &Vec<u8>) -> bool {
        self@ == other@
    }
}

impl PartialEq<CheetahString> for str {
    fn eq(&self, other: &CheetahString) -> (r: bool)
        ensures
            r == (self.spec_bytes() == other@),
    {
        eq_bytes(self.as_bytes(), other.as_bytes())
    }
}

impl vstd::std_specs::cmp::PartialEqSpecImpl<CheetahString> for str {
    open spec fn obeys_eq_spec() -> bool {
        true
    }

    open spec fn eq_spec(&self, other: &CheetahString) -> bool {
        self.spec_bytes() == other@
    }
}

impl<'a> PartialEq<CheetahString> for &'a str {
    fn eq(&self, other: &CheetahString) -> (r: bool)
        ensures
            r == ((**self).spec_bytes() == other@),
    {
        eq_bytes(self.as_bytes(), other.as_bytes())
    }
}

impl<'a> vstd::std_specs::cmp::PartialEqSpecImpl<CheetahString> for &'a str {
    open spec fn obeys_eq_spec() -> bool {
        true
    }

    open spec fn eq_spec(&self, other: &CheetahString) -> bool {
        (**self).spec_bytes() == other@
    }
}

impl PartialEq<CheetahString> for String {
    fn eq(&self, other: &CheetahString) -> (r: bool)
        ensures
            r == (encode_utf8(self@) == other@),
    {
        eq_bytes(self.as_str().as_bytes(), other.as_bytes())
    }
}

impl vstd::std_specs::cmp::PartialEqSpecImpl<CheetahString> for String {
    open spec fn obeys_eq_spec() -> bool {
        true
    }

    open spec fn eq_spec(&self, other: &CheetahString) -> bool {
        encode_utf8(self@) == other@
    }
}

impl PartialOrd for CheetahString {
    /// The byte-wise lexicographic order of the texts, whatever the variants.
    fn partial_cmp(&self, other: &CheetahString) -> (r: Option<core::cmp::Ordering>)
        ensures
            r == Some(lex_cmp(self@, other@)),
    {
        Some(compare_bytes(self.as_bytes(), other.as_bytes()))
    }
}

impl vstd::std_specs::cmp::PartialOrdSpecImpl for CheetahString {
    open spec fn obeys_partial_cmp_spec() -> bool {
        true
    }

    open spec fn partial_cmp_spec(&self, other: &CheetahString) -> Option<core::cmp::Ordering> {
        Some(lex_cmp(self@, other@))
    }
}

/// Relies on `<str as Hash>::hash`, which feeds the text's bytes to the
/// hasher; nothing is claimed of the hasher's state.
pub assume_specification<H: core::hash::Hasher>[ <str as core::hash::Hash>::hash::<H> ](
    s: &str,
    state: &mut H,
);

impl core::hash::Hash for CheetahString {
    /// Hashes the text as `str` does, so equal texts hash equal whatever the
    /// variants.
    fn hash<H: core::hash::Hasher>(&self, state: &mut H) {
        self.as_str().hash(state);
    }
}

impl core::ops::Deref for CheetahString {
    type Target = str;

    fn deref(&self) -> (r: &str)
        ensures
            r.spec_bytes() == self@,
    {
        self.as_str()
    }
}

impl AsRef<str> for CheetahString {
    fn as_ref(&self) -> &str {
        self.as_str()
    }
}

impl AsRef<[u8]> for CheetahString {
    fn as_ref(&self) -> &[u8] {
        self.as_bytes()
    }
}

impl AsRef<CheetahString> for CheetahString {
    fn as_ref(&self) -> &CheetahString {
        self
    }
}

impl core::borrow::Borrow<str> for CheetahString {
    fn borrow(&self) -> &str {
        self.as_str()
    }
}

impl<'a> From<&'a str> for CheetahString {
    /// A copy of the text: inline when it fits.
    fn from(s: &'a str) -> (r: CheetahString)
        ensures
            r@ == s.spec_bytes(),
    {
        CheetahString::from_slice(s)
    }
}

impl<'a> FromSpecImpl<&'a str> for CheetahString {
    open spec fn obeys_from_spec() -> bool {
        false
    }

    open spec fn from_spec(v: &'a str) -> CheetahString {
        arbitrary()
    }
}

impl<'a> From<&'a String> for CheetahString {
    /// A copy of the text: inline when it fits.
    fn from(s: &'a String) -> (r: CheetahString)
        ensures
            r@ == encode_utf8(s@),
    {
        CheetahString::from_slice(s.as_str())
    }
}

impl<'a> FromSpecImpl<&'a String> for CheetahString {
    open spec fn obeys_from_spec() -> bool {
        false
    }

    open spec fn from_spec(v: &'a String) -> CheetahString {
        arbitrary()
    }
}

impl From<String> for CheetahString {
    /// Takes the text, keeping its buffer when it is too long to go inline.
    fn from(s: String) -> (r: CheetahString)
        ensures
            r@ == encode_utf8(s@),
    {
        CheetahString::from_string(s)
    }
}

impl FromSpecImpl<String> for CheetahString {
    open spec fn obeys_from_spec() -> bool {
        false
    }

    open spec fn from_spec(v: String) -> CheetahString {
        arbitrary()
    }
}

impl From<Arc<String>> for CheetahString {
    /// Takes the shared text, keeping the buffer when it is too long to go inline.
    fn from(s: Arc<String>) -> (r: CheetahString)
        ensures
            r@ == encode_utf8((*s)@),
    {
        CheetahString::from_arc_string(s)
    }
}

impl FromSpecImpl<Arc<String>> for CheetahString {
    open spec fn obeys_from_spec() -> bool {
        false
    }

    open spec fn from_spec(v: Arc<String>) -> CheetahString {
        arbitrary()
    }
}

impl From<char> for CheetahString {
    /// The text of one character, inline.
    fn from(c: char) -> (r: CheetahString)
        ensures
            r@ == encode_utf8(seq![c]),
    {
        CheetahString::from_char(c)
    }
}

impl FromSpecImpl<char> for CheetahString {
    open spec fn obeys_from_spec() -> bool {
        false
    }

    open spec fn from_spec(v: char) -> CheetahString {
        arbitrary()
    }
}

impl<'a> From<&'a CheetahString> for CheetahString {
    /// A clone: a shared buffer is shared once more.
    fn from(s: &'a CheetahString) -> (r: CheetahString)
        ensures
            r@ == s@,
    {
        s.clone()
    }
}

impl<'a> FromSpecImpl<&'a CheetahString> for CheetahString {
    open spec fn obeys_from_spec() -> bool {
        false
    }

    open spec fn from_spec(v: &'a CheetahString) -> CheetahString {
        arbitrary()
    }
}

impl From<CheetahString> for String {
    /// An owned copy of the text.
    fn from(s: CheetahString) -> (r: String)
        ensures
            encode_utf8(r@) == s@,
    {
        s.to_owned_string()
    }
}

impl FromSpecImpl<CheetahString> for String {
    open spec fn obeys_from_spec() -> bool {
        false
    }

    open spec fn from_spec(v: CheetahString) -> String {
        arbitrary()
    }
}

impl From<Cow<'static, str>> for CheetahString {
    /// Borrowed static text is kept without a copy; owned text is taken.
    fn from(cow: Cow<'static, str>) -> (r: CheetahString)
        ensures
            r@ == encode_utf8(cow@),
            cow matches Cow::Borrowed(_) ==> r.spec_is_static(),
    {
        match cow {
            Cow::Borrowed(s) => CheetahString::from_static_str(s),
            Cow::Owned(s) => CheetahString::from_string(s),
        }
    }
}

impl FromSpecImpl<Cow<'static, str>> for CheetahString {
    open spec fn obeys_from_spec() -> bool {
        false
    }

    open spec fn from_spec(v: Cow<'static, str>) -> CheetahString {
        arbitrary()
    }
}

impl<'a> From<Cow<'a, String>> for CheetahString {
    /// Borrowed text is copied, owned text is taken.
    fn from(cow: Cow<'a, String>) -> (r: CheetahString)
        ensures
            r@ == encode_utf8(cow@),
    {
        match cow {
            Cow::Borrowed(s) => CheetahString::from_slice(s.as_str()),
            Cow::Owned(s) => CheetahString::from_string(s),
        }
    }
}

impl<'a> FromSpecImpl<Cow<'a, String>> for CheetahString {
    open spec fn obeys_from_spec() -> bool {
        false
    }

    open spec fn from_spec(v: Cow<'a, String>) -> CheetahString {
        arbitrary()
    }
}

impl core::str::FromStr for CheetahString {
    type Err = core::convert::Infallible;

    /// A copy of the text; never fails.
    fn from_str(s: &str) -> (r: Result<CheetahString, core::convert::Infallible>)
        ensures
            r matches Ok(v) && v@ == s.spec_bytes(),
    {
        Ok(CheetahString::from_slice(s))
    }
}

impl<'a> core::ops::Add<&'a str> for CheetahString {
    type Output = CheetahString;

    /// The concatenation, built by appending to `self`.
    fn add(self, rhs: &'a str) -> (r: CheetahString)
        ensures
            r@ == self@ + rhs.spec_bytes(),
    {
        let mut s = self;
        s.push_str(rhs);
        s
    }
}

impl<'a> AddSpecImpl<&'a str> for CheetahString {
    open spec fn obeys_add_spec() -> bool {
        false
    }

    open spec fn add_req(self, rhs: &'a str) -> bool {
        true
    }

    open spec fn add_spec(self, rhs: &'a str) -> CheetahString {
        arbitrary()
    }
}

impl<'a> core::ops::Add<&'a CheetahString> for CheetahString {
    type Output = CheetahString;

    /// The concatenation, built by appending to `self`.
    fn add(self, rhs: &'a CheetahString) -> (r: CheetahString)
        ensures
            r@ == self@ + rhs@,
    {
        let mut s = self;
        s.push_str(rhs.as_str());
        s
    }
}

impl<'a> AddSpecImpl<&'a CheetahString> for CheetahString {
    open spec fn obeys_add_spec() -> bool {
        false
    }

    open spec fn add_req(self, rhs: &'a CheetahString) -> bool {
        true
    }

    open spec fn add_spec(self, rhs: &'a CheetahString) -> CheetahString {
        arbitrary()
    }
}

impl core::ops::Add<String> for CheetahString {
    type Output = CheetahString;

    /// The concatenation, built by appending to `self`.
    fn add(self, rhs: String) -> (r: CheetahString)
        ensures
            r@ == self@ + encode_utf8(rhs@),
    {
        let mut s = self;
        s.push_str(rhs.as_str());
        s
    }
}

impl AddSpecImpl<String> for CheetahString {
    open spec fn obeys_add_spec() -> bool {
        false
    }

    open spec fn add_req(self, rhs: String) -> bool {
        true
    }

    open spec fn add_spec(self, rhs: String) -> CheetahString {
        arbitrary()
    }
}

impl<'a> core::ops::AddAssign<&'a str> for CheetahString {
    /// Appends the text.
    fn add_assign(&mut self, rhs: &'a str)
        ensures
            final(self)@ == old(self)@ + rhs.spec_bytes(),
    {
        self.push_str(rhs);
    }
}

impl<'a> core::ops::AddAssign<&'a CheetahString> for CheetahString {
    /// Appends the text of `rhs`.
    fn add_assign(&mut self, rhs: &'a CheetahString)
        ensures
            final(self)@ == old(self)@ + rhs@,
    {
        self.push_str(rhs.as_str());
    }
}

} // verus!
