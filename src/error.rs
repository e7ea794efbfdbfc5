//! Errors reported by the validating and range-checked operations.
use vstd::prelude::*;

verus! {

/// Bytes that are not valid UTF-8.
#[derive(Debug, Clone, Copy, PartialEq, Eq, Structural)]
pub struct Utf8Error {
    /// Length of the longest prefix of the input that is valid UTF-8; the
    /// first invalid byte starts here.
    pub valid_up_to: usize,
}

/// Errors that can occur during `CheetahString` operations.
#[derive(Debug, Clone, Copy, PartialEq, Eq, Structural)]
pub enum Error {
    /// UTF-8 validation failed.
    Utf8Error(Utf8Error),
    /// A byte offset lies past the end of the text.
    IndexOutOfBounds { index: usize, len: usize },
    /// A byte offset lies inside the encoding of a character.
    InvalidCharBoundary { index: usize },
    /// Reverse iteration was asked of a split by a string pattern, which only
    /// runs forwards.
    ReverseSplitUnsupported,
}

impl Utf8Error {
    /// Length of the longest valid prefix of the input.
    pub fn valid_up_to(&self) -> (r: usize)
        ensures
            r == self.valid_up_to,
    {
        self.valid_up_to
    }
}

} // verus!
