//! A compact, cheaply cloned text value. Short text is kept inline, text that
//! lives for the whole program is borrowed, and longer text is shared behind
//! a reference count and copied only when a shared buffer is appended to.
//!
//! Every operation is defined over the text alone, whatever the storage:
//! equality, order and hashing, prefix and suffix tests, search and split.
pub mod cheetah_string;
pub mod error;
pub mod laws;
pub mod pattern;
pub mod search;
pub mod split;
pub mod traits;

pub use cheetah_string::CheetahString;
pub use error::Error;
