//! Insert, detect and refresh license header comments in source files.
//!
//! The crate renders a license template for a file, turns it into a comment
//! block appropriate for the file's type, and decides whether the file is
//! already licensed, licensed with an outdated year, licensed with an old
//! wording, or not licensed at all, producing the minimal replacement text.

use vstd::prelude::*;

pub mod basic;
pub mod comments;
pub mod config;
pub mod licenses;
pub mod licensure;
pub mod ops;
pub mod pattern;
pub mod regexes;
pub mod template;
pub mod text;
pub mod utils;

verus! {

/// A character is an ASCII decimal digit.
pub open spec fn is_digit(c: char) -> bool {
    '0' <= c && c <= '9'
}

} // verus!
