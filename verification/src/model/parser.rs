//! Parsers for the textual decision-tree format of voice files.

pub mod base;
pub mod convert;
pub mod tree;

use vstd::prelude::*;

verus! {

/// How a parse attempt failed.
///
/// `NoMatch` means the input does not start with the sought form and other
/// alternatives may try it; `Malformed` means the input committed to this
/// form and then broke off, so no alternative may take it.
#[derive(Debug, Clone, PartialEq, Eq)]
pub enum ParseError {
    NoMatch,
    Malformed,
}

} // verus!
