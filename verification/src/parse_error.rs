//! Structural parse failures.  Every variant carries the index of the
//! offending segment in the parsed segment sequence, so a caller can point a
//! diagnostic at the source region that produced that segment.

use vstd::prelude::*;

verus! {

/// A structural parse failure.  The parse of the whole template aborts; no
/// partial tree is returned.
#[derive(Debug, Clone, PartialEq, Eq)]
pub enum ParseError {
    /// A closing tag did not match the innermost open tag.  `expected` is
    /// empty when no tag was open at all.
    TagMismatch { expected: String, found: String, at: usize },
    /// An open tag or directive block was never closed before end of input.
    /// `at` is the index of the segment that opened it.
    UnterminatedBlock { at: usize },
    /// An `if` head with a `let` but no unparenthesized `=`, a `for` head
    /// without an `in`, or a directive head whose block never opens.
    MalformedCondition { at: usize },
    /// Malformed attribute text, such as an unterminated quote or a missing
    /// attribute region.
    MalformedAttribute { at: usize },
}

/// Model of a [`ParseError`].
#[verifier::ext_equal]
pub enum ParseErrV {
    TagMismatch { expected: Seq<char>, found: Seq<char>, at: usize },
    UnterminatedBlock { at: usize },
    MalformedCondition { at: usize },
    MalformedAttribute { at: usize },
}

impl View for ParseError {
    type V = ParseErrV;

    open spec fn view(&self) -> ParseErrV {
        match self {
            ParseError::TagMismatch { expected, found, at } => ParseErrV::TagMismatch {
                expected: expected@,
                found: found@,
                at: *at,
            },
            ParseError::UnterminatedBlock { at } => ParseErrV::UnterminatedBlock { at: *at },
            ParseError::MalformedCondition { at } => ParseErrV::MalformedCondition { at: *at },
            ParseError::MalformedAttribute { at } => ParseErrV::MalformedAttribute { at: *at },
        }
    }
}

} // verus!
