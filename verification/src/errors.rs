//! The failure taxonomy of the resolution engine.
//!
//! Parser-level failures (`MissingBook` through `MalformedReference`) are
//! caused by malformed input and surfaced to the caller. `NoBookMatch` is the
//! resolver-level failure for a candidate with no similarity to any book.
//! `VerseNotFound` is the extractor-level result for a valid but out-of-range
//! reference: an expected condition, not a fault.

use vstd::prelude::*;

verus! {

/// Every way a reference lookup can fail. The engine never panics on bad
/// input: it returns one of these.
#[derive(Clone, Copy, Debug, PartialEq, Eq, Structural)]
pub enum LookupError {
    /// The book token of the reference is empty.
    MissingBook,
    /// The reference has no chapter field.
    MissingChapter,
    /// The chapter field is not a positive integer.
    InvalidChapter,
    /// The verse field is neither `N` nor `N-M` with positive integers.
    InvalidVerseSpec,
    /// The reference has more than three `:`-separated fields.
    MalformedReference,
    /// No book of the corpus has any similarity to the candidate name.
    NoBookMatch,
    /// The requested book, chapter or verse range selects no verse.
    VerseNotFound,
    /// The external assistant returned an error or an empty reply.
    AssistantFailed,
}

} // verus!
