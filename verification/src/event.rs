//! The events that a classifier lays over a source text.

use vstd::prelude::*;

verus! {

/// One step of a highlighted document. Offsets are byte offsets into the
/// source text, and a range is half-open.
#[derive(Clone, Debug, PartialEq, Eq)]
pub enum HighlightEvent {
    /// Opens the category with this index in the category table.
    BeginCategory(usize),
    /// Literal source text from `start` up to `end`.
    SourceBytes { start: usize, end: usize },
    /// Closes the innermost category that is still open.
    EndCategory,
    /// Source text from `start` up to `end` that is written in another
    /// language, named by `language`.
    BeginInjection { language: String, start: usize, end: usize },
    /// Marks the end of an injection.
    EndInjection,
}

} // verus!
