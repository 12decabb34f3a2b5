//! The message-type filter: a substring match against a message's label.

use vstd::prelude::*;

verus! {

/// `pattern` stands in `text` at position `i`.
pub open spec fn occurs_at(text: Seq<char>, pattern: Seq<char>, i: int) -> bool {
    &&& 0 <= i
    &&& i + pattern.len() <= text.len()
    &&& text.subrange(i, i + pattern.len()) == pattern
}

/// `pattern` stands somewhere in `text`.
pub open spec fn occurs_in(text: Seq<char>, pattern: Seq<char>) -> bool {
    exists|i: int| occurs_at(text, pattern, i)
}

/// Whether a label passes a filter: every label passes when there is none.
pub open spec fn passes(label: Seq<char>, filter: Option<Seq<char>>) -> bool {
    match filter {
        Some(pattern) => occurs_in(label, pattern),
        None => true,
    }
}

/// The mathematical value of an optional filter.
pub open spec fn filter_view(filter: Option<&str>) -> Option<Seq<char>> {
    match filter {
        Some(pattern) => Some(pattern@),
        None => None,
    }
}

/// Substring search with `str::contains`. Trusted: the result says whether
/// the pattern matches a sub-slice of the text.
#[verifier::external_body]
pub(crate) fn label_contains(label: &str, pattern: &str) -> (out: bool)
    ensures
        out == occurs_in(label@, pattern@),
{
    label.contains(pattern)
}

/// Whether a message with this label is let through by the filter.
pub fn passes_filter(label: &str, filter: Option<&str>) -> (out: bool)
    ensures
        out == passes(label@, filter_view(filter)),
{
    match filter {
        Some(pattern) => label_contains(label, pattern),
        None => true,
    }
}

} // verus!
