//! Counting the places where a pattern stands in a text.

use vstd::prelude::*;

verus! {

/// `pattern` stands in `text` at position `at`.
pub open spec fn occurs_at(text: Seq<u8>, pattern: Seq<u8>, at: int) -> bool {
    0 <= at && at + pattern.len() <= text.len() && text.subrange(at, at + pattern.len()) == pattern
}

/// The number of occurrences of `pattern` in `text` that begin before `end`.
pub open spec fn count_before(text: Seq<u8>, pattern: Seq<u8>, end: int) -> nat
    decreases end,
{
    if end <= 0 {
        0
    } else {
        count_before(text, pattern, end - 1) + if occurs_at(text, pattern, end - 1) {
            1nat
        } else {
            0nat
        }
    }
}

/// The number of occurrences of `pattern` in `text`.
pub open spec fn count_occurrences(text: Seq<u8>, pattern: Seq<u8>) -> nat {
    count_before(text, pattern, text.len() as int)
}

/// What stands in a text stands at the same place when more follows.
pub proof fn lemma_occurs_at_before(left: Seq<u8>, right: Seq<u8>, pattern: Seq<u8>, at: int)
    requires
        occurs_at(left, pattern, at),
    ensures
        occurs_at(left + right, pattern, at),
{
    assert((left + right).subrange(at, at + pattern.len()) =~= left.subrange(
        at,
        at + pattern.len(),
    ));
}

/// What stands in a text stands as far further on as the text that is put
/// before it is long.
pub proof fn lemma_occurs_at_after(left: Seq<u8>, right: Seq<u8>, pattern: Seq<u8>, at: int)
    requires
        0 <= at,
    ensures
        occurs_at(right, pattern, at) == occurs_at(left + right, pattern, left.len() + at),
{
    let n = pattern.len() as int;
    if at + n <= right.len() {
        assert((left + right).subrange(left.len() + at, left.len() + at + n) =~= right.subrange(
            at,
            at + n,
        ));
    }
}

/// No occurrence of `pattern` in `left + right` begins in `left` and ends
/// in `right`.
pub open spec fn none_straddles(left: Seq<u8>, right: Seq<u8>, pattern: Seq<u8>) -> bool {
    forall|at: int|
        0 <= at < left.len() && at + pattern.len() > left.len() ==> !occurs_at(
            left + right,
            pattern,
            at,
        )
}

/// Where no occurrence straddles the two parts, a pattern is found in a
/// concatenation exactly where it is found in the parts.
proof fn lemma_occurs_at_concat(left: Seq<u8>, right: Seq<u8>, pattern: Seq<u8>, at: int)
    requires
        none_straddles(left, right, pattern),
        0 <= at,
    ensures
        occurs_at(left + right, pattern, at) == if at < left.len() {
            occurs_at(left, pattern, at)
        } else {
            occurs_at(right, pattern, at - left.len())
        },
{
    let whole = left + right;
    let n = pattern.len() as int;
    if at < left.len() {
        if at + n <= left.len() {
            assert(whole.subrange(at, at + n) =~= left.subrange(at, at + n));
        }
    } else {
        if at + n <= whole.len() {
            assert(whole.subrange(at, at + n) =~= right.subrange(at - left.len(), at - left.len() + n));
        }
    }
}

/// Where no occurrence straddles the two parts, the count in a
/// concatenation is the count of the left part, then that of the right.
pub proof fn lemma_count_concat(left: Seq<u8>, right: Seq<u8>, pattern: Seq<u8>, end: int)
    requires
        none_straddles(left, right, pattern),
        0 <= end,
    ensures
        count_before(left + right, pattern, end) == if end <= left.len() {
            count_before(left, pattern, end)
        } else {
            count_before(left, pattern, left.len() as int) + count_before(
                right,
                pattern,
                end - left.len(),
            )
        },
    decreases end,
{
    if end > 0 {
        lemma_count_concat(left, right, pattern, end - 1);
        lemma_occurs_at_concat(left, right, pattern, end - 1);
    }
}

/// A pattern whose first byte is nowhere in `text` does not occur in it.
pub proof fn lemma_count_none(text: Seq<u8>, pattern: Seq<u8>, end: int)
    requires
        pattern.len() >= 1,
        forall|i: int| 0 <= i < text.len() ==> #[trigger] text[i] != pattern[0],
    ensures
        count_before(text, pattern, end) == 0,
    decreases end,
{
    if end > 0 {
        lemma_count_none(text, pattern, end - 1);
        if occurs_at(text, pattern, end - 1) {
            assert(text.subrange(end - 1, end - 1 + pattern.len())[0] == pattern[0]);
            assert(text[end - 1] == pattern[0]);
        }
    }
}

/// A pattern whose first byte is in `text` at the start alone occurs there
/// or nowhere.
pub proof fn lemma_count_leading(text: Seq<u8>, pattern: Seq<u8>, end: int)
    requires
        pattern.len() >= 1,
        forall|i: int| 1 <= i < text.len() ==> #[trigger] text[i] != pattern[0],
    ensures
        count_before(text, pattern, end) == if end >= 1 && occurs_at(text, pattern, 0) {
            1nat
        } else {
            0nat
        },
    decreases end,
{
    if end > 0 {
        lemma_count_leading(text, pattern, end - 1);
        if end > 1 && occurs_at(text, pattern, end - 1) {
            assert(text.subrange(end - 1, end - 1 + pattern.len())[0] == pattern[0]);
            assert(text[end - 1] == pattern[0]);
        }
    }
}

} // verus!
