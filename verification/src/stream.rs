//! What a well-formed event stream is, and the checks that tell whether a
//! given stream is one. The renderer does not depend on either: it renders
//! every stream.

use vstd::prelude::*;
use crate::event::HighlightEvent;

verus! {

/// The brackets that are open after one event, innermost last: `false` for
/// a category and `true` for an injection. Nothing where the event closes
/// what is not open, or closes a bracket of the other kind.
pub open spec fn nesting_after(event: HighlightEvent, open: Seq<bool>) -> Option<Seq<bool>> {
    match event {
        HighlightEvent::BeginCategory(category) => Some(open.push(false)),
        HighlightEvent::EndCategory => if open.len() > 0 && !open.last() {
            Some(open.drop_last())
        } else {
            None
        },
        HighlightEvent::BeginInjection { language, start, end } => Some(open.push(true)),
        HighlightEvent::EndInjection => if open.len() > 0 && open.last() {
            Some(open.drop_last())
        } else {
            None
        },
        HighlightEvent::SourceBytes { start, end } => Some(open),
    }
}

/// From the event at `at` on, with `open` the brackets open there, every
/// end matches the innermost open begin and nothing stays open.
pub open spec fn well_nested_from(events: Seq<HighlightEvent>, at: int, open: Seq<bool>) -> bool
    decreases events.len() - at,
{
    if at < 0 || at >= events.len() {
        open.len() == 0
    } else {
        match nesting_after(events[at], open) {
            Some(next) => well_nested_from(events, at + 1, next),
            None => false,
        }
    }
}

/// The begins and ends of the stream are matched like parentheses.
pub open spec fn well_nested(events: Seq<HighlightEvent>) -> bool {
    well_nested_from(events, 0, Seq::empty())
}

/// The `SourceBytes` events from `at` on cover the source from `from` to
/// `len` with no gap and no overlap, and no event there begins an injection.
pub open spec fn covers(events: Seq<HighlightEvent>, at: int, from: int, len: int) -> bool
    decreases events.len() - at,
{
    if at < 0 || at >= events.len() {
        from == len
    } else {
        match events[at] {
            HighlightEvent::SourceBytes { start, end } => start == from && start <= end && end
                <= len && covers(events, at + 1, end as int, len),
            HighlightEvent::BeginInjection { language, start, end } => false,
            _ => covers(events, at + 1, from, len),
        }
    }
}

/// The `SourceBytes` events of the stream partition a source of `len`
/// bytes, and the stream holds no injection.
pub open spec fn partitions(events: Seq<HighlightEvent>, len: int) -> bool {
    covers(events, 0, 0, len)
}

/// Whether the begins and ends of the stream are matched like parentheses.
/// A stream that is not well nested is still rendered, with balanced
/// spans, but it shows a fault in whatever produced it.
pub fn is_well_nested(events: &[HighlightEvent]) -> (well: bool)
    ensures
        well == well_nested(events@),
{
    let mut open: Vec<bool> = Vec::new();
    let mut at: usize = 0;
    while at < events.len()
        invariant
            at <= events@.len(),
            well_nested(events@) == well_nested_from(events@, at as int, open@),
        decreases events.len() - at,
    {
        match &events[at] {
            HighlightEvent::BeginCategory(_) => {
                open.push(false);
            },
            HighlightEvent::BeginInjection { .. } => {
                open.push(true);
            },
            HighlightEvent::EndCategory => {
                match open.pop() {
                    Some(injection) => {
                        if injection {
                            return false;
                        }
                    },
                    None => {
                        return false;
                    },
                }
            },
            HighlightEvent::EndInjection => {
                match open.pop() {
                    Some(injection) => {
                        if !injection {
                            return false;
                        }
                    },
                    None => {
                        return false;
                    },
                }
            },
            HighlightEvent::SourceBytes { .. } => {},
        }
        at += 1;
    }
    open.len() == 0
}

/// Whether the `SourceBytes` events of the stream partition a source of
/// `len` bytes, in a stream without injections.
pub fn is_partition(events: &[HighlightEvent], len: usize) -> (whole: bool)
    ensures
        whole == partitions(events@, len as int),
{
    let mut from: usize = 0;
    let mut at: usize = 0;
    while at < events.len()
        invariant
            at <= events@.len(),
            partitions(events@, len as int) == covers(events@, at as int, from as int, len as int),
        decreases events.len() - at,
    {
        match &events[at] {
            HighlightEvent::SourceBytes { start, end } => {
                if *start != from || *start > *end || *end > len {
                    return false;
                }
                from = *end;
            },
            HighlightEvent::BeginInjection { .. } => {
                return false;
            },
            _ => {},
        }
        at += 1;
    }
    from == len
}

} // verus!
