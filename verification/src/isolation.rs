//! The output read event by event: what is written before an event, what
//! is written from it on, and how injected markup stands between the two.

use vstd::prelude::*;
use crate::event::HighlightEvent;
use crate::render::{
    event_markup, injected_at, render_at, render_markup, segment, stack_after,
};
use crate::stream::{nesting_after, well_nested, well_nested_from};

verus! {

/// The categories that are open before the event at `at`, innermost last.
pub open spec fn stack_before(events: Seq<HighlightEvent>, at: int) -> Seq<usize>
    decreases at,
{
    if at <= 0 {
        Seq::empty()
    } else {
        stack_after(events[at - 1], stack_before(events, at - 1))
    }
}

/// The output that is written before the event at `at`.
pub open spec fn markup_before(
    source: Seq<u8>,
    events: Seq<HighlightEvent>,
    injected: Seq<Option<Seq<u8>>>,
    at: int,
) -> Seq<u8>
    decreases at,
{
    if at <= 0 {
        Seq::empty()
    } else {
        markup_before(source, events, injected, at - 1) + event_markup(
            source,
            events[at - 1],
            stack_before(events, at - 1),
            injected_at(injected, at - 1),
        )
    }
}

/// The output is what is written before an event, then what is written
/// from it on.
pub proof fn lemma_render_split(
    source: Seq<u8>,
    events: Seq<HighlightEvent>,
    injected: Seq<Option<Seq<u8>>>,
    at: int,
)
    requires
        0 <= at <= events.len(),
    ensures
        render_markup(source, events, injected) == markup_before(source, events, injected, at)
            + render_at(source, events, injected, at, stack_before(events, at)),
    decreases at,
{
    let whole = render_markup(source, events, injected);
    if at <= 0 {
        assert(Seq::<u8>::empty() + whole =~= whole);
    } else {
        lemma_render_split(source, events, injected, at - 1);
        let before = markup_before(source, events, injected, at - 1);
        let stack = stack_before(events, at - 1);
        let piece = event_markup(source, events[at - 1], stack, injected_at(injected, at - 1));
        let rest = render_at(source, events, injected, at, stack_before(events, at));
        assert(render_at(source, events, injected, at - 1, stack) == piece + rest);
        assert(before + (piece + rest) =~= (before + piece) + rest);
    }
}

/// What is written before an event depends on nothing at or after it.
proof fn lemma_markup_before_local(
    source: Seq<u8>,
    events: Seq<HighlightEvent>,
    injected: Seq<Option<Seq<u8>>>,
    other_events: Seq<HighlightEvent>,
    other_injected: Seq<Option<Seq<u8>>>,
    at: int,
)
    requires
        0 <= at <= events.len(),
        at <= other_events.len(),
        forall|i: int| 0 <= i < at ==> events[i] == other_events[i],
        forall|i: int| 0 <= i < at ==> injected_at(injected, i) == injected_at(other_injected, i),
    ensures
        stack_before(events, at) == stack_before(other_events, at),
        markup_before(source, events, injected, at) == markup_before(
            source,
            other_events,
            other_injected,
            at,
        ),
    decreases at,
{
    if at > 0 {
        lemma_markup_before_local(source, events, injected, other_events, other_injected, at - 1);
    }
}

/// What is written from an event on depends on no injected markup before it.
pub proof fn lemma_render_at_local(
    source: Seq<u8>,
    events: Seq<HighlightEvent>,
    injected: Seq<Option<Seq<u8>>>,
    other_injected: Seq<Option<Seq<u8>>>,
    at: int,
    stack: Seq<usize>,
)
    requires
        0 <= at,
        forall|i: int| at <= i ==> injected_at(injected, i) == injected_at(other_injected, i),
    ensures
        render_at(source, events, injected, at, stack) == render_at(
            source,
            events,
            other_injected,
            at,
            stack,
        ),
    decreases events.len() - at,
{
    if at < events.len() {
        lemma_render_at_local(
            source,
            events,
            injected,
            other_injected,
            at + 1,
            stack_after(events[at], stack),
        );
    }
}

/// Injected markup is embedded as it is: where the event at `at` begins an
/// injection with the markup `inner`, the output is the markup of the
/// events before it, then `inner`, then the markup of the events after it.
/// The first part is that of the stream cut off before the injection, and
/// the last that of the stream with the injected markup taken away, so
/// neither depends on what was injected.
pub proof fn lemma_injected_markup_embedded(
    source: Seq<u8>,
    events: Seq<HighlightEvent>,
    injected: Seq<Option<Seq<u8>>>,
    at: int,
    language: String,
    start: usize,
    end: usize,
    inner: Seq<u8>,
)
    requires
        0 <= at < events.len(),
        events[at] == (HighlightEvent::BeginInjection { language, start, end }),
        injected_at(injected, at) == Some(inner),
    ensures
        render_markup(source, events, injected) == markup_before(
            source,
            events.take(at),
            injected.take(at),
            at,
        ) + inner + render_at(
            source,
            events,
            injected.update(at, None),
            at + 1,
            stack_before(events.take(at), at),
        ),
{
    let stack = stack_before(events, at);
    lemma_render_split(source, events, injected, at);
    lemma_markup_before_local(source, events, injected, events.take(at), injected.take(at), at);
    lemma_render_at_local(source, events, injected, injected.update(at, None), at + 1, stack);
    let before = markup_before(source, events, injected, at);
    let after = render_at(source, events, injected, at + 1, stack);
    assert(render_at(source, events, injected, at, stack) == inner + after);
    assert(before + (inner + after) =~= before + inner + after);
}

/// Injection is isolated: where the event at `at` begins an injection whose
/// markup is the rendering of its range on its own, the output is the
/// markup of the events before it, then exactly that rendering, then the
/// markup of the events after it, and neither of the two depends on what
/// was injected.
pub proof fn lemma_injection_isolated(
    source: Seq<u8>,
    events: Seq<HighlightEvent>,
    injected: Seq<Option<Seq<u8>>>,
    at: int,
    language: String,
    start: usize,
    end: usize,
    inner_events: Seq<HighlightEvent>,
    inner_injected: Seq<Option<Seq<u8>>>,
)
    requires
        0 <= at < events.len(),
        events[at] == (HighlightEvent::BeginInjection { language, start, end }),
        injected_at(injected, at) == Some(
            render_markup(segment(source, start, end), inner_events, inner_injected),
        ),
    ensures
        render_markup(source, events, injected) == markup_before(
            source,
            events.take(at),
            injected.take(at),
            at,
        ) + render_markup(segment(source, start, end), inner_events, inner_injected) + render_at(
            source,
            events,
            injected.update(at, None),
            at + 1,
            stack_before(events.take(at), at),
        ),
{
    lemma_injected_markup_embedded(
        source,
        events,
        injected,
        at,
        language,
        start,
        end,
        render_markup(segment(source, start, end), inner_events, inner_injected),
    );
}

/// The number of categories among the open brackets of a stream.
pub open spec fn open_categories(open: Seq<bool>) -> nat
    decreases open.len(),
{
    if open.len() == 0 {
        0
    } else {
        open_categories(open.drop_last()) + if open.last() {
            0nat
        } else {
            1nat
        }
    }
}

/// In a stream that is well nested from `at` on, the renderer's stack is
/// empty at the end, when it holds as many categories at `at` as are open.
proof fn lemma_well_nested_from_empties(events: Seq<HighlightEvent>, at: int, open: Seq<bool>)
    requires
        0 <= at <= events.len(),
        well_nested_from(events, at, open),
        stack_before(events, at).len() == open_categories(open),
    ensures
        stack_before(events, events.len() as int).len() == 0,
    decreases events.len() - at,
{
    if at < events.len() {
        let next = nesting_after(events[at], open)->0;
        assert(stack_before(events, at + 1) == stack_after(events[at], stack_before(events, at)));
        match events[at] {
            HighlightEvent::BeginCategory(category) => {
                assert(next.drop_last() == open);
            },
            HighlightEvent::BeginInjection { language, start, end } => {
                assert(next.drop_last() == open);
            },
            _ => {},
        }
        lemma_well_nested_from_empties(events, at + 1, next);
    }
}

/// In a well-nested stream every `EndCategory` finds its category open and
/// nothing is left to close at the end: the output is the markup of the
/// events and no more.
pub proof fn lemma_well_nested_closes_itself(
    source: Seq<u8>,
    events: Seq<HighlightEvent>,
    injected: Seq<Option<Seq<u8>>>,
)
    requires
        well_nested(events),
    ensures
        stack_before(events, events.len() as int) == Seq::<usize>::empty(),
        render_markup(source, events, injected) == markup_before(
            source,
            events,
            injected,
            events.len() as int,
        ),
{
    let len = events.len() as int;
    lemma_well_nested_from_empties(events, 0, Seq::<bool>::empty());
    assert(stack_before(events, len) =~= Seq::<usize>::empty());
    lemma_render_split(source, events, injected, len);
    let all = markup_before(source, events, injected, len);
    assert(all + Seq::<u8>::empty() =~= all);
}

} // verus!
