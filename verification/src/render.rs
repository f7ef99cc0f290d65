//! The renderer: walks an event stream with a stack of open categories and
//! writes escaped text inside `<span class="...">` markup.

use vstd::prelude::*;
use crate::category::{class_attribute, CategoryTable, CATEGORY_COUNT};
use crate::escape::{escape_bytes, escape_into, GREATER_THAN};
use crate::event::HighlightEvent;

verus! {

/// The bytes of `<span `.
pub open spec fn span_open_prefix() -> Seq<u8> {
    seq![0x3cu8, 0x73u8, 0x70u8, 0x61u8, 0x6eu8, 0x20u8]
}

/// The bytes of `</span>`.
pub open spec fn span_close() -> Seq<u8> {
    seq![0x3cu8, 0x2fu8, 0x73u8, 0x70u8, 0x61u8, 0x6eu8, 0x3eu8]
}

/// The markup that opens a category: `<span `, its class attribute and `>`.
/// A category that the table does not hold opens no span.
pub open spec fn open_tag(category: usize) -> Seq<u8> {
    if category < CATEGORY_COUNT {
        span_open_prefix() + class_attribute(category) + seq![GREATER_THAN]
    } else {
        Seq::empty()
    }
}

/// The markup that closes a category: `</span>` where `open_tag` opened a
/// span, and nothing where it did not.
pub open spec fn close_tag(category: usize) -> Seq<u8> {
    if category < CATEGORY_COUNT {
        span_close()
    } else {
        Seq::empty()
    }
}

/// The bytes of `source` from `start` up to `end`; empty where that is no
/// range of the source.
pub open spec fn segment(source: Seq<u8>, start: usize, end: usize) -> Seq<u8> {
    if start <= end && end <= source.len() {
        source.subrange(start as int, end as int)
    } else {
        Seq::empty()
    }
}

/// What one event adds to the output, with `stack` the categories open
/// before it, innermost last, and `injected` the markup of the injected
/// range where the event begins an injection whose language was resolved.
pub open spec fn event_markup(
    source: Seq<u8>,
    event: HighlightEvent,
    stack: Seq<usize>,
    injected: Option<Seq<u8>>,
) -> Seq<u8> {
    match event {
        HighlightEvent::BeginCategory(category) => open_tag(category),
        HighlightEvent::SourceBytes { start, end } => escape_bytes(segment(source, start, end)),
        HighlightEvent::EndCategory => if stack.len() > 0 {
            close_tag(stack.last())
        } else {
            Seq::empty()
        },
        HighlightEvent::BeginInjection { language, start, end } => match injected {
            Some(markup) => markup,
            None => escape_bytes(segment(source, start, end)),
        },
        HighlightEvent::EndInjection => Seq::empty(),
    }
}

/// The open categories after one event.
pub open spec fn stack_after(event: HighlightEvent, stack: Seq<usize>) -> Seq<usize> {
    match event {
        HighlightEvent::BeginCategory(category) => stack.push(category),
        HighlightEvent::EndCategory => if stack.len() > 0 {
            stack.drop_last()
        } else {
            stack
        },
        _ => stack,
    }
}

/// The markup that closes every category of `stack`, innermost first.
pub open spec fn close_all(stack: Seq<usize>) -> Seq<u8>
    decreases stack.len(),
{
    if stack.len() == 0 {
        Seq::empty()
    } else {
        close_tag(stack.last()) + close_all(stack.drop_last())
    }
}

/// The injected markup that belongs to the event at `at`.
pub open spec fn injected_at(injected: Seq<Option<Seq<u8>>>, at: int) -> Option<Seq<u8>> {
    if 0 <= at < injected.len() {
        injected[at]
    } else {
        None
    }
}

/// The output from the event at `at` on, with `stack` the categories open
/// there: the markup of each remaining event, then the closing of whatever
/// is still open at the end of the stream.
pub open spec fn render_at(
    source: Seq<u8>,
    events: Seq<HighlightEvent>,
    injected: Seq<Option<Seq<u8>>>,
    at: int,
    stack: Seq<usize>,
) -> Seq<u8>
    decreases events.len() - at,
{
    if at < 0 || at >= events.len() {
        close_all(stack)
    } else {
        event_markup(source, events[at], stack, injected_at(injected, at)) + render_at(
            source,
            events,
            injected,
            at + 1,
            stack_after(events[at], stack),
        )
    }
}

/// The rendered form of an event stream over `source`. `injected[i]` is the
/// markup for the event at `i` where that event begins an injection that
/// was rendered on its own; an injection without one is escaped as text.
pub open spec fn render_markup(
    source: Seq<u8>,
    events: Seq<HighlightEvent>,
    injected: Seq<Option<Seq<u8>>>,
) -> Seq<u8> {
    render_at(source, events, injected, 0, Seq::empty())
}

/// The markup of an optional rendered injection.
pub open spec fn markup_of(injected: Option<Vec<u8>>) -> Option<Seq<u8>> {
    match injected {
        Some(markup) => Some(markup@),
        None => None,
    }
}

/// The markups of a list of optional rendered injections.
pub open spec fn markups_of(injected: Seq<Option<Vec<u8>>>) -> Seq<Option<Seq<u8>>> {
    Seq::new(injected.len(), |i: int| markup_of(injected[i]))
}

/// The state of one render: the categories that are open, innermost last,
/// and the output written so far.
pub struct RenderState {
    pub stack: Vec<usize>,
    pub output: Vec<u8>,
}

impl RenderState {
    /// The state before the first event: nothing open, nothing written.
    pub fn new() -> (state: RenderState)
        ensures
            state.stack@ == Seq::<usize>::empty(),
            state.output@ == Seq::<u8>::empty(),
    {
        RenderState { stack: Vec::new(), output: Vec::new() }
    }

    /// Appends `<span `, the class attribute of `category` and `>`, if the
    /// table holds the category.
    fn write_open_tag(&mut self, category: usize, table: &CategoryTable)
        ensures
            final(self).output@ == old(self).output@ + open_tag(category),
            final(self).stack@ == old(self).stack@,
    {
        match table.class_attribute(category) {
            Some(attribute) => {
                self.output.push(0x3c);
                self.output.push(0x73);
                self.output.push(0x70);
                self.output.push(0x61);
                self.output.push(0x6e);
                self.output.push(0x20);
                self.output.extend_from_slice(attribute);
                self.output.push(GREATER_THAN);
                assert(self.output@ =~= old(self).output@ + open_tag(category));
            },
            None => {
                assert(self.output@ =~= old(self).output@ + open_tag(category));
            },
        }
    }

    /// Appends `</span>`, if the table holds `category`.
    fn write_close_tag(&mut self, category: usize)
        ensures
            final(self).output@ == old(self).output@ + close_tag(category),
            final(self).stack@ == old(self).stack@,
    {
        if category < CATEGORY_COUNT {
            self.output.push(0x3c);
            self.output.push(0x2f);
            self.output.push(0x73);
            self.output.push(0x70);
            self.output.push(0x61);
            self.output.push(0x6e);
            self.output.push(0x3e);
        }
        assert(self.output@ =~= old(self).output@ + close_tag(category));
    }

    /// Appends the escaped form of the source from `start` up to `end`.
    fn write_segment(&mut self, source: &[u8], start: usize, end: usize)
        ensures
            final(self).output@ == old(self).output@ + escape_bytes(segment(source@, start, end)),
            final(self).stack@ == old(self).stack@,
    {
        if start <= end && end <= source.len() {
            escape_into(&source[start..end], &mut self.output);
        } else {
            assert(self.output@ =~= old(self).output@ + escape_bytes(Seq::<u8>::empty()));
        }
    }

    /// Processes one event: writes its markup and keeps the stack of open
    /// categories. Closing with nothing open writes nothing.
    pub fn apply(
        &mut self,
        source: &[u8],
        event: &HighlightEvent,
        injected: Option<&Vec<u8>>,
        table: &CategoryTable,
    )
        ensures
            final(self).output@ == old(self).output@ + event_markup(
                source@,
                *event,
                old(self).stack@,
                match injected {
                    Some(markup) => Some(markup@),
                    None => None,
                },
            ),
            final(self).stack@ == stack_after(*event, old(self).stack@),
    {
        match event {
            HighlightEvent::BeginCategory(category) => {
                self.write_open_tag(*category, table);
                self.stack.push(*category);
            },
            HighlightEvent::SourceBytes { start, end } => {
                self.write_segment(source, *start, *end);
            },
            HighlightEvent::EndCategory => {
                match self.stack.pop() {
                    Some(category) => {
                        self.write_close_tag(category);
                    },
                    None => {
                        assert(self.output@ =~= old(self).output@ + Seq::<u8>::empty());
                    },
                }
            },
            HighlightEvent::BeginInjection { language, start, end } => {
                match injected {
                    Some(markup) => {
                        self.output.extend_from_slice(markup.as_slice());
                        assert(self.output@ =~= old(self).output@ + markup@);
                    },
                    None => {
                        self.write_segment(source, *start, *end);
                    },
                }
            },
            HighlightEvent::EndInjection => {
                assert(self.output@ =~= old(self).output@ + Seq::<u8>::empty());
            },
        }
    }

    /// Ends the render: closes every category that is still open, innermost
    /// first, and hands out the output.
    pub fn finish(self) -> (markup: Vec<u8>)
        ensures
            markup@ == self.output@ + close_all(self.stack@),
    {
        let mut state = self;
        let ghost start = state;
        while state.stack.len() > 0
            invariant
                state.output@ + close_all(state.stack@) == start.output@ + close_all(start.stack@),
            decreases state.stack.len(),
        {
            let ghost before = state;
            match state.stack.pop() {
                Some(category) => {
                    state.write_close_tag(category);
                    assert(state.output@ + close_all(state.stack@) =~= before.output@ + (close_tag(
                        category,
                    ) + close_all(before.stack@.drop_last())));
                },
                None => {},
            }
        }
        assert(state.output@ + close_all(state.stack@) =~= state.output@);
        state.output
    }
}

/// Renders an event stream over `source`. `injected[i]`, where there is
/// one, is the markup of the injection that the event at `i` begins.
pub fn render_events(
    source: &[u8],
    events: &[HighlightEvent],
    injected: &[Option<Vec<u8>>],
    table: &CategoryTable,
) -> (markup: Vec<u8>)
    ensures
        markup@ == render_markup(source@, events@, markups_of(injected@)),
{
    let mut state = RenderState::new();
    let mut at: usize = 0;
    while at < events.len()
        invariant
            at <= events.len(),
            state.output@ + render_at(
                source@,
                events@,
                markups_of(injected@),
                at as int,
                state.stack@,
            ) == render_markup(source@, events@, markups_of(injected@)),
        decreases events.len() - at,
    {
        let ghost before = state;
        let here: Option<&Vec<u8>> = if at < injected.len() {
            injected[at].as_ref()
        } else {
            None
        };
        state.apply(source, &events[at], here, table);
        proof {
            let piece = event_markup(
                source@,
                events@[at as int],
                before.stack@,
                injected_at(markups_of(injected@), at as int),
            );
            let rest = render_at(
                source@,
                events@,
                markups_of(injected@),
                at + 1,
                state.stack@,
            );
            assert(state.output@ == before.output@ + piece);
            assert((before.output@ + piece) + rest == before.output@ + (piece + rest));
        }
        at += 1;
    }
    state.finish()
}

} // verus!
