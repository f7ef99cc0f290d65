//! The text of the output: with the tags taken away, what is left is the
//! escaped source, where the stream partitions the source.

use vstd::prelude::*;
use crate::category::{class_attribute, lemma_class_attribute_is_plain, CATEGORY_COUNT};
use crate::escape::{
    escape_bytes, lemma_escape_concat, lemma_escape_has_no_angle_bracket, lemma_unescape_escape,
    unescape_bytes, GREATER_THAN, LESS_THAN,
};
use crate::event::HighlightEvent;
use crate::render::{
    close_all, close_tag, open_tag, render_at, render_markup, segment, stack_after,
};
use crate::stream::{covers, partitions};

verus! {

/// The text of `markup` that stands outside its tags. A tag runs from a
/// `<` to the next `>`; `in_tag` says whether `markup` begins inside one.
pub open spec fn text_outside_tags(markup: Seq<u8>, in_tag: bool) -> Seq<u8>
    decreases markup.len(),
{
    if markup.len() == 0 {
        Seq::empty()
    } else if in_tag {
        text_outside_tags(markup.drop_first(), markup[0] != GREATER_THAN)
    } else if markup[0] == LESS_THAN {
        text_outside_tags(markup.drop_first(), true)
    } else {
        seq![markup[0]] + text_outside_tags(markup.drop_first(), false)
    }
}

/// `markup` without its tags.
pub open spec fn strip_tags(markup: Seq<u8>) -> Seq<u8> {
    text_outside_tags(markup, false)
}

/// Text without `<` stays when tags are stripped.
proof fn lemma_strip_text(text: Seq<u8>, rest: Seq<u8>)
    requires
        forall|i: int| 0 <= i < text.len() ==> #[trigger] text[i] != LESS_THAN,
    ensures
        strip_tags(text + rest) == text + strip_tags(rest),
    decreases text.len(),
{
    if text.len() == 0 {
        assert(text + rest =~= rest);
        assert(text + strip_tags(rest) =~= strip_tags(rest));
    } else {
        let tail = text.drop_first();
        assert((text + rest).drop_first() =~= tail + rest);
        lemma_strip_text(tail, rest);
        assert(text + strip_tags(rest) =~= seq![text[0]] + (tail + strip_tags(rest)));
    }
}

/// Inside a tag, everything up to and with the first `>` is dropped.
proof fn lemma_strip_inside_tag(body: Seq<u8>, rest: Seq<u8>)
    requires
        body.len() >= 1,
        body.last() == GREATER_THAN,
        forall|i: int| 0 <= i < body.len() - 1 ==> #[trigger] body[i] != GREATER_THAN,
    ensures
        text_outside_tags(body + rest, true) == strip_tags(rest),
    decreases body.len(),
{
    let tail = body.drop_first();
    assert((body + rest).drop_first() =~= tail + rest);
    if body.len() == 1 {
        assert(tail + rest =~= rest);
    } else {
        assert(body[0] != GREATER_THAN);
        assert forall|i: int| 0 <= i < tail.len() - 1 implies #[trigger] tail[i]
            != GREATER_THAN by {
            assert(tail[i] == body[i + 1]);
        }
        lemma_strip_inside_tag(tail, rest);
    }
}

/// A tag is dropped whole: it begins with `<` and its only `>` ends it.
proof fn lemma_strip_tag(tag: Seq<u8>, rest: Seq<u8>)
    requires
        tag.len() >= 2,
        tag[0] == LESS_THAN,
        tag.last() == GREATER_THAN,
        forall|i: int| 0 <= i < tag.len() - 1 ==> #[trigger] tag[i] != GREATER_THAN,
    ensures
        strip_tags(tag + rest) == strip_tags(rest),
{
    let body = tag.drop_first();
    assert((tag + rest).drop_first() =~= body + rest);
    assert forall|i: int| 0 <= i < body.len() - 1 implies #[trigger] body[i] != GREATER_THAN by {
        assert(body[i] == tag[i + 1]);
    }
    lemma_strip_inside_tag(body, rest);
}

/// The opening tag of any category is dropped whole.
proof fn lemma_strip_open_tag(category: usize, rest: Seq<u8>)
    ensures
        strip_tags(open_tag(category) + rest) == strip_tags(rest),
{
    let tag = open_tag(category);
    if category < CATEGORY_COUNT {
        let attribute = class_attribute(category);
        lemma_class_attribute_is_plain(category);
        assert forall|i: int| 0 <= i < tag.len() - 1 implies #[trigger] tag[i]
            != GREATER_THAN by {
            if i >= 6 {
                assert(tag[i] == attribute[i - 6]);
            }
        }
        lemma_strip_tag(tag, rest);
    } else {
        assert(tag + rest =~= rest);
    }
}

/// The closing tag of any category is dropped whole.
proof fn lemma_strip_close_tag(category: usize, rest: Seq<u8>)
    ensures
        strip_tags(close_tag(category) + rest) == strip_tags(rest),
{
    let tag = close_tag(category);
    if category < CATEGORY_COUNT {
        lemma_strip_tag(tag, rest);
    } else {
        assert(tag + rest =~= rest);
    }
}

/// What closes the open categories holds no text.
proof fn lemma_strip_close_all(stack: Seq<usize>)
    ensures
        strip_tags(close_all(stack)) == Seq::<u8>::empty(),
    decreases stack.len(),
{
    if stack.len() > 0 {
        lemma_strip_close_all(stack.drop_last());
        lemma_strip_close_tag(stack.last(), close_all(stack.drop_last()));
    }
}

/// From any event on, the text outside the tags is the escaped rest of the
/// source, when the remaining events cover that rest.
proof fn lemma_render_at_text(
    source: Seq<u8>,
    events: Seq<HighlightEvent>,
    injected: Seq<Option<Seq<u8>>>,
    at: int,
    stack: Seq<usize>,
    from: int,
)
    requires
        0 <= at <= events.len(),
        0 <= from <= source.len(),
        covers(events, at, from, source.len() as int),
    ensures
        strip_tags(render_at(source, events, injected, at, stack)) == escape_bytes(
            source.subrange(from, source.len() as int),
        ),
    decreases events.len() - at,
{
    let len = source.len() as int;
    if at >= events.len() {
        lemma_strip_close_all(stack);
        assert(source.subrange(from, len) =~= Seq::<u8>::empty());
    } else {
        let event = events[at];
        let next = stack_after(event, stack);
        let rest = render_at(source, events, injected, at + 1, next);
        match event {
            HighlightEvent::BeginCategory(category) => {
                lemma_render_at_text(source, events, injected, at + 1, next, from);
                lemma_strip_open_tag(category, rest);
            },
            HighlightEvent::SourceBytes { start, end } => {
                let text = source.subrange(start as int, end as int);
                lemma_render_at_text(source, events, injected, at + 1, next, end as int);
                lemma_escape_has_no_angle_bracket(text);
                lemma_strip_text(escape_bytes(text), rest);
                lemma_escape_concat(text, source.subrange(end as int, len));
                assert(text + source.subrange(end as int, len) =~= source.subrange(from, len));
            },
            HighlightEvent::EndCategory => {
                lemma_render_at_text(source, events, injected, at + 1, next, from);
                if stack.len() > 0 {
                    lemma_strip_close_tag(stack.last(), rest);
                } else {
                    assert(Seq::<u8>::empty() + rest =~= rest);
                }
            },
            HighlightEvent::BeginInjection { language, start, end } => {},
            HighlightEvent::EndInjection => {
                lemma_render_at_text(source, events, injected, at + 1, next, from);
                assert(Seq::<u8>::empty() + rest =~= rest);
            },
        }
    }
}

/// Partition is complete: where the `SourceBytes` events of a stream without
/// injections partition the source, the output without its tags is the
/// escaped source, and decoding its entities gives the source back exactly.
pub proof fn lemma_partition_complete(
    source: Seq<u8>,
    events: Seq<HighlightEvent>,
    injected: Seq<Option<Seq<u8>>>,
)
    requires
        partitions(events, source.len() as int),
    ensures
        strip_tags(render_markup(source, events, injected)) == escape_bytes(source),
        unescape_bytes(strip_tags(render_markup(source, events, injected))) == source,
{
    lemma_render_at_text(source, events, injected, 0, Seq::<usize>::empty(), 0);
    assert(source.subrange(0, source.len() as int) =~= source);
    lemma_unescape_escape(source);
}

/// The plain rendering is the rendering of one range over the whole source:
/// both give the escaped source and nothing else.
pub proof fn lemma_whole_range_is_plain(source: Seq<u8>, injected: Seq<Option<Seq<u8>>>)
    requires
        source.len() <= usize::MAX,
    ensures
        render_markup(
            source,
            seq![HighlightEvent::SourceBytes { start: 0, end: source.len() as usize }],
            injected,
        ) == escape_bytes(source),
{
    let events = seq![HighlightEvent::SourceBytes { start: 0, end: source.len() as usize }];
    let stack = Seq::<usize>::empty();
    let whole = escape_bytes(segment(source, 0, source.len() as usize));
    assert(segment(source, 0, source.len() as usize) =~= source);
    assert(render_at(source, events, injected, 1, stack) =~= Seq::<u8>::empty());
    assert(render_at(source, events, injected, 0, stack) == whole + render_at(
        source,
        events,
        injected,
        1,
        stack,
    ));
    assert(whole + Seq::<u8>::empty() =~= whole);
}

} // verus!
