//! The output as text: it is valid UTF-8 where the source is and where no
//! range of the stream cuts a character in two.

use vstd::prelude::*;
use vstd::utf8::*;
use crate::category::{category_class, class_attribute, lemma_category_class_chars, CATEGORY_COUNT};
use crate::escape::escape_bytes;
use crate::event::HighlightEvent;
use crate::render::{
    close_all, close_tag, event_markup, injected_at, open_tag, render_at, render_markup, segment,
    stack_after,
};
use crate::text::{escape_text, lemma_escape_text_utf8};

verus! {

/// The escaped form of valid UTF-8 is valid UTF-8.
pub proof fn lemma_escape_keeps_utf8(text: Seq<u8>)
    requires
        valid_utf8(text),
    ensures
        valid_utf8(escape_bytes(text)),
{
    decode_utf8_encode_utf8(text);
    lemma_escape_text_utf8(decode_utf8(text));
    encode_utf8_valid_utf8(escape_text(decode_utf8(text)));
}

/// Bytes that are all ASCII are valid UTF-8.
pub proof fn lemma_ascii_is_utf8(bytes: Seq<u8>)
    requires
        forall|i: int| 0 <= i < bytes.len() ==> #[trigger] bytes[i] < 0x80,
    ensures
        valid_utf8(bytes),
{
    let chars = Seq::new(bytes.len(), |i: int| bytes[i] as char);
    assert(is_ascii_chars(chars));
    is_ascii_chars_encode_utf8(chars);
    assert(encode_utf8(chars) =~= bytes);
    encode_utf8_valid_utf8(chars);
}

/// The bytes between two character boundaries of valid UTF-8 are valid UTF-8.
pub proof fn lemma_between_boundaries_is_utf8(source: Seq<u8>, start: int, end: int)
    requires
        valid_utf8(source),
        0 <= start <= end <= source.len(),
        is_char_boundary(source, start),
        is_char_boundary(source, end),
    ensures
        valid_utf8(source.subrange(start, end)),
{
    let len = source.len() as int;
    let tail = source.subrange(start, len);
    valid_utf8_split(source, start);
    if end == len {
        assert(tail.subrange(0, end - start) =~= tail);
    } else {
        if end == start {
        } else {
            is_char_boundary_iff_not_is_continuation_byte(source, end);
            assert(tail[end - start] == source[end]);
            is_char_boundary_iff_not_is_continuation_byte(tail, end - start);
        }
        valid_utf8_split(tail, end - start);
    }
    assert(tail.subrange(0, end - start) =~= source.subrange(start, end));
}

/// Every range of text that the stream names begins and ends between two
/// characters of the source.
pub open spec fn on_char_boundaries(source: Seq<u8>, events: Seq<HighlightEvent>) -> bool {
    forall|i: int|
        0 <= i < events.len() ==> match #[trigger] events[i] {
            HighlightEvent::SourceBytes { start, end } => start <= end && end <= source.len()
                ==> is_char_boundary(source, start as int) && is_char_boundary(source, end as int),
            HighlightEvent::BeginInjection { language, start, end } => start <= end && end
                <= source.len() ==> is_char_boundary(source, start as int) && is_char_boundary(
                source,
                end as int,
            ),
            _ => true,
        }
}

/// Every injected markup of the list is valid UTF-8.
pub open spec fn injections_are_utf8(injected: Seq<Option<Seq<u8>>>) -> bool {
    forall|i: int|
        0 <= i < injected.len() ==> (#[trigger] injected[i] matches Some(markup) ==> valid_utf8(
            markup,
        ))
}

/// The tags of any category are valid UTF-8.
proof fn lemma_tags_are_utf8(category: usize)
    ensures
        valid_utf8(open_tag(category)),
        valid_utf8(close_tag(category)),
{
    if category < CATEGORY_COUNT {
        let chars = category_class(category);
        let class = encode_utf8(chars);
        let attribute = class_attribute(category);
        let tag = open_tag(category);
        lemma_category_class_chars(category);
        assert(is_ascii_chars(chars));
        is_ascii_chars_encode_utf8(chars);
        assert forall|i: int| 0 <= i < tag.len() implies #[trigger] tag[i] < 0x80 by {
            if 6 <= i < 6 + attribute.len() {
                assert(tag[i] == attribute[i - 6]);
                if 13 <= i < 13 + class.len() {
                    assert(attribute[i - 6] == class[i - 13]);
                    assert(class[i - 13] == chars[i - 13] as u8);
                }
            }
        }
        lemma_ascii_is_utf8(tag);
        lemma_ascii_is_utf8(close_tag(category));
    }
}

/// What closes the open categories is valid UTF-8.
proof fn lemma_close_all_is_utf8(stack: Seq<usize>)
    ensures
        valid_utf8(close_all(stack)),
    decreases stack.len(),
{
    if stack.len() > 0 {
        lemma_close_all_is_utf8(stack.drop_last());
        lemma_tags_are_utf8(stack.last());
        valid_utf8_concat(close_tag(stack.last()), close_all(stack.drop_last()));
    }
}

/// From any event on, the output is valid UTF-8.
proof fn lemma_render_at_is_utf8(
    source: Seq<u8>,
    events: Seq<HighlightEvent>,
    injected: Seq<Option<Seq<u8>>>,
    at: int,
    stack: Seq<usize>,
)
    requires
        0 <= at <= events.len(),
        valid_utf8(source),
        on_char_boundaries(source, events),
        injections_are_utf8(injected),
    ensures
        valid_utf8(render_at(source, events, injected, at, stack)),
    decreases events.len() - at,
{
    if at >= events.len() {
        lemma_close_all_is_utf8(stack);
    } else {
        let event = events[at];
        let piece = event_markup(source, event, stack, injected_at(injected, at));
        let next = stack_after(event, stack);
        match event {
            HighlightEvent::BeginCategory(category) => {
                lemma_tags_are_utf8(category);
            },
            HighlightEvent::SourceBytes { start, end } => {
                if start <= end && end <= source.len() {
                    lemma_between_boundaries_is_utf8(source, start as int, end as int);
                }
                lemma_escape_keeps_utf8(segment(source, start, end));
            },
            HighlightEvent::EndCategory => {
                if stack.len() > 0 {
                    lemma_tags_are_utf8(stack.last());
                }
            },
            HighlightEvent::BeginInjection { language, start, end } => {
                if start <= end && end <= source.len() {
                    lemma_between_boundaries_is_utf8(source, start as int, end as int);
                }
                lemma_escape_keeps_utf8(segment(source, start, end));
            },
            HighlightEvent::EndInjection => {},
        }
        assert(valid_utf8(piece));
        lemma_render_at_is_utf8(source, events, injected, at + 1, next);
        valid_utf8_concat(piece, render_at(source, events, injected, at + 1, next));
    }
}

/// Text is kept whole: where the source is valid UTF-8, no range of the
/// stream cuts a character in two and each injected markup is valid UTF-8,
/// the output is valid UTF-8.
pub proof fn lemma_render_is_utf8(
    source: Seq<u8>,
    events: Seq<HighlightEvent>,
    injected: Seq<Option<Seq<u8>>>,
)
    requires
        valid_utf8(source),
        on_char_boundaries(source, events),
        injections_are_utf8(injected),
    ensures
        valid_utf8(render_markup(source, events, injected)),
{
    lemma_render_at_is_utf8(source, events, injected, 0, Seq::<usize>::empty());
}

} // verus!
