//! Well-formed output: whatever the event stream, the output holds no tag
//! but `<span ...>` and `</span>`, as many of the one as of the other, and
//! no `&` but in an entity.

use vstd::prelude::*;
use crate::category::{class_attribute, lemma_class_attribute_is_plain, CATEGORY_COUNT};
use crate::count::{
    count_before, count_occurrences, lemma_count_concat, lemma_count_leading, lemma_count_none,
    lemma_occurs_at_after, lemma_occurs_at_before, none_straddles, occurs_at,
};
use crate::escape::{
    amp_entity, entity_at, escape_bytes, gt_entity, lemma_escape_ampersand_begins_entity,
    lemma_escape_has_no_angle_bracket, lt_entity, AMPERSAND, LESS_THAN,
};
use crate::event::HighlightEvent;
use crate::render::{
    close_all, close_tag, event_markup, injected_at, open_tag, render_at, render_markup, segment,
    span_close, span_open_prefix, stack_after,
};

verus! {

/// The bytes of `<span`.
pub open spec fn span_opener() -> Seq<u8> {
    seq![0x3cu8, 0x73u8, 0x70u8, 0x61u8, 0x6eu8]
}

/// The depth that naive bracket matching has reached before `end`: the
/// `<span` that begin before it, less the `</span>` that do.
pub open spec fn span_depth(text: Seq<u8>, end: int) -> int {
    count_before(text, span_opener(), end) - count_before(text, span_close(), end)
}

/// Bracket matching never goes below zero in `text`.
pub open spec fn never_underflows(text: Seq<u8>) -> bool {
    forall|end: int| 0 <= end <= text.len() ==> #[trigger] span_depth(text, end) >= 0
}

/// `text` holds as many `<span` as `</span>`, and matching them from the
/// left never goes below zero.
pub open spec fn spans_balanced(text: Seq<u8>) -> bool {
    &&& count_occurrences(text, span_opener()) == count_occurrences(text, span_close())
    &&& never_underflows(text)
}

/// Every `<` of `text` begins `<span ` or `</span>`: it holds no other tag,
/// and none that is cut off.
pub open spec fn span_tags_only(text: Seq<u8>) -> bool {
    forall|i: int|
        0 <= i < text.len() && #[trigger] text[i] == LESS_THAN ==> occurs_at(
            text,
            span_open_prefix(),
            i,
        ) || occurs_at(text, span_close(), i)
}

/// Every `&` of `text` begins one of the three entities.
pub open spec fn ampersands_escaped(text: Seq<u8>) -> bool {
    forall|i: int| 0 <= i < text.len() && #[trigger] text[i] == AMPERSAND ==> entity_at(text, i)
}

/// Markup that can stand in element content, also inside other markup of
/// this kind: its only tags are those of spans, its spans are balanced,
/// and each `&` in it begins an entity.
pub open spec fn well_formed_markup(text: Seq<u8>) -> bool {
    span_tags_only(text) && ampersands_escaped(text) && spans_balanced(text)
}

/// No `<span` and no `</span>` begins in one piece of markup and ends in
/// the next, when the first piece holds span tags only.
proof fn lemma_tags_do_not_straddle(left: Seq<u8>, right: Seq<u8>, pattern: Seq<u8>)
    requires
        span_tags_only(left),
        pattern == span_opener() || pattern == span_close(),
    ensures
        none_straddles(left, right, pattern),
{
    let whole = left + right;
    assert forall|at: int|
        0 <= at < left.len() && at + pattern.len() > left.len() implies !occurs_at(
        whole,
        pattern,
        at,
    ) by {
        if occurs_at(whole, pattern, at) {
            let found = whole.subrange(at, at + pattern.len());
            assert(found[0] == pattern[0]);
            assert(left[at] == LESS_THAN);
            if occurs_at(left, span_open_prefix(), at) {
                assert(left.subrange(at, at + 6)[1] == span_open_prefix()[1]);
                assert(found[1] == pattern[1]);
            }
        }
    }
}

/// `text` can be followed by more markup: it holds span tags only, each
/// `&` in it begins an entity, matching never underflows in it, and
/// `depth` spans are open at its end.
pub open spec fn open_to_depth(text: Seq<u8>, depth: int) -> bool {
    &&& span_tags_only(text)
    &&& ampersands_escaped(text)
    &&& never_underflows(text)
    &&& span_depth(text, text.len() as int) == depth
}

/// Two pieces that hold span tags only, and no `&` but in an entity, make
/// such a piece together.
proof fn lemma_append_keeps_tags(left: Seq<u8>, right: Seq<u8>)
    requires
        span_tags_only(left),
        span_tags_only(right),
        ampersands_escaped(left),
        ampersands_escaped(right),
    ensures
        span_tags_only(left + right),
        ampersands_escaped(left + right),
{
    let whole = left + right;
    assert forall|i: int| 0 <= i < whole.len() && #[trigger] whole[i] == LESS_THAN implies occurs_at(
        whole,
        span_open_prefix(),
        i,
    ) || occurs_at(whole, span_close(), i) by {
        if i < left.len() {
            assert(left[i] == LESS_THAN);
            if occurs_at(left, span_open_prefix(), i) {
                lemma_occurs_at_before(left, right, span_open_prefix(), i);
            } else {
                lemma_occurs_at_before(left, right, span_close(), i);
            }
        } else {
            assert(right[i - left.len()] == LESS_THAN);
            lemma_occurs_at_after(left, right, span_open_prefix(), i - left.len());
            lemma_occurs_at_after(left, right, span_close(), i - left.len());
        }
    }
    assert forall|i: int| 0 <= i < whole.len() && #[trigger] whole[i] == AMPERSAND implies entity_at(
        whole,
        i,
    ) by {
        if i < left.len() {
            assert(left[i] == AMPERSAND);
            if occurs_at(left, amp_entity(), i) {
                lemma_occurs_at_before(left, right, amp_entity(), i);
            } else if occurs_at(left, lt_entity(), i) {
                lemma_occurs_at_before(left, right, lt_entity(), i);
            } else {
                lemma_occurs_at_before(left, right, gt_entity(), i);
            }
        } else {
            assert(right[i - left.len()] == AMPERSAND);
            lemma_occurs_at_after(left, right, amp_entity(), i - left.len());
            lemma_occurs_at_after(left, right, lt_entity(), i - left.len());
            lemma_occurs_at_after(left, right, gt_entity(), i - left.len());
        }
    }
}

/// Markup that leaves `depth` spans open, followed by a piece that never
/// closes more than are open, leaves `depth` and the piece's own balance open.
proof fn lemma_append(left: Seq<u8>, right: Seq<u8>, depth: int, delta: int)
    requires
        open_to_depth(left, depth),
        span_tags_only(right),
        ampersands_escaped(right),
        forall|end: int| 0 <= end <= right.len() ==> depth + #[trigger] span_depth(right, end) >= 0,
        span_depth(right, right.len() as int) == delta,
    ensures
        open_to_depth(left + right, depth + delta),
{
    let whole = left + right;
    lemma_tags_do_not_straddle(left, right, span_opener());
    lemma_tags_do_not_straddle(left, right, span_close());
    lemma_append_keeps_tags(left, right);
    assert forall|end: int| 0 <= end <= whole.len() implies #[trigger] span_depth(whole, end)
        >= 0 by {
        lemma_count_concat(left, right, span_opener(), end);
        lemma_count_concat(left, right, span_close(), end);
        if end <= left.len() {
            assert(span_depth(left, end) >= 0);
        } else {
            assert(depth + span_depth(right, end - left.len()) >= 0);
        }
    }
    lemma_count_concat(left, right, span_opener(), whole.len() as int);
    lemma_count_concat(left, right, span_close(), whole.len() as int);
    if right.len() == 0 {
        assert(span_depth(right, 0) == 0);
    }
}

/// Escaped text holds no tag, so that its depth is zero throughout, and no
/// `&` but in an entity.
proof fn lemma_text_profile(text: Seq<u8>)
    ensures
        span_tags_only(escape_bytes(text)),
        ampersands_escaped(escape_bytes(text)),
        forall|end: int| #[trigger] span_depth(escape_bytes(text), end) == 0,
{
    let escaped = escape_bytes(text);
    lemma_escape_has_no_angle_bracket(text);
    lemma_escape_ampersand_begins_entity(text);
    assert forall|end: int| #[trigger] span_depth(escaped, end) == 0 by {
        lemma_count_none(escaped, span_opener(), end);
        lemma_count_none(escaped, span_close(), end);
    }
}

/// The opening tag of a category of the table is one `<span` and no
/// `</span>`, and holds no `&`.
proof fn lemma_open_tag_profile(category: usize)
    requires
        category < CATEGORY_COUNT,
    ensures
        span_tags_only(open_tag(category)),
        ampersands_escaped(open_tag(category)),
        forall|end: int| #[trigger]
            span_depth(open_tag(category), end) == if end >= 1 {
                1int
            } else {
                0int
            },
{
    let tag = open_tag(category);
    let attribute = class_attribute(category);
    lemma_class_attribute_is_plain(category);
    assert forall|i: int| 0 <= i < tag.len() implies #[trigger] tag[i] != AMPERSAND && (i >= 1
        ==> tag[i] != LESS_THAN) by {
        if i >= 6 && i < 6 + attribute.len() {
            assert(tag[i] == attribute[i - 6]);
        }
    }
    assert(tag.subrange(0, 5) =~= span_opener());
    assert(tag.subrange(0, 6) =~= span_open_prefix());
    assert(!occurs_at(tag, span_close(), 0)) by {
        if occurs_at(tag, span_close(), 0) {
            assert(tag.subrange(0, 7)[1] == span_close()[1]);
        }
    }
    assert forall|end: int| #[trigger]
        span_depth(tag, end) == if end >= 1 {
            1int
        } else {
            0int
        } by {
        lemma_count_leading(tag, span_opener(), end);
        lemma_count_leading(tag, span_close(), end);
    }
}

/// The closing tag is one `</span>` and no `<span`, and holds no `&`.
proof fn lemma_close_tag_profile()
    ensures
        span_tags_only(span_close()),
        ampersands_escaped(span_close()),
        forall|end: int| #[trigger]
            span_depth(span_close(), end) == if end >= 1 {
                -1int
            } else {
                0int
            },
{
    let tag = span_close();
    assert(tag.subrange(0, 7) =~= tag);
    assert(!occurs_at(tag, span_opener(), 0)) by {
        if occurs_at(tag, span_opener(), 0) {
            assert(tag.subrange(0, 5)[1] == span_opener()[1]);
        }
    }
    assert forall|end: int| #[trigger]
        span_depth(tag, end) == if end >= 1 {
            -1int
        } else {
            0int
        } by {
        lemma_count_leading(tag, span_opener(), end);
        lemma_count_leading(tag, span_close(), end);
    }
}

/// The number of categories of `stack` that opened a span.
pub open spec fn open_spans(stack: Seq<usize>) -> nat
    decreases stack.len(),
{
    if stack.len() == 0 {
        0
    } else {
        open_spans(stack.drop_last()) + if stack.last() < CATEGORY_COUNT {
            1nat
        } else {
            0nat
        }
    }
}

/// Every injected markup of the list is well formed.
pub open spec fn injections_well_formed(injected: Seq<Option<Seq<u8>>>) -> bool {
    forall|i: int|
        0 <= i < injected.len() ==> (#[trigger] injected[i] matches Some(markup)
            ==> well_formed_markup(markup))
}

/// Closing what is open brings the depth to zero.
proof fn lemma_close_all_balances(out: Seq<u8>, stack: Seq<usize>)
    requires
        open_to_depth(out, open_spans(stack) as int),
    ensures
        open_to_depth(out + close_all(stack), 0),
    decreases stack.len(),
{
    if stack.len() == 0 {
        assert(out + close_all(stack) =~= out);
    } else {
        let tag = close_tag(stack.last());
        let rest = stack.drop_last();
        if stack.last() < CATEGORY_COUNT {
            lemma_close_tag_profile();
            lemma_append(out, tag, open_spans(stack) as int, -1);
        } else {
            assert(out + tag =~= out);
        }
        lemma_close_all_balances(out + tag, rest);
        assert(out + close_all(stack) =~= (out + tag) + close_all(rest));
    }
}

/// From any event on, the renderer brings balanced output to an end.
proof fn lemma_render_at_balances(
    source: Seq<u8>,
    events: Seq<HighlightEvent>,
    injected: Seq<Option<Seq<u8>>>,
    at: int,
    stack: Seq<usize>,
    out: Seq<u8>,
)
    requires
        0 <= at <= events.len(),
        injections_well_formed(injected),
        open_to_depth(out, open_spans(stack) as int),
    ensures
        open_to_depth(out + render_at(source, events, injected, at, stack), 0),
    decreases events.len() - at,
{
    if at >= events.len() {
        lemma_close_all_balances(out, stack);
    } else {
        let event = events[at];
        let here = injected_at(injected, at);
        let piece = event_markup(source, event, stack, here);
        let next = stack_after(event, stack);
        let depth = open_spans(stack) as int;
        match event {
            HighlightEvent::BeginCategory(category) => {
                assert(next.drop_last() == stack);
                if category < CATEGORY_COUNT {
                    lemma_open_tag_profile(category);
                    lemma_append(out, piece, depth, 1);
                } else {
                    assert(out + piece =~= out);
                }
            },
            HighlightEvent::SourceBytes { start, end } => {
                lemma_text_profile(segment(source, start, end));
                lemma_append(out, piece, depth, 0);
            },
            HighlightEvent::EndCategory => {
                if stack.len() > 0 && stack.last() < CATEGORY_COUNT {
                    lemma_close_tag_profile();
                    lemma_append(out, piece, depth, -1);
                } else {
                    assert(out + piece =~= out);
                }
            },
            HighlightEvent::BeginInjection { language, start, end } => {
                match here {
                    Some(markup) => {
                        assert(well_formed_markup(markup));
                        lemma_append(out, piece, depth, 0);
                    },
                    None => {
                        lemma_text_profile(segment(source, start, end));
                        lemma_append(out, piece, depth, 0);
                    },
                }
            },
            HighlightEvent::EndInjection => {
                assert(out + piece =~= out);
            },
        }
        lemma_render_at_balances(source, events, injected, at + 1, next, out + piece);
        assert(out + render_at(source, events, injected, at, stack) =~= (out + piece) + render_at(
            source,
            events,
            injected,
            at + 1,
            next,
        ));
    }
}

/// Nesting is well formed: whatever the event stream, the output holds as
/// many `<span` as `</span>`, and matching them from the left never goes
/// below zero. Its only tags are those of spans, and each `&` in it begins
/// an entity. All this holds provided that it holds of each injected markup.
pub proof fn lemma_render_well_formed(
    source: Seq<u8>,
    events: Seq<HighlightEvent>,
    injected: Seq<Option<Seq<u8>>>,
)
    requires
        injections_well_formed(injected),
    ensures
        well_formed_markup(render_markup(source, events, injected)),
{
    let empty = Seq::<u8>::empty();
    assert(span_depth(empty, 0) == 0);
    lemma_render_at_balances(source, events, injected, 0, Seq::<usize>::empty(), empty);
    assert(empty + render_markup(source, events, injected) =~= render_markup(
        source,
        events,
        injected,
    ));
}

/// Escaped text is well-formed markup: it holds no tag at all.
pub proof fn lemma_escaped_well_formed(text: Seq<u8>)
    ensures
        well_formed_markup(escape_bytes(text)),
{
    let escaped = escape_bytes(text);
    lemma_text_profile(text);
    assert(span_depth(escaped, escaped.len() as int) == 0);
    assert forall|end: int| 0 <= end <= escaped.len() implies #[trigger] span_depth(escaped, end)
        >= 0 by {}
}

} // verus!
