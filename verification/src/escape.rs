//! HTML text-content escaping over bytes, and the inverse decoding.
//!
//! Only `&`, `<` and `>` are replaced; every other byte passes through, quotes
//! included, so the result is fit for element content and not for attributes.

use vstd::prelude::*;
use crate::count::{
    count_before, count_occurrences, lemma_count_concat, lemma_count_leading,
    lemma_occurs_at_after, none_straddles, occurs_at,
};

verus! {

/// The byte `&`.
pub const AMPERSAND: u8 = 0x26;

/// The byte `<`.
pub const LESS_THAN: u8 = 0x3c;

/// The byte `>`.
pub const GREATER_THAN: u8 = 0x3e;

/// The bytes of `&amp;`.
pub open spec fn amp_entity() -> Seq<u8> {
    seq![0x26u8, 0x61u8, 0x6du8, 0x70u8, 0x3bu8]
}

/// The bytes of `&lt;`.
pub open spec fn lt_entity() -> Seq<u8> {
    seq![0x26u8, 0x6cu8, 0x74u8, 0x3bu8]
}

/// The bytes of `&gt;`.
pub open spec fn gt_entity() -> Seq<u8> {
    seq![0x26u8, 0x67u8, 0x74u8, 0x3bu8]
}

/// What one byte of text becomes in element content.
pub open spec fn escape_byte(byte: u8) -> Seq<u8> {
    if byte == AMPERSAND {
        amp_entity()
    } else if byte == LESS_THAN {
        lt_entity()
    } else if byte == GREATER_THAN {
        gt_entity()
    } else {
        seq![byte]
    }
}

/// The escaped form of a text: each byte replaced by `escape_byte`, in order.
pub open spec fn escape_bytes(text: Seq<u8>) -> Seq<u8>
    decreases text.len(),
{
    if text.len() == 0 {
        Seq::empty()
    } else {
        escape_byte(text[0]) + escape_bytes(text.drop_first())
    }
}

/// The text that an escaped form stands for: each of the three entities
/// read back as its byte, every other byte kept.
pub open spec fn unescape_bytes(markup: Seq<u8>) -> Seq<u8>
    decreases markup.len(),
{
    if markup.len() == 0 {
        Seq::empty()
    } else if amp_entity().is_prefix_of(markup) {
        seq![AMPERSAND] + unescape_bytes(markup.skip(5))
    } else if lt_entity().is_prefix_of(markup) {
        seq![LESS_THAN] + unescape_bytes(markup.skip(4))
    } else if gt_entity().is_prefix_of(markup) {
        seq![GREATER_THAN] + unescape_bytes(markup.skip(4))
    } else {
        seq![markup[0]] + unescape_bytes(markup.drop_first())
    }
}

/// One of the three entities stands in `markup` at position `at`.
pub open spec fn entity_at(markup: Seq<u8>, at: int) -> bool {
    occurs_at(markup, amp_entity(), at) || occurs_at(markup, lt_entity(), at) || occurs_at(
        markup,
        gt_entity(),
        at,
    )
}

/// Escaping distributes over concatenation.
pub proof fn lemma_escape_concat(left: Seq<u8>, right: Seq<u8>)
    ensures
        escape_bytes(left + right) == escape_bytes(left) + escape_bytes(right),
    decreases left.len(),
{
    if left.len() == 0 {
        assert(left + right == right);
    } else {
        assert((left + right).drop_first() == left.drop_first() + right);
        lemma_escape_concat(left.drop_first(), right);
    }
}

/// An escaped text holds no `<` and no `>`.
pub proof fn lemma_escape_has_no_angle_bracket(text: Seq<u8>)
    ensures
        forall|i: int|
            0 <= i < escape_bytes(text).len() ==> #[trigger] escape_bytes(text)[i] != LESS_THAN
                && escape_bytes(text)[i] != GREATER_THAN,
    decreases text.len(),
{
    if text.len() > 0 {
        let head = escape_byte(text[0]);
        let tail = escape_bytes(text.drop_first());
        let whole = escape_bytes(text);
        lemma_escape_has_no_angle_bracket(text.drop_first());
        assert forall|i: int| 0 <= i < whole.len() implies #[trigger] whole[i] != LESS_THAN
            && whole[i] != GREATER_THAN by {
            if i >= head.len() {
                assert(whole[i] == tail[i - head.len()]);
            }
        }
    }
}

/// Every `&` of an escaped text begins one of the three entities.
pub proof fn lemma_escape_ampersand_begins_entity(text: Seq<u8>)
    ensures
        forall|i: int|
            0 <= i < escape_bytes(text).len() && #[trigger] escape_bytes(text)[i] == AMPERSAND
                ==> entity_at(escape_bytes(text), i),
    decreases text.len(),
{
    if text.len() > 0 {
        let head = escape_byte(text[0]);
        let tail = escape_bytes(text.drop_first());
        let whole = escape_bytes(text);
        lemma_escape_ampersand_begins_entity(text.drop_first());
        assert forall|i: int| 0 <= i < whole.len() && #[trigger] whole[i] == AMPERSAND implies entity_at(
            whole,
            i,
        ) by {
            if i < head.len() {
                assert(i == 0);
                assert(whole.subrange(0, head.len() as int) =~= head);
            } else {
                let j = i - head.len();
                assert(tail[j] == AMPERSAND);
                lemma_occurs_at_after(head, tail, amp_entity(), j);
                lemma_occurs_at_after(head, tail, lt_entity(), j);
                lemma_occurs_at_after(head, tail, gt_entity(), j);
            }
        }
    }
}

/// Decoding the entities of an escaped text gives the text back.
pub proof fn lemma_unescape_escape(text: Seq<u8>)
    ensures
        unescape_bytes(escape_bytes(text)) == text,
    decreases text.len(),
{
    if text.len() > 0 {
        let head = escape_byte(text[0]);
        let tail = escape_bytes(text.drop_first());
        let whole = escape_bytes(text);
        lemma_unescape_escape(text.drop_first());
        assert(whole.skip(head.len() as int) == tail);
        assert(whole.drop_first() == whole.skip(1));
        assert(head.is_prefix_of(whole));
        assert(text == seq![text[0]] + text.drop_first());
        if text[0] == AMPERSAND {
        } else if text[0] == LESS_THAN {
            assert(!amp_entity().is_prefix_of(whole)) by {
                assert(whole[1] == 0x6cu8);
            }
        } else if text[0] == GREATER_THAN {
            assert(!amp_entity().is_prefix_of(whole)) by {
                assert(whole[1] == 0x67u8);
            }
            assert(!lt_entity().is_prefix_of(whole)) by {
                assert(whole[1] == 0x67u8);
            }
        } else {
            assert(whole[0] == text[0]);
        }
    }
}

/// Escaping is correct: the escaped form of any text holds no `<` and no `>`,
/// each `&` in it begins an entity, and decoding the entities recovers the
/// text exactly.
pub proof fn lemma_escaping_correct(text: Seq<u8>)
    ensures
        forall|i: int|
            0 <= i < escape_bytes(text).len() ==> #[trigger] escape_bytes(text)[i] != LESS_THAN
                && escape_bytes(text)[i] != GREATER_THAN,
        forall|i: int|
            0 <= i < escape_bytes(text).len() && #[trigger] escape_bytes(text)[i] == AMPERSAND
                ==> entity_at(escape_bytes(text), i),
        unescape_bytes(escape_bytes(text)) == text,
{
    lemma_escape_has_no_angle_bracket(text);
    lemma_escape_ampersand_begins_entity(text);
    lemma_unescape_escape(text);
}

/// The number of times that `byte` stands in `text`.
pub open spec fn count_byte(text: Seq<u8>, byte: u8) -> nat
    decreases text.len(),
{
    if text.len() == 0 {
        0
    } else {
        count_byte(text.drop_first(), byte) + if text[0] == byte {
            1nat
        } else {
            0nat
        }
    }
}

/// One of the three entities.
pub open spec fn is_entity(pattern: Seq<u8>) -> bool {
    pattern == amp_entity() || pattern == lt_entity() || pattern == gt_entity()
}

/// In the escaped form of one byte followed by anything, an entity is
/// found once at the start if the byte escapes to it, and else as often as
/// in what follows.
proof fn lemma_count_entity_step(byte: u8, rest: Seq<u8>, pattern: Seq<u8>)
    requires
        is_entity(pattern),
    ensures
        count_occurrences(escape_byte(byte) + rest, pattern) == count_occurrences(rest, pattern)
            + if escape_byte(byte) == pattern {
            1nat
        } else {
            0nat
        },
{
    let head = escape_byte(byte);
    let whole = head + rest;
    assert forall|at: int|
        0 <= at < head.len() && at + pattern.len() > head.len() implies !occurs_at(
        whole,
        pattern,
        at,
    ) by {
        if occurs_at(whole, pattern, at) {
            let found = whole.subrange(at, at + pattern.len());
            assert(found[0] == pattern[0]);
            assert(whole[at] == AMPERSAND);
            assert(at == 0);
            assert(found[1] == pattern[1]);
            assert(whole[1] == head[1]);
        }
    }
    assert(none_straddles(head, rest, pattern));
    lemma_count_concat(head, rest, pattern, whole.len() as int);
    lemma_count_leading(head, pattern, head.len() as int);
    if occurs_at(head, pattern, 0) {
        assert(head.subrange(0, pattern.len() as int)[1] == pattern[1]);
        assert(head =~= pattern);
    }
    if head == pattern {
        assert(head.subrange(0, pattern.len() as int) =~= pattern);
    }
    if rest.len() == 0 {
        assert(count_before(rest, pattern, 0) == 0);
    }
}

/// The escaped form of a text holds each entity as often as the text holds
/// the byte that it stands for.
proof fn lemma_count_entity(text: Seq<u8>, byte: u8)
    requires
        byte == AMPERSAND || byte == LESS_THAN || byte == GREATER_THAN,
    ensures
        count_occurrences(escape_bytes(text), escape_byte(byte)) == count_byte(text, byte),
    decreases text.len(),
{
    if text.len() == 0 {
        assert(count_before(escape_bytes(text), escape_byte(byte), 0) == 0);
    } else {
        lemma_count_entity(text.drop_first(), byte);
        lemma_count_entity_step(text[0], escape_bytes(text.drop_first()), escape_byte(byte));
        if escape_byte(text[0]) == escape_byte(byte) {
            assert(escape_byte(text[0])[1] == escape_byte(byte)[1]);
        }
    }
}

/// Escaping is applied once: the escaped form of any text holds `&amp;` as
/// often as the text holds `&`, `&lt;` as often as it holds `<`, and `&gt;`
/// as often as it holds `>`.
pub proof fn lemma_escaped_once(text: Seq<u8>)
    ensures
        count_occurrences(escape_bytes(text), amp_entity()) == count_byte(text, AMPERSAND),
        count_occurrences(escape_bytes(text), lt_entity()) == count_byte(text, LESS_THAN),
        count_occurrences(escape_bytes(text), gt_entity()) == count_byte(text, GREATER_THAN),
{
    lemma_count_entity(text, AMPERSAND);
    lemma_count_entity(text, LESS_THAN);
    lemma_count_entity(text, GREATER_THAN);
}

/// Appends the escaped form of `text` to `out`.
pub fn escape_into(text: &[u8], out: &mut Vec<u8>)
    ensures
        final(out)@ == old(out)@ + escape_bytes(text@),
{
    let mut i: usize = 0;
    assert(text@.skip(0) == text@);
    while i < text.len()
        invariant
            i <= text.len(),
            out@ + escape_bytes(text@.skip(i as int)) == old(out)@ + escape_bytes(text@),
        decreases text.len() - i,
    {
        let byte = text[i];
        assert(text@.skip(i as int).drop_first() == text@.skip(i + 1));
        assert(text@.skip(i as int)[0] == byte);
        if byte == AMPERSAND {
            out.push(0x26);
            out.push(0x61);
            out.push(0x6d);
            out.push(0x70);
            out.push(0x3b);
        } else if byte == LESS_THAN {
            out.push(0x26);
            out.push(0x6c);
            out.push(0x74);
            out.push(0x3b);
        } else if byte == GREATER_THAN {
            out.push(0x26);
            out.push(0x67);
            out.push(0x74);
            out.push(0x3b);
        } else {
            out.push(byte);
        }
        i += 1;
    }
    assert(text@.skip(i as int).len() == 0);
}

/// Renders a text with no highlighting: its escaped form and nothing else.
pub fn render_plain(source: &[u8]) -> (markup: Vec<u8>)
    ensures
        markup@ == escape_bytes(source@),
{
    let mut markup: Vec<u8> = Vec::new();
    escape_into(source, &mut markup);
    markup
}

} // verus!
