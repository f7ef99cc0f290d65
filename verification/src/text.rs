//! Escaping of `str` text, stated over characters and tied to the byte-level
//! routine through UTF-8.

use vstd::prelude::*;
use vstd::utf8::*;
use crate::escape::{
    escape_byte, escape_bytes, lemma_escape_concat, render_plain, AMPERSAND, GREATER_THAN,
    LESS_THAN,
};

verus! {

/// What one character of text becomes in element content.
pub open spec fn escape_char(c: char) -> Seq<char> {
    if c == '&' {
        seq!['&', 'a', 'm', 'p', ';']
    } else if c == '<' {
        seq!['&', 'l', 't', ';']
    } else if c == '>' {
        seq!['&', 'g', 't', ';']
    } else {
        seq![c]
    }
}

/// The escaped form of a text: each character replaced by `escape_char`.
pub open spec fn escape_text(text: Seq<char>) -> Seq<char>
    decreases text.len(),
{
    if text.len() == 0 {
        Seq::empty()
    } else {
        escape_char(text[0]) + escape_text(text.drop_first())
    }
}

/// The UTF-8 encoding of a concatenation is the concatenation of the encodings.
pub proof fn lemma_encode_utf8_concat(left: Seq<char>, right: Seq<char>)
    ensures
        encode_utf8(left + right) == encode_utf8(left) + encode_utf8(right),
    decreases left.len(),
{
    if left.len() == 0 {
        assert(left + right == right);
    } else {
        assert((left + right).drop_first() == left.drop_first() + right);
        lemma_encode_utf8_concat(left.drop_first(), right);
    }
}

/// A text with none of the three special bytes is its own escaped form.
pub proof fn lemma_escape_unchanged(text: Seq<u8>)
    requires
        forall|i: int|
            0 <= i < text.len() ==> #[trigger] text[i] != AMPERSAND && text[i] != LESS_THAN
                && text[i] != GREATER_THAN,
    ensures
        escape_bytes(text) == text,
    decreases text.len(),
{
    if text.len() > 0 {
        lemma_escape_unchanged(text.drop_first());
        assert(text == seq![text[0]] + text.drop_first());
    }
}

/// The encoding of a character outside ASCII holds no byte below 0x80.
proof fn lemma_wide_scalar_bytes(scalar: u32)
    requires
        is_scalar(scalar),
        !has_width_1_encoding(scalar),
    ensures
        forall|i: int|
            0 <= i < encode_scalar(scalar).len() ==> #[trigger] encode_scalar(scalar)[i] >= 0x80,
{
    assert(forall|x: u8| #[trigger] (0xC0u8 | x) >= 0x80u8) by (bit_vector);
    assert(forall|x: u8| #[trigger] (0xE0u8 | x) >= 0x80u8) by (bit_vector);
    assert(forall|x: u8| #[trigger] (0xF0u8 | x) >= 0x80u8) by (bit_vector);
    assert(forall|x: u8| #[trigger] (0x80u8 | x) >= 0x80u8) by (bit_vector);
}

/// Escaping the encoding of one character gives the encoding of its escaped form.
proof fn lemma_escape_char_utf8(c: char)
    ensures
        encode_utf8(escape_char(c)) == escape_bytes(encode_scalar(c as u32)),
{
    let scalar = c as u32;
    let bytes = encode_scalar(scalar);
    char_is_scalar(c);
    if has_width_1_encoding(scalar) {
        assert(scalar as u8 == leading_byte_width_1(scalar)) by (bit_vector)
            requires
                has_width_1_encoding(scalar),
        ;
        assert(bytes == seq![scalar as u8]);
        assert(escape_bytes(bytes) == escape_byte(scalar as u8)) by {
            assert(bytes.len() == 1 && bytes[0] == scalar as u8);
            assert(bytes.drop_first() == Seq::<u8>::empty());
            assert(escape_bytes(Seq::<u8>::empty()) == Seq::<u8>::empty());
            assert(escape_byte(bytes[0]) + Seq::<u8>::empty() == escape_byte(bytes[0]));
        }
        let escaped = escape_char(c);
        assert(is_ascii_chars(escaped));
        is_ascii_chars_encode_utf8(escaped);
        assert(encode_utf8(escaped) =~= escape_byte(scalar as u8));
    } else {
        lemma_wide_scalar_bytes(scalar);
        lemma_escape_unchanged(bytes);
        assert(escape_char(c) == seq![c]);
        assert(seq![c].drop_first() == Seq::<char>::empty());
        assert(encode_utf8(seq![c]) == bytes + encode_utf8(Seq::<char>::empty()));
    }
}

/// Escaping commutes with UTF-8: the bytes of an escaped text are the
/// escaped bytes of the text.
pub proof fn lemma_escape_text_utf8(text: Seq<char>)
    ensures
        encode_utf8(escape_text(text)) == escape_bytes(encode_utf8(text)),
    decreases text.len(),
{
    if text.len() > 0 {
        let rest = text.drop_first();
        lemma_escape_text_utf8(rest);
        lemma_escape_char_utf8(text[0]);
        lemma_encode_utf8_concat(escape_char(text[0]), escape_text(rest));
        lemma_escape_concat(encode_scalar(text[0] as u32), encode_utf8(rest));
    }
}

/// `String::from_utf8` of std: the bytes as a `String` when they are valid
/// UTF-8, with exactly those bytes as its encoding, and nothing when they
/// are not.
#[verifier::external_body]
fn string_from_utf8(bytes: Vec<u8>) -> (text: Option<String>)
    ensures
        text is Some <==> valid_utf8(bytes@),
        text matches Some(s) ==> encode_utf8(s@) == bytes@,
{
    String::from_utf8(bytes).ok()
}

/// The markup as a `String`, or the escaped form of `code` where the markup
/// is not valid UTF-8.
pub fn markup_to_string(markup: Vec<u8>, code: &str) -> (html: String)
    ensures
        valid_utf8(markup@) ==> encode_utf8(html@) == markup@,
        !valid_utf8(markup@) ==> html@ == escape_text(code@),
{
    match string_from_utf8(markup) {
        Some(html) => html,
        None => escape_text_html(code),
    }
}

/// Whether two strings hold the same characters.
pub fn str_eq(left: &str, right: &str) -> (equal: bool)
    ensures
        equal == (left@ == right@),
{
    let a = left.as_bytes();
    let b = right.as_bytes();
    proof {
        encode_utf8_decode_utf8(left@);
        encode_utf8_decode_utf8(right@);
    }
    if a.len() != b.len() {
        return false;
    }
    let mut i: usize = 0;
    while i < a.len()
        invariant
            i <= a@.len(),
            a@.len() == b@.len(),
            a@ == encode_utf8(left@),
            b@ == encode_utf8(right@),
            forall|j: int| 0 <= j < i ==> a@[j] == b@[j],
        decreases a.len() - i,
    {
        if a[i] != b[i] {
            return false;
        }
        i += 1;
    }
    assert(a@ =~= b@);
    true
}

/// Escapes HTML text content: `&`, `<` and `>` become `&amp;`, `&lt;` and
/// `&gt;`, and every other character is kept.
///
/// Not meant for other HTML content, such as attribute values.
pub fn escape_text_html(text: &str) -> (escaped: String)
    ensures
        escaped@ == escape_text(text@),
        encode_utf8(escaped@) == escape_bytes(encode_utf8(text@)),
{
    let markup = render_plain(text.as_bytes());
    proof {
        lemma_escape_text_utf8(text@);
        encode_utf8_valid_utf8(escape_text(text@));
    }
    match string_from_utf8(markup) {
        Some(escaped) => {
            proof {
                encode_utf8_decode_utf8(escaped@);
                encode_utf8_decode_utf8(escape_text(text@));
            }
            escaped
        },
        None => {
            // The escaped form of valid UTF-8 is valid UTF-8: this is never reached.
            assert(false);
            String::new()
        },
    }
}

/// Escapes the given text without highlighting it, for code whose language
/// is not known.
pub fn no_highlight(code: &str) -> (html: String)
    ensures
        html@ == escape_text(code@),
        encode_utf8(html@) == escape_bytes(encode_utf8(code@)),
{
    escape_text_html(code)
}

} // verus!
