use html_highlight::escape::{escape_into, render_plain};
use html_highlight::no_highlight;
use html_highlight::text::{escape_text_html, markup_to_string, str_eq};

fn decode_entities(markup: &str) -> String {
    let mut text = String::new();
    let mut rest = markup;
    while !rest.is_empty() {
        if let Some(after) = rest.strip_prefix("&amp;") {
            text.push('&');
            rest = after;
        } else if let Some(after) = rest.strip_prefix("&lt;") {
            text.push('<');
            rest = after;
        } else if let Some(after) = rest.strip_prefix("&gt;") {
            text.push('>');
            rest = after;
        } else {
            let c = rest.chars().next().unwrap();
            text.push(c);
            rest = &rest[c.len_utf8()..];
        }
    }
    text
}

#[test]
fn angle_brackets_become_entities() {
    assert_eq!(no_highlight("<<<>>>"), "&lt;&lt;&lt;&gt;&gt;&gt;");
}

#[test]
fn ampersand_becomes_entity() {
    assert_eq!(no_highlight("a && b"), "a &amp;&amp; b");
}

#[test]
fn less_than_is_escaped_once() {
    assert_eq!(no_highlight("<"), "&lt;");
    assert_ne!(no_highlight("<"), "&amp;lt;");
    assert_eq!(no_highlight("x < 1"), "x &lt; 1");
}

#[test]
fn text_that_looks_escaped_is_escaped_like_any_text() {
    assert_eq!(no_highlight("&lt;"), "&amp;lt;");
}

#[test]
fn quotes_pass_through() {
    assert_eq!(no_highlight("say \"hi\" and 'bye'"), "say \"hi\" and 'bye'");
}

#[test]
fn empty_text_stays_empty() {
    assert_eq!(no_highlight(""), "");
    assert_eq!(render_plain(b""), Vec::<u8>::new());
}

#[test]
fn whitespace_and_line_breaks_are_kept() {
    assert_eq!(no_highlight("a\n\tb\r\n  c\n"), "a\n\tb\r\n  c\n");
}

#[test]
fn characters_outside_ascii_are_kept() {
    assert_eq!(no_highlight("caf\u{e9} <\u{1f600}> \u{4e2d}&"), "caf\u{e9} &lt;\u{1f600}&gt; \u{4e2d}&amp;");
}

#[test]
fn escape_text_html_is_what_no_highlight_gives() {
    let text = "if (a < b && b > c) { return \"x\"; }";
    assert_eq!(escape_text_html(text), no_highlight(text));
    assert_eq!(escape_text_html(text), "if (a &lt; b &amp;&amp; b &gt; c) { return \"x\"; }");
}

#[test]
fn render_plain_escapes_bytes() {
    assert_eq!(render_plain(b"<a href=\"x\">&</a>"), b"&lt;a href=\"x\"&gt;&amp;&lt;/a&gt;".to_vec());
}

#[test]
fn render_plain_keeps_bytes_that_are_not_text() {
    assert_eq!(render_plain(&[0xff, 0x3c, 0x00, 0x80]), vec![0xff, 0x26, 0x6c, 0x74, 0x3b, 0x00, 0x80]);
}

#[test]
fn escape_into_appends_to_what_is_there() {
    let mut out = b"<span>".to_vec();
    escape_into(b"1 > 0", &mut out);
    assert_eq!(out, b"<span>1 &gt; 0".to_vec());
    escape_into(b"", &mut out);
    assert_eq!(out, b"<span>1 &gt; 0".to_vec());
}

#[test]
fn escaped_text_holds_no_bare_special_character() {
    let escaped = no_highlight("<&>a&b<c>d&&<<>>");
    assert!(!escaped.contains('<'));
    assert!(!escaped.contains('>'));
    for (at, _) in escaped.match_indices('&') {
        let rest = &escaped[at..];
        assert!(rest.starts_with("&amp;") || rest.starts_with("&lt;") || rest.starts_with("&gt;"));
    }
}

#[test]
fn decoding_the_entities_gives_the_text_back() {
    for text in ["", "plain", "<&>", "a < b && c > d", "&amp; &lt; &gt;", "&&&", "caf\u{e9} <b>", "&am", "&l&g"] {
        assert_eq!(decode_entities(&no_highlight(text)), text);
    }
}

#[test]
fn markup_that_is_utf8_becomes_the_string() {
    let markup = "<span class=\"ts-string\">\u{e9}</span>".as_bytes().to_vec();
    assert_eq!(markup_to_string(markup, "\u{e9}"), "<span class=\"ts-string\">\u{e9}</span>");
}

#[test]
fn markup_that_is_not_utf8_gives_way_to_the_escaped_code() {
    let markup = vec![0x3c, 0xc3, 0x3e];
    assert_eq!(markup_to_string(markup, "a < \u{e9}"), "a &lt; \u{e9}");
}

#[test]
fn str_eq_compares_characters() {
    assert!(str_eq("ruby", "ruby"));
    assert!(str_eq("", ""));
    assert!(!str_eq("ruby", "rubx"));
    assert!(!str_eq("ruby", "rub"));
    assert!(!str_eq("Ruby", "ruby"));
    assert!(!str_eq("", "c"));
}

#[test]
fn each_special_character_gives_one_entity() {
    let escaped = no_highlight("<<&>&&< a&amp;b");
    assert_eq!(escaped.match_indices("&lt;").count(), 3);
    assert_eq!(escaped.match_indices("&gt;").count(), 1);
    assert_eq!(escaped.match_indices("&amp;").count(), 4);
    assert_eq!(escaped, "&lt;&lt;&amp;&gt;&amp;&amp;&lt; a&amp;amp;b");
}
