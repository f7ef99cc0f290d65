use html_highlight::render::{render_events, RenderState};
use html_highlight::{CategoryTable, HighlightEvent};

const COMMENT: usize = 4;
const KEYWORD: usize = 23;
const STRING: usize = 36;

fn begin(category: usize) -> HighlightEvent {
    HighlightEvent::BeginCategory(category)
}

fn source(start: usize, end: usize) -> HighlightEvent {
    HighlightEvent::SourceBytes { start, end }
}

fn end() -> HighlightEvent {
    HighlightEvent::EndCategory
}

fn inject(language: &str, start: usize, end: usize) -> HighlightEvent {
    HighlightEvent::BeginInjection { language: String::from(language), start, end }
}

fn render(code: &str, events: &[HighlightEvent]) -> String {
    let table = CategoryTable::new();
    String::from_utf8(render_events(code.as_bytes(), events, &[], &table)).unwrap()
}

fn count(text: &str, pattern: &str) -> usize {
    text.match_indices(pattern).count()
}

fn strip_tags(markup: &str) -> String {
    let mut text = String::new();
    let mut in_tag = false;
    for c in markup.chars() {
        if in_tag {
            in_tag = c != '>';
        } else if c == '<' {
            in_tag = true;
        } else {
            text.push(c);
        }
    }
    text
}

fn never_underflows(markup: &str) -> bool {
    let mut depth: usize = 0;
    for at in 0..markup.len() {
        if markup.as_bytes()[at..].starts_with(b"<span") {
            depth += 1;
        }
        if markup.as_bytes()[at..].starts_with(b"</span>") {
            if depth == 0 {
                return false;
            }
            depth -= 1;
        }
    }
    true
}

#[test]
fn keyword_and_comment_around_escaped_text() {
    let code = "if (x < 1) { /* ok */ }";
    let events = [
        begin(KEYWORD),
        source(0, 2),
        end(),
        source(2, 4),
        source(4, 9),
        source(9, 13),
        begin(COMMENT),
        source(13, 21),
        end(),
        source(21, 23),
    ];
    assert_eq!(
        render(code, &events),
        "<span class=\"ts-keyword\">if</span> (x &lt; 1) { <span class=\"ts-comment\">/* ok */</span> }"
    );
}

#[test]
fn escaped_character_stays_inside_its_span() {
    let code = "a<b";
    let events = [source(0, 1), begin(KEYWORD), source(1, 2), end(), source(2, 3)];
    assert_eq!(render(code, &events), "a<span class=\"ts-keyword\">&lt;</span>b");
}

#[test]
fn an_empty_stream_renders_nothing() {
    assert_eq!(render("some code", &[]), "");
    assert_eq!(render("", &[]), "");
}

#[test]
fn one_range_over_the_whole_text_is_the_escaped_text() {
    let code = "a < b && c > d \"q\"";
    assert_eq!(render(code, &[source(0, code.len())]), html_highlight::no_highlight(code));
}

#[test]
fn categories_nest() {
    let code = "\"a\\nb\"";
    let events = [begin(STRING), source(0, 2), begin(12), source(2, 4), end(), source(4, 6), end()];
    assert_eq!(
        render(code, &events),
        "<span class=\"ts-string\">\"a<span class=\"ts-escape\">\\n</span>b\"</span>"
    );
}

#[test]
fn line_breaks_are_kept_as_they_are() {
    let code = "a\nb\r\n\tc\n";
    let events = [begin(COMMENT), source(0, 3), end(), source(3, 8)];
    assert_eq!(render(code, &events), "<span class=\"ts-comment\">a\nb</span>\r\n\tc\n");
}

#[test]
fn an_end_with_nothing_open_writes_nothing() {
    let events = [end(), source(0, 1), end(), end()];
    assert_eq!(render("x", &events), "x");
}

#[test]
fn what_stays_open_is_closed_at_the_end() {
    let events = [begin(KEYWORD), source(0, 1), begin(COMMENT), source(1, 2)];
    assert_eq!(
        render("ab", &events),
        "<span class=\"ts-keyword\">a<span class=\"ts-comment\">b</span></span>"
    );
}

#[test]
fn a_category_outside_the_table_is_plain_text() {
    let events = [begin(48), source(0, 1), end(), begin(KEYWORD), begin(9999), source(1, 2), end(), source(2, 3), end()];
    assert_eq!(render("a<c", &events), "a<span class=\"ts-keyword\">&lt;c</span>");
}

#[test]
fn a_category_outside_the_table_left_open_closes_nothing() {
    let events = [begin(77), begin(KEYWORD), source(0, 1)];
    assert_eq!(render("a", &events), "<span class=\"ts-keyword\">a</span>");
}

#[test]
fn a_range_outside_the_source_writes_nothing() {
    let events = [source(0, 1), source(1, 9), source(3, 2), source(usize::MAX, usize::MAX), source(1, 2)];
    assert_eq!(render("ab", &events), "ab");
}

#[test]
fn an_empty_range_writes_nothing() {
    assert_eq!(render("ab", &[source(1, 1), source(2, 2), source(0, 0)]), "");
}

#[test]
fn bytes_that_are_no_text_pass_through() {
    let table = CategoryTable::new();
    let code = [0xff, 0x3c, 0xfe];
    let events = [begin(KEYWORD), source(0, 3), end()];
    let mut expected = b"<span class=\"ts-keyword\">".to_vec();
    expected.extend_from_slice(&[0xff, 0x26, 0x6c, 0x74, 0x3b, 0xfe]);
    expected.extend_from_slice(b"</span>");
    assert_eq!(render_events(&code, &events, &[], &table), expected);
}

#[test]
fn injected_markup_is_embedded_where_the_injection_begins() {
    let table = CategoryTable::new();
    let code = "<p>x = 1</p>";
    let inner_events = [source(0, 4), begin(29), source(4, 5), end()];
    let inner = render_events(&code.as_bytes()[3..8], &inner_events, &[], &table);
    assert_eq!(inner, b"x = <span class=\"ts-number\">1</span>".to_vec());
    let events = [
        begin(41),
        source(0, 3),
        end(),
        inject("python", 3, 8),
        HighlightEvent::EndInjection,
        begin(41),
        source(8, 12),
        end(),
    ];
    let injected = vec![None, None, None, Some(inner.clone()), None, None, None, None];
    let whole = render_events(code.as_bytes(), &events, &injected, &table);
    let before = render_events(code.as_bytes(), &events[..3], &[], &table);
    let after = render_events(code.as_bytes(), &events[4..], &[], &table);
    let mut expected = before.clone();
    expected.extend_from_slice(&inner);
    expected.extend_from_slice(&after);
    assert_eq!(whole, expected);
    assert_eq!(
        String::from_utf8(whole).unwrap(),
        "<span class=\"ts-tag\">&lt;p&gt;</span>x = <span class=\"ts-number\">1</span><span class=\"ts-tag\">&lt;/p&gt;</span>"
    );
}

#[test]
fn an_injection_that_was_not_rendered_is_escaped_text() {
    let table = CategoryTable::new();
    let code = "a<b>c";
    let events = [source(0, 1), inject("brainfuck", 1, 4), HighlightEvent::EndInjection, source(4, 5)];
    assert_eq!(render(code, &events), "a&lt;b&gt;c");
    let injected = vec![None, None, None, None];
    assert_eq!(render_events(code.as_bytes(), &events, &injected, &table), b"a&lt;b&gt;c".to_vec());
}

#[test]
fn an_injection_inside_a_category_keeps_the_category_open() {
    let table = CategoryTable::new();
    let events = [begin(STRING), inject("html", 0, 1), HighlightEvent::EndInjection, source(1, 2), end()];
    let injected = vec![None, Some(b"<span class=\"ts-tag\">a</span>".to_vec())];
    assert_eq!(
        String::from_utf8(render_events(b"ab", &events, &injected, &table)).unwrap(),
        "<span class=\"ts-string\"><span class=\"ts-tag\">a</span>b</span>"
    );
}

#[test]
fn injected_markup_beside_another_event_is_not_used() {
    let table = CategoryTable::new();
    let events = [source(0, 1), inject("html", 1, 2)];
    let injected = vec![Some(b"unused".to_vec()), Some(b"used".to_vec()), Some(b"beyond".to_vec())];
    assert_eq!(render_events(b"ab", &events, &injected, &table), b"aused".to_vec());
}

#[test]
fn an_end_of_injection_writes_nothing() {
    assert_eq!(render("ab", &[HighlightEvent::EndInjection, source(0, 2), HighlightEvent::EndInjection]), "ab");
}

#[test]
fn spans_are_balanced_in_a_well_nested_stream() {
    let code = "fn main() { let s = \"<&>\"; }";
    let events = [
        begin(KEYWORD),
        source(0, 2),
        end(),
        source(2, 3),
        begin(14),
        source(3, 7),
        end(),
        source(7, 12),
        begin(KEYWORD),
        source(12, 15),
        end(),
        source(15, 20),
        begin(STRING),
        source(20, 21),
        begin(12),
        source(21, 24),
        end(),
        source(24, 25),
        end(),
        source(25, 28),
    ];
    let markup = render(code, &events);
    assert_eq!(count(&markup, "<span"), 5);
    assert_eq!(count(&markup, "</span>"), 5);
    assert!(never_underflows(&markup));
}

#[test]
fn spans_are_balanced_in_a_stream_that_is_not_well_nested() {
    let events = [end(), begin(KEYWORD), begin(300), end(), end(), end(), begin(COMMENT), source(0, 1), begin(STRING)];
    let markup = render("<", &events);
    assert_eq!(markup, "<span class=\"ts-keyword\"></span><span class=\"ts-comment\">&lt;<span class=\"ts-string\"></span></span>");
    assert_eq!(count(&markup, "<span"), count(&markup, "</span>"));
    assert!(never_underflows(&markup));
}

#[test]
fn text_between_the_tags_is_the_escaped_source() {
    let code = "if a < b && c > d { \"e\" }";
    let events = [
        begin(KEYWORD),
        source(0, 2),
        end(),
        source(2, 5),
        begin(30),
        source(5, 6),
        end(),
        source(6, 20),
        begin(STRING),
        source(20, 23),
        end(),
        source(23, 25),
    ];
    let markup = render(code, &events);
    assert_eq!(strip_tags(&markup), html_highlight::no_highlight(code));
    assert_eq!(
        strip_tags(&markup).replace("&lt;", "<").replace("&gt;", ">").replace("&amp;", "&"),
        code
    );
}

#[test]
fn state_starts_with_nothing_open_and_nothing_written() {
    let state = RenderState::new();
    assert!(state.stack.is_empty());
    assert!(state.output.is_empty());
    assert_eq!(state.finish(), Vec::<u8>::new());
}

#[test]
fn each_event_moves_the_state_by_one_step() {
    let table = CategoryTable::new();
    let code = b"a&b";
    let mut state = RenderState::new();
    state.apply(code, &begin(KEYWORD), None, &table);
    assert_eq!(state.stack, vec![KEYWORD]);
    assert_eq!(state.output, b"<span class=\"ts-keyword\">".to_vec());
    state.apply(code, &begin(500), None, &table);
    assert_eq!(state.stack, vec![KEYWORD, 500]);
    assert_eq!(state.output, b"<span class=\"ts-keyword\">".to_vec());
    state.apply(code, &source(0, 3), None, &table);
    assert_eq!(state.stack, vec![KEYWORD, 500]);
    assert_eq!(state.output, b"<span class=\"ts-keyword\">a&amp;b".to_vec());
    state.apply(code, &end(), None, &table);
    assert_eq!(state.stack, vec![KEYWORD]);
    assert_eq!(state.output, b"<span class=\"ts-keyword\">a&amp;b".to_vec());
    let markup = b"<span class=\"ts-tag\">i</span>".to_vec();
    state.apply(code, &inject("html", 0, 1), Some(&markup), &table);
    assert_eq!(state.stack, vec![KEYWORD]);
    assert_eq!(state.output, b"<span class=\"ts-keyword\">a&amp;b<span class=\"ts-tag\">i</span>".to_vec());
    state.apply(code, &HighlightEvent::EndInjection, None, &table);
    state.apply(code, &end(), None, &table);
    assert!(state.stack.is_empty());
    assert_eq!(state.output, b"<span class=\"ts-keyword\">a&amp;b<span class=\"ts-tag\">i</span></span>".to_vec());
    state.apply(code, &end(), None, &table);
    assert!(state.stack.is_empty());
    assert_eq!(state.finish(), b"<span class=\"ts-keyword\">a&amp;b<span class=\"ts-tag\">i</span></span>".to_vec());
}

#[test]
fn injected_markup_is_ignored_by_other_events() {
    let table = CategoryTable::new();
    let markup = b"ignored".to_vec();
    let mut state = RenderState::new();
    state.apply(b"ab", &source(0, 1), Some(&markup), &table);
    state.apply(b"ab", &begin(COMMENT), Some(&markup), &table);
    state.apply(b"ab", &end(), Some(&markup), &table);
    assert_eq!(state.finish(), b"a<span class=\"ts-comment\"></span>".to_vec());
}

#[test]
fn finish_closes_innermost_first() {
    let table = CategoryTable::new();
    let mut state = RenderState::new();
    state.apply(b"", &begin(COMMENT), None, &table);
    state.apply(b"", &begin(1000), None, &table);
    state.apply(b"", &begin(KEYWORD), None, &table);
    assert_eq!(
        state.finish(),
        b"<span class=\"ts-comment\"><span class=\"ts-keyword\"></span></span>".to_vec()
    );
}

#[test]
fn ranges_between_characters_give_text() {
    let code = "\u{e9}<\u{4e2d}\u{1f600}";
    let events = [begin(STRING), source(0, 2), end(), source(2, 3), begin(COMMENT), source(3, 6), source(6, 10), end()];
    assert_eq!(
        render(code, &events),
        "<span class=\"ts-string\">\u{e9}</span>&lt;<span class=\"ts-comment\">\u{4e2d}\u{1f600}</span>"
    );
}

#[test]
fn a_range_that_cuts_a_character_gives_bytes_that_are_no_text() {
    let table = CategoryTable::new();
    let code = "\u{e9}";
    let events = [source(0, 1), begin(KEYWORD), source(1, 2), end()];
    let markup = render_events(code.as_bytes(), &events, &[], &table);
    let mut expected = vec![0xc3];
    expected.extend_from_slice(b"<span class=\"ts-keyword\">");
    expected.push(0xa9);
    expected.extend_from_slice(b"</span>");
    assert_eq!(markup, expected);
    assert!(String::from_utf8(markup.clone()).is_err());
    assert_eq!(html_highlight::text::markup_to_string(markup, code), "\u{e9}");
}

#[test]
fn the_output_holds_span_tags_and_entities_only() {
    let table = CategoryTable::new();
    let code = "<b>&amp;</b> <span> </span> && <<";
    let events = [
        end(),
        begin(41),
        source(0, 3),
        end(),
        source(3, 8),
        inject("html", 8, 12),
        begin(999),
        source(12, 19),
        begin(COMMENT),
        inject("brainfuck", 19, 28),
        source(28, 33),
    ];
    let mut injected = vec![None; 5];
    injected.push(Some(b"<span class=\"ts-tag\">&lt;/b&gt;</span>".to_vec()));
    let markup = String::from_utf8(render_events(code.as_bytes(), &events, &injected, &table)).unwrap();
    assert_eq!(
        markup,
        "<span class=\"ts-tag\">&lt;b&gt;</span>&amp;amp;<span class=\"ts-tag\">&lt;/b&gt;</span> &lt;span&gt;<span class=\"ts-comment\"> &lt;/span&gt; &amp;&amp; &lt;&lt;</span>"
    );
    for (at, _) in markup.match_indices('<') {
        assert!(markup[at..].starts_with("<span ") || markup[at..].starts_with("</span>"));
    }
    for (at, _) in markup.match_indices('&') {
        let rest = &markup[at..];
        assert!(rest.starts_with("&amp;") || rest.starts_with("&lt;") || rest.starts_with("&gt;"));
    }
    assert_eq!(count(&markup, "<span"), count(&markup, "</span>"));
    assert!(never_underflows(&markup));
}
