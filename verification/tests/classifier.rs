use html_highlight::category::category_names;
use html_highlight::highlight::{highlight_adapter, render_classified};
use html_highlight::render::render_events;
use html_highlight::{highlight, no_highlight, CategoryTable, HighlightEvent, Language, Registry};
use tree_sitter_highlight::{HighlightConfiguration, Highlighter};

fn rust_grammar() -> HighlightConfiguration {
    let mut config = HighlightConfiguration::new(
        tree_sitter_rust::language(),
        tree_sitter_rust::HIGHLIGHT_QUERY,
        tree_sitter_rust::INJECTIONS_QUERY,
        "",
    )
    .unwrap();
    config.configure(&category_names());
    config
}

fn javascript_grammar() -> HighlightConfiguration {
    let mut config = HighlightConfiguration::new(
        tree_sitter_javascript::language(),
        tree_sitter_javascript::HIGHLIGHT_QUERY,
        tree_sitter_javascript::INJECTION_QUERY,
        tree_sitter_javascript::LOCALS_QUERY,
    )
    .unwrap();
    config.configure(&category_names());
    config
}

fn events_of<'a>(
    config: &'a HighlightConfiguration,
    code: &'a [u8],
    injected: &'a [(&'a str, &'a HighlightConfiguration)],
) -> Vec<HighlightEvent> {
    let mut highlighter = Highlighter::new();
    let stream = highlighter
        .highlight(config, code, None, |name| {
            injected.iter().find(|(known, _)| *known == name).map(|(_, config)| *config)
        })
        .unwrap();
    let mut events = Vec::new();
    for event in stream {
        events.push(match event.unwrap() {
            tree_sitter_highlight::HighlightEvent::Source { start, end } => HighlightEvent::SourceBytes { start, end },
            tree_sitter_highlight::HighlightEvent::HighlightStart(highlight) => HighlightEvent::BeginCategory(highlight.0),
            tree_sitter_highlight::HighlightEvent::HighlightEnd => HighlightEvent::EndCategory,
        });
    }
    events
}

fn strip_tags(markup: &str) -> String {
    let mut text = String::new();
    let mut in_tag = false;
    for c in markup.chars() {
        if in_tag {
            in_tag = c != '>';
        } else if c == '<' {
            in_tag = true;
        } else {
            text.push(c);
        }
    }
    text
}

#[test]
fn a_registered_language_is_classified_and_rendered() {
    let rust = rust_grammar();
    let table = CategoryTable::new();
    let mut registry = Registry::new();
    registry.register(Language::Rust, &rust);
    let code = "fn f() {}";
    assert_eq!(
        highlight(code, "rust", &registry, &table),
        "<span class=\"ts-keyword\">fn</span> <span class=\"ts-function\">f</span><span class=\"ts-punctuation-bracket\">(</span><span class=\"ts-punctuation-bracket\">)</span> <span class=\"ts-punctuation-bracket\">{</span><span class=\"ts-punctuation-bracket\">}</span>"
    );
}

#[test]
fn the_result_is_the_rendering_of_what_the_classifier_gives() {
    let rust = rust_grammar();
    let table = CategoryTable::new();
    let mut registry = Registry::new();
    registry.register(Language::Rust, &rust);
    let code = "fn main() {\n    let s = \"<&>\";\n    if 1 < 2 && s.len() > 0 { return; }\n}\n";
    let events = events_of(&rust, code.as_bytes(), &[("rust", &rust)]);
    assert!(events.len() > 10);
    let expected = render_events(code.as_bytes(), &events, &[], &table);
    assert_eq!(highlight_adapter(code.as_bytes(), &rust, &registry, &table), expected);
    let html = highlight(code, "rust", &registry, &table);
    assert_eq!(html.as_bytes(), &expected[..]);
    assert_ne!(html, no_highlight(code));
    assert!(html.contains("<span class=\"ts-keyword\">fn</span>"));
    assert!(html.contains("&lt;&amp;&gt;"));
    assert_eq!(strip_tags(&html), no_highlight(code));
    assert_eq!(html.matches("<span").count(), html.matches("</span>").count());
}

#[test]
fn two_calls_give_the_same_result() {
    let rust = rust_grammar();
    let table = CategoryTable::new();
    let mut registry = Registry::new();
    registry.register(Language::Rust, &rust);
    let code = "struct A<T> { a: Vec<T> }";
    let first = highlight(code, "rust", &registry, &table);
    let second = highlight(code, "rust", &registry, &table);
    assert_eq!(first, second);
}

#[test]
fn a_language_that_is_not_registered_is_not_classified() {
    let rust = rust_grammar();
    let table = CategoryTable::new();
    let mut registry = Registry::new();
    registry.register(Language::Rust, &rust);
    assert_eq!(highlight("let a = 1 < 2;", "javascript", &registry, &table), "let a = 1 &lt; 2;");
    assert_eq!(highlight("let a = 1 < 2;", "brainfuck", &registry, &table), "let a = 1 &lt; 2;");
}

#[test]
fn an_injected_language_is_looked_up_in_the_registry() {
    let rust = rust_grammar();
    let javascript = javascript_grammar();
    let table = CategoryTable::new();
    let code = "const a = rust`fn f() {}`;";
    let mut both = Registry::new();
    both.register(Language::JavaScript, &javascript);
    both.register(Language::Rust, &rust);
    let mut alone = Registry::new();
    alone.register(Language::JavaScript, &javascript);
    let with_rust = highlight(code, "javascript", &both, &table);
    let without_rust = highlight(code, "javascript", &alone, &table);
    let expected_with = render_events(
        code.as_bytes(),
        &events_of(&javascript, code.as_bytes(), &[("javascript", &javascript), ("rust", &rust)]),
        &[],
        &table,
    );
    let expected_without = render_events(
        code.as_bytes(),
        &events_of(&javascript, code.as_bytes(), &[("javascript", &javascript)]),
        &[],
        &table,
    );
    assert_eq!(with_rust.as_bytes(), &expected_with[..]);
    assert_eq!(without_rust.as_bytes(), &expected_without[..]);
    assert_ne!(with_rust, without_rust);
    assert!(with_rust.contains("<span class=\"ts-keyword\">fn</span>"));
    assert!(!without_rust.contains("<span class=\"ts-keyword\">fn</span>"));
    assert_eq!(strip_tags(&with_rust), no_highlight(code));
    assert_eq!(strip_tags(&without_rust), no_highlight(code));
}

#[test]
fn an_injection_event_is_highlighted_under_the_handle_of_its_language() {
    let rust = rust_grammar();
    let table = CategoryTable::new();
    let mut registry = Registry::new();
    registry.register(Language::Rust, &rust);
    let code = "<pre>fn f() {}</pre>";
    let events = [
        HighlightEvent::SourceBytes { start: 0, end: 5 },
        HighlightEvent::BeginInjection { language: String::from("rust"), start: 5, end: 14 },
        HighlightEvent::EndInjection,
        HighlightEvent::BeginInjection { language: String::from("Rust"), start: 5, end: 14 },
        HighlightEvent::EndInjection,
        HighlightEvent::SourceBytes { start: 14, end: 20 },
    ];
    let inner = highlight_adapter(&code.as_bytes()[5..14], &rust, &registry, &table);
    assert_ne!(inner, b"fn f() {}".to_vec());
    let mut expected = b"&lt;pre&gt;".to_vec();
    expected.extend_from_slice(&inner);
    expected.extend_from_slice(b"fn f() {}");
    expected.extend_from_slice(b"&lt;/pre&gt;");
    assert_eq!(render_classified(code.as_bytes(), &events, &registry, &table), expected);
}
