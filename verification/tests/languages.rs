use html_highlight::{Language, UnknownLanguageError};

#[test]
fn every_supported_name_has_its_language() {
    assert_eq!(Language::from_str("c"), Ok(Language::C));
    assert_eq!(Language::from_str("cpp"), Ok(Language::CPlusPlus));
    assert_eq!(Language::from_str("go"), Ok(Language::Go));
    assert_eq!(Language::from_str("haskell"), Ok(Language::Haskell));
    assert_eq!(Language::from_str("html"), Ok(Language::Html));
    assert_eq!(Language::from_str("java"), Ok(Language::Java));
    assert_eq!(Language::from_str("javascript"), Ok(Language::JavaScript));
    assert_eq!(Language::from_str("python"), Ok(Language::Python));
    assert_eq!(Language::from_str("ruby"), Ok(Language::Ruby));
    assert_eq!(Language::from_str("rust"), Ok(Language::Rust));
    assert_eq!(Language::from_str("typescript"), Ok(Language::TypeScript));
}

#[test]
fn other_names_are_unknown() {
    for name in ["brainfuck", "", "C", "c ", " c", "c++", "js", "ts", "source.c", "rust\n", "Ruby"] {
        assert_eq!(Language::from_str(name), Err(UnknownLanguageError));
    }
}

#[test]
fn parse_goes_through_the_same_names() {
    assert_eq!("ruby".parse::<Language>(), Ok(Language::Ruby));
    assert_eq!("typescript".parse::<Language>(), Ok(Language::TypeScript));
    assert_eq!("brainfuck".parse::<Language>(), Err(UnknownLanguageError));
}

#[test]
fn every_language_has_its_scope() {
    assert_eq!(Language::C.scope(), "source.c");
    assert_eq!(Language::CPlusPlus.scope(), "source.cpp");
    assert_eq!(Language::Go.scope(), "source.go");
    assert_eq!(Language::Haskell.scope(), "source.haskell");
    assert_eq!(Language::Html.scope(), "text.html.basic");
    assert_eq!(Language::Java.scope(), "source.java");
    assert_eq!(Language::JavaScript.scope(), "source.js");
    assert_eq!(Language::Python.scope(), "source.python");
    assert_eq!(Language::Ruby.scope(), "source.ruby");
    assert_eq!(Language::Rust.scope(), "source.rust");
    assert_eq!(Language::TypeScript.scope(), "source.ts");
}
