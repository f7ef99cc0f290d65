//! The supported languages, the names they are asked for by, and the
//! scopes that their grammars are registered under.

use std::str::FromStr;
use vstd::prelude::*;
use crate::text::str_eq;

verus! {

/// A language that can be highlighted.
#[derive(Clone, Copy, Debug, PartialEq, Eq, Structural)]
pub enum Language {
    C,
    CPlusPlus,
    Go,
    Haskell,
    Html,
    Java,
    JavaScript,
    Python,
    Ruby,
    Rust,
    TypeScript,
}

/// The name that was asked for belongs to no supported language.
#[derive(Clone, Copy, Debug, PartialEq, Eq, Structural)]
pub struct UnknownLanguageError;

/// The language with the given name, by exact match.
pub open spec fn language_named(name: Seq<char>) -> Option<Language> {
    if name == "c"@ {
        Some(Language::C)
    } else if name == "cpp"@ {
        Some(Language::CPlusPlus)
    } else if name == "go"@ {
        Some(Language::Go)
    } else if name == "haskell"@ {
        Some(Language::Haskell)
    } else if name == "html"@ {
        Some(Language::Html)
    } else if name == "java"@ {
        Some(Language::Java)
    } else if name == "javascript"@ {
        Some(Language::JavaScript)
    } else if name == "python"@ {
        Some(Language::Python)
    } else if name == "ruby"@ {
        Some(Language::Ruby)
    } else if name == "rust"@ {
        Some(Language::Rust)
    } else if name == "typescript"@ {
        Some(Language::TypeScript)
    } else {
        None
    }
}

/// The scope that the grammar of a language is registered under.
pub open spec fn scope_of(language: Language) -> Seq<char> {
    match language {
        Language::C => "source.c"@,
        Language::CPlusPlus => "source.cpp"@,
        Language::Go => "source.go"@,
        Language::Haskell => "source.haskell"@,
        Language::Html => "text.html.basic"@,
        Language::Java => "source.java"@,
        Language::JavaScript => "source.js"@,
        Language::Python => "source.python"@,
        Language::Ruby => "source.ruby"@,
        Language::Rust => "source.rust"@,
        Language::TypeScript => "source.ts"@,
    }
}

impl Language {
    /// The scope that the grammar of this language is registered under.
    pub fn scope(&self) -> (scope: &'static str)
        ensures
            scope@ == scope_of(*self),
    {
        match self {
            Language::C => "source.c",
            Language::CPlusPlus => "source.cpp",
            Language::Go => "source.go",
            Language::Haskell => "source.haskell",
            Language::Html => "text.html.basic",
            Language::Java => "source.java",
            Language::JavaScript => "source.js",
            Language::Python => "source.python",
            Language::Ruby => "source.ruby",
            Language::Rust => "source.rust",
            Language::TypeScript => "source.ts",
        }
    }

    /// The language with the given name, or `UnknownLanguageError` where no
    /// supported language has exactly that name.
    pub fn from_str(language_name: &str) -> (language: Result<Language, UnknownLanguageError>)
        ensures
            language == match language_named(language_name@) {
                Some(known) => Ok::<Language, UnknownLanguageError>(known),
                None => Err::<Language, UnknownLanguageError>(UnknownLanguageError),
            },
    {
        if str_eq(language_name, "c") {
            Ok(Language::C)
        } else if str_eq(language_name, "cpp") {
            Ok(Language::CPlusPlus)
        } else if str_eq(language_name, "go") {
            Ok(Language::Go)
        } else if str_eq(language_name, "haskell") {
            Ok(Language::Haskell)
        } else if str_eq(language_name, "html") {
            Ok(Language::Html)
        } else if str_eq(language_name, "java") {
            Ok(Language::Java)
        } else if str_eq(language_name, "javascript") {
            Ok(Language::JavaScript)
        } else if str_eq(language_name, "python") {
            Ok(Language::Python)
        } else if str_eq(language_name, "ruby") {
            Ok(Language::Ruby)
        } else if str_eq(language_name, "rust") {
            Ok(Language::Rust)
        } else if str_eq(language_name, "typescript") {
            Ok(Language::TypeScript)
        } else {
            Err(UnknownLanguageError)
        }
    }
}

impl FromStr for Language {
    type Err = UnknownLanguageError;

    fn from_str(language_name: &str) -> (language: Result<Language, UnknownLanguageError>)
        ensures
            language == match language_named(language_name@) {
                Some(known) => Ok::<Language, UnknownLanguageError>(known),
                None => Err::<Language, UnknownLanguageError>(UnknownLanguageError),
            },
    {
        Language::from_str(language_name)
    }
}

} // verus!
