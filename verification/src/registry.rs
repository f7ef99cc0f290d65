//! The language registry: which languages have a classifier, and the call
//! into the classifier itself.

use tree_sitter_highlight::HighlightConfiguration;
use tree_sitter_highlight::Highlighter;
use vstd::prelude::*;
use crate::event::HighlightEvent;
use crate::language::{language_named, Language};

verus! {

/// The classifier handle of a language. Nothing of it is read here: it is
/// handed to the classifier as it came.
#[verifier::external_type_specification]
#[verifier::external_body]
pub struct ExHighlightConfiguration(HighlightConfiguration);

/// A language together with the handle that classifies text written in it.
/// Every language recognises the whole category table.
pub struct LanguageDescriptor<H> {
    pub language: Language,
    pub handle: H,
}

/// The first descriptor of the list that is for `language`.
pub open spec fn first_for<H>(
    descriptors: Seq<LanguageDescriptor<H>>,
    language: Language,
) -> Option<LanguageDescriptor<H>>
    decreases descriptors.len(),
{
    if descriptors.len() == 0 {
        None
    } else if descriptors[0].language == language {
        Some(descriptors[0])
    } else {
        first_for(descriptors.drop_first(), language)
    }
}

/// The descriptor that a name resolves to: the name must be that of a
/// supported language, exactly, and the language must have been registered.
pub open spec fn resolved<H>(
    descriptors: Seq<LanguageDescriptor<H>>,
    name: Seq<char>,
) -> Option<LanguageDescriptor<H>> {
    match language_named(name) {
        Some(language) => first_for(descriptors, language),
        None => None,
    }
}

/// The languages that can be classified, each with a handle of type `H`
/// that the registry keeps and never looks into. It is filled once and then
/// only read.
pub struct Registry<H> {
    descriptors: Vec<LanguageDescriptor<H>>,
}

impl<H> View for Registry<H> {
    type V = Seq<LanguageDescriptor<H>>;

    /// The descriptors in the order in which they were registered.
    closed spec fn view(&self) -> Seq<LanguageDescriptor<H>> {
        self.descriptors@
    }
}

impl<H> Registry<H> {
    /// A registry with no language in it.
    pub fn new() -> (registry: Registry<H>)
        ensures
            registry@ == Seq::<LanguageDescriptor<H>>::empty(),
    {
        Registry { descriptors: Vec::new() }
    }

    /// Adds a language with its handle. Where a language is registered more
    /// than once, the first registration is the one that is found.
    pub fn register(&mut self, language: Language, handle: H)
        ensures
            final(self)@ == old(self)@.push(LanguageDescriptor { language, handle }),
    {
        self.descriptors.push(LanguageDescriptor { language, handle });
    }

    /// The descriptor of `language`, if the language was registered.
    pub fn descriptor(&self, language: Language) -> (found: Option<&LanguageDescriptor<H>>)
        ensures
            found == match first_for(self@, language) {
                Some(descriptor) => Some(&descriptor),
                None => None,
            },
    {
        let mut at: usize = 0;
        assert(self.descriptors@.skip(0) == self.descriptors@);
        while at < self.descriptors.len()
            invariant
                at <= self.descriptors@.len(),
                first_for(self.descriptors@, language) == first_for(
                    self.descriptors@.skip(at as int),
                    language,
                ),
            decreases self.descriptors.len() - at,
        {
            assert(self.descriptors@.skip(at as int).drop_first() == self.descriptors@.skip(
                at + 1,
            ));
            if self.descriptors[at].language == language {
                return Some(&self.descriptors[at]);
            }
            at += 1;
        }
        None
    }

    /// Resolves a language identifier, by exact match against the names of
    /// the supported languages. Nothing is found for an unknown name, nor
    /// for a language that was not registered.
    pub fn resolve(&self, language_id: &str) -> (found: Option<&LanguageDescriptor<H>>)
        ensures
            found == match resolved(self@, language_id@) {
                Some(descriptor) => Some(&descriptor),
                None => None,
            },
    {
        match Language::from_str(language_id) {
            Ok(language) => self.descriptor(language),
            Err(_) => None,
        }
    }
}

impl<'a> Registry<&'a HighlightConfiguration> {
    /// Resolves the name of an injected language to its classifier handle,
    /// as `resolve` does: the name must be exactly that of a supported
    /// language that was registered. A grammar may name an injected
    /// language in other ways, by an alias such as `js` or in capitals;
    /// such a name resolves to nothing, and the injected text gets no
    /// highlighting of its own.
    pub fn resolve_injection(&self, name: &str) -> (found: Option<&'a HighlightConfiguration>)
        ensures
            found == match resolved(self@, name@) {
                Some(descriptor) => Some(descriptor.handle),
                None => None,
            },
    {
        match self.resolve(name) {
            Some(descriptor) => Some(descriptor.handle),
            None => None,
        }
    }
}

/// The events that the classifier behind `handle` gives for `source`, with
/// injected languages looked up among `descriptors`; nothing where it fails.
pub uninterp spec fn classified(
    handle: HighlightConfiguration,
    source: Seq<u8>,
    descriptors: Seq<LanguageDescriptor<&HighlightConfiguration>>,
) -> Option<Seq<HighlightEvent>>;

/// `Highlighter::highlight` of tree_sitter_highlight, on a new `Highlighter`
/// and with no cancellation flag, with its events collected in order. An
/// injected language is looked up in the registry by its name. Nothing is
/// returned where the call or one of its events fails.
///
/// The contract claims that the events depend on the handle, the source and
/// the registry alone, and gives them the name `classified`. It claims one
/// thing more of them: none begins an injection, since the classifier has
/// three kinds of event and merges the events of an injected language into
/// the stream itself.
#[verifier::external_body]
pub(crate) fn classify<'a>(
    handle: &'a HighlightConfiguration,
    source: &'a [u8],
    registry: &'a Registry<&'a HighlightConfiguration>,
) -> (events: Option<Vec<HighlightEvent>>)
    ensures
        events matches Some(list) ==> classified(*handle, source@, registry@) == Some(list@),
        events matches Some(list) ==> forall|i: int|
            0 <= i < list@.len() ==> !(#[trigger] list@[i] is BeginInjection),
        events is None ==> classified(*handle, source@, registry@) is None,
{
    let mut highlighter = Highlighter::new();
    let stream = highlighter.highlight(handle, source, None, |name| registry.resolve_injection(name)).ok()?;
    let mut events = Vec::new();
    for event in stream {
        events.push(match event.ok()? {
            tree_sitter_highlight::HighlightEvent::Source { start, end } => HighlightEvent::SourceBytes { start, end },
            tree_sitter_highlight::HighlightEvent::HighlightStart(highlight) => HighlightEvent::BeginCategory(highlight.0),
            tree_sitter_highlight::HighlightEvent::HighlightEnd => HighlightEvent::EndCategory,
        });
    }
    Some(events)
}

} // verus!
