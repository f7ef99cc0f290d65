//! The entry points: classify a text under a language and render it, or
//! fall back to escaping where that cannot be done.

use tree_sitter_highlight::HighlightConfiguration;
use vstd::prelude::*;
use vstd::utf8::{decode_utf8, encode_utf8, encode_utf8_decode_utf8, valid_utf8};
use crate::balance::{lemma_escaped_well_formed, lemma_render_well_formed, well_formed_markup};
use crate::category::CategoryTable;
use crate::escape::{escape_bytes, render_plain};
use crate::event::HighlightEvent;
use crate::isolation::{
    lemma_injected_markup_embedded, lemma_render_at_local, markup_before, stack_before,
};
use crate::language::language_named;
use crate::registry::{classified, classify, resolved, LanguageDescriptor, Registry};
use crate::render::{
    injected_at, markup_of, markups_of, render_at, render_events, render_markup, segment,
};
use crate::text::{escape_text, lemma_escape_text_utf8, markup_to_string, no_highlight};

verus! {

/// The markup of `code` under the classifier behind `handle`: the rendering
/// of the events that the classifier gives, or the escaped code where the
/// classifier fails.
pub open spec fn highlighting(
    handle: HighlightConfiguration,
    code: Seq<u8>,
    descriptors: Seq<LanguageDescriptor<&HighlightConfiguration>>,
) -> Seq<u8> {
    match classified(handle, code, descriptors) {
        Some(events) => render_markup(code, events, Seq::empty()),
        None => escape_bytes(code),
    }
}

/// The markup that is put in place of an event: where the event begins an
/// injection whose range lies in the source and whose language resolves,
/// the highlighting of that range, on its own, under the handle that the
/// language resolves to; else nothing.
pub open spec fn injected_markup(
    source: Seq<u8>,
    event: HighlightEvent,
    descriptors: Seq<LanguageDescriptor<&HighlightConfiguration>>,
) -> Option<Seq<u8>> {
    match event {
        HighlightEvent::BeginInjection { language, start, end } => if start <= end && end
            <= source.len() {
            match resolved(descriptors, language@) {
                Some(descriptor) => Some(
                    highlighting(*descriptor.handle, segment(source, start, end), descriptors),
                ),
                None => None,
            }
        } else {
            None
        },
        _ => None,
    }
}

/// The injected markup of every event of a stream.
pub open spec fn injected_markups(
    source: Seq<u8>,
    events: Seq<HighlightEvent>,
    descriptors: Seq<LanguageDescriptor<&HighlightConfiguration>>,
) -> Seq<Option<Seq<u8>>> {
    Seq::new(events.len(), |i: int| injected_markup(source, events[i], descriptors))
}

/// The rendering of a stream in which each injection that resolves is
/// highlighted on its own, and every other injection is escaped as text.
pub open spec fn classified_markup(
    source: Seq<u8>,
    events: Seq<HighlightEvent>,
    descriptors: Seq<LanguageDescriptor<&HighlightConfiguration>>,
) -> Seq<u8> {
    render_markup(source, events, injected_markups(source, events, descriptors))
}

/// What `highlight` gives: the escaped code where the name resolves to
/// nothing, and else the highlighting of the code under the handle that the
/// name resolves to, or the escaped code where that markup is no text.
pub open spec fn highlighted(
    code: Seq<char>,
    language_id: Seq<char>,
    descriptors: Seq<LanguageDescriptor<&HighlightConfiguration>>,
) -> Seq<char> {
    match resolved(descriptors, language_id) {
        Some(descriptor) => {
            let markup = highlighting(*descriptor.handle, encode_utf8(code), descriptors);
            if valid_utf8(markup) {
                decode_utf8(markup)
            } else {
                escape_text(code)
            }
        },
        None => escape_text(code),
    }
}

/// Every highlighting is well-formed markup.
pub proof fn lemma_highlighting_is_well_formed(
    handle: HighlightConfiguration,
    code: Seq<u8>,
    descriptors: Seq<LanguageDescriptor<&HighlightConfiguration>>,
)
    ensures
        well_formed_markup(highlighting(handle, code, descriptors)),
{
    match classified(handle, code, descriptors) {
        Some(events) => {
            lemma_render_well_formed(code, events, Seq::empty());
        },
        None => {
            lemma_escaped_well_formed(code);
        },
    }
}

/// The rendering of a stream with its injections highlighted is well-formed
/// markup.
pub proof fn lemma_classified_markup_is_well_formed(
    source: Seq<u8>,
    events: Seq<HighlightEvent>,
    descriptors: Seq<LanguageDescriptor<&HighlightConfiguration>>,
)
    ensures
        well_formed_markup(classified_markup(source, events, descriptors)),
{
    let injected = injected_markups(source, events, descriptors);
    assert forall|i: int| 0 <= i < injected.len() implies (#[trigger] injected[i] matches Some(
        inner,
    ) ==> well_formed_markup(inner)) by {
        match events[i] {
            HighlightEvent::BeginInjection { language, start, end } => {
                match resolved(descriptors, language@) {
                    Some(descriptor) => {
                        lemma_highlighting_is_well_formed(
                            *descriptor.handle,
                            segment(source, start, end),
                            descriptors,
                        );
                    },
                    None => {},
                }
            },
            _ => {},
        }
    }
    lemma_render_well_formed(source, events, injected);
}

/// Where no injection of a stream resolves, and so where it holds none, the
/// stream is rendered as it is, with each injection escaped as text.
pub proof fn lemma_classified_markup_without_injections(
    source: Seq<u8>,
    events: Seq<HighlightEvent>,
    descriptors: Seq<LanguageDescriptor<&HighlightConfiguration>>,
)
    requires
        forall|i: int|
            0 <= i < events.len() ==> injected_markup(source, #[trigger] events[i], descriptors)
                is None,
    ensures
        classified_markup(source, events, descriptors) == render_markup(
            source,
            events,
            Seq::empty(),
        ),
{
    let injected = injected_markups(source, events, descriptors);
    let none = Seq::<Option<Seq<u8>>>::empty();
    assert forall|i: int| 0 <= i implies injected_at(injected, i) == injected_at(none, i) by {
        if i < events.len() {
            assert(injected_markup(source, events[i], descriptors) is None);
        }
    }
    lemma_render_at_local(source, events, injected, none, 0, Seq::<usize>::empty());
}

/// Injection is isolated: where the event at `at` begins an injection whose
/// range lies in the source and whose language resolves to `descriptor`,
/// the output is the markup of the events before it, then exactly the
/// highlighting of the range on its own under the handle of `descriptor`,
/// then the markup of the events after it. Neither of the two depends on
/// what was injected.
pub proof fn lemma_classified_injection_isolated(
    source: Seq<u8>,
    events: Seq<HighlightEvent>,
    descriptors: Seq<LanguageDescriptor<&HighlightConfiguration>>,
    at: int,
    language: String,
    start: usize,
    end: usize,
    descriptor: LanguageDescriptor<&HighlightConfiguration>,
)
    requires
        0 <= at < events.len(),
        events[at] == (HighlightEvent::BeginInjection { language, start, end }),
        start <= end && end <= source.len(),
        resolved(descriptors, language@) == Some(descriptor),
    ensures
        classified_markup(source, events, descriptors) == markup_before(
            source,
            events.take(at),
            injected_markups(source, events, descriptors).take(at),
            at,
        ) + highlighting(*descriptor.handle, segment(source, start, end), descriptors) + render_at(
            source,
            events,
            injected_markups(source, events, descriptors).update(at, None),
            at + 1,
            stack_before(events.take(at), at),
        ),
{
    let injected = injected_markups(source, events, descriptors);
    let inner = highlighting(*descriptor.handle, segment(source, start, end), descriptors);
    assert(injected_at(injected, at) == Some(inner));
    lemma_injected_markup_embedded(source, events, injected, at, language, start, end, inner);
}

/// Highlights each injection of the stream that resolves, on its own range
/// and under the handle of its own language.
fn render_injections(
    source: &[u8],
    events: &[HighlightEvent],
    registry: &Registry<&HighlightConfiguration>,
    table: &CategoryTable,
) -> (injected: Vec<Option<Vec<u8>>>)
    ensures
        markups_of(injected@) == injected_markups(source@, events@, registry@),
{
    let mut injected: Vec<Option<Vec<u8>>> = Vec::new();
    let mut at: usize = 0;
    while at < events.len()
        invariant
            at <= events@.len(),
            injected@.len() == at,
            forall|i: int|
                0 <= i < at ==> markup_of(#[trigger] injected@[i]) == injected_markup(
                    source@,
                    events@[i],
                    registry@,
                ),
        decreases events.len() - at,
    {
        let entry: Option<Vec<u8>> = match &events[at] {
            HighlightEvent::BeginInjection { language, start, end } => {
                if *start <= *end && *end <= source.len() {
                    match registry.resolve_injection(language.as_str()) {
                        Some(handle) => Some(
                            highlight_adapter(&source[*start..*end], handle, registry, table),
                        ),
                        None => None,
                    }
                } else {
                    None
                }
            },
            _ => None,
        };
        injected.push(entry);
        at += 1;
    }
    assert(markups_of(injected@) =~= injected_markups(source@, events@, registry@));
    injected
}

/// Renders a stream over `code`. An injection whose range lies in the
/// source and whose language resolves is classified and rendered on its
/// own, under the handle that its language resolves to; every other
/// injection is escaped as text.
pub fn render_classified(
    code: &[u8],
    events: &[HighlightEvent],
    registry: &Registry<&HighlightConfiguration>,
    table: &CategoryTable,
) -> (markup: Vec<u8>)
    ensures
        markup@ == classified_markup(code@, events@, registry@),
        (forall|i: int|
            0 <= i < events@.len() ==> injected_markup(code@, #[trigger] events@[i], registry@)
                is None) ==> markup@ == render_markup(code@, events@, Seq::empty()),
        well_formed_markup(markup@),
{
    let injected = render_injections(code, events, registry, table);
    proof {
        lemma_classified_markup_is_well_formed(code@, events@, registry@);
        if forall|i: int|
            0 <= i < events@.len() ==> injected_markup(code@, #[trigger] events@[i], registry@)
                is None {
            lemma_classified_markup_without_injections(code@, events@, registry@);
        }
    }
    render_events(code, events, injected.as_slice(), table)
}

/// Classifies `code` with the classifier behind `config` and renders the
/// events that it gives; where the classifier fails, the code is escaped
/// and nothing else. The events of the classifier hold no injection: it
/// merges the events of an injected language, looked up in the registry,
/// into the stream itself.
pub fn highlight_adapter(
    code: &[u8],
    config: &HighlightConfiguration,
    registry: &Registry<&HighlightConfiguration>,
    table: &CategoryTable,
) -> (markup: Vec<u8>)
    ensures
        markup@ == highlighting(*config, code@, registry@),
        classified(*config, code@, registry@) matches Some(events) ==> forall|i: int|
            0 <= i < events.len() ==> !(#[trigger] events[i] is BeginInjection),
        well_formed_markup(markup@),
{
    proof {
        lemma_highlighting_is_well_formed(*config, code@, registry@);
    }
    match classify(config, code, registry) {
        Some(events) => {
            let none: Vec<Option<Vec<u8>>> = Vec::new();
            assert(markups_of(none@) =~= Seq::<Option<Seq<u8>>>::empty());
            render_events(code, events.as_slice(), none.as_slice(), table)
        },
        None => render_plain(code),
    }
}

/// Highlights `code` as text of the language named by `language_id`: the
/// code is classified under the handle that the name resolves to, and the
/// events are rendered. Where the name is of no supported language, or of
/// one that is not registered, the result is the escaped code, as
/// `no_highlight` gives it; so it is where the rendering is no text,
/// because the classifier cut a character in two.
pub fn highlight(
    code: &str,
    language_id: &str,
    registry: &Registry<&HighlightConfiguration>,
    table: &CategoryTable,
) -> (html: String)
    ensures
        html@ == highlighted(code@, language_id@, registry@),
        language_named(language_id@) is None ==> html@ == escape_text(code@),
        resolved(registry@, language_id@) is None ==> html@ == escape_text(code@),
        resolved(registry@, language_id@) matches Some(descriptor) ==> {
            let markup = highlighting(*descriptor.handle, encode_utf8(code@), registry@);
            if valid_utf8(markup) {
                encode_utf8(html@) == markup
            } else {
                html@ == escape_text(code@)
            }
        },
        well_formed_markup(encode_utf8(html@)),
{
    proof {
        lemma_escape_text_utf8(code@);
        lemma_escaped_well_formed(encode_utf8(code@));
    }
    match registry.resolve(language_id) {
        Some(descriptor) => {
            let markup = highlight_adapter(code.as_bytes(), descriptor.handle, registry, table);
            let html = markup_to_string(markup, code);
            proof {
                encode_utf8_decode_utf8(html@);
            }
            html
        },
        None => no_highlight(code),
    }
}

} // verus!
