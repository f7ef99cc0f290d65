//! Renders a stream of nested highlight events over a source text into HTML
//! that carries CSS classes, with text-content escaping and a plain fallback.
//!
//! `highlight` resolves a language, classifies the text and renders what the
//! classifier gives; `no_highlight` escapes and does nothing else. The
//! renderer itself is `render::render_events`, which takes the events as
//! they are. What holds of its output is proved in `balance`, `partition`,
//! `isolation` and `encoding`.

pub mod balance;
pub mod category;
pub mod count;
pub mod encoding;
pub mod escape;
pub mod event;
pub mod highlight;
pub mod isolation;
pub mod language;
pub mod partition;
pub mod registry;
pub mod render;
pub mod stream;
pub mod text;

pub use crate::category::{Category, CategoryTable};
pub use crate::event::HighlightEvent;
pub use crate::highlight::highlight;
pub use crate::language::{Language, UnknownLanguageError};
pub use crate::registry::{LanguageDescriptor, Registry};
pub use crate::text::no_highlight;
