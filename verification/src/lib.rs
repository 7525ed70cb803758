//! Converts a stream of markup events into portable text: a flat sequence of
//! blocks, each holding spans of text with their marks and the definitions
//! those marks refer to.
//!
//! The conversion is one pass over the events. [`state`] says in mathematics
//! what each event does and what a stream converts to; [`writer`] does it, and
//! is proved to do just that; [`laws`] proves what holds of every conversion.
//! Two things come from outside while it runs: the keys of the mark
//! definitions, which are random, and what the resolver of the caller makes of
//! an image. The contracts hold for whatever comes.

pub mod document;
pub mod events;
pub mod keys;
pub mod laws;
pub mod marks;
pub mod resolver;
pub mod state;
pub mod text;
pub mod writer;

pub use document::{
    Asset, BlockNode, ListItemType, MarkDef, MarkDefImage, MarkDefLink, Picture, Source, SpanNode,
};
pub use events::{CodeBlockKind, Event, Tag};
pub use marks::Decorators;
pub use resolver::{AssetReferenceResolver, IdentityResolver, Options};
pub use state::ConversionError;
pub use writer::{push_portabletext, push_portabletext_with_opts, PortabletextWriter};
