//! Event-driven recursive-descent parser for a small scripting language.
//!
//! The parser pulls tokens from a [`TokenSource`] and pushes structural
//! events into a [`TreeSink`]. Every token that it consumes, whitespace
//! included, reaches the sink as a leaf, so the tree that the sink builds is
//! lossless.
//!
//! - [`syntax_kind`]: the tags of tokens and nodes.
//! - [`source`] and [`sink`]: the two collaborators and what the parser
//!   relies on in each, with one plain implementation of either.
//! - [`event`] and [`nesting`]: streams of events and when they describe a
//!   tree.
//! - [`grammar`]: what each rule consumes and emits, as mathematics.
//! - [`engine`]: the rules themselves, proved against the grammar.
//! - [`laws`]: what follows for every parse.

pub mod engine;
pub mod event;
pub mod grammar;
pub mod laws;
pub mod nesting;
pub mod sink;
pub mod source;
pub mod syntax_kind;

pub use crate::engine::parse;
pub use crate::sink::TreeSink;
pub use crate::source::TokenSource;
