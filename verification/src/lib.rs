//! A rule-based static-analysis and automated-fix engine over a lossless
//! concrete syntax tree.
//!
//! The tree representation keeps every source byte: whitespace and comments
//! are attached to tokens as trivia, and concatenating every token's leading
//! trivia, text and trailing trivia in document order reproduces the source
//! exactly.  Trees are immutable values; edits are recorded in a transactional
//! mutation batch and committed into a fresh tree that shares every subtree
//! the edit did not touch.  Rules inspect matched nodes, report diagnostics at
//! precise source locations and may offer a fix as a mutation batch.

pub mod trivia;
pub mod syntax;
pub mod mutation;
pub mod query;
pub mod text;
pub mod location;
pub mod factory;
pub mod diagnostic;
pub mod rule;
pub mod use_self_closing_elements;
pub mod use_valid_typeof;

pub use trivia::TriviaKind;
pub use trivia::TriviaPiece;
