//! A rule-based grammar and style linting engine.
//!
//! Text is split into tokens, a set of linters walks the token stream, and
//! every finding is reported as a [`lint::Lint`] that points at a range of
//! characters of the text.

pub mod span;
pub mod text;
pub mod token;
pub mod document;
pub mod lint;
pub mod patterns;
pub mod linting;
pub mod spell_check;
pub mod terminating_conjunctions;
pub mod sentence_capitalization;
pub mod unclosed_quotes;
pub mod diagnostics;
