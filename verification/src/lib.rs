//! A template engine core that compiles hybrid HTML/directive source into a
//! structured token tree for later rendering.
//!
//! The pipeline: raw bytes are scanned by [`lexer::Lexer`] into a flat sequence
//! of classified [`lexer::Segment`]s, which the parser assembles into a nested
//! token tree of text, tags, placeholders and `if`/`for` control blocks.
//! Expression text inside placeholders and directive heads is opaque: it is
//! carried through verbatim for a downstream evaluator.

pub mod attrs;
pub mod condition;
pub mod engine;
pub mod lexer;
pub mod parse_error;
pub mod parser;
pub mod text;
pub mod token;
