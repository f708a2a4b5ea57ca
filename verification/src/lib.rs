//! Lexical scanner for a small assembly-oriented language.
//!
//! `parse::lex::Lex` walks a source buffer byte by byte and emits the tokens
//! of `parse::token`, each with its span. `parse::grammar` defines which
//! token starts at which byte, and `parse::laws` proves what holds of every
//! scan. `arch` holds the data model of the targets.

pub mod arch;
pub mod parse;
