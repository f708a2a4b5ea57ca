//! Turning source text into positioned tokens.

pub mod grammar;
pub mod laws;
pub mod lex;
pub mod text;
pub mod token;
