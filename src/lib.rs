//! Lexical scanner for the Lox scripting language: source text in, an
//! ordered sequence of classified tokens out, with the malformed input it
//! met reported as structured diagnostics.

pub mod token;
pub mod diagnostic;
pub mod lexical;
pub mod scanner;
mod text;
pub mod laws;
