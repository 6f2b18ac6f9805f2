//! A lexical scanner for a small scripting language: source text in, classified tokens and
//! collected diagnostics out.

pub mod error;
pub mod interpreter;
