//! A verified parser for dotenv-style configuration text.
//!
//! The library turns raw text into an ordered list of `key = value`
//! assignments.  A single-pass tokenizer classifies the input into tokens
//! (spaces, line ends, the `export` keyword, the `=` operator, and literal
//! runs), handling single-, double- and triple-double-quoted values,
//! backslash escapes and `#` comments.  A small recursive-descent walk over
//! the token list then assembles the assignments.  Malformed input never
//! raises an error: constructs that do not form an assignment are skipped.

pub mod ast;
pub mod laws;
pub mod parser;
pub mod tokens;
