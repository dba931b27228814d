//! Tokenizing engine for a small boolean filter-query language.
//!
//! Raw input bytes are classified into positioned tokens: numeric literals
//! (decimal, hexadecimal, fractional, scientific notation, with digit-group
//! separators), string literals with a doubled-quote escape, keywords,
//! identifiers and operators — with exact line and column diagnostics on
//! malformed input.
//!
//! The stateless [`tokenizer::Tokenizer`] classifies one byte window at a
//! time; the stateful [`scanner::Scanner`] drives it over the input, tracks
//! the position and decodes payloads; the [`lexer::Lexer`] hands tokens out
//! one pull at a time and reports a synthetic end-of-input marker exactly
//! once. The [`laws`] module states and proves the properties that hold of
//! the engine as a whole.

pub mod decode;
pub mod error;
pub mod laws;
pub mod lexer;
pub mod scanner;
pub mod token;
pub mod tokenizer;

pub use error::Error;
pub use lexer::Lexer;
pub use scanner::Scanner;
pub use token::{Token, TokenKind, TokenValue};
