//! Lexer and expression parser for a small C-like scripting language.
//!
//! Source text goes to the scanner, which yields a sequence of classified
//! tokens plus line-tagged diagnostics; the token sequence goes to the
//! parser, which builds an expression tree by a fixed precedence ladder,
//! again collecting diagnostics. Both passes tolerate malformed input:
//! they report every problem they meet and always run to completion, and
//! both are verified against specification functions that fix their
//! behaviour exactly. The laws module states and proves what holds of
//! them beyond any single run, scanning idempotence above all.

pub mod application;
pub mod error;
pub mod laws;
pub mod node;
pub mod parser;
pub mod scanner;
pub mod token;
