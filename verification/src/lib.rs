//! An arithmetic expression evaluator's front end: a tokenizer and a
//! precedence-climbing recursive-descent parser for expressions built from
//! decimal numbers, the keyword `inf`, unary `+`/`-`, binary `+`/`-`/`*`/`/`,
//! and parentheses.
//!
//! Numbers are carried through tokenizing and parsing as their literal text
//! (or as the infinity marker); turning a literal into a machine float is the
//! caller's concern, so the whole front end is verified without touching
//! floating point.

pub mod error;
pub mod parser;
pub mod token;
