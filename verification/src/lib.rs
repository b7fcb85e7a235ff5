//! Abstract-syntax-tree construction for the Alani pattern language.
//!
//! The crate turns the token tree produced by an external tokenizer into a
//! typed, validated AST: symbols (named character classes, optionally
//! negated), literal and raw text atoms, and repetition quantifiers.

pub mod ast;
pub mod errors;
