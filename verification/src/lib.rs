//! A compiler/interpreter pipeline for a minimal tape-based esoteric
//! language: a lexer turns source text into operation tokens, a parser
//! builds a nested instruction tree, an optimizer collapses common idioms
//! into O(1) instructions, and an interpreter executes the tree against a
//! fixed-size wrapping byte tape.

pub mod alt_lexer;
pub mod ast;
pub mod diagnostics;
pub mod interpreter;
pub mod lexer;
pub mod opt_proofs;
pub mod optimizer;
pub mod parser;
pub mod semantics;
