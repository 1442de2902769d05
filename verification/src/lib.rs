//! A small regular-expression engine.
//!
//! A pattern string is compiled once into a sequence of matcher nodes
//! (`Pattern::new`), and the compiled pattern is then tested against subject
//! strings (`Pattern::test`).  The supported syntax is `^`, `$`, `.`, `\d`,
//! `\w`, `\\`, `\N` (a numbered backreference), `[...]` / `[^...]` character
//! classes, `(a|b|...)` alternation groups, and a trailing `+` or `?`
//! quantifier on a single atom.
//!
//! The whole compiler and matching engine is verified: `spec_compile` and
//! `spec_match` give the mathematical meaning of compiling and matching, and
//! the executable code is proved to return exactly those results.

pub mod ast;
pub mod laws;
pub mod parse;
pub mod pattern;
pub mod semantics;
pub mod text;
