//! A small calculator language with user functions: a parser from text to expression
//! trees, and an evaluator that runs them against an environment kept for a session.
//!
//! Numbers are single-precision bit patterns. Reading numerals, arithmetic and native
//! functions come from a number backend that the host passes in (see `types::NumOp`),
//! so that everything here is free of floating point and proved against the models in
//! `types`, `grammar` and `semantics`; `laws` states what holds across calls.
pub mod types;
pub mod environment;
pub mod semantics;
pub mod evaluator;
pub mod grammar;
pub mod parser;
pub mod messages;
pub mod laws;
pub mod printer;
