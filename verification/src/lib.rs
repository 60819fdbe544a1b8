//! A parser-combinator runtime: a cursor over a character stream with
//! position-aware consumption, markers for backtracking, diagnostic context
//! capture, and an ordered-alternative selection engine with cut semantics.

pub mod alt;
pub mod error;
pub mod laws;
pub mod text;
