//! A scanner for a small expression language, with a verified contract for
//! every step of the lexical grammar.

pub mod chars;
pub mod compilation;
pub mod display;
pub mod grammar;
pub mod laws;
pub mod lexical_laws;
pub mod repl;
pub mod scan;
