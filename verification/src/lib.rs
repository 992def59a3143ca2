//! Lexical front end of the mush scripting language: a scanner that turns
//! UTF-8 source bytes into positioned tokens, and a builder that renders the
//! faults it records as source-anchored diagnostics.

pub mod engine;
