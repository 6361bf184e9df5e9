//! Lexical front end of a small programming language: source text is
//! classified character by character, then grouped into positioned tokens.
pub mod error_handling;
pub mod modules;
pub mod text;
