//! The stages of the front end, in the order in which text flows through them.
pub mod analyser;
pub mod tokens;
pub mod grammar;
pub mod lexemes;
pub mod token_stream;
pub mod tokenizer;
pub mod args_handler;
pub mod laws;
