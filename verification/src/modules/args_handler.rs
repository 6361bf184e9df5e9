//! The command line, as far as the front end reads it.
pub mod args;

pub use args::Args;
