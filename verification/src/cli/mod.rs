//! Command-line helpers.

pub mod parser;

pub use parser::parse_input;
