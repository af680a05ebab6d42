//! What the library does with the output of the parser.

pub mod parser;
