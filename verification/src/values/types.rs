//! The types of the language that the library itself defines.

pub mod bool;
