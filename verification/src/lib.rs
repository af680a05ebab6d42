//! The value heap of an embeddable interpreter for a Python-like
//! configuration language: a mutable, garbage-collected heap used while a
//! script is evaluated, and the immutable, shareable heap that freezing
//! produces from it.

pub mod collections;
pub mod environment;
pub mod stdlib;
pub mod syntax;
pub mod values;
