//! The small collections that value types store their contents in.

pub mod hash;
pub mod vec_map;
