//! Values, the cells that hold them, and the two kinds of heap.

pub mod arena;
pub mod constant;
pub mod freezer;
pub mod frozen_heap;
pub mod heap;
pub mod typed;
pub mod types;
pub mod value;
pub mod value_ref;
pub mod walker;
