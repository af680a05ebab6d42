//! Where variables live: the slots of a running function and of a module.

pub mod globals;
pub mod slots;
