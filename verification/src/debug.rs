//! The debug server's tools, as far as they compute.

pub mod control;
pub mod hex;
pub mod memory;
pub mod picture;
