//! The editor's texture memory.

pub mod editor;
pub mod patterns;
pub mod plan;
pub mod refresh;
pub mod vram;
pub mod words;
