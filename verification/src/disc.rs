//! Discs that the editor makes of a project.

pub mod chunks;
pub mod cue;
pub mod image;
pub mod names;
pub mod report;
