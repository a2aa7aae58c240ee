//! What the window does with events, frame by frame.

pub mod chord;
pub mod display;
pub mod events;
pub mod frame;
pub mod metrics;
pub mod schedule;
