//! Host input: buttons, device routing, keyboard bindings.

pub mod button;
pub mod frame;
pub mod keyboard;
pub mod keys;
pub mod pad;
pub mod router;
pub mod routing;
