//! Decision logic of a desktop console-emulator frontend: input routing, the
//! embedded playtest, disc authoring, the debug server, the editor's texture
//! memory and the geometry of the editor viewport.

pub mod debug;
pub mod disc;
pub mod input;
pub mod lines;
pub mod math;
pub mod playtest;
pub mod preview;
pub mod shell;
pub mod text;
pub mod textures;
