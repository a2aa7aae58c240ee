//! The viewport's screen and the vertices that are drawn on it.

use vstd::prelude::*;

verus! {

/// Width of the rendered screen in pixels.
pub const SCREEN_W: i32 = 320;

/// Height of the rendered screen in pixels.
pub const SCREEN_H: i32 = 240;

/// Horizontal centre of projection.
pub const SCREEN_CX: i32 = 160;

/// Vertical centre of projection.
pub const SCREEN_CY: i32 = 120;

/// Distance from the eye to the projection plane.
pub const PROJ_H: i32 = 320;

/// A vertex relative to the camera: x right, y down, z into the screen.
#[derive(Clone, Copy, Debug, PartialEq, Eq, Structural)]
pub struct ViewVertex {
    pub x: i32,
    pub y: i32,
    pub z: i32,
}

/// A vertex in world units.
#[derive(Clone, Copy, Debug, PartialEq, Eq, Structural)]
pub struct WorldVertex {
    pub x: i32,
    pub y: i32,
    pub z: i32,
}

/// A projected vertex: screen position and depth. A depth of zero marks a
/// vertex that could not be projected.
#[derive(Clone, Copy, Debug, PartialEq, Eq, Structural)]
pub struct Projected {
    pub sx: i16,
    pub sy: i16,
    pub sz: u16,
}

/// Perspective parameters of a camera.
#[derive(Clone, Copy, Debug, PartialEq, Eq, Structural)]
pub struct WorldProjection {
    pub focal_length: i32,
    pub near_z: i32,
}

} // verus!
