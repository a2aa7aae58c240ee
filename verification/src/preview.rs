//! Geometry and packet submission of the editor viewport.

pub mod backdrop;
pub mod camera;
pub mod clip;
pub mod grid;
pub mod lights;
pub mod material;
pub mod overlays;
pub mod particles;
pub mod poi;
pub mod portals;
pub mod primitives;
pub mod room_geometry;
pub mod scene;
pub mod screen;
pub mod shading;
pub mod visible_rooms;
