//! Faces of a room: where they stand, which side shows, and what they queue.
//!
//! A room is drawn in two steps. `room_sectors` lists its faces with their world
//! positions. Once the camera and the lights have been applied to each of them,
//! `walk_room` queues the triangles.

use crate::math::{saturating_sub_i32, trunc_div};
use crate::preview::grid::{
    direction_at, grid_direction, Corner, GridDirection, GridHorizontalFace,
    GridSector, GridVerticalFace, ResourceId, WallCorner, WorldGrid, DIRECTION_COUNT,
};
use crate::preview::material::{FaceShade, MaterialFaceSidedness};
use crate::preview::primitives::{
    admitted, emit_face_tri, lemma_count_concat, lemma_extends_twice, textured_count,
    visible_face_packets, PreviewScratch, TrianglePacket,
};
use crate::preview::scene::NodeId;
use crate::preview::screen::Projected;
use crate::preview::shading::{
    face_shade, material_sized_uvs, should_draw_culled_face_outline, sized_uvs, textured_base_uvs,
    textured_shade, PreviewFog, ShadeProject, FALLBACK_CEILING, FALLBACK_FLOOR, FALLBACK_WALL,
    PREVIEW_FLOOR_UVS, PREVIEW_WALL_UVS,
};
use crate::textures::editor::EditorTextures;
use vstd::prelude::*;

verus! {

/// A point in world units.
pub type RoomPoint = (i32, i32, i32);

/// The edge of a cell that a wall stands on.
pub type WallEdge = GridDirection;

/// A cell's extent: west, east, south and north coordinate.
pub type CellBounds = [i32; 4];

/// The mean of two coordinates, rounded toward zero.
pub open spec fn middle(a: int, b: int) -> int {
    trunc_div(a + b, 2)
}

/// The mean of four heights, rounded toward zero.
pub open spec fn mean_height(heights: [i32; 4]) -> int {
    trunc_div(heights[0] + heights[1] + heights[2] + heights[3], 4)
}

/// The sum of a cell's opposite coordinates is an `i32` value.
pub open spec fn bounds_fit(bounds: CellBounds) -> bool {
    &&& i32::MIN <= bounds[0] + bounds[1] <= i32::MAX
    &&& i32::MIN <= bounds[2] + bounds[3] <= i32::MAX
}

fn mean_of_heights(heights: [i32; 4]) -> (result: i32)
    ensures
        result == mean_height(heights),
{
    let sum: i64 = heights[0] as i64 + heights[1] as i64 + heights[2] as i64 + heights[3] as i64;
    (sum / 4) as i32
}

/// Centre of a floor or ceiling.
pub open spec fn horizontal_center(bounds: CellBounds, heights: [i32; 4]) -> RoomPoint {
    (
        middle(bounds[0] as int, bounds[1] as int) as i32,
        mean_height(heights) as i32,
        middle(bounds[2] as int, bounds[3] as int) as i32,
    )
}

pub fn horizontal_face_center(bounds: CellBounds, heights: [i32; 4]) -> (result: RoomPoint)
    requires
        bounds_fit(bounds),
    ensures
        result == horizontal_center(bounds, heights),
{
    (
        (bounds[0] + bounds[1]) / 2,
        mean_of_heights(heights),
        (bounds[2] + bounds[3]) / 2,
    )
}

/// Centre of a wall.
pub open spec fn wall_center(bounds: CellBounds, edge: WallEdge, heights: [i32; 4]) -> RoomPoint {
    let mid_x = middle(bounds[0] as int, bounds[1] as int) as i32;
    let mid_z = middle(bounds[2] as int, bounds[3] as int) as i32;
    let (x, z) = match edge {
        GridDirection::North => (mid_x, bounds[3]),
        GridDirection::East => (bounds[1], mid_z),
        GridDirection::South => (mid_x, bounds[2]),
        GridDirection::West => (bounds[0], mid_z),
        _ => (mid_x, mid_z),
    };
    (x, mean_height(heights) as i32, z)
}

pub fn wall_face_center(bounds: CellBounds, edge: WallEdge, heights: [i32; 4]) -> (result: RoomPoint)
    requires
        bounds_fit(bounds),
    ensures
        result == wall_center(bounds, edge, heights),
{
    let mid_x: i32 = (bounds[0] + bounds[1]) / 2;
    let mid_z: i32 = (bounds[2] + bounds[3]) / 2;
    let (x, z): (i32, i32) = match edge {
        GridDirection::North => (mid_x, bounds[3]),
        GridDirection::East => (bounds[1], mid_z),
        GridDirection::South => (mid_x, bounds[2]),
        GridDirection::West => (bounds[0], mid_z),
        _ => (mid_x, mid_z),
    };
    (x, mean_of_heights(heights), z)
}

/// World position of a floor or ceiling corner.
pub open spec fn corner_point(bounds: CellBounds, corner: Corner, height: i32) -> RoomPoint {
    match corner {
        Corner::NW => (bounds[0], height, bounds[3]),
        Corner::NE => (bounds[1], height, bounds[3]),
        Corner::SE => (bounds[1], height, bounds[2]),
        Corner::SW => (bounds[0], height, bounds[2]),
    }
}

pub fn horizontal_corner_world_point(bounds: CellBounds, corner: Corner, height: i32) -> (result:
    RoomPoint)
    ensures
        result == corner_point(bounds, corner, height),
{
    match corner {
        Corner::NW => (bounds[0], height, bounds[3]),
        Corner::NE => (bounds[1], height, bounds[3]),
        Corner::SE => (bounds[1], height, bounds[2]),
        Corner::SW => (bounds[0], height, bounds[2]),
    }
}

/// World positions of one half of a floor or ceiling.
pub open spec fn triangle_points(bounds: CellBounds, corners: [Corner; 3], heights: [i32; 3]) -> [RoomPoint; 3] {
    [
        corner_point(bounds, corners[0], heights[0]),
        corner_point(bounds, corners[1], heights[1]),
        corner_point(bounds, corners[2], heights[2]),
    ]
}

pub fn horizontal_triangle_world_points(
    bounds: CellBounds,
    corners: [Corner; 3],
    heights: [i32; 3],
) -> (result: [RoomPoint; 3])
    ensures
        result == triangle_points(bounds, corners, heights),
{
    [
        horizontal_corner_world_point(bounds, corners[0], heights[0]),
        horizontal_corner_world_point(bounds, corners[1], heights[1]),
        horizontal_corner_world_point(bounds, corners[2], heights[2]),
    ]
}

/// Left and right end of a wall, seen from inside the cell, as `(x, z)`.
pub open spec fn wall_ends(bounds: CellBounds, edge: WallEdge) -> ((i32, i32), (i32, i32)) {
    match edge {
        GridDirection::North => ((bounds[0], bounds[3]), (bounds[1], bounds[3])),
        GridDirection::East => ((bounds[1], bounds[3]), (bounds[1], bounds[2])),
        GridDirection::South => ((bounds[1], bounds[2]), (bounds[0], bounds[2])),
        GridDirection::West => ((bounds[0], bounds[2]), (bounds[0], bounds[3])),
        GridDirection::NorthWestSouthEast => ((bounds[0], bounds[3]), (bounds[1], bounds[2])),
        GridDirection::NorthEastSouthWest => ((bounds[1], bounds[3]), (bounds[0], bounds[2])),
    }
}

/// World positions of a wall's bottom left, bottom right, top right and top left
/// corner.
pub open spec fn wall_points(bounds: CellBounds, edge: WallEdge, heights: [i32; 4]) -> [RoomPoint; 4] {
    let (left, right) = wall_ends(bounds, edge);
    [
        (left.0, heights[0], left.1),
        (right.0, heights[1], right.1),
        (right.0, heights[2], right.1),
        (left.0, heights[3], left.1),
    ]
}

pub fn wall_world_points(bounds: CellBounds, edge: WallEdge, heights: [i32; 4]) -> (result: [RoomPoint; 4])
    ensures
        result == wall_points(bounds, edge, heights),
{
    let (left, right): ((i32, i32), (i32, i32)) = match edge {
        GridDirection::North => ((bounds[0], bounds[3]), (bounds[1], bounds[3])),
        GridDirection::East => ((bounds[1], bounds[3]), (bounds[1], bounds[2])),
        GridDirection::South => ((bounds[1], bounds[2]), (bounds[0], bounds[2])),
        GridDirection::West => ((bounds[0], bounds[2]), (bounds[0], bounds[3])),
        GridDirection::NorthWestSouthEast => ((bounds[0], bounds[3]), (bounds[1], bounds[2])),
        GridDirection::NorthEastSouthWest => ((bounds[1], bounds[3]), (bounds[0], bounds[2])),
    };
    [
        (left.0, heights[0], left.1),
        (right.0, heights[1], right.1),
        (right.0, heights[2], right.1),
        (left.0, heights[3], left.1),
    ]
}

/// The other side. A front-sided material on a wall shows toward the cell.
pub open spec fn swapped_sides(sidedness: MaterialFaceSidedness) -> MaterialFaceSidedness {
    match sidedness {
        MaterialFaceSidedness::Front => MaterialFaceSidedness::Back,
        MaterialFaceSidedness::Back => MaterialFaceSidedness::Front,
        MaterialFaceSidedness::Both => MaterialFaceSidedness::Both,
    }
}

pub fn wall_material_sidedness(sidedness: MaterialFaceSidedness) -> (result: MaterialFaceSidedness)
    ensures
        result == swapped_sides(sidedness),
{
    match sidedness {
        MaterialFaceSidedness::Front => MaterialFaceSidedness::Back,
        MaterialFaceSidedness::Back => MaterialFaceSidedness::Front,
        MaterialFaceSidedness::Both => MaterialFaceSidedness::Both,
    }
}

/// A wall across a cell.
pub open spec fn diagonal(edge: WallEdge) -> bool {
    edge == GridDirection::NorthWestSouthEast || edge == GridDirection::NorthEastSouthWest
}

/// The sides of a wall that are drawn; both of a diagonal one.
pub open spec fn wall_sides(sidedness: MaterialFaceSidedness, edge: WallEdge) -> MaterialFaceSidedness {
    if diagonal(edge) {
        MaterialFaceSidedness::Both
    } else {
        swapped_sides(sidedness)
    }
}

pub fn wall_material_sidedness_for_edge(sidedness: MaterialFaceSidedness, edge: WallEdge) -> (result:
    MaterialFaceSidedness)
    ensures
        result == wall_sides(sidedness, edge),
{
    match edge {
        GridDirection::NorthWestSouthEast | GridDirection::NorthEastSouthWest => {
            MaterialFaceSidedness::Both
        },
        _ => wall_material_sidedness(sidedness),
    }
}

/// How far the camera stands on the cell's side of a wall's plane.
pub open spec fn inside_distance(bounds: CellBounds, edge: WallEdge, camera: RoomPoint) -> int {
    match edge {
        GridDirection::North => bounds[3] - camera.2,
        GridDirection::East => bounds[1] - camera.0,
        GridDirection::South => camera.2 - bounds[2],
        GridDirection::West => camera.0 - bounds[0],
        _ => 0,
    }
}

/// The camera stands on a side of the wall that is drawn.
pub open spec fn wall_shows(
    sidedness: MaterialFaceSidedness,
    bounds: CellBounds,
    edge: WallEdge,
    camera: RoomPoint,
) -> bool {
    match wall_sides(sidedness, edge) {
        MaterialFaceSidedness::Both => true,
        MaterialFaceSidedness::Back => inside_distance(bounds, edge, camera) >= 0,
        MaterialFaceSidedness::Front => inside_distance(bounds, edge, camera) <= 0,
    }
}

pub fn wall_side_visible(
    sidedness: MaterialFaceSidedness,
    bounds: CellBounds,
    edge: WallEdge,
    camera_position: RoomPoint,
) -> (result: bool)
    ensures
        result == wall_shows(sidedness, bounds, edge, camera_position),
{
    let distance: i32 = match edge {
        GridDirection::North => saturating_sub_i32(bounds[3], camera_position.2),
        GridDirection::East => saturating_sub_i32(bounds[1], camera_position.0),
        GridDirection::South => saturating_sub_i32(camera_position.2, bounds[2]),
        GridDirection::West => saturating_sub_i32(camera_position.0, bounds[0]),
        _ => 0,
    };
    match wall_material_sidedness_for_edge(sidedness, edge) {
        MaterialFaceSidedness::Both => true,
        MaterialFaceSidedness::Back => distance >= 0,
        MaterialFaceSidedness::Front => distance <= 0,
    }
}

/// A wall with a one-sided material shows from exactly one side: strictly
/// inside its cell the front material shows, strictly outside the back one.
pub proof fn law_wall_materials_show_from_one_side(bounds: CellBounds, edge: WallEdge, camera: RoomPoint)
    requires
        !diagonal(edge),
    ensures
        inside_distance(bounds, edge, camera) > 0 ==> wall_shows(
            MaterialFaceSidedness::Front,
            bounds,
            edge,
            camera,
        ) && !wall_shows(MaterialFaceSidedness::Back, bounds, edge, camera),
        inside_distance(bounds, edge, camera) < 0 ==> !wall_shows(
            MaterialFaceSidedness::Front,
            bounds,
            edge,
            camera,
        ) && wall_shows(MaterialFaceSidedness::Back, bounds, edge, camera),
{
}

/// Which face of a room.
#[derive(Clone, Copy, Debug, PartialEq, Eq, Structural)]
pub enum FaceKind {
    Floor,
    Ceiling,
    Wall { dir: GridDirection, stack: u8 },
}

/// A face of a room's cell.
#[derive(Clone, Copy, Debug, PartialEq, Eq, Structural)]
pub struct FaceRef {
    pub room: NodeId,
    pub sx: u16,
    pub sz: u16,
    pub kind: FaceKind,
}

/// A floor or ceiling in world units.
#[derive(Clone, Copy, Debug, PartialEq, Eq)]
pub struct HorizontalPlacement {
    pub center: RoomPoint,
    pub points_a: [RoomPoint; 3],
    pub points_b: [RoomPoint; 3],
    pub corners_a: [Corner; 3],
    pub corners_b: [Corner; 3],
    pub material_a: Option<ResourceId>,
    pub material_b: Option<ResourceId>,
    pub dropped_corner: Option<Corner>,
}

/// A wall in world units.
#[derive(Clone, Copy, Debug, PartialEq, Eq)]
pub struct WallPlacement {
    pub center: RoomPoint,
    pub bounds: CellBounds,
    pub edge: WallEdge,
    pub points: [RoomPoint; 4],
    pub material: Option<ResourceId>,
    pub dropped_corner: Option<WallCorner>,
    pub triangle_a: [WallCorner; 3],
    pub triangle_b: [WallCorner; 3],
}

/// A face in world units.
#[derive(Clone, Copy, Debug, PartialEq, Eq)]
pub enum FacePlacement {
    Horizontal(HorizontalPlacement),
    Wall(WallPlacement),
}

/// One face to draw.
#[derive(Clone, Copy, Debug, PartialEq, Eq)]
pub struct RoomFace {
    pub face: FaceRef,
    pub placement: FacePlacement,
}

/// Four heights moved by an offset.
pub open spec fn raised(heights: [i32; 4], offset: i32) -> [i32; 4] {
    [
        (heights[0] + offset) as i32,
        (heights[1] + offset) as i32,
        (heights[2] + offset) as i32,
        (heights[3] + offset) as i32,
    ]
}

/// Three heights moved by an offset.
pub open spec fn raised3(heights: [i32; 3], offset: i32) -> [i32; 3] {
    [(heights[0] + offset) as i32, (heights[1] + offset) as i32, (heights[2] + offset) as i32]
}

/// A height moved by an offset is an `i32` value.
pub open spec fn height_fits(height: i32, offset: i32) -> bool {
    i32::MIN <= height + offset <= i32::MAX
}

pub open spec fn quad_fits(heights: [i32; 4], offset: i32) -> bool {
    forall|i: int| 0 <= i < 4 ==> height_fits(#[trigger] heights[i], offset)
}

pub open spec fn horizontal_fits(face: Option<GridHorizontalFace>, offset: i32) -> bool {
    face matches Some(f) ==> {
        &&& quad_fits(f.heights, offset)
        &&& forall|i: int|
            0 <= i < 3 ==> height_fits(#[trigger] f.triangle_a.heights[i], offset)
        &&& forall|i: int|
            0 <= i < 3 ==> height_fits(#[trigger] f.triangle_b.heights[i], offset)
    }
}

/// All heights of a cell can be moved by an offset.
pub open spec fn sector_fits(sector: GridSector, offset: i32) -> bool {
    &&& horizontal_fits(sector.floor, offset)
    &&& horizontal_fits(sector.ceiling, offset)
    &&& forall|dir: GridDirection, i: int|
        0 <= i < (#[trigger] sector.spec_walls(dir))@.len() ==> quad_fits(
            (#[trigger] sector.spec_walls(dir)@[i]).heights,
            offset,
        )
}

fn raise_quad(heights: [i32; 4], offset: i32) -> (result: [i32; 4])
    requires
        quad_fits(heights, offset),
    ensures
        result == raised(heights, offset),
{
    assert(height_fits(heights[0], offset) && height_fits(heights[1], offset) && height_fits(
        heights[2],
        offset,
    ) && height_fits(heights[3], offset));
    [heights[0] + offset, heights[1] + offset, heights[2] + offset, heights[3] + offset]
}

fn raise_triangle(heights: [i32; 3], offset: i32) -> (result: [i32; 3])
    requires
        forall|i: int| 0 <= i < 3 ==> height_fits(#[trigger] heights[i], offset),
    ensures
        result == raised3(heights, offset),
{
    assert(height_fits(heights[0], offset) && height_fits(heights[1], offset) && height_fits(
        heights[2],
        offset,
    ));
    [heights[0] + offset, heights[1] + offset, heights[2] + offset]
}

/// A floor or ceiling of a cell in world units.
pub open spec fn placed_horizontal(bounds: CellBounds, face: GridHorizontalFace, offset: i32) -> HorizontalPlacement {
    HorizontalPlacement {
        center: horizontal_center(bounds, raised(face.heights, offset)),
        points_a: triangle_points(
            bounds,
            face.triangle_a.corners,
            raised3(face.triangle_a.heights, offset),
        ),
        points_b: triangle_points(
            bounds,
            face.triangle_b.corners,
            raised3(face.triangle_b.heights, offset),
        ),
        corners_a: face.triangle_a.corners,
        corners_b: face.triangle_b.corners,
        material_a: face.triangle_a.material,
        material_b: face.triangle_b.material,
        dropped_corner: face.dropped_corner,
    }
}

fn place_horizontal(bounds: CellBounds, face: &GridHorizontalFace, offset: i32) -> (result: HorizontalPlacement)
    requires
        bounds_fit(bounds),
        horizontal_fits(Some(*face), offset),
    ensures
        result == placed_horizontal(bounds, *face, offset),
{
    HorizontalPlacement {
        center: horizontal_face_center(bounds, raise_quad(face.heights, offset)),
        points_a: horizontal_triangle_world_points(
            bounds,
            face.triangle_a.corners,
            raise_triangle(face.triangle_a.heights, offset),
        ),
        points_b: horizontal_triangle_world_points(
            bounds,
            face.triangle_b.corners,
            raise_triangle(face.triangle_b.heights, offset),
        ),
        corners_a: face.triangle_a.corners,
        corners_b: face.triangle_b.corners,
        material_a: face.triangle_a.material,
        material_b: face.triangle_b.material,
        dropped_corner: face.dropped_corner,
    }
}

/// A wall of a cell in world units.
pub open spec fn placed_wall(
    bounds: CellBounds,
    edge: WallEdge,
    wall: GridVerticalFace,
    offset: i32,
) -> WallPlacement {
    WallPlacement {
        center: wall_center(bounds, edge, raised(wall.heights, offset)),
        bounds,
        edge,
        points: wall_points(bounds, edge, raised(wall.heights, offset)),
        material: wall.material,
        dropped_corner: wall.dropped_corner,
        triangle_a: wall.triangle_a,
        triangle_b: wall.triangle_b,
    }
}

fn place_wall(bounds: CellBounds, edge: WallEdge, wall: &GridVerticalFace, offset: i32) -> (result:
    WallPlacement)
    requires
        bounds_fit(bounds),
        quad_fits(wall.heights, offset),
    ensures
        result == placed_wall(bounds, edge, *wall, offset),
{
    let heights = raise_quad(wall.heights, offset);
    WallPlacement {
        center: wall_face_center(bounds, edge, heights),
        bounds,
        edge,
        points: wall_world_points(bounds, edge, heights),
        material: wall.material,
        dropped_corner: wall.dropped_corner,
        triangle_a: wall.triangle_a,
        triangle_b: wall.triangle_b,
    }
}

/// The extent of the cell at array position `(x, z)`.
pub open spec fn cell_bounds(grid: WorldGrid, x: int, z: int) -> CellBounds {
    [
        ((grid.origin_x + x) * grid.sector_size) as i32,
        ((grid.origin_x + x + 1) * grid.sector_size) as i32,
        ((grid.origin_z + z) * grid.sector_size) as i32,
        ((grid.origin_z + z + 1) * grid.sector_size) as i32,
    ]
}

/// The faces of the walls among the first `n` of one edge.
pub open spec fn stack_faces(
    room: NodeId,
    sx: u16,
    sz: u16,
    bounds: CellBounds,
    edge: WallEdge,
    walls: Seq<GridVerticalFace>,
    offset: i32,
    n: nat,
) -> Seq<RoomFace> {
    Seq::new(
        n,
        |i: int|
            RoomFace {
                face: FaceRef {
                    room,
                    sx,
                    sz,
                    kind: FaceKind::Wall { dir: edge, stack: (i % 256) as u8 },
                },
                placement: FacePlacement::Wall(placed_wall(bounds, edge, walls[i], offset)),
            },
    )
}

/// The faces of a cell's walls in the first `n` directions.
pub open spec fn wall_faces(
    room: NodeId,
    sx: u16,
    sz: u16,
    bounds: CellBounds,
    sector: GridSector,
    offset: i32,
    n: nat,
) -> Seq<RoomFace>
    decreases n,
{
    if n == 0 {
        Seq::empty()
    } else {
        let edge = direction_at(n - 1);
        let walls = sector.spec_walls(edge)@;
        wall_faces(room, sx, sz, bounds, sector, offset, (n - 1) as nat) + stack_faces(
            room,
            sx,
            sz,
            bounds,
            edge,
            walls,
            offset,
            walls.len(),
        )
    }
}

/// The faces of a cell: floor, ceiling, then the walls by direction.
pub open spec fn sector_faces(
    room: NodeId,
    sx: u16,
    sz: u16,
    bounds: CellBounds,
    sector: GridSector,
    offset: i32,
) -> Seq<RoomFace> {
    let floor = match sector.floor {
        Some(face) => seq![
            RoomFace {
                face: FaceRef { room, sx, sz, kind: FaceKind::Floor },
                placement: FacePlacement::Horizontal(placed_horizontal(bounds, face, offset)),
            },
        ],
        None => Seq::empty(),
    };
    let ceiling = match sector.ceiling {
        Some(face) => seq![
            RoomFace {
                face: FaceRef { room, sx, sz, kind: FaceKind::Ceiling },
                placement: FacePlacement::Horizontal(placed_horizontal(bounds, face, offset)),
            },
        ],
        None => Seq::empty(),
    };
    floor + ceiling + wall_faces(room, sx, sz, bounds, sector, offset, DIRECTION_COUNT as nat)
}

fn list_sector_faces(
    room: NodeId,
    sx: u16,
    sz: u16,
    bounds: CellBounds,
    sector: &GridSector,
    offset: i32,
) -> (result: Vec<RoomFace>)
    requires
        bounds_fit(bounds),
        sector_fits(*sector, offset),
    ensures
        result@ == sector_faces(room, sx, sz, bounds, *sector, offset),
{
    let mut faces: Vec<RoomFace> = Vec::new();
    if let Some(floor) = &sector.floor {
        faces.push(
            RoomFace {
                face: FaceRef { room, sx, sz, kind: FaceKind::Floor },
                placement: FacePlacement::Horizontal(place_horizontal(bounds, floor, offset)),
            },
        );
    }
    if let Some(ceiling) = &sector.ceiling {
        faces.push(
            RoomFace {
                face: FaceRef { room, sx, sz, kind: FaceKind::Ceiling },
                placement: FacePlacement::Horizontal(place_horizontal(bounds, ceiling, offset)),
            },
        );
    }
    let ghost level = faces@;
    for d in 0..DIRECTION_COUNT
        invariant
            bounds_fit(bounds),
            sector_fits(*sector, offset),
            faces@ == level + wall_faces(room, sx, sz, bounds, *sector, offset, d as nat),
    {
        let edge = grid_direction(d);
        let walls = sector.walls(edge);
        let ghost before = faces@;
        for i in 0..walls.len()
            invariant
                bounds_fit(bounds),
                sector_fits(*sector, offset),
                walls@ == sector.spec_walls(edge)@,
                faces@ == before + stack_faces(
                    room,
                    sx,
                    sz,
                    bounds,
                    edge,
                    walls@,
                    offset,
                    i as nat,
                ),
        {
            assert(quad_fits(sector.spec_walls(edge)@[i as int].heights, offset));
            faces.push(
                RoomFace {
                    face: FaceRef {
                        room,
                        sx,
                        sz,
                        kind: FaceKind::Wall { dir: edge, stack: (i % 256) as u8 },
                    },
                    placement: FacePlacement::Wall(place_wall(bounds, edge, &walls[i], offset)),
                },
            );
            assert(faces@ =~= before + stack_faces(
                room,
                sx,
                sz,
                bounds,
                edge,
                walls@,
                offset,
                (i + 1) as nat,
            ));
        }
        assert(faces@ =~= level + wall_faces(room, sx, sz, bounds, *sector, offset, (d + 1) as nat));
    }
    assert(faces@ =~= sector_faces(room, sx, sz, bounds, *sector, offset));
    faces
}

/// The faces of one populated cell.
#[derive(Debug)]
pub struct RoomSector {
    pub faces: Vec<RoomFace>,
}

/// The faces of the populated cells among the first `n` array entries.
pub open spec fn listed_sectors(room: NodeId, grid: WorldGrid, offset: i32, n: nat) -> Seq<Seq<RoomFace>>
    decreases n,
{
    if n == 0 {
        Seq::empty()
    } else {
        let before = listed_sectors(room, grid, offset, (n - 1) as nat);
        let x = (n - 1) / grid.depth as int;
        let z = (n - 1) % grid.depth as int;
        match grid.sectors@[n - 1] {
            None => before,
            Some(sector) => before.push(
                sector_faces(room, x as u16, z as u16, cell_bounds(grid, x, z), sector, offset),
            ),
        }
    }
}

/// Every populated cell of the room can be placed.
pub open spec fn room_fits(grid: WorldGrid, offset: i32) -> bool {
    &&& grid.wf()
    &&& forall|i: int|
        0 <= i < grid.sectors@.len() ==> ((#[trigger] grid.sectors@[i]) matches Some(sector) ==> {
            let x = i / grid.depth as int;
            let z = i % grid.depth as int;
            &&& sector_fits(sector, offset)
            &&& grid.cell_fits(x, z)
            &&& bounds_fit(cell_bounds(grid, x, z))
        })
}

fn bounds_of_cell(grid: &WorldGrid, x: u16, z: u16) -> (result: CellBounds)
    requires
        grid.cell_fits(x as int, z as int),
    ensures
        result == cell_bounds(*grid, x as int, z as int),
{
    let x0: i32 = grid.origin_x + x as i32;
    let z0: i32 = grid.origin_z + z as i32;
    [
        x0 * grid.sector_size,
        (x0 + 1) * grid.sector_size,
        z0 * grid.sector_size,
        (z0 + 1) * grid.sector_size,
    ]
}

/// List the faces of a room, cell by cell, moved up by `y_offset`.
pub fn room_sectors(room: NodeId, grid: &WorldGrid, y_offset: i32) -> (result: Vec<RoomSector>)
    requires
        room_fits(*grid, y_offset),
    ensures
        result@.map_values(|s: RoomSector| s.faces@) == listed_sectors(
            room,
            *grid,
            y_offset,
            grid.sectors@.len(),
        ),
{
    let mut out: Vec<RoomSector> = Vec::new();
    let ghost faces_of = |s: RoomSector| s.faces@;
    assert(out@.map_values(faces_of) =~= Seq::<Seq<RoomFace>>::empty());
    for i in 0..grid.sectors.len()
        invariant
            faces_of == (|s: RoomSector| s.faces@),
            room_fits(*grid, y_offset),
            out@.map_values(faces_of) == listed_sectors(room, *grid, y_offset, i as nat),
    {
        let depth: usize = grid.depth as usize;
        proof {
            lemma_cell_of_index(i as int, grid.width as int, grid.depth as int);
        }
        let x: u16 = (i / depth) as u16;
        let z: u16 = (i % depth) as u16;
        if let Some(sector) = &grid.sectors[i] {
            let bounds = bounds_of_cell(grid, x, z);
            let faces = list_sector_faces(room, x, z, bounds, sector, y_offset);
            let ghost before = out@;
            out.push(RoomSector { faces });
            assert(out@.map_values(faces_of) =~= before.map_values(faces_of).push(faces@));
        }
    }
    out
}

/// One floor or ceiling is another one, moved up.
pub open spec fn face_is_raised(
    low: Option<GridHorizontalFace>,
    high: Option<GridHorizontalFace>,
    offset: i32,
) -> bool {
    match (low, high) {
        (Some(a), Some(b)) => {
            &&& b.heights == raised(a.heights, offset)
            &&& b.triangle_a.corners == a.triangle_a.corners
            &&& b.triangle_a.heights == raised3(a.triangle_a.heights, offset)
            &&& b.triangle_a.material == a.triangle_a.material
            &&& b.triangle_b.corners == a.triangle_b.corners
            &&& b.triangle_b.heights == raised3(a.triangle_b.heights, offset)
            &&& b.triangle_b.material == a.triangle_b.material
            &&& b.dropped_corner == a.dropped_corner
        },
        (None, None) => true,
        _ => false,
    }
}

/// One wall is another one, moved up.
pub open spec fn wall_is_raised(low: GridVerticalFace, high: GridVerticalFace, offset: i32) -> bool {
    high == (GridVerticalFace { heights: raised(low.heights, offset), ..low })
}

/// One cell is another one, moved up.
pub open spec fn sector_is_raised(low: GridSector, high: GridSector, offset: i32) -> bool {
    &&& face_is_raised(low.floor, high.floor, offset)
    &&& face_is_raised(low.ceiling, high.ceiling, offset)
    &&& forall|edge: WallEdge|
        (#[trigger] high.spec_walls(edge))@.len() == low.spec_walls(edge)@.len()
    &&& forall|edge: WallEdge, i: int|
        0 <= i < low.spec_walls(edge)@.len() ==> wall_is_raised(
            low.spec_walls(edge)@[i],
            #[trigger] high.spec_walls(edge)@[i],
            offset,
        )
}

/// One room is another one, moved up.
pub open spec fn room_is_raised(low: WorldGrid, high: WorldGrid, offset: i32) -> bool {
    &&& high.origin_x == low.origin_x
    &&& high.origin_z == low.origin_z
    &&& high.width == low.width
    &&& high.depth == low.depth
    &&& high.sector_size == low.sector_size
    &&& high.sectors@.len() == low.sectors@.len()
    &&& forall|i: int|
        0 <= i < low.sectors@.len() ==> match (low.sectors@[i], #[trigger] high.sectors@[i]) {
            (Some(a), Some(b)) => sector_is_raised(a, b, offset),
            (None, None) => true,
            _ => false,
        }
}

proof fn lemma_unmoved()
    ensures
        forall|heights: [i32; 4]| #[trigger] raised(heights, 0) == heights,
        forall|heights: [i32; 3]| #[trigger] raised3(heights, 0) == heights,
{
    assert forall|heights: [i32; 4]| #[trigger] raised(heights, 0) == heights by {
        assert(raised(heights, 0) =~= heights);
    }
    assert forall|heights: [i32; 3]| #[trigger] raised3(heights, 0) == heights by {
        assert(raised3(heights, 0) =~= heights);
    }
}

proof fn lemma_raised_walls(
    room: NodeId,
    sx: u16,
    sz: u16,
    bounds: CellBounds,
    low: GridSector,
    high: GridSector,
    offset: i32,
    n: nat,
)
    requires
        sector_is_raised(low, high, offset),
    ensures
        wall_faces(room, sx, sz, bounds, low, offset, n) == wall_faces(
            room,
            sx,
            sz,
            bounds,
            high,
            0,
            n,
        ),
    decreases n,
{
    if n > 0 {
        lemma_raised_walls(room, sx, sz, bounds, low, high, offset, (n - 1) as nat);
        lemma_unmoved();
        let edge = direction_at(n - 1);
        let a = low.spec_walls(edge)@;
        let b = high.spec_walls(edge)@;
        assert(b.len() == a.len());
        assert forall|i: int| 0 <= i < a.len() implies placed_wall(bounds, edge, a[i], offset)
            == placed_wall(bounds, edge, b[i], 0) by {
            assert(wall_is_raised(a[i], high.spec_walls(edge)@[i], offset));
        }
        assert(stack_faces(room, sx, sz, bounds, edge, a, offset, a.len()) =~= stack_faces(
            room,
            sx,
            sz,
            bounds,
            edge,
            b,
            0,
            b.len(),
        ));
    }
}

proof fn lemma_raised_cell(
    room: NodeId,
    sx: u16,
    sz: u16,
    bounds: CellBounds,
    low: GridSector,
    high: GridSector,
    offset: i32,
)
    requires
        sector_is_raised(low, high, offset),
    ensures
        sector_faces(room, sx, sz, bounds, low, offset) == sector_faces(
            room,
            sx,
            sz,
            bounds,
            high,
            0,
        ),
{
    lemma_unmoved();
    lemma_raised_walls(room, sx, sz, bounds, low, high, offset, DIRECTION_COUNT as nat);
}

proof fn lemma_raised_cells(
    room: NodeId,
    low: WorldGrid,
    high: WorldGrid,
    offset: i32,
    n: nat,
)
    requires
        room_is_raised(low, high, offset),
        n <= low.sectors@.len(),
    ensures
        listed_sectors(room, low, offset, n) == listed_sectors(room, high, 0, n),
    decreases n,
{
    if n > 0 {
        lemma_raised_cells(room, low, high, offset, (n - 1) as nat);
        let x = (n - 1) / low.depth as int;
        let z = (n - 1) % low.depth as int;
        assert(cell_bounds(low, x, z) == cell_bounds(high, x, z));
        if let (Some(a), Some(b)) = (low.sectors@[n - 1], high.sectors@[n - 1]) {
            lemma_raised_cell(
                room,
                x as u16,
                z as u16,
                cell_bounds(low, x, z),
                a,
                b,
                offset,
            );
        }
    }
}

/// A height offset shows a room as the room with all heights raised by it
/// stands: the same faces, at the same places, are listed for drawing.
pub proof fn law_offset_is_raised_heights(
    room: NodeId,
    low: WorldGrid,
    high: WorldGrid,
    offset: i32,
)
    requires
        room_fits(low, offset),
        room_is_raised(low, high, offset),
    ensures
        room_fits(high, 0),
        listed_sectors(room, low, offset, low.sectors@.len()) == listed_sectors(
            room,
            high,
            0,
            high.sectors@.len(),
        ),
{
    lemma_raised_cells(room, low, high, offset, low.sectors@.len());
    assert forall|i: int| 0 <= i < high.sectors@.len() && high.sectors@[i] is Some implies ({
        let x = i / high.depth as int;
        let z = i % high.depth as int;
        &&& sector_fits(#[trigger] high.sectors@[i]->0, 0)
        &&& high.cell_fits(x, z)
        &&& bounds_fit(cell_bounds(high, x, z))
    }) by {
        assert(low.sectors@[i] is Some);
        assert(cell_bounds(low, i / low.depth as int, i % low.depth as int) == cell_bounds(
            high,
            i / high.depth as int,
            i % high.depth as int,
        ));
    }
}

proof fn lemma_cell_of_index(i: int, width: int, depth: int)
    requires
        0 <= i < width * depth,
        0 <= width <= 0xFFFF,
        0 <= depth <= 0xFFFF,
    ensures
        depth > 0,
        0 <= i / depth < width,
        0 <= i % depth < depth,
{
    assert(depth > 0) by (nonlinear_arith)
        requires
            0 <= i < width * depth,
            0 <= depth,
    ;
    assert(0 <= i / depth < width) by (nonlinear_arith)
        requires
            0 <= i < width * depth,
            depth > 0,
    ;
}

/// Texture corners of one half of a floor or ceiling.
pub open spec fn corner_uvs(uvs: [(u8, u8); 4], corners: [Corner; 3]) -> [(u8, u8); 3] {
    [uvs[corners[0].spec_idx()], uvs[corners[1].spec_idx()], uvs[corners[2].spec_idx()]]
}

pub fn select_uv_corners(uvs: [(u8, u8); 4], corners: [Corner; 3]) -> (result: [(u8, u8); 3])
    ensures
        result == corner_uvs(uvs, corners),
{
    [uvs[corners[0].idx()], uvs[corners[1].idx()], uvs[corners[2].idx()]]
}

/// Texture corners of one triangle of a wall.
pub open spec fn wall_corner_uvs(uvs: [(u8, u8); 4], corners: [WallCorner; 3]) -> [(u8, u8); 3] {
    [uvs[corners[0].spec_idx()], uvs[corners[1].spec_idx()], uvs[corners[2].spec_idx()]]
}

pub fn select_uv_wall_corners(uvs: [(u8, u8); 4], corners: [WallCorner; 3]) -> (result: [(u8, u8); 3])
    ensures
        result == wall_corner_uvs(uvs, corners),
{
    [uvs[corners[0].idx()], uvs[corners[1].idx()], uvs[corners[2].idx()]]
}

/// Screen corners of one triangle of a wall.
pub open spec fn wall_corner_vertices(projected: [Projected; 4], corners: [WallCorner; 3]) -> [Projected; 3] {
    [
        projected[corners[0].spec_idx()],
        projected[corners[1].spec_idx()],
        projected[corners[2].spec_idx()],
    ]
}

pub fn select_projected_wall_corners(projected: [Projected; 4], corners: [WallCorner; 3]) -> (result:
    [Projected; 3])
    ensures
        result == wall_corner_vertices(projected, corners),
{
    [projected[corners[0].idx()], projected[corners[1].idx()], projected[corners[2].idx()]]
}

/// What a face, or half of one, looks like before light, fog and its own texture
/// transform.
#[derive(Clone, Copy, Debug, PartialEq, Eq)]
pub struct FaceBase {
    pub shade: FaceShade,
    pub uvs: [(u8, u8); 4],
}

/// The look that a material gives.
pub open spec fn base_of(
    project: ShadeProject,
    material: Option<ResourceId>,
    fallback: (u8, u8, u8),
    uvs: [(u8, u8); 4],
    textures: EditorTextures,
) -> FaceBase {
    let shade = textured_shade(project, material, fallback, textures);
    FaceBase {
        shade,
        uvs: if shade is Textured {
            uvs
        } else {
            [(0, 0), (0, 0), (0, 0), (0, 0)]
        },
    }
}

fn material_base(
    project: &ShadeProject,
    material: Option<ResourceId>,
    fallback: (u8, u8, u8),
    uvs: [(u8, u8); 4],
    textures: &EditorTextures,
) -> (result: FaceBase)
    ensures
        result == base_of(*project, material, fallback, uvs, *textures),
{
    let shade = face_shade(project, material, fallback, textures);
    FaceBase { shade, uvs: textured_base_uvs(shade, uvs) }
}

/// The looks of the two halves of a face; a wall has one for both.
pub fn room_face_bases(project: &ShadeProject, face: RoomFace, textures: &EditorTextures) -> (result: (
    FaceBase,
    FaceBase,
))
    ensures
        match face.placement {
            FacePlacement::Horizontal(placement) => {
                let fallback = if face.face.kind is Ceiling {
                    FALLBACK_CEILING
                } else {
                    FALLBACK_FLOOR
                };
                &&& result.0 == base_of(
                    *project,
                    placement.material_a,
                    fallback,
                    PREVIEW_FLOOR_UVS,
                    *textures,
                )
                &&& result.1 == base_of(
                    *project,
                    placement.material_b,
                    fallback,
                    PREVIEW_FLOOR_UVS,
                    *textures,
                )
            },
            FacePlacement::Wall(placement) => {
                &&& result.0 == base_of(
                    *project,
                    placement.material,
                    FALLBACK_WALL,
                    PREVIEW_WALL_UVS,
                    *textures,
                )
                &&& result.1 == result.0
            },
        },
{
    match face.placement {
        FacePlacement::Horizontal(placement) => {
            let fallback = match face.face.kind {
                FaceKind::Ceiling => FALLBACK_CEILING,
                _ => FALLBACK_FLOOR,
            };
            (
                material_base(project, placement.material_a, fallback, PREVIEW_FLOOR_UVS, textures),
                material_base(project, placement.material_b, fallback, PREVIEW_FLOOR_UVS, textures),
            )
        },
        FacePlacement::Wall(placement) => {
            let base = material_base(
                project,
                placement.material,
                FALLBACK_WALL,
                PREVIEW_WALL_UVS,
                textures,
            );
            (base, base)
        },
    }
}

/// One half of a floor or ceiling as the camera sees it: its lit shade, the
/// texture corners of the whole quad, whether it lies before the near plane, and
/// its corners on the screen.
#[derive(Clone, Copy, Debug, PartialEq, Eq)]
pub struct HorizontalHalfView {
    pub shade: FaceShade,
    pub quad: [(u8, u8); 4],
    pub in_front: bool,
    pub projected: [Projected; 3],
}

/// A wall as the camera sees it.
#[derive(Clone, Copy, Debug, PartialEq, Eq)]
pub struct WallView {
    pub shade: FaceShade,
    pub quad: [(u8, u8); 4],
    pub in_front: bool,
    pub projected: [Projected; 4],
}

/// A face as the camera sees it, with the depth of its centre.
#[derive(Clone, Copy, Debug, PartialEq, Eq)]
pub enum FaceView {
    Horizontal { depth: i32, a: HorizontalHalfView, b: HorizontalHalfView },
    Wall { depth: i32, wall: WallView },
}

/// A triangle holds a corner.
pub open spec fn has_corner(corners: [Corner; 3], corner: Corner) -> bool {
    corners[0] == corner || corners[1] == corner || corners[2] == corner
}

/// The half is left out because it holds the dropped corner.
pub open spec fn half_dropped(corners: [Corner; 3], dropped: Option<Corner>) -> bool {
    match dropped {
        Some(corner) => has_corner(corners, corner),
        None => false,
    }
}

/// The packets of one half of a floor or ceiling. A ceiling keeps the winding of
/// its corners, a floor is turned over.
pub open spec fn half_packets(
    corners: [Corner; 3],
    dropped: Option<Corner>,
    half: HorizontalHalfView,
    ceiling: bool,
    cuts: nat,
) -> Seq<TrianglePacket> {
    if half_dropped(corners, dropped) || !half.in_front {
        Seq::empty()
    } else {
        let uvs = corner_uvs(sized_uvs(half.shade, half.quad), corners);
        let p = half.projected;
        let color = half.shade.spec_color();
        if ceiling {
            visible_face_packets(p, uvs, half.shade, [color, color, color], cuts)
        } else {
            visible_face_packets(
                [p[0], p[2], p[1]],
                [uvs[0], uvs[2], uvs[1]],
                half.shade,
                [color, color, color],
                cuts,
            )
        }
    }
}

proof fn lemma_nothing_queued(scratch: PreviewScratch)
    ensures
        scratch.extends(scratch, Seq::empty()),
{
    assert(scratch.packets@ + Seq::<TrianglePacket>::empty() == scratch.packets@);
}

fn push_half(
    scratch: &mut PreviewScratch,
    corners: [Corner; 3],
    dropped: Option<Corner>,
    half: HorizontalHalfView,
    ceiling: bool,
) -> (result: bool)
    requires
        old(scratch).wf(),
    ensures
        final(scratch).wf(),
        final(scratch).extends(
            *old(scratch),
            half_packets(corners, dropped, half, ceiling, old(scratch).split_depth as nat),
        ),
        result == (final(scratch).packets@.len() > old(scratch).packets@.len()),
{
    let skip = match dropped {
        Some(corner) => corners[0] == corner || corners[1] == corner || corners[2] == corner,
        None => false,
    };
    if skip || !half.in_front {
        proof {
            lemma_nothing_queued(*scratch);
        }
        return false;
    }
    let uvs = select_uv_corners(material_sized_uvs(half.shade, half.quad), corners);
    let p = half.projected;
    if ceiling {
        emit_face_tri(scratch, p, uvs, half.shade)
    } else {
        emit_face_tri(scratch, [p[0], p[2], p[1]], [uvs[0], uvs[2], uvs[1]], half.shade)
    }
}

/// The packets of a floor or ceiling, first half first.
pub open spec fn horizontal_packets(
    placement: HorizontalPlacement,
    a: HorizontalHalfView,
    b: HorizontalHalfView,
    ceiling: bool,
    cuts: nat,
) -> Seq<TrianglePacket> {
    half_packets(placement.corners_a, placement.dropped_corner, a, ceiling, cuts) + half_packets(
        placement.corners_b,
        placement.dropped_corner,
        b,
        ceiling,
        cuts,
    )
}

/// Queue a floor or ceiling. Returns whether anything was queued.
pub fn push_horizontal_face(
    scratch: &mut PreviewScratch,
    placement: HorizontalPlacement,
    a: HorizontalHalfView,
    b: HorizontalHalfView,
    flip_winding: bool,
) -> (result: bool)
    requires
        old(scratch).wf(),
    ensures
        final(scratch).wf(),
        final(scratch).extends(
            *old(scratch),
            horizontal_packets(placement, a, b, flip_winding, old(scratch).split_depth as nat),
        ),
        result == (final(scratch).packets@.len() > old(scratch).packets@.len()),
{
    let ghost before = *scratch;
    let first = push_half(
        scratch,
        placement.corners_a,
        placement.dropped_corner,
        a,
        flip_winding,
    );
    let ghost between = *scratch;
    let second = push_half(
        scratch,
        placement.corners_b,
        placement.dropped_corner,
        b,
        flip_winding,
    );
    proof {
        let cuts = before.split_depth as nat;
        lemma_extends_twice(
            before,
            between,
            *scratch,
            half_packets(placement.corners_a, placement.dropped_corner, a, flip_winding, cuts),
            half_packets(placement.corners_b, placement.dropped_corner, b, flip_winding, cuts),
        );
    }
    first || second
}

/// The packets of one triangle of a wall, given its corners in the order of the
/// wall. The winding follows the side that is drawn.
pub open spec fn wall_triangle_packets(
    members: [WallCorner; 3],
    edge: WallEdge,
    wall: WallView,
    cuts: nat,
) -> Seq<TrianglePacket> {
    let turned = if wall_sides(wall.shade.spec_sidedness(), edge) == MaterialFaceSidedness::Back {
        [members[0], members[2], members[1]]
    } else {
        members
    };
    let color = wall.shade.spec_color();
    visible_face_packets(
        wall_corner_vertices(wall.projected, turned),
        wall_corner_uvs(sized_uvs(wall.shade, wall.quad), turned),
        double_sided(wall.shade),
        [color, color, color],
        cuts,
    )
}

/// A shade that is drawn from both sides.
pub open spec fn double_sided(shade: FaceShade) -> FaceShade {
    match shade {
        FaceShade::Flat { rgb, .. } => FaceShade::Flat { rgb, sidedness: MaterialFaceSidedness::Both },
        FaceShade::Textured { slot, tint, blend_mode, .. } => FaceShade::Textured {
            slot,
            tint,
            blend_mode,
            sidedness: MaterialFaceSidedness::Both,
        },
    }
}

/// The packets of a wall: none if the camera stands on a side that is not drawn
/// or a corner lies behind the near plane; one triangle if a corner is dropped.
pub open spec fn wall_packets(
    placement: WallPlacement,
    wall: WallView,
    camera: RoomPoint,
    cuts: nat,
) -> Seq<TrianglePacket> {
    if !wall_shows(wall.shade.spec_sidedness(), placement.bounds, placement.edge, camera)
        || !wall.in_front {
        Seq::empty()
    } else {
        let first = wall_triangle_packets(placement.triangle_a, placement.edge, wall, cuts);
        if placement.dropped_corner is Some {
            first
        } else {
            first + wall_triangle_packets(placement.triangle_b, placement.edge, wall, cuts)
        }
    }
}

fn push_wall_triangle(
    scratch: &mut PreviewScratch,
    members: [WallCorner; 3],
    edge: WallEdge,
    wall: WallView,
) -> (result: bool)
    requires
        old(scratch).wf(),
    ensures
        final(scratch).wf(),
        final(scratch).extends(
            *old(scratch),
            wall_triangle_packets(members, edge, wall, old(scratch).split_depth as nat),
        ),
        result == (final(scratch).packets@.len() > old(scratch).packets@.len()),
{
    let render_shade = wall.shade.with_sidedness(MaterialFaceSidedness::Both);
    assert(render_shade == double_sided(wall.shade));
    let uvs = material_sized_uvs(wall.shade, wall.quad);
    let back = matches!(
        wall_material_sidedness_for_edge(wall.shade.sidedness(), edge),
        MaterialFaceSidedness::Back
    );
    if back {
        let turned = [members[0], members[2], members[1]];
        emit_face_tri(
            scratch,
            select_projected_wall_corners(wall.projected, turned),
            select_uv_wall_corners(uvs, turned),
            render_shade,
        )
    } else {
        emit_face_tri(
            scratch,
            select_projected_wall_corners(wall.projected, members),
            select_uv_wall_corners(uvs, members),
            render_shade,
        )
    }
}

/// Queue a wall. Returns whether anything was queued.
pub fn push_wall_face(
    scratch: &mut PreviewScratch,
    placement: WallPlacement,
    wall: WallView,
    camera_position: RoomPoint,
) -> (result: bool)
    requires
        old(scratch).wf(),
    ensures
        final(scratch).wf(),
        final(scratch).extends(
            *old(scratch),
            wall_packets(placement, wall, camera_position, old(scratch).split_depth as nat),
        ),
        result == (final(scratch).packets@.len() > old(scratch).packets@.len()),
{
    if !wall_side_visible(
        wall.shade.sidedness(),
        placement.bounds,
        placement.edge,
        camera_position,
    ) || !wall.in_front {
        proof {
            lemma_nothing_queued(*scratch);
        }
        return false;
    }
    let ghost before = *scratch;
    let first = push_wall_triangle(scratch, placement.triangle_a, placement.edge, wall);
    if placement.dropped_corner.is_some() {
        return first;
    }
    let ghost between = *scratch;
    let second = push_wall_triangle(scratch, placement.triangle_b, placement.edge, wall);
    proof {
        let cuts = before.split_depth as nat;
        lemma_extends_twice(
            before,
            between,
            *scratch,
            wall_triangle_packets(placement.triangle_a, placement.edge, wall, cuts),
            wall_triangle_packets(placement.triangle_b, placement.edge, wall, cuts),
        );
    }
    first || second
}

/// A half seen through the fog.
pub open spec fn fogged_half(half: HorizontalHalfView, fog: PreviewFog, depth: int) -> HorizontalHalfView {
    HorizontalHalfView {
        shade: half.shade.spec_with_color(fog.fogged(half.shade.spec_color(), depth)),
        ..half
    }
}

/// A wall seen through the fog.
pub open spec fn fogged_wall(wall: WallView, fog: PreviewFog, depth: int) -> WallView {
    WallView {
        shade: wall.shade.spec_with_color(fog.fogged(wall.shade.spec_color(), depth)),
        ..wall
    }
}

/// A view belongs to a face: both are horizontal, or both are walls.
pub open spec fn view_matches(face: RoomFace, view: FaceView) -> bool {
    (face.placement is Horizontal) == (view is Horizontal)
}

/// The packets of a face seen through the fog.
#[verifier::opaque]
pub open spec fn face_packets(
    face: RoomFace,
    view: FaceView,
    fog: PreviewFog,
    camera: RoomPoint,
    cuts: nat,
) -> Seq<TrianglePacket> {
    match (face.placement, view) {
        (
            FacePlacement::Horizontal(placement),
            FaceView::Horizontal { depth, a, b },
        ) => horizontal_packets(
            placement,
            fogged_half(a, fog, depth as int),
            fogged_half(b, fog, depth as int),
            face.face.kind == FaceKind::Ceiling,
            cuts,
        ),
        (FacePlacement::Wall(placement), FaceView::Wall { depth, wall }) => wall_packets(
            placement,
            fogged_wall(wall, fog, depth as int),
            camera,
            cuts,
        ),
        _ => Seq::empty(),
    }
}

/// The sidedness that decides whether a culled face is outlined.
pub open spec fn outline_sidedness(view: FaceView) -> MaterialFaceSidedness {
    match view {
        FaceView::Horizontal { a, .. } => a.shade.spec_sidedness(),
        FaceView::Wall { wall, .. } => wall.shade.spec_sidedness(),
    }
}

/// Queue one face. Returns whether it is to be outlined instead, because none of
/// it was queued and the author wants to see culled faces.
pub fn draw_room_face(
    scratch: &mut PreviewScratch,
    face: RoomFace,
    view: FaceView,
    fog: PreviewFog,
    preview_backface_wireframe: bool,
    camera_position: RoomPoint,
) -> (result: bool)
    requires
        old(scratch).wf(),
        view_matches(face, view),
    ensures
        final(scratch).wf(),
        final(scratch).extends(
            *old(scratch),
            face_packets(face, view, fog, camera_position, old(scratch).split_depth as nat),
        ),
        result == (final(scratch).packets@.len() == old(scratch).packets@.len()
            && preview_backface_wireframe && outline_sidedness(view) != MaterialFaceSidedness::Both),
{
    reveal(face_packets);
    match (face.placement, view) {
        (FacePlacement::Horizontal(placement), FaceView::Horizontal { depth, a, b }) => {
            let fogged_a = HorizontalHalfView { shade: fog.apply_shade(a.shade, depth), ..a };
            let fogged_b = HorizontalHalfView { shade: fog.apply_shade(b.shade, depth), ..b };
            let emitted = push_horizontal_face(
                scratch,
                placement,
                fogged_a,
                fogged_b,
                face.face.kind == FaceKind::Ceiling,
            );
            !emitted && should_draw_culled_face_outline(preview_backface_wireframe, fogged_a.shade)
        },
        (FacePlacement::Wall(placement), FaceView::Wall { depth, wall }) => {
            let fogged = WallView { shade: fog.apply_shade(wall.shade, depth), ..wall };
            let emitted = push_wall_face(scratch, placement, fogged, camera_position);
            !emitted && should_draw_culled_face_outline(preview_backface_wireframe, fogged.shade)
        },
        _ => {
            proof {
                lemma_nothing_queued(*scratch);
            }
            false
        },
    }
}

/// What drawing leaves behind: the packets that were queued, and the faces that
/// are to be outlined.
pub struct Drawn {
    pub packets: Seq<TrianglePacket>,
    pub outlines: Seq<FaceRef>,
}

/// What the first `n` faces of a cell leave behind, with room for a number of
/// untextured and textured triangles.
pub open spec fn drawn_faces(
    flat_room: int,
    tex_room: int,
    faces: Seq<RoomFace>,
    views: Seq<FaceView>,
    fog: PreviewFog,
    wireframe: bool,
    camera: RoomPoint,
    cuts: nat,
    n: nat,
) -> Drawn
    decreases n,
{
    if n == 0 {
        Drawn { packets: Seq::empty(), outlines: Seq::empty() }
    } else {
        let before = drawn_faces(
            flat_room,
            tex_room,
            faces,
            views,
            fog,
            wireframe,
            camera,
            cuts,
            (n - 1) as nat,
        );
        let added = admitted(
            flat_room - textured_count(before.packets, false),
            tex_room - textured_count(before.packets, true),
            face_packets(faces[n - 1], views[n - 1], fog, camera, cuts),
        );
        Drawn {
            packets: before.packets + added,
            outlines: if added.len() == 0 && wireframe && outline_sidedness(views[n - 1])
                != MaterialFaceSidedness::Both {
                before.outlines.push(faces[n - 1].face)
            } else {
                before.outlines
            },
        }
    }
}

/// What the cells from number `i` on leave behind. Drawing ends after the cell
/// that fills one of the pools.
pub open spec fn drawn_sectors(
    flat_room: int,
    tex_room: int,
    sectors: Seq<Seq<RoomFace>>,
    views: Seq<Seq<FaceView>>,
    fog: PreviewFog,
    wireframe: bool,
    camera: RoomPoint,
    cuts: nat,
    i: int,
) -> Drawn
    decreases sectors.len() - i,
{
    if i >= sectors.len() {
        Drawn { packets: Seq::empty(), outlines: Seq::empty() }
    } else {
        let here = drawn_faces(
            flat_room,
            tex_room,
            sectors[i],
            views[i],
            fog,
            wireframe,
            camera,
            cuts,
            sectors[i].len(),
        );
        let flat_left = flat_room - textured_count(here.packets, false);
        let tex_left = tex_room - textured_count(here.packets, true);
        if flat_left <= 0 || tex_left <= 0 {
            here
        } else {
            let rest = drawn_sectors(
                flat_left,
                tex_left,
                sectors,
                views,
                fog,
                wireframe,
                camera,
                cuts,
                i + 1,
            );
            Drawn { packets: here.packets + rest.packets, outlines: here.outlines + rest.outlines }
        }
    }
}

/// The views of one cell's faces.
#[derive(Debug)]
pub struct SectorViews {
    pub views: Vec<FaceView>,
}

/// Every face has its view.
pub open spec fn views_match(sectors: Seq<RoomSector>, views: Seq<SectorViews>) -> bool {
    &&& sectors.len() == views.len()
    &&& forall|i: int|
        0 <= i < sectors.len() ==> (#[trigger] sectors[i]).faces@.len() == views[i].views@.len()
    &&& forall|i: int, j: int|
        0 <= i < sectors.len() && 0 <= j < sectors[i].faces@.len() ==> view_matches(
            #[trigger] sectors[i].faces@[j],
            views[i].views@[j],
        )
}

/// The faces of each cell.
pub open spec fn faces_by_sector(sectors: Seq<RoomSector>) -> Seq<Seq<RoomFace>> {
    sectors.map_values(|s: RoomSector| s.faces@)
}

/// The views of each cell.
pub open spec fn views_by_sector(views: Seq<SectorViews>) -> Seq<Seq<FaceView>> {
    views.map_values(|v: SectorViews| v.views@)
}

fn draw_sector(
    scratch: &mut PreviewScratch,
    faces: &Vec<RoomFace>,
    views: &Vec<FaceView>,
    fog: PreviewFog,
    preview_backface_wireframe: bool,
    camera_position: RoomPoint,
    outlines: &mut Vec<FaceRef>,
)
    requires
        old(scratch).wf(),
        faces@.len() == views@.len(),
        forall|j: int| 0 <= j < faces@.len() ==> view_matches(#[trigger] faces@[j], views@[j]),
    ensures
        final(scratch).wf(),
        final(scratch).tri_cap == old(scratch).tri_cap,
        final(scratch).split_depth == old(scratch).split_depth,
        ({
            let drawn = drawn_faces(
                old(scratch).room(false),
                old(scratch).room(true),
                faces@,
                views@,
                fog,
                preview_backface_wireframe,
                camera_position,
                old(scratch).split_depth as nat,
                faces@.len(),
            );
            &&& final(scratch).packets@ == old(scratch).packets@ + drawn.packets
            &&& final(outlines)@ == old(outlines)@ + drawn.outlines
        }),
{
    let ghost start = *scratch;
    let ghost cuts = scratch.split_depth as nat;
    proof {
        assert(scratch.packets@ + Seq::<TrianglePacket>::empty() == scratch.packets@);
        assert(outlines@ + Seq::<FaceRef>::empty() == outlines@);
    }
    for i in 0..faces.len()
        invariant
            scratch.wf(),
            start.wf(),
            start == *old(scratch),
            cuts == start.split_depth,
            scratch.tri_cap == start.tri_cap,
            scratch.split_depth == start.split_depth,
            faces@.len() == views@.len(),
            forall|j: int| 0 <= j < faces@.len() ==> view_matches(#[trigger] faces@[j], views@[j]),
            ({
                let drawn = drawn_faces(
                    start.room(false),
                    start.room(true),
                    faces@,
                    views@,
                    fog,
                    preview_backface_wireframe,
                    camera_position,
                    cuts,
                    i as nat,
                );
                &&& scratch.packets@ == start.packets@ + drawn.packets
                &&& outlines@ == old(outlines)@ + drawn.outlines
            }),
    {
        let ghost before = *scratch;
        let ghost drawn = drawn_faces(
            start.room(false),
            start.room(true),
            faces@,
            views@,
            fog,
            preview_backface_wireframe,
            camera_position,
            cuts,
            i as nat,
        );
        let ghost outlined = outlines@;
        let outline = draw_room_face(
            scratch,
            faces[i],
            views[i],
            fog,
            preview_backface_wireframe,
            camera_position,
        );
        if outline {
            outlines.push(faces[i].face);
        }
        proof {
            lemma_count_concat(start.packets@, drawn.packets, true);
            lemma_count_concat(start.packets@, drawn.packets, false);
            let added = admitted(
                before.room(false),
                before.room(true),
                face_packets(faces@[i as int], views@[i as int], fog, camera_position, cuts),
            );
            assert(scratch.packets@ == before.packets@ + added);
            assert((start.packets@ + drawn.packets) + added =~= start.packets@ + (drawn.packets
                + added));
            if outline {
                assert(outlines@ =~= old(outlines)@ + drawn.outlines.push(faces@[i as int].face));
            }
        }
    }
}

/// Queue the faces of a room, cell by cell, until one of the pools is full after
/// a cell. Returns the faces that are to be outlined because nothing of them was
/// queued.
pub fn walk_room(
    scratch: &mut PreviewScratch,
    sectors: &Vec<RoomSector>,
    views: &Vec<SectorViews>,
    fog: PreviewFog,
    preview_backface_wireframe: bool,
    camera_position: RoomPoint,
) -> (result: Vec<FaceRef>)
    requires
        old(scratch).wf(),
        views_match(sectors@, views@),
    ensures
        final(scratch).wf(),
        final(scratch).tri_cap == old(scratch).tri_cap,
        final(scratch).split_depth == old(scratch).split_depth,
        ({
            let drawn = drawn_sectors(
                old(scratch).room(false),
                old(scratch).room(true),
                faces_by_sector(sectors@),
                views_by_sector(views@),
                fog,
                preview_backface_wireframe,
                camera_position,
                old(scratch).split_depth as nat,
                0,
            );
            &&& final(scratch).packets@ == old(scratch).packets@ + drawn.packets
            &&& result@ == drawn.outlines
        }),
{
    let ghost start = *scratch;
    let ghost cuts = scratch.split_depth as nat;
    let ghost all_faces = faces_by_sector(sectors@);
    let ghost all_views = views_by_sector(views@);
    let ghost total = drawn_sectors(
        start.room(false),
        start.room(true),
        all_faces,
        all_views,
        fog,
        preview_backface_wireframe,
        camera_position,
        cuts,
        0,
    );
    let mut outlines: Vec<FaceRef> = Vec::new();
    let mut i: usize = 0;
    proof {
        assert(outlines@ + total.outlines =~= total.outlines);
    }
    while i < sectors.len()
        invariant
            i <= sectors@.len(),
            scratch.wf(),
            start == *old(scratch),
            total == drawn_sectors(
                start.room(false),
                start.room(true),
                all_faces,
                all_views,
                fog,
                preview_backface_wireframe,
                camera_position,
                cuts,
                0,
            ),
            cuts == start.split_depth,
            scratch.tri_cap == start.tri_cap,
            scratch.split_depth == start.split_depth,
            views_match(sectors@, views@),
            all_faces == faces_by_sector(sectors@),
            all_views == views_by_sector(views@),
            ({
                let rest = drawn_sectors(
                    scratch.room(false),
                    scratch.room(true),
                    all_faces,
                    all_views,
                    fog,
                    preview_backface_wireframe,
                    camera_position,
                    cuts,
                    i as int,
                );
                &&& scratch.packets@ + rest.packets == start.packets@ + total.packets
                &&& outlines@ + rest.outlines == total.outlines
            }),
        decreases sectors@.len() - i,
    {
        let ghost before = *scratch;
        let ghost outlined = outlines@;
        assert(all_faces[i as int] == sectors@[i as int].faces@);
        assert(all_views[i as int] == views@[i as int].views@);
        assert forall|j: int| 0 <= j < sectors@[i as int].faces@.len() implies view_matches(
            #[trigger] sectors@[i as int].faces@[j],
            views@[i as int].views@[j],
        ) by {}
        draw_sector(
            scratch,
            &sectors[i].faces,
            &views[i].views,
            fog,
            preview_backface_wireframe,
            camera_position,
            &mut outlines,
        );
        let ghost here = drawn_faces(
            before.room(false),
            before.room(true),
            all_faces[i as int],
            all_views[i as int],
            fog,
            preview_backface_wireframe,
            camera_position,
            cuts,
            all_faces[i as int].len(),
        );
        proof {
            lemma_count_concat(before.packets@, here.packets, true);
            lemma_count_concat(before.packets@, here.packets, false);
            assert(scratch.room(false) == before.room(false) - textured_count(here.packets, false));
            assert(scratch.room(true) == before.room(true) - textured_count(here.packets, true));
        }
        if scratch.full() {
            return outlines;
        }
        proof {
            let rest = drawn_sectors(
                scratch.room(false),
                scratch.room(true),
                all_faces,
                all_views,
                fog,
                preview_backface_wireframe,
                camera_position,
                cuts,
                i + 1,
            );
            assert((before.packets@ + here.packets) + rest.packets =~= before.packets@ + (
            here.packets + rest.packets));
            assert((outlined + here.outlines) + rest.outlines =~= outlined + (here.outlines
                + rest.outlines));
        }
        i = i + 1;
    }
    proof {
        assert(scratch.packets@ + Seq::<TrianglePacket>::empty() == scratch.packets@);
        assert(outlines@ + Seq::<FaceRef>::empty() == outlines@);
    }
    outlines
}

/// The four corners of a cell are placed at its four corners: a corner is on the
/// west side exactly if it is a west one, and on the south side exactly if it is
/// a south one, at the height that is asked for. In a cell with an extent no two
/// corners meet.
pub proof fn law_corners_lie_at_the_corners_of_the_cell(
    bounds: CellBounds,
    corner: Corner,
    other: Corner,
    height: i32,
)
    ensures
        ({
            let point = corner_point(bounds, corner, height);
            let west = corner == Corner::NW || corner == Corner::SW;
            let south = corner == Corner::SW || corner == Corner::SE;
            &&& point.0 == if west { bounds[0] } else { bounds[1] }
            &&& point.1 == height
            &&& point.2 == if south { bounds[2] } else { bounds[3] }
            &&& bounds[0] != bounds[1] && bounds[2] != bounds[3] && corner != other ==> point
                != corner_point(bounds, other, height)
        }),
{
}

/// Twice the area of a triangle seen from above, with the sign of its turn.
pub open spec fn ground_area(a: RoomPoint, b: RoomPoint, c: RoomPoint) -> int {
    (b.0 - a.0) * (c.2 - a.2) - (b.2 - a.2) * (c.0 - a.0)
}

/// Any three corners of a cell make one half of it: a floor whose two halves
/// leave out opposite corners covers the whole cell, at the heights of its
/// corners.
pub proof fn law_three_corners_cover_half_a_cell(
    bounds: CellBounds,
    corners: [Corner; 3],
    heights: [i32; 3],
)
    requires
        corners[0] != corners[1],
        corners[1] != corners[2],
        corners[0] != corners[2],
    ensures
        ({
            let points = triangle_points(bounds, corners, heights);
            let area = ground_area(points[0], points[1], points[2]);
            let cell = (bounds[1] - bounds[0]) * (bounds[3] - bounds[2]);
            &&& area == cell || area == -cell
            &&& points[0].1 == heights[0] && points[1].1 == heights[1] && points[2].1 == heights[2]
        }),
{
    let points = triangle_points(bounds, corners, heights);
    let w = bounds[1] - bounds[0];
    let d = bounds[3] - bounds[2];
    let bx = points[1].0 - points[0].0;
    let bz = points[1].2 - points[0].2;
    let cx = points[2].0 - points[0].0;
    let cz = points[2].2 - points[0].2;
    assert(bx == 0 || bx == w || bx == -w);
    assert(bz == 0 || bz == d || bz == -d);
    assert(cx == 0 || cx == w || cx == -w);
    assert(cz == 0 || cz == d || cz == -d);
    assert(w * (-d) == -(w * d) && (-w) * d == -(w * d) && (-w) * (-d) == w * d && d * w == w * d
        && (-d) * w == -(w * d) && d * (-w) == -(w * d) && (-d) * (-w) == w * d)
        by (nonlinear_arith);
}

/// Walking round a cell with its walls on the left, each wall begins where the
/// one before it ends, and each has the cell's centre on the same hand. The
/// walls across join opposite corners.
pub proof fn law_walls_go_round_the_cell(bounds: CellBounds)
    ensures
        wall_ends(bounds, GridDirection::North).1 == wall_ends(bounds, GridDirection::East).0,
        wall_ends(bounds, GridDirection::East).1 == wall_ends(bounds, GridDirection::South).0,
        wall_ends(bounds, GridDirection::South).1 == wall_ends(bounds, GridDirection::West).0,
        wall_ends(bounds, GridDirection::West).1 == wall_ends(bounds, GridDirection::North).0,
        wall_ends(bounds, GridDirection::North).0 == (bounds[0], bounds[3]),
        wall_ends(bounds, GridDirection::South).0 == (bounds[1], bounds[2]),
        wall_ends(bounds, GridDirection::NorthWestSouthEast) == (
            wall_ends(bounds, GridDirection::North).0,
            wall_ends(bounds, GridDirection::South).0,
        ),
        wall_ends(bounds, GridDirection::NorthEastSouthWest) == (
            wall_ends(bounds, GridDirection::East).0,
            wall_ends(bounds, GridDirection::West).0,
        ),
{
}

/// Two cells side by side share the wall between them, each seeing its ends the
/// other way round.
pub proof fn law_neighbours_share_a_wall(a: CellBounds, b: CellBounds)
    ensures
        a[3] == b[2] && a[0] == b[0] && a[1] == b[1] ==> wall_ends(a, GridDirection::North) == (
            wall_ends(b, GridDirection::South).1,
            wall_ends(b, GridDirection::South).0,
        ),
        a[1] == b[0] && a[2] == b[2] && a[3] == b[3] ==> wall_ends(a, GridDirection::East) == (
            wall_ends(b, GridDirection::West).1,
            wall_ends(b, GridDirection::West).0,
        ),
{
}

/// A wall stands upright on its two ends: the first and the last corner over the
/// left one, the others over the right one, each at its own height.
pub proof fn law_walls_stand_upright(bounds: CellBounds, edge: WallEdge, heights: [i32; 4])
    ensures
        ({
            let points = wall_points(bounds, edge, heights);
            let (left, right) = wall_ends(bounds, edge);
            &&& (points[0].0, points[0].2) == left && (points[3].0, points[3].2) == left
            &&& (points[1].0, points[1].2) == right && (points[2].0, points[2].2) == right
            &&& forall|i: int| 0 <= i < 4 ==> (#[trigger] points[i]).1 == heights[i]
        }),
{
}

/// `2 * m` is the sum of two numbers, up to one.
pub open spec fn halves(m: int, a: int, b: int) -> bool {
    a + b - 1 <= 2 * m <= a + b + 1
}

/// The centre of a face lies in the middle: half way between opposite sides of a
/// floor, half way between the ends of a wall, and at the mean of the heights.
pub proof fn law_centers_lie_in_the_middle(
    bounds: CellBounds,
    edge: WallEdge,
    heights: [i32; 4],
)
    requires
        bounds_fit(bounds),
    ensures
        ({
            let floor = horizontal_center(bounds, heights);
            let wall = wall_center(bounds, edge, heights);
            let (left, right) = wall_ends(bounds, edge);
            let sum = heights[0] + heights[1] + heights[2] + heights[3];
            &&& halves(floor.0 as int, bounds[0] as int, bounds[1] as int)
            &&& halves(floor.2 as int, bounds[2] as int, bounds[3] as int)
            &&& halves(wall.0 as int, left.0 as int, right.0 as int)
            &&& halves(wall.2 as int, left.1 as int, right.1 as int)
            &&& sum - 3 <= 4 * floor.1 <= sum + 3
            &&& wall.1 == floor.1
        }),
{
}

/// From inside a cell the front materials of its walls show and their back ones
/// do not; from beyond a wall it is the other way round. Two-sided materials and
/// walls across a cell show from everywhere.
pub proof fn law_walls_show_toward_their_cell(
    bounds: CellBounds,
    edge: WallEdge,
    camera: RoomPoint,
)
    ensures
        !diagonal(edge) && bounds[0] < camera.0 < bounds[1] && bounds[2] < camera.2 < bounds[3]
            ==> wall_shows(MaterialFaceSidedness::Front, bounds, edge, camera) && !wall_shows(
            MaterialFaceSidedness::Back,
            bounds,
            edge,
            camera,
        ),
        (edge == GridDirection::North && camera.2 > bounds[3]) || (edge == GridDirection::South
            && camera.2 < bounds[2]) || (edge == GridDirection::East && camera.0 > bounds[1]) || (
        edge == GridDirection::West && camera.0 < bounds[0]) ==> !wall_shows(
            MaterialFaceSidedness::Front,
            bounds,
            edge,
            camera,
        ) && wall_shows(MaterialFaceSidedness::Back, bounds, edge, camera),
        wall_shows(MaterialFaceSidedness::Both, bounds, edge, camera),
        edge == GridDirection::NorthWestSouthEast || edge == GridDirection::NorthEastSouthWest
            ==> wall_shows(MaterialFaceSidedness::Front, bounds, edge, camera) && wall_shows(
            MaterialFaceSidedness::Back,
            bounds,
            edge,
            camera,
        ),
{
}

/// Raising heights adds the offset to each of them.
pub proof fn law_raising_adds_the_offset(heights: [i32; 4], half: [i32; 3], offset: i32)
    ensures
        quad_fits(heights, offset) ==> forall|i: int|
            0 <= i < 4 ==> #[trigger] raised(heights, offset)[i] == heights[i] + offset,
        (forall|i: int| 0 <= i < 3 ==> height_fits(#[trigger] half[i], offset)) ==> forall|i: int|
            0 <= i < 3 ==> #[trigger] raised3(half, offset)[i] == half[i] + offset,
{
    if quad_fits(heights, offset) {
        assert(height_fits(heights[0], offset) && height_fits(heights[1], offset) && height_fits(
            heights[2],
            offset,
        ) && height_fits(heights[3], offset));
    }
    if forall|i: int| 0 <= i < 3 ==> height_fits(#[trigger] half[i], offset) {
        assert(height_fits(half[0], offset) && height_fits(half[1], offset) && height_fits(
            half[2],
            offset,
        ));
    }
}

/// Cells tile the room: each is one cell size wide and deep, begins where the one
/// before it ends, and the first one stands at the origin.
pub proof fn law_cells_tile_the_room(grid: WorldGrid, x: int, z: int)
    requires
        grid.cell_fits(x, z),
    ensures
        ({
            let here = cell_bounds(grid, x, z);
            &&& here[0] == (grid.origin_x + x) * grid.sector_size
            &&& here[1] == here[0] + grid.sector_size
            &&& here[2] == (grid.origin_z + z) * grid.sector_size
            &&& here[3] == here[2] + grid.sector_size
            &&& grid.cell_fits(x + 1, z) ==> cell_bounds(grid, x + 1, z)[0] == here[1]
            &&& grid.cell_fits(x, z + 1) ==> cell_bounds(grid, x, z + 1)[2] == here[3]
        }),
{
    let s = grid.sector_size as int;
    assert((grid.origin_x + x + 1) * s == (grid.origin_x + x) * s + s) by (nonlinear_arith);
    assert((grid.origin_z + z + 1) * s == (grid.origin_z + z) * s + s) by (nonlinear_arith);
}

} // verus!
