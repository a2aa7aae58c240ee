//! The cell grid of a room: floors, ceilings and walls.

use vstd::prelude::*;

verus! {

/// Identity of a project resource.
#[derive(Clone, Copy, Debug, PartialEq, Eq, Structural)]
pub struct ResourceId(pub u64);

/// Edge of a cell that a wall stands on.
#[derive(Clone, Copy, Debug, PartialEq, Eq, Structural)]
pub enum GridDirection {
    North,
    East,
    South,
    West,
    NorthWestSouthEast,
    NorthEastSouthWest,
}

impl GridDirection {
    /// The facing edge of the neighbouring cell; diagonals have none.
    pub open spec fn spec_opposite_cardinal(self) -> Option<GridDirection> {
        match self {
            GridDirection::North => Some(GridDirection::South),
            GridDirection::East => Some(GridDirection::West),
            GridDirection::South => Some(GridDirection::North),
            GridDirection::West => Some(GridDirection::East),
            _ => None,
        }
    }

    pub fn opposite_cardinal(self) -> (result: Option<GridDirection>)
        ensures
            result == self.spec_opposite_cardinal(),
    {
        match self {
            GridDirection::North => Some(GridDirection::South),
            GridDirection::East => Some(GridDirection::West),
            GridDirection::South => Some(GridDirection::North),
            GridDirection::West => Some(GridDirection::East),
            _ => None,
        }
    }
}

/// Number of wall directions of a cell.
pub const DIRECTION_COUNT: usize = 6;

/// The wall directions in the order in which they are visited.
pub open spec fn direction_at(i: int) -> GridDirection {
    if i == 0 {
        GridDirection::North
    } else if i == 1 {
        GridDirection::East
    } else if i == 2 {
        GridDirection::South
    } else if i == 3 {
        GridDirection::West
    } else if i == 4 {
        GridDirection::NorthWestSouthEast
    } else {
        GridDirection::NorthEastSouthWest
    }
}

pub fn grid_direction(i: usize) -> (result: GridDirection)
    requires
        i < DIRECTION_COUNT,
    ensures
        result == direction_at(i as int),
{
    match i {
        0 => GridDirection::North,
        1 => GridDirection::East,
        2 => GridDirection::South,
        3 => GridDirection::West,
        4 => GridDirection::NorthWestSouthEast,
        _ => GridDirection::NorthEastSouthWest,
    }
}

/// Corner of a floor or ceiling. North is +Z, east is +X.
#[derive(Clone, Copy, Debug, PartialEq, Eq, Structural)]
pub enum Corner {
    NW,
    NE,
    SE,
    SW,
}

impl Corner {
    /// Position of the corner in a quad's arrays.
    pub open spec fn spec_idx(self) -> int {
        match self {
            Corner::NW => 0,
            Corner::NE => 1,
            Corner::SE => 2,
            Corner::SW => 3,
        }
    }

    pub fn idx(self) -> (result: usize)
        ensures
            result == self.spec_idx(),
    {
        match self {
            Corner::NW => 0,
            Corner::NE => 1,
            Corner::SE => 2,
            Corner::SW => 3,
        }
    }
}

/// Corner of a wall, seen from the cell that owns it.
#[derive(Clone, Copy, Debug, PartialEq, Eq, Structural)]
pub enum WallCorner {
    BL,
    BR,
    TR,
    TL,
}

impl WallCorner {
    /// Position of the corner in a quad's arrays.
    pub open spec fn spec_idx(self) -> int {
        match self {
            WallCorner::BL => 0,
            WallCorner::BR => 1,
            WallCorner::TR => 2,
            WallCorner::TL => 3,
        }
    }

    pub fn idx(self) -> (result: usize)
        ensures
            result == self.spec_idx(),
    {
        match self {
            WallCorner::BL => 0,
            WallCorner::BR => 1,
            WallCorner::TR => 2,
            WallCorner::TL => 3,
        }
    }
}

/// One half of a floor or ceiling: its corners in winding order, and their
/// heights.
#[derive(Clone, Copy, Debug, PartialEq, Eq)]
pub struct HorizontalTriangle {
    pub corners: [Corner; 3],
    pub heights: [i32; 3],
    pub material: Option<ResourceId>,
}

/// A floor or ceiling. A dropped corner takes away the half that contains it.
#[derive(Clone, Copy, Debug, PartialEq, Eq)]
pub struct GridHorizontalFace {
    pub heights: [i32; 4],
    pub triangle_a: HorizontalTriangle,
    pub triangle_b: HorizontalTriangle,
    pub dropped_corner: Option<Corner>,
}

/// A wall with the heights of its bottom left, bottom right, top right and top
/// left corner, and the corners of the triangles that it is made of: both
/// halves of the quad, or the one triangle that a dropped corner leaves.
#[derive(Clone, Copy, Debug, PartialEq, Eq)]
pub struct GridVerticalFace {
    pub heights: [i32; 4],
    pub material: Option<ResourceId>,
    pub dropped_corner: Option<WallCorner>,
    pub triangle_a: [WallCorner; 3],
    pub triangle_b: [WallCorner; 3],
}

/// One cell of a room.
#[derive(Debug)]
pub struct GridSector {
    pub floor: Option<GridHorizontalFace>,
    pub ceiling: Option<GridHorizontalFace>,
    pub north: Vec<GridVerticalFace>,
    pub east: Vec<GridVerticalFace>,
    pub south: Vec<GridVerticalFace>,
    pub west: Vec<GridVerticalFace>,
    pub north_west_south_east: Vec<GridVerticalFace>,
    pub north_east_south_west: Vec<GridVerticalFace>,
}

impl GridSector {
    /// The stacked walls on one edge, bottom first.
    pub open spec fn spec_walls(self, dir: GridDirection) -> Vec<GridVerticalFace> {
        match dir {
            GridDirection::North => self.north,
            GridDirection::East => self.east,
            GridDirection::South => self.south,
            GridDirection::West => self.west,
            GridDirection::NorthWestSouthEast => self.north_west_south_east,
            GridDirection::NorthEastSouthWest => self.north_east_south_west,
        }
    }

    pub fn walls(&self, dir: GridDirection) -> (result: &Vec<GridVerticalFace>)
        ensures
            *result == self.spec_walls(dir),
    {
        match dir {
            GridDirection::North => &self.north,
            GridDirection::East => &self.east,
            GridDirection::South => &self.south,
            GridDirection::West => &self.west,
            GridDirection::NorthWestSouthEast => &self.north_west_south_east,
            GridDirection::NorthEastSouthWest => &self.north_east_south_west,
        }
    }

    /// A cell without any face.
    pub fn empty() -> (result: GridSector)
        ensures
            result.floor is None,
            result.ceiling is None,
            forall|dir: GridDirection| (#[trigger] result.spec_walls(dir))@.len() == 0,
    {
        GridSector {
            floor: None,
            ceiling: None,
            north: Vec::new(),
            east: Vec::new(),
            south: Vec::new(),
            west: Vec::new(),
            north_west_south_east: Vec::new(),
            north_east_south_west: Vec::new(),
        }
    }
}

/// A room's cells. Cell `(x, z)` of the array stands at
/// `(origin_x + x, origin_z + z)` of the world's cell grid.
#[derive(Debug)]
pub struct WorldGrid {
    pub origin_x: i32,
    pub origin_z: i32,
    pub width: u16,
    pub depth: u16,
    pub sector_size: i32,
    pub ambient_color: (u8, u8, u8),
    pub fog_enabled: bool,
    pub fog_color: (u8, u8, u8),
    pub fog_near: i32,
    pub fog_far: i32,
    /// Cell `(x, z)` at `x * depth + z`.
    pub sectors: Vec<Option<GridSector>>,
}

impl WorldGrid {
    /// There is an entry for every cell.
    pub open spec fn wf(self) -> bool {
        self.sectors@.len() == self.width * self.depth
    }

    /// The corners of a cell are `i32` values.
    pub open spec fn cell_fits(self, x: int, z: int) -> bool {
        &&& corner_fits(self.origin_x + x, self.sector_size as int)
        &&& corner_fits(self.origin_x + x + 1, self.sector_size as int)
        &&& corner_fits(self.origin_z + z, self.sector_size as int)
        &&& corner_fits(self.origin_z + z + 1, self.sector_size as int)
    }

    /// Position of a cell's entry.
    pub open spec fn cell_index(self, x: int, z: int) -> int {
        x * self.depth + z
    }

    /// The cell at array position `(x, z)`.
    pub open spec fn sector_at(self, x: int, z: int) -> Option<GridSector> {
        if 0 <= x < self.width && 0 <= z < self.depth {
            self.sectors@[self.cell_index(x, z)]
        } else {
            None
        }
    }

    /// The cell at array position `(x, z)`.
    pub fn sector(&self, x: u16, z: u16) -> (result: &Option<GridSector>)
        requires
            self.wf(),
            x < self.width,
            z < self.depth,
        ensures
            *result == self.sector_at(x as int, z as int),
    {
        proof {
            lemma_cell_index(x as int, z as int, self.width as int, self.depth as int);
        }
        &self.sectors[x as usize * self.depth as usize + z as usize]
    }
}

/// A cell corner's coordinate is an `i32` value, and so is its cell's number.
pub open spec fn corner_fits(cell: int, sector_size: int) -> bool {
    &&& i32::MIN <= cell <= i32::MAX
    &&& i32::MIN <= cell * sector_size <= i32::MAX
}

pub proof fn lemma_cell_index(x: int, z: int, width: int, depth: int)
    requires
        0 <= x < width <= 0xFFFF,
        0 <= z < depth <= 0xFFFF,
    ensures
        0 <= x * depth,
        0 <= x * depth + z < width * depth,
        x * depth <= 0xFFFF * 0xFFFF,
{
    assert(0 <= x * depth && x * depth + depth <= width * depth && x * depth <= 0xFFFF * 0xFFFF)
        by (nonlinear_arith)
        requires
            0 <= x < width <= 0xFFFF,
            0 < depth <= 0xFFFF,
    ;
}

/// Every edge of a cell faces one edge of a neighbour, which faces it back.
pub proof fn law_facing_edges_face_each_other(a: GridDirection, b: GridDirection)
    ensures
        a.spec_opposite_cardinal() == Some(b) ==> b.spec_opposite_cardinal() == Some(a) && a != b,
        a.spec_opposite_cardinal() is None <==> a == GridDirection::NorthWestSouthEast || a
            == GridDirection::NorthEastSouthWest,
        a == GridDirection::North ==> a.spec_opposite_cardinal() == Some(GridDirection::South),
        a == GridDirection::East ==> a.spec_opposite_cardinal() == Some(GridDirection::West),
{
}

/// Every direction is visited, each once.
pub proof fn law_every_direction_is_visited(dir: GridDirection, i: int, j: int)
    requires
        0 <= i < DIRECTION_COUNT,
        0 <= j < DIRECTION_COUNT,
    ensures
        exists|k: int| 0 <= k < DIRECTION_COUNT && #[trigger] direction_at(k) == dir,
        direction_at(i) == direction_at(j) ==> i == j,
{
    assert(direction_at(0) == GridDirection::North && direction_at(1) == GridDirection::East
        && direction_at(2) == GridDirection::South && direction_at(3) == GridDirection::West
        && direction_at(4) == GridDirection::NorthWestSouthEast && direction_at(5)
        == GridDirection::NorthEastSouthWest);
}

/// Corners have places of their own, round the face.
pub proof fn law_corners_have_their_own_places(a: Corner, b: Corner, c: WallCorner, d: WallCorner)
    ensures
        0 <= a.spec_idx() < 4,
        a.spec_idx() == b.spec_idx() ==> a == b,
        0 <= c.spec_idx() < 4,
        c.spec_idx() == d.spec_idx() ==> c == d,
        a == Corner::NW && b == Corner::SE ==> b.spec_idx() - a.spec_idx() == 2,
        a == Corner::NE && b == Corner::SW ==> b.spec_idx() - a.spec_idx() == 2,
        c == WallCorner::BL && d == WallCorner::TR ==> d.spec_idx() - c.spec_idx() == 2,
        c == WallCorner::BR && d == WallCorner::TL ==> d.spec_idx() - c.spec_idx() == 2,
{
}

/// Cells have entries of their own, one behind the other northward and a whole
/// column further eastward.
pub proof fn law_cells_have_their_own_entries(grid: WorldGrid, x: int, z: int, u: int, v: int)
    requires
        grid.wf(),
        0 <= x < grid.width,
        0 <= z < grid.depth,
        0 <= u < grid.width,
        0 <= v < grid.depth,
    ensures
        0 <= grid.cell_index(x, z) < grid.sectors@.len(),
        grid.cell_index(x, z) == grid.cell_index(u, v) ==> x == u && z == v,
        grid.cell_index(x, z + 1) == grid.cell_index(x, z) + 1,
        grid.cell_index(x + 1, z) == grid.cell_index(x, z) + grid.depth,
        grid.sector_at(x, z) == grid.sectors@[grid.cell_index(x, z)],
        grid.sector_at(-1, z) is None && grid.sector_at(x, -1) is None,
        grid.sector_at(grid.width as int, z) is None && grid.sector_at(x, grid.depth as int)
            is None,
{
    lemma_cell_index(x, z, grid.width as int, grid.depth as int);
    let depth = grid.depth as int;
    assert(x * depth + z == u * depth + v ==> x == u) by (nonlinear_arith)
        requires
            0 <= z < depth,
            0 <= v < depth,
    ;
    assert((x + 1) * depth == x * depth + depth) by (nonlinear_arith);
}

} // verus!
