//! Submission of projected triangles: culling, hardware limits, ordering table.
//!
//! The drawing hardware drops a triangle that is too wide or too tall, so a
//! large triangle is cut along its longest edge until every piece fits.

use crate::math::{abs_int, clamp_int, max_int, min_int, trunc_div};
use crate::preview::material::{
    BlendMode, FaceShade, MaterialFaceSidedness, MaterialSlot, TextureMaterial,
    TextureWindow,
};
use crate::preview::screen::Projected;
use vstd::prelude::*;

verus! {

/// Smallest vertex coordinate that a packet can hold.
pub const PSX_VERTEX_MIN: i16 = -1024;

/// Largest vertex coordinate that a packet can hold.
pub const PSX_VERTEX_MAX: i16 = 1023;

/// Widest triangle that is drawn.
pub const PSX_TRI_MAX_DX: i32 = 1023;

/// Tallest triangle that is drawn.
pub const PSX_TRI_MAX_DY: i32 = 511;

/// Slots of the ordering table.
pub const PREVIEW_ORDERING_SLOTS: usize = 1024;

/// Nearest slot that geometry may use.
pub const PREVIEW_GEOMETRY_SLOT_MIN: usize = 1;

/// Farthest slot that geometry may use.
pub const PREVIEW_GEOMETRY_SLOT_MAX: usize = 1022;

/// Depth by which a shadow is drawn before the surface that it lies on.
pub const PREVIEW_SHADOW_DEPTH_BIAS: u32 = 128;

/// Colour that leaves a texel as it is.
pub const NEUTRAL_TINT: (u8, u8, u8) = (0x80, 0x80, 0x80);

/// One triangle queued for drawing, with the ordering-table slot it is linked
/// into. A triangle without a material is shaded by its colours alone.
#[derive(Clone, Copy, Debug, PartialEq, Eq)]
pub struct TrianglePacket {
    pub xy: [(i16, i16); 3],
    pub uvs: [(u8, u8); 3],
    pub colors: [(u8, u8, u8); 3],
    pub material: Option<TextureMaterial>,
    pub slot: usize,
}

/// A triangle with the attributes of its corners.
#[derive(Clone, Copy, Debug, PartialEq, Eq)]
pub struct PreviewTriangle {
    pub p: [Projected; 3],
    pub uvs: [(u8, u8); 3],
    pub colors: [(u8, u8, u8); 3],
}

/// Packets collected for one frame. Untextured and textured triangles have a
/// pool each, and `packets` keeps both in the order of submission.
#[derive(Debug)]
pub struct PreviewScratch {
    pub packets: Vec<TrianglePacket>,
    pub used: usize,
    pub tex_used: usize,
    pub tri_cap: usize,
    pub split_depth: u8,
}

impl PreviewScratch {
    /// An empty frame with room for `tri_cap` triangles in each pool, cutting
    /// no triangle more than `split_depth` times in a row.
    pub fn new(tri_cap: usize, split_depth: u8) -> (result: PreviewScratch)
        ensures
            result.wf(),
            result.packets@ == Seq::<TrianglePacket>::empty(),
            result.tri_cap == tri_cap,
            result.split_depth == split_depth,
    {
        let scratch = PreviewScratch {
            packets: Vec::new(),
            used: 0,
            tex_used: 0,
            tri_cap,
            split_depth,
        };
        proof {
            lemma_count_empty();
        }
        scratch
    }

    /// The pools hold what was queued and are within their limits, and every
    /// queued triangle can be drawn.
    pub open spec fn wf(self) -> bool {
        &&& self.used == textured_count(self.packets@, false)
        &&& self.tex_used == textured_count(self.packets@, true)
        &&& self.used <= self.tri_cap
        &&& self.tex_used <= self.tri_cap
        &&& forall|i: int| 0 <= i < self.packets@.len() ==> drawable(#[trigger] self.packets@[i])
    }

    /// Room left in the pool of untextured (or textured) triangles.
    pub open spec fn room(self, textured: bool) -> int {
        if textured {
            self.tri_cap - self.tex_used
        } else {
            self.tri_cap - self.used
        }
    }

    /// `self` is `before` with those of `triangles`, in their order, for which
    /// the pools had room.
    pub open spec fn extends(self, before: PreviewScratch, triangles: Seq<TrianglePacket>) -> bool {
        &&& self.packets@ == before.packets@ + admitted(
            before.room(false),
            before.room(true),
            triangles,
        )
        &&& self.tri_cap == before.tri_cap
        &&& self.split_depth == before.split_depth
    }

    /// One of the pools is full.
    pub open spec fn spec_full(self) -> bool {
        self.used >= self.tri_cap || self.tex_used >= self.tri_cap
    }

    /// One of the pools is full.
    pub fn full(&self) -> (result: bool)
        ensures
            result == self.spec_full(),
    {
        self.used >= self.tri_cap || self.tex_used >= self.tri_cap
    }
}

/// Those of `triangles`, in their order, that two pools with the given room
/// take: each goes to the pool of its kind unless that is full by then.
pub open spec fn admitted(flat_room: int, tex_room: int, triangles: Seq<TrianglePacket>) -> Seq<
    TrianglePacket,
>
    decreases triangles.len(),
{
    if triangles.len() == 0 {
        Seq::empty()
    } else {
        let before = admitted(flat_room, tex_room, triangles.drop_last());
        let textured = triangles.last().material is Some;
        let room = if textured {
            tex_room
        } else {
            flat_room
        };
        if textured_count(before, textured) < room {
            before.push(triangles.last())
        } else {
            before
        }
    }
}

/// Number of packets with (or without) a texture.
pub open spec fn textured_count(packets: Seq<TrianglePacket>, textured: bool) -> int
    decreases packets.len(),
{
    if packets.len() == 0 {
        0
    } else {
        textured_count(packets.drop_last(), textured) + if (packets.last().material is Some)
            == textured {
            1int
        } else {
            0
        }
    }
}

pub proof fn lemma_count_concat(a: Seq<TrianglePacket>, b: Seq<TrianglePacket>, textured: bool)
    ensures
        textured_count(a + b, textured) == textured_count(a, textured) + textured_count(b, textured),
    decreases b.len(),
{
    if b.len() == 0 {
        assert(a + b == a);
    } else {
        assert((a + b).drop_last() == a + b.drop_last());
        lemma_count_concat(a, b.drop_last(), textured);
    }
}

/// The pools take two batches as they take the first and then, with the room
/// that is left, the second.
pub proof fn lemma_admitted_concat(
    flat_room: int,
    tex_room: int,
    a: Seq<TrianglePacket>,
    b: Seq<TrianglePacket>,
)
    ensures
        admitted(flat_room, tex_room, a + b) == admitted(flat_room, tex_room, a) + admitted(
            flat_room - textured_count(admitted(flat_room, tex_room, a), false),
            tex_room - textured_count(admitted(flat_room, tex_room, a), true),
            b,
        ),
    decreases b.len(),
{
    let first = admitted(flat_room, tex_room, a);
    let f = flat_room - textured_count(first, false);
    let t = tex_room - textured_count(first, true);
    if b.len() == 0 {
        assert(a + b == a);
        assert(first + Seq::<TrianglePacket>::empty() == first);
    } else {
        lemma_admitted_concat(flat_room, tex_room, a, b.drop_last());
        assert((a + b).drop_last() == a + b.drop_last());
        let second = admitted(f, t, b.drop_last());
        lemma_count_concat(first, second, true);
        lemma_count_concat(first, second, false);
        assert((first + second).push(b.last()) == first + second.push(b.last()));
    }
}

/// The pools never take more than they have room for.
pub proof fn law_pools_never_overflow(flat_room: int, tex_room: int, triangles: Seq<TrianglePacket>)
    requires
        flat_room >= 0,
        tex_room >= 0,
    ensures
        textured_count(admitted(flat_room, tex_room, triangles), false) <= flat_room,
        textured_count(admitted(flat_room, tex_room, triangles), true) <= tex_room,
    decreases triangles.len(),
{
    if triangles.len() > 0 {
        law_pools_never_overflow(flat_room, tex_room, triangles.drop_last());
        let before = admitted(flat_room, tex_room, triangles.drop_last());
        lemma_count_push(before, triangles.last(), true);
        lemma_count_push(before, triangles.last(), false);
    }
}

/// Queueing two batches one after the other is queueing both.
pub proof fn lemma_extends_twice(
    before: PreviewScratch,
    between: PreviewScratch,
    after: PreviewScratch,
    a: Seq<TrianglePacket>,
    b: Seq<TrianglePacket>,
)
    requires
        before.wf(),
        between.wf(),
        between.extends(before, a),
        after.extends(between, b),
    ensures
        after.extends(before, a + b),
{
    let f = before.room(false);
    let t = before.room(true);
    lemma_admitted_concat(f, t, a, b);
    lemma_count_concat(before.packets@, admitted(f, t, a), true);
    lemma_count_concat(before.packets@, admitted(f, t, a), false);
    let second = admitted(between.room(false), between.room(true), b);
    assert((before.packets@ + admitted(f, t, a)) + second =~= before.packets@ + (admitted(f, t, a)
        + second));
}

proof fn lemma_count_empty()
    ensures
        textured_count(Seq::empty(), true) == 0,
        textured_count(Seq::empty(), false) == 0,
{
}

/// A packet lies within what the hardware draws and in the ordering table.
pub open spec fn drawable(packet: TrianglePacket) -> bool {
    &&& xy_drawable(packet.xy)
    &&& packet.slot < PREVIEW_ORDERING_SLOTS
}

/// Corners within the packet's coordinate range and the extent limits.
#[verifier::opaque]
pub open spec fn xy_drawable(xy: [(i16, i16); 3]) -> bool {
    &&& forall|i: int|
        0 <= i < 3 ==> PSX_VERTEX_MIN <= (#[trigger] xy[i]).0 <= PSX_VERTEX_MAX && PSX_VERTEX_MIN
            <= xy[i].1 <= PSX_VERTEX_MAX
    &&& forall|i: int, j: int|
        0 <= i < 3 && 0 <= j < 3 ==> (#[trigger] xy[i]).0 - (#[trigger] xy[j]).0 <= PSX_TRI_MAX_DX
            && xy[i].1 - xy[j].1 <= PSX_TRI_MAX_DY
}

/// Screen positions of three projected corners.
pub open spec fn corner_xy(p: [Projected; 3]) -> [(i16, i16); 3] {
    [(p[0].sx, p[0].sy), (p[1].sx, p[1].sy), (p[2].sx, p[2].sy)]
}

/// Twice the signed area of a projected triangle; positive when it is wound
/// clockwise on the screen, y pointing down.
pub open spec fn signed_area(p: [Projected; 3]) -> int {
    (p[1].sx - p[0].sx) * (p[2].sy - p[0].sy) - (p[1].sy - p[0].sy) * (p[2].sx - p[0].sx)
}

/// Twice the signed area of a projected triangle, where it fits.
pub fn projected_area(p: [Projected; 3]) -> (result: i64)
    ensures
        result == signed_area(p),
{
    let ax: i64 = p[1].sx as i64 - p[0].sx as i64;
    let ay: i64 = p[1].sy as i64 - p[0].sy as i64;
    let bx: i64 = p[2].sx as i64 - p[0].sx as i64;
    let by: i64 = p[2].sy as i64 - p[0].sy as i64;
    assert(-0x1_0000 * 0x1_0000 <= ax * by <= 0x1_0000 * 0x1_0000) by (nonlinear_arith)
        requires
            -0x1_0000 <= ax <= 0x1_0000,
            -0x1_0000 <= by <= 0x1_0000,
    ;
    assert(-0x1_0000 * 0x1_0000 <= ay * bx <= 0x1_0000 * 0x1_0000) by (nonlinear_arith)
        requires
            -0x1_0000 <= ay <= 0x1_0000,
            -0x1_0000 <= bx <= 0x1_0000,
    ;
    ax * by - ay * bx
}

/// The winding of a triangle shows a side that the material draws.
pub open spec fn side_visible(sidedness: MaterialFaceSidedness, p: [Projected; 3]) -> bool {
    match sidedness {
        MaterialFaceSidedness::Front => signed_area(p) > 0,
        MaterialFaceSidedness::Back => signed_area(p) < 0,
        MaterialFaceSidedness::Both => signed_area(p) != 0,
    }
}

pub fn face_side_visible(sidedness: MaterialFaceSidedness, p: [Projected; 3]) -> (result: bool)
    ensures
        result == side_visible(sidedness, p),
{
    let area: i64 = projected_area(p);
    match sidedness {
        MaterialFaceSidedness::Front => area > 0,
        MaterialFaceSidedness::Back => area < 0,
        MaterialFaceSidedness::Both => area != 0,
    }
}

/// Turning a triangle over exchanges its front and its back.
pub proof fn law_reversed_winding_shows_the_other_side(p: [Projected; 3])
    ensures
        signed_area([p[0], p[2], p[1]]) == -signed_area(p),
        side_visible(MaterialFaceSidedness::Front, [p[0], p[2], p[1]]) == side_visible(
            MaterialFaceSidedness::Back,
            p,
        ),
        side_visible(MaterialFaceSidedness::Both, [p[0], p[2], p[1]]) == side_visible(
            MaterialFaceSidedness::Both,
            p,
        ),
{
    let ax = p[1].sx - p[0].sx;
    let ay = p[1].sy - p[0].sy;
    let bx = p[2].sx - p[0].sx;
    let by = p[2].sy - p[0].sy;
    assert(bx * ay - by * ax == -(ax * by - ay * bx)) by (nonlinear_arith);
}

/// The hardware draws a triangle with these corners.
pub fn preview_projected_triangle_hw_safe(p: [Projected; 3]) -> (result: bool)
    ensures
        result == xy_drawable(corner_xy(p)),
{
    let min_x: i16 = min3(p[0].sx, p[1].sx, p[2].sx);
    let max_x: i16 = max3(p[0].sx, p[1].sx, p[2].sx);
    let min_y: i16 = min3(p[0].sy, p[1].sy, p[2].sy);
    let max_y: i16 = max3(p[0].sy, p[1].sy, p[2].sy);
    let safe = min_x >= PSX_VERTEX_MIN && max_x <= PSX_VERTEX_MAX && min_y >= PSX_VERTEX_MIN
        && max_y <= PSX_VERTEX_MAX && (max_x as i32) - (min_x as i32) <= PSX_TRI_MAX_DX && (
    max_y as i32) - (min_y as i32) <= PSX_TRI_MAX_DY;
    proof {
        reveal(xy_drawable);
        let xy = corner_xy(p);
        assert(xy[0] == (p[0].sx, p[0].sy) && xy[1] == (p[1].sx, p[1].sy) && xy[2] == (
            p[2].sx,
            p[2].sy,
        ));
        if safe {
            assert(xy_drawable(xy));
        }
    }
    safe
}

fn min3(a: i16, b: i16, c: i16) -> (result: i16)
    ensures
        result <= a && result <= b && result <= c,
        result == a || result == b || result == c,
{
    if a <= b && a <= c {
        a
    } else if b <= c {
        b
    } else {
        c
    }
}

fn max3(a: i16, b: i16, c: i16) -> (result: i16)
    ensures
        result >= a && result >= b && result >= c,
        result == a || result == b || result == c,
{
    if a >= b && a >= c {
        a
    } else if b >= c {
        b
    } else {
        c
    }
}

/// A vertex moved to the nearest position that a packet can hold.
pub open spec fn clamped(p: Projected) -> Projected {
    Projected {
        sx: clamp_int(p.sx as int, PSX_VERTEX_MIN as int, PSX_VERTEX_MAX as int) as i16,
        sy: clamp_int(p.sy as int, PSX_VERTEX_MIN as int, PSX_VERTEX_MAX as int) as i16,
        sz: p.sz,
    }
}

/// The three corners moved to positions that a packet can hold.
pub open spec fn clamped_corners(p: [Projected; 3]) -> [Projected; 3] {
    [clamped(p[0]), clamped(p[1]), clamped(p[2])]
}

pub fn clamp_preview_projected(p: Projected) -> (result: Projected)
    ensures
        result == clamped(p),
{
    Projected { sx: clamp_coordinate(p.sx), sy: clamp_coordinate(p.sy), sz: p.sz }
}

fn clamp_coordinate(value: i16) -> (result: i16)
    ensures
        result == clamp_int(value as int, PSX_VERTEX_MIN as int, PSX_VERTEX_MAX as int),
{
    if value < PSX_VERTEX_MIN {
        PSX_VERTEX_MIN
    } else if value > PSX_VERTEX_MAX {
        PSX_VERTEX_MAX
    } else {
        value
    }
}

pub fn clamp_preview_projected_triangle(p: [Projected; 3]) -> (result: [Projected; 3])
    ensures
        result == clamped_corners(p),
{
    [
        clamp_preview_projected(p[0]),
        clamp_preview_projected(p[1]),
        clamp_preview_projected(p[2]),
    ]
}

/// How much an edge asks to be cut: the hardware allows half as much height as
/// width, so height counts twice.
pub open spec fn edge_split_score(a: Projected, b: Projected) -> int {
    max_int(abs_int(a.sx - b.sx), 2 * abs_int(a.sy - b.sy))
}

pub fn preview_edge_split_score(a: Projected, b: Projected) -> (result: i32)
    ensures
        result == edge_split_score(a, b),
{
    let dx: i32 = a.sx as i32 - b.sx as i32;
    let dy: i32 = a.sy as i32 - b.sy as i32;
    let width: i32 = if dx >= 0 {
        dx
    } else {
        -dx
    };
    let height: i32 = if dy >= 0 {
        dy
    } else {
        -dy
    };
    if width >= 2 * height {
        width
    } else {
        2 * height
    }
}

/// The edge to cut: the one with the highest score, the first of equals. Edge
/// `i` runs from corner `i` to the next one.
pub open spec fn largest_edge(p: [Projected; 3]) -> int {
    let s0 = edge_split_score(p[0], p[1]);
    let s1 = edge_split_score(p[1], p[2]);
    let s2 = edge_split_score(p[2], p[0]);
    if s0 >= s1 && s0 >= s2 {
        0
    } else if s1 >= s2 {
        1
    } else {
        2
    }
}

pub fn largest_preview_projected_edge(p: [Projected; 3]) -> (result: usize)
    ensures
        result == largest_edge(p),
{
    let mut edge: usize = 0;
    let mut score: i32 = preview_edge_split_score(p[0], p[1]);
    let score_1: i32 = preview_edge_split_score(p[1], p[2]);
    if score_1 > score {
        edge = 1;
        score = score_1;
    }
    let score_2: i32 = preview_edge_split_score(p[2], p[0]);
    if score_2 > score {
        edge = 2;
    }
    edge
}

/// Half way from `a` to `b`, rounded toward `a`.
pub open spec fn midpoint(a: int, b: int) -> int {
    a + trunc_div(b - a, 2)
}

pub fn midpoint_i16(a: i16, b: i16) -> (result: i16)
    ensures
        result == midpoint(a as int, b as int),
        a <= result <= b || b <= result <= a,
{
    let half: i32 = (b as i32 - a as i32) / 2;
    (a as i32 + half) as i16
}

/// The vertex half way between two vertices.
pub open spec fn midpoint_vertex(a: Projected, b: Projected) -> Projected {
    Projected {
        sx: midpoint(a.sx as int, b.sx as int) as i16,
        sy: midpoint(a.sy as int, b.sy as int) as i16,
        sz: ((a.sz + b.sz) / 2) as u16,
    }
}

pub fn midpoint_projected(a: Projected, b: Projected) -> (result: Projected)
    ensures
        result == midpoint_vertex(a, b),
{
    Projected {
        sx: midpoint_i16(a.sx, b.sx),
        sy: midpoint_i16(a.sy, b.sy),
        sz: ((a.sz as u32 + b.sz as u32) / 2) as u16,
    }
}

/// The mean of two bytes, rounded down.
pub open spec fn mean_u8(a: u8, b: u8) -> u8 {
    ((a + b) / 2) as u8
}

fn midpoint_u8(a: u8, b: u8) -> (result: u8)
    ensures
        result == mean_u8(a, b),
{
    ((a as u16 + b as u16) / 2) as u8
}

pub open spec fn mean_uv(a: (u8, u8), b: (u8, u8)) -> (u8, u8) {
    (mean_u8(a.0, b.0), mean_u8(a.1, b.1))
}

pub fn midpoint_uv(a: (u8, u8), b: (u8, u8)) -> (result: (u8, u8))
    ensures
        result == mean_uv(a, b),
{
    (midpoint_u8(a.0, b.0), midpoint_u8(a.1, b.1))
}

pub open spec fn mean_color(a: (u8, u8, u8), b: (u8, u8, u8)) -> (u8, u8, u8) {
    (mean_u8(a.0, b.0), mean_u8(a.1, b.1), mean_u8(a.2, b.2))
}

pub fn midpoint_color(a: (u8, u8, u8), b: (u8, u8, u8)) -> (result: (u8, u8, u8))
    ensures
        result == mean_color(a, b),
{
    (midpoint_u8(a.0, b.0), midpoint_u8(a.1, b.1), midpoint_u8(a.2, b.2))
}

/// A corner with its attributes.
pub struct Corner {
    pub p: Projected,
    pub uv: (u8, u8),
    pub color: (u8, u8, u8),
}

impl PreviewTriangle {
    /// Corner `i` with its attributes.
    pub open spec fn corner(self, i: int) -> Corner {
        Corner { p: self.p[i], uv: self.uvs[i], color: self.colors[i] }
    }

    /// The triangle with these corners.
    pub open spec fn from_corners(a: Corner, b: Corner, c: Corner) -> PreviewTriangle {
        PreviewTriangle {
            p: [a.p, b.p, c.p],
            uvs: [a.uv, b.uv, c.uv],
            colors: [a.color, b.color, c.color],
        }
    }
}

/// The corner half way between two corners, attributes included.
pub open spec fn mid_corner(a: Corner, b: Corner) -> Corner {
    Corner {
        p: midpoint_vertex(a.p, b.p),
        uv: mean_uv(a.uv, b.uv),
        color: mean_color(a.color, b.color),
    }
}

/// The two halves of a triangle cut at the middle of its largest edge. Both
/// keep the winding of the whole.
pub open spec fn split_halves(t: PreviewTriangle) -> (PreviewTriangle, PreviewTriangle) {
    let a = t.corner(0);
    let b = t.corner(1);
    let c = t.corner(2);
    let edge = largest_edge(t.p);
    if edge == 0 {
        let m = mid_corner(a, b);
        (PreviewTriangle::from_corners(a, m, c), PreviewTriangle::from_corners(m, b, c))
    } else if edge == 1 {
        let m = mid_corner(b, c);
        (PreviewTriangle::from_corners(a, b, m), PreviewTriangle::from_corners(a, m, c))
    } else {
        let m = mid_corner(c, a);
        (PreviewTriangle::from_corners(a, b, m), PreviewTriangle::from_corners(m, b, c))
    }
}

/// Cut a triangle at the middle of its largest edge.
pub fn split_preview_projected_triangle(t: PreviewTriangle) -> (result: (
    PreviewTriangle,
    PreviewTriangle,
))
    ensures
        result == split_halves(t),
{
    let p = t.p;
    let uvs = t.uvs;
    let colors = t.colors;
    match largest_preview_projected_edge(p) {
        0 => {
            let mid = midpoint_projected(p[0], p[1]);
            let uv = midpoint_uv(uvs[0], uvs[1]);
            let color = midpoint_color(colors[0], colors[1]);
            (
                PreviewTriangle {
                    p: [p[0], mid, p[2]],
                    uvs: [uvs[0], uv, uvs[2]],
                    colors: [colors[0], color, colors[2]],
                },
                PreviewTriangle {
                    p: [mid, p[1], p[2]],
                    uvs: [uv, uvs[1], uvs[2]],
                    colors: [color, colors[1], colors[2]],
                },
            )
        },
        1 => {
            let mid = midpoint_projected(p[1], p[2]);
            let uv = midpoint_uv(uvs[1], uvs[2]);
            let color = midpoint_color(colors[1], colors[2]);
            (
                PreviewTriangle {
                    p: [p[0], p[1], mid],
                    uvs: [uvs[0], uvs[1], uv],
                    colors: [colors[0], colors[1], color],
                },
                PreviewTriangle {
                    p: [p[0], mid, p[2]],
                    uvs: [uvs[0], uv, uvs[2]],
                    colors: [colors[0], color, colors[2]],
                },
            )
        },
        _ => {
            let mid = midpoint_projected(p[2], p[0]);
            let uv = midpoint_uv(uvs[2], uvs[0]);
            let color = midpoint_color(colors[2], colors[0]);
            (
                PreviewTriangle {
                    p: [p[0], p[1], mid],
                    uvs: [uvs[0], uvs[1], uv],
                    colors: [colors[0], colors[1], color],
                },
                PreviewTriangle {
                    p: [mid, p[1], p[2]],
                    uvs: [uv, uvs[1], uvs[2]],
                    colors: [color, colors[1], colors[2]],
                },
            )
        },
    }
}

/// Mean depth of three corners, rounded down.
pub open spec fn mean_depth(p: [Projected; 3]) -> int {
    (p[0].sz + p[1].sz + p[2].sz) / 3
}

pub fn projected_avg_sz(p: [Projected; 3]) -> (result: u32)
    ensures
        result == mean_depth(p),
{
    (p[0].sz as u32 + p[1].sz as u32 + p[2].sz as u32) / 3
}

/// The ordering-table slot of geometry at a depth: 64 depth units share one.
pub open spec fn depth_slot(avg_sz: int) -> int {
    clamp_int(
        avg_sz / 64,
        PREVIEW_GEOMETRY_SLOT_MIN as int,
        PREVIEW_GEOMETRY_SLOT_MAX as int,
    )
}

pub fn preview_geometry_depth_slot(avg_sz: u32) -> (result: usize)
    ensures
        result == depth_slot(avg_sz as int),
{
    proof {
        crate::math::lemma_shr6_u32(avg_sz);
    }
    let slot: usize = (avg_sz >> 6) as usize;
    if slot < PREVIEW_GEOMETRY_SLOT_MIN {
        PREVIEW_GEOMETRY_SLOT_MIN
    } else if slot > PREVIEW_GEOMETRY_SLOT_MAX {
        PREVIEW_GEOMETRY_SLOT_MAX
    } else {
        slot
    }
}

pub fn room_depth_slot(avg_sz: u32) -> (result: usize)
    ensures
        result == depth_slot(avg_sz as int),
{
    preview_geometry_depth_slot(avg_sz)
}

pub fn shadow_depth_slot(avg_sz: u32) -> (result: usize)
    ensures
        result == depth_slot(max_int(avg_sz - PREVIEW_SHADOW_DEPTH_BIAS, 0)),
{
    preview_geometry_depth_slot(avg_sz.saturating_sub(PREVIEW_SHADOW_DEPTH_BIAS))
}

/// Farther geometry never gets a nearer slot, and a shadow is never drawn
/// before the slot of the surface that it lies on.
pub proof fn law_depth_order_is_kept(near: int, far: int)
    requires
        0 <= near <= far,
    ensures
        PREVIEW_GEOMETRY_SLOT_MIN <= depth_slot(near) <= depth_slot(far)
            <= PREVIEW_GEOMETRY_SLOT_MAX,
        depth_slot(max_int(far - PREVIEW_SHADOW_DEPTH_BIAS, 0)) <= depth_slot(far),
{
}

/// How the pieces of a triangle are queued: shaded by colour in the slot of
/// their own depth, or textured in one slot for all of them.
#[derive(Clone, Copy, Debug, PartialEq, Eq)]
pub enum Paint {
    Flat,
    /// Untextured, in a fixed slot.
    FlatAt { slot: usize },
    Textured { material: TextureMaterial, slot: usize },
}

impl Paint {
    /// A fixed slot lies in the ordering table.
    pub open spec fn wf(self) -> bool {
        match self {
            Paint::Flat => true,
            Paint::FlatAt { slot } => slot < PREVIEW_ORDERING_SLOTS,
            Paint::Textured { slot, .. } => slot < PREVIEW_ORDERING_SLOTS,
        }
    }

    /// The packet that draws one piece.
    pub open spec fn packet(self, piece: PreviewTriangle) -> TrianglePacket {
        TrianglePacket {
            xy: corner_xy(piece.p),
            uvs: piece.uvs,
            colors: piece.colors,
            material: match self {
                Paint::Textured { material, .. } => Some(material),
                _ => None,
            },
            slot: match self {
                Paint::Flat => depth_slot(mean_depth(piece.p)) as usize,
                Paint::FlatAt { slot } => slot,
                Paint::Textured { slot, .. } => slot,
            },
        }
    }
}

/// The triangle with its corners moved to positions that a packet can hold.
pub open spec fn clamped_triangle(t: PreviewTriangle) -> PreviewTriangle {
    PreviewTriangle { p: clamped_corners(t.p), uvs: t.uvs, colors: t.colors }
}

/// The drawable pieces of a triangle, in order, after at most `cuts` cuts in a
/// row. A piece that is still too large is left out.
pub open spec fn pieces(t: PreviewTriangle, cuts: nat) -> Seq<PreviewTriangle>
    decreases cuts,
{
    let c = clamped_triangle(t);
    if xy_drawable(corner_xy(c.p)) {
        seq![c]
    } else if cuts == 0 {
        Seq::empty()
    } else {
        let (a, b) = split_halves(c);
        pieces(a, (cuts - 1) as nat) + pieces(b, (cuts - 1) as nat)
    }
}

/// The packets that draw a triangle, in order.
pub open spec fn triangle_packets(t: PreviewTriangle, cuts: nat, paint: Paint) -> Seq<
    TrianglePacket,
> {
    pieces(t, cuts).map_values(|piece: PreviewTriangle| paint.packet(piece))
}

/// A triangle that the hardware draws as it is stays in one piece.
pub proof fn law_small_triangle_is_not_cut(t: PreviewTriangle, cuts: nat)
    requires
        xy_drawable(corner_xy(t.p)),
    ensures
        pieces(t, cuts) == seq![t],
{
    reveal(xy_drawable);
    let xy = corner_xy(t.p);
    assert(xy[0] == (t.p[0].sx, t.p[0].sy));
    assert(xy[1] == (t.p[1].sx, t.p[1].sy));
    assert(xy[2] == (t.p[2].sx, t.p[2].sy));
    assert(clamped_corners(t.p) =~= t.p);
    assert(clamped_triangle(t) == t);
}

/// Every piece of a triangle can be drawn.
pub proof fn law_pieces_are_drawable(t: PreviewTriangle, cuts: nat)
    ensures
        forall|i: int|
            0 <= i < pieces(t, cuts).len() ==> xy_drawable(corner_xy((#[trigger] pieces(t, cuts)[i]).p)),
    decreases cuts,
{
    let c = clamped_triangle(t);
    if !xy_drawable(corner_xy(c.p)) && cuts > 0 {
        let (a, b) = split_halves(c);
        law_pieces_are_drawable(a, (cuts - 1) as nat);
        law_pieces_are_drawable(b, (cuts - 1) as nat);
        let left = pieces(a, (cuts - 1) as nat);
        let right = pieces(b, (cuts - 1) as nat);
        assert forall|i: int| 0 <= i < pieces(t, cuts).len() implies xy_drawable(
            corner_xy((#[trigger] pieces(t, cuts)[i]).p),
        ) by {
            if i < left.len() {
                assert(pieces(t, cuts)[i] == left[i]);
            } else {
                assert(pieces(t, cuts)[i] == right[i - left.len()]);
            }
        }
    }
}

proof fn lemma_count_push(packets: Seq<TrianglePacket>, packet: TrianglePacket, textured: bool)
    ensures
        textured_count(packets.push(packet), textured) == textured_count(packets, textured) + if (
        packet.material is Some) == textured {
            1int
        } else {
            0
        },
{
    assert(packets.push(packet).drop_last() == packets);
}

proof fn lemma_admitted_one(flat_room: int, tex_room: int, packet: TrianglePacket)
    ensures
        ({
            let room = if packet.material is Some {
                tex_room
            } else {
                flat_room
            };
            admitted(flat_room, tex_room, seq![packet]) == if room > 0 {
                seq![packet]
            } else {
                Seq::empty()
            }
        }),
{
    assert(seq![packet].drop_last() == Seq::<TrianglePacket>::empty());
    assert(Seq::<TrianglePacket>::empty().push(packet) == seq![packet]);
    reveal_with_fuel(admitted, 2);
}

/// Queue the drawable pieces of a triangle. Returns whether any was queued.
fn push_pieces(scratch: &mut PreviewScratch, t: PreviewTriangle, paint: Paint, depth: u8) -> (result:
    bool)
    requires
        old(scratch).wf(),
        depth <= old(scratch).split_depth,
        paint.wf(),
    ensures
        final(scratch).wf(),
        final(scratch).extends(
            *old(scratch),
            triangle_packets(t, (old(scratch).split_depth - depth) as nat, paint),
        ),
        result == (final(scratch).packets@.len() > old(scratch).packets@.len()),
    decreases old(scratch).split_depth - depth,
{
    let ghost cuts = (scratch.split_depth - depth) as nat;
    let p = clamp_preview_projected_triangle(t.p);
    let c = PreviewTriangle { p, uvs: t.uvs, colors: t.colors };
    if !preview_projected_triangle_hw_safe(p) {
        if depth >= scratch.split_depth {
            assert(triangle_packets(t, cuts, paint) == Seq::<TrianglePacket>::empty());
            assert(scratch.packets@ + Seq::<TrianglePacket>::empty() == scratch.packets@);
            return false;
        }
        let (a, b) = split_preview_projected_triangle(c);
        let ghost before = *scratch;
        let left = push_pieces(scratch, a, paint, depth + 1);
        let ghost between = *scratch;
        let right = push_pieces(scratch, b, paint, depth + 1);
        proof {
            let l = triangle_packets(a, (cuts - 1) as nat, paint);
            let r = triangle_packets(b, (cuts - 1) as nat, paint);
            assert(triangle_packets(t, cuts, paint) =~= l + r);
            lemma_extends_twice(before, between, *scratch, l, r);
        }
        return left || right;
    }
    proof {
        assert(triangle_packets(t, cuts, paint) =~= seq![paint.packet(c)]);
        lemma_admitted_one(scratch.room(false), scratch.room(true), paint.packet(c));
    }
    let full = match paint {
        Paint::Textured { .. } => scratch.tex_used >= scratch.tri_cap,
        _ => scratch.used >= scratch.tri_cap,
    };
    if full {
        assert(scratch.packets@ + Seq::<TrianglePacket>::empty() == scratch.packets@);
        return false;
    }
    let xy = [(p[0].sx, p[0].sy), (p[1].sx, p[1].sy), (p[2].sx, p[2].sy)];
    let ghost before = *scratch;
    match paint {
        Paint::Flat => {
            let packet = TrianglePacket {
                xy,
                uvs: t.uvs,
                colors: t.colors,
                material: None,
                slot: room_depth_slot(projected_avg_sz(p)),
            };
            assert(packet == paint.packet(c));
            scratch.packets.push(packet);
            scratch.used = scratch.used + 1;
        },
        Paint::FlatAt { slot } => {
            let packet = TrianglePacket {
                xy,
                uvs: t.uvs,
                colors: t.colors,
                material: None,
                slot,
            };
            assert(packet == paint.packet(c));
            scratch.packets.push(packet);
            scratch.used = scratch.used + 1;
        },
        Paint::Textured { material, slot } => {
            let packet = TrianglePacket {
                xy,
                uvs: t.uvs,
                colors: t.colors,
                material: Some(material),
                slot,
            };
            assert(packet == paint.packet(c));
            scratch.packets.push(packet);
            scratch.tex_used = scratch.tex_used + 1;
        },
    }
    proof {
        lemma_count_push(before.packets@, paint.packet(c), true);
        lemma_count_push(before.packets@, paint.packet(c), false);
        assert(scratch.packets@ =~= before.packets@ + seq![paint.packet(c)]);
        assert(drawable(paint.packet(c)));
    }
    true
}

/// A triangle with one colour in every corner and no texture.
pub open spec fn flat_triangle(p: [Projected; 3], colors: [(u8, u8, u8); 3]) -> PreviewTriangle {
    PreviewTriangle { p, uvs: [(0, 0), (0, 0), (0, 0)], colors }
}

/// Queue a triangle shaded by one colour.
pub fn push_tri(scratch: &mut PreviewScratch, p: [Projected; 3], rgb: (u8, u8, u8)) -> (result: bool)
    requires
        old(scratch).wf(),
    ensures
        final(scratch).wf(),
        final(scratch).extends(
            *old(scratch),
            triangle_packets(
                flat_triangle(p, [rgb, rgb, rgb]),
                old(scratch).split_depth as nat,
                Paint::Flat,
            ),
        ),
        result == (final(scratch).packets@.len() > old(scratch).packets@.len()),
{
    push_tri_colors(scratch, p, [rgb, rgb, rgb])
}

/// Queue a triangle shaded between the colours of its corners, in the
/// ordering-table slot of its depth.
pub fn push_tri_colors(
    scratch: &mut PreviewScratch,
    p: [Projected; 3],
    colors: [(u8, u8, u8); 3],
) -> (result: bool)
    requires
        old(scratch).wf(),
    ensures
        final(scratch).wf(),
        final(scratch).extends(
            *old(scratch),
            triangle_packets(
                flat_triangle(p, colors),
                old(scratch).split_depth as nat,
                Paint::Flat,
            ),
        ),
        result == (final(scratch).packets@.len() > old(scratch).packets@.len()),
{
    push_pieces(
        scratch,
        PreviewTriangle { p, uvs: [(0, 0), (0, 0), (0, 0)], colors },
        Paint::Flat,
        0,
    )
}

/// Queue an untextured triangle in a fixed slot.
pub fn push_tri_colors_at_slot(
    scratch: &mut PreviewScratch,
    p: [Projected; 3],
    colors: [(u8, u8, u8); 3],
    slot_idx: usize,
) -> (result: bool)
    requires
        old(scratch).wf(),
        slot_idx < PREVIEW_ORDERING_SLOTS,
    ensures
        final(scratch).wf(),
        final(scratch).extends(
            *old(scratch),
            triangle_packets(
                flat_triangle(p, colors),
                old(scratch).split_depth as nat,
                (Paint::FlatAt { slot: slot_idx }),
            ),
        ),
        result == (final(scratch).packets@.len() > old(scratch).packets@.len()),
{
    push_pieces(
        scratch,
        PreviewTriangle { p, uvs: [(0, 0), (0, 0), (0, 0)], colors },
        Paint::FlatAt { slot: slot_idx },
        0,
    )
}

/// Queue a textured triangle in a given ordering-table slot.
pub fn push_textured_material_tri(
    scratch: &mut PreviewScratch,
    p: [Projected; 3],
    uvs: [(u8, u8); 3],
    colors: [(u8, u8, u8); 3],
    material: TextureMaterial,
    slot_idx: usize,
) -> (result: bool)
    requires
        old(scratch).wf(),
        slot_idx < PREVIEW_ORDERING_SLOTS,
    ensures
        final(scratch).wf(),
        final(scratch).extends(
            *old(scratch),
            triangle_packets(
                PreviewTriangle { p, uvs, colors },
                old(scratch).split_depth as nat,
                (Paint::Textured { material, slot: slot_idx }),
            ),
        ),
        result == (final(scratch).packets@.len() > old(scratch).packets@.len()),
{
    push_pieces(
        scratch,
        PreviewTriangle { p, uvs, colors },
        Paint::Textured { material, slot: slot_idx },
        0,
    )
}

/// Sampling state of a room or prop surface.
pub open spec fn surface_material(
    slot: MaterialSlot,
    tint: (u8, u8, u8),
    blend_mode: BlendMode,
) -> TextureMaterial {
    TextureMaterial {
        clut_word: slot.clut_word,
        tpage_word: slot.tpage_word,
        tint,
        blend_mode,
        raw_texture: false,
        texture_window: slot.texture_window,
    }
}

pub fn preview_texture_material(
    slot: MaterialSlot,
    tint: (u8, u8, u8),
    blend_mode: BlendMode,
) -> (result: TextureMaterial)
    ensures
        result == surface_material(slot, tint, blend_mode),
{
    let material = if blend_mode.is_translucent() {
        TextureMaterial::blended(slot.clut_word, slot.tpage_word, tint, blend_mode)
    } else {
        TextureMaterial::opaque(slot.clut_word, slot.tpage_word, tint)
    };
    material.with_texture_window(slot.texture_window)
}

/// Queue a textured surface triangle with one tint.
pub fn push_tex_tri(
    scratch: &mut PreviewScratch,
    p: [Projected; 3],
    uvs: [(u8, u8); 3],
    slot: MaterialSlot,
    tint: (u8, u8, u8),
    blend_mode: BlendMode,
) -> (result: bool)
    requires
        old(scratch).wf(),
    ensures
        final(scratch).wf(),
        final(scratch).extends(
            *old(scratch),
            face_packets(
                p,
                uvs,
                (FaceShade::Textured {
                    slot,
                    tint,
                    blend_mode,
                    sidedness: MaterialFaceSidedness::Both,
                }),
                [tint, tint, tint],
                old(scratch).split_depth as nat,
            ),
        ),
        result == (final(scratch).packets@.len() > old(scratch).packets@.len()),
{
    push_tex_tri_colors(scratch, p, uvs, slot, [tint, tint, tint], blend_mode)
}

/// Queue a textured surface triangle with a tint for each corner.
pub fn push_tex_tri_colors(
    scratch: &mut PreviewScratch,
    p: [Projected; 3],
    uvs: [(u8, u8); 3],
    slot: MaterialSlot,
    colors: [(u8, u8, u8); 3],
    blend_mode: BlendMode,
) -> (result: bool)
    requires
        old(scratch).wf(),
    ensures
        final(scratch).wf(),
        final(scratch).extends(
            *old(scratch),
            face_packets(
                p,
                uvs,
                (FaceShade::Textured {
                    slot,
                    tint: colors[0],
                    blend_mode,
                    sidedness: MaterialFaceSidedness::Both,
                }),
                colors,
                old(scratch).split_depth as nat,
            ),
        ),
        result == (final(scratch).packets@.len() > old(scratch).packets@.len()),
{
    let avg_sz: u32 = projected_avg_sz(p);
    push_textured_material_tri(
        scratch,
        p,
        uvs,
        colors,
        preview_texture_material(slot, colors[0], blend_mode),
        room_depth_slot(avg_sz),
    )
}

/// Sampling state of a blob shadow: half transparent, texels unmodulated.
pub open spec fn shadow_material(slot: MaterialSlot) -> TextureMaterial {
    TextureMaterial {
        clut_word: slot.clut_word,
        tpage_word: slot.tpage_word,
        tint: NEUTRAL_TINT,
        blend_mode: BlendMode::Average,
        raw_texture: true,
        texture_window: TextureWindow::Unbounded,
    }
}

/// Queue one triangle of a blob shadow.
pub fn push_shadow_tex_tri(
    scratch: &mut PreviewScratch,
    p: [Projected; 3],
    uvs: [(u8, u8); 3],
    slot: MaterialSlot,
) -> (result: bool)
    requires
        old(scratch).wf(),
    ensures
        final(scratch).wf(),
        final(scratch).extends(
            *old(scratch),
            triangle_packets(
                PreviewTriangle { p, uvs, colors: [NEUTRAL_TINT, NEUTRAL_TINT, NEUTRAL_TINT] },
                old(scratch).split_depth as nat,
                (Paint::Textured {
                    material: shadow_material(slot),
                    slot: depth_slot(max_int(mean_depth(p) - PREVIEW_SHADOW_DEPTH_BIAS, 0)) as usize,
                }),
            ),
        ),
        result == (final(scratch).packets@.len() > old(scratch).packets@.len()),
{
    push_textured_material_tri(
        scratch,
        p,
        uvs,
        [NEUTRAL_TINT, NEUTRAL_TINT, NEUTRAL_TINT],
        TextureMaterial::blended(
            slot.clut_word,
            slot.tpage_word,
            NEUTRAL_TINT,
            BlendMode::Average,
        ).with_raw_texture(true),
        shadow_depth_slot(projected_avg_sz(p)),
    )
}

/// The packets that draw one face triangle, before its side is considered.
pub open spec fn face_packets(
    p: [Projected; 3],
    uvs: [(u8, u8); 3],
    shade: FaceShade,
    colors: [(u8, u8, u8); 3],
    cuts: nat,
) -> Seq<TrianglePacket> {
    match shade {
        FaceShade::Flat { .. } => triangle_packets(flat_triangle(p, colors), cuts, Paint::Flat),
        FaceShade::Textured { slot, blend_mode, .. } => triangle_packets(
            PreviewTriangle { p, uvs, colors },
            cuts,
            Paint::Textured {
                material: surface_material(slot, colors[0], blend_mode),
                slot: depth_slot(mean_depth(p)) as usize,
            },
        ),
    }
}

/// The packets that one face triangle adds: none when its visible side is not
/// one that the material draws.
pub open spec fn visible_face_packets(
    p: [Projected; 3],
    uvs: [(u8, u8); 3],
    shade: FaceShade,
    colors: [(u8, u8, u8); 3],
    cuts: nat,
) -> Seq<TrianglePacket> {
    if side_visible(shade.spec_sidedness(), p) {
        face_packets(p, uvs, shade, colors, cuts)
    } else {
        Seq::empty()
    }
}

/// Queue a face triangle in the colour of its shade.
pub fn emit_face_tri(
    scratch: &mut PreviewScratch,
    p: [Projected; 3],
    uvs: [(u8, u8); 3],
    shade: FaceShade,
) -> (result: bool)
    requires
        old(scratch).wf(),
    ensures
        final(scratch).wf(),
        final(scratch).extends(
            *old(scratch),
            visible_face_packets(
                p,
                uvs,
                shade,
                [shade.spec_color(), shade.spec_color(), shade.spec_color()],
                old(scratch).split_depth as nat,
            ),
        ),
        result == (final(scratch).packets@.len() > old(scratch).packets@.len()),
{
    let color = shade.color();
    emit_face_tri_lit(scratch, p, uvs, shade, [color, color, color])
}

/// Queue a face triangle lit at its corners.
pub fn emit_face_tri_lit(
    scratch: &mut PreviewScratch,
    p: [Projected; 3],
    uvs: [(u8, u8); 3],
    shade: FaceShade,
    colors: [(u8, u8, u8); 3],
) -> (result: bool)
    requires
        old(scratch).wf(),
    ensures
        final(scratch).wf(),
        final(scratch).extends(
            *old(scratch),
            visible_face_packets(p, uvs, shade, colors, old(scratch).split_depth as nat),
        ),
        result == (final(scratch).packets@.len() > old(scratch).packets@.len()),
{
    if !face_side_visible(shade.sidedness(), p) {
        assert(scratch.packets@ + Seq::<TrianglePacket>::empty() == scratch.packets@);
        return false;
    }
    match shade {
        FaceShade::Flat { .. } => push_tri_colors(scratch, p, colors),
        FaceShade::Textured { slot, blend_mode, .. } => push_tex_tri_colors(
            scratch,
            p,
            uvs,
            slot,
            colors,
            blend_mode,
        ),
    }
}

/// The pools take as many triangles of each kind as they have room for, and all
/// of them where there is enough: a full pool of one kind takes nothing from the
/// other.
pub proof fn law_pools_take_what_fits(flat_room: int, tex_room: int, triangles: Seq<TrianglePacket>)
    requires
        flat_room >= 0,
        tex_room >= 0,
    ensures
        ({
            let taken = admitted(flat_room, tex_room, triangles);
            let flat = textured_count(triangles, false);
            let textured = textured_count(triangles, true);
            &&& textured_count(taken, false) == if flat <= flat_room { flat } else { flat_room }
            &&& textured_count(taken, true) == if textured <= tex_room { textured } else { tex_room }
            &&& flat + textured == triangles.len()
            &&& flat <= flat_room && textured <= tex_room ==> taken == triangles
        }),
    decreases triangles.len(),
{
    if triangles.len() > 0 {
        let before = triangles.drop_last();
        law_pools_take_what_fits(flat_room, tex_room, before);
        let taken = admitted(flat_room, tex_room, before);
        lemma_count_push(taken, triangles.last(), true);
        lemma_count_push(taken, triangles.last(), false);
        assert(before.push(triangles.last()) =~= triangles);
    }
}

/// `m` lies half way between two numbers, up to rounding.
pub open spec fn is_half_way(m: int, a: int, b: int) -> bool {
    a + b - 1 <= 2 * m <= a + b + 1
}

/// A corner lies half way between two others in everything that it carries.
pub open spec fn is_mid_corner(m: Corner, a: Corner, b: Corner) -> bool {
    &&& is_half_way(m.p.sx as int, a.p.sx as int, b.p.sx as int)
    &&& is_half_way(m.p.sy as int, a.p.sy as int, b.p.sy as int)
    &&& is_half_way(m.p.sz as int, a.p.sz as int, b.p.sz as int)
    &&& is_half_way(m.uv.0 as int, a.uv.0 as int, b.uv.0 as int)
    &&& is_half_way(m.uv.1 as int, a.uv.1 as int, b.uv.1 as int)
    &&& is_half_way(m.color.0 as int, a.color.0 as int, b.color.0 as int)
    &&& is_half_way(m.color.1 as int, a.color.1 as int, b.color.1 as int)
    &&& is_half_way(m.color.2 as int, a.color.2 as int, b.color.2 as int)
}

/// One triangle is another with corner `k` replaced.
pub open spec fn replaces_corner(part: PreviewTriangle, whole: PreviewTriangle, k: int) -> bool {
    forall|i: int| 0 <= i < 3 && i != k ==> #[trigger] part.corner(i) == whole.corner(i)
}

/// Two triangles are the halves of a third, cut between its corners `i` and `j`:
/// each has one end of the edge replaced by the same middle and keeps the other
/// two corners at their places.
pub open spec fn are_halves(
    first: PreviewTriangle,
    second: PreviewTriangle,
    t: PreviewTriangle,
    i: int,
    j: int,
) -> bool {
    &&& replaces_corner(first, t, j)
    &&& replaces_corner(second, t, i)
    &&& first.corner(j) == second.corner(i)
    &&& is_mid_corner(first.corner(j), t.corner(i), t.corner(j))
}

/// A triangle is cut at the middle of an edge into halves that make up the whole
/// and keep its winding.
pub proof fn law_halves_make_up_the_whole(t: PreviewTriangle)
    ensures
        0 <= largest_edge(t.p) < 3,
        ({
            let (first, second) = split_halves(t);
            let i = largest_edge(t.p);
            let j = if i == 2 { 0 } else { i + 1 };
            are_halves(first, second, t, i, j) || are_halves(first, second, t, j, i)
        }),
{
    let (first, second) = split_halves(t);
    let a = t.corner(0);
    let b = t.corner(1);
    let c = t.corner(2);
    if largest_edge(t.p) == 0 {
        lemma_mid_corner(a, b);
        lemma_corners_of(a, mid_corner(a, b), c);
        lemma_corners_of(mid_corner(a, b), b, c);
        assert(are_halves(first, second, t, 0, 1));
    } else if largest_edge(t.p) == 1 {
        lemma_mid_corner(b, c);
        lemma_corners_of(a, b, mid_corner(b, c));
        lemma_corners_of(a, mid_corner(b, c), c);
        assert(are_halves(first, second, t, 1, 2));
    } else {
        lemma_mid_corner(c, a);
        lemma_corners_of(a, b, mid_corner(c, a));
        lemma_corners_of(mid_corner(c, a), b, c);
        assert(is_mid_corner(mid_corner(c, a), a, c));
        assert(are_halves(first, second, t, 0, 2));
    }
}

proof fn lemma_corners_of(a: Corner, b: Corner, c: Corner)
    ensures
        PreviewTriangle::from_corners(a, b, c).corner(0) == a,
        PreviewTriangle::from_corners(a, b, c).corner(1) == b,
        PreviewTriangle::from_corners(a, b, c).corner(2) == c,
{
}

/// An edge is longer than the hardware draws.
pub open spec fn is_too_long(a: Projected, b: Projected) -> bool {
    abs_int(a.sx - b.sx) > PSX_TRI_MAX_DX || abs_int(a.sy - b.sy) > PSX_TRI_MAX_DY
}

/// If any edge of a triangle is too long, the one that is cut is.
pub proof fn law_too_long_edges_are_cut(p: [Projected; 3])
    ensures
        is_too_long(p[0], p[1]) || is_too_long(p[1], p[2]) || is_too_long(p[2], p[0]) ==> ({
            let i = largest_edge(p);
            is_too_long(p[i], p[if i == 2 { 0 } else { i + 1 }])
        }),
{
}

proof fn lemma_mid_corner(a: Corner, b: Corner)
    ensures
        is_mid_corner(mid_corner(a, b), a, b),
{
}

/// The area of a triangle is the sum of those that its edges make with any
/// point, and that of a right triangle is the product of its sides, positive
/// where it goes right and then down.
pub proof fn law_areas_add_up(p: [Projected; 3], q: Projected)
    ensures
        signed_area([p[0], p[1], q]) + signed_area([p[1], p[2], q]) + signed_area([p[2], p[0], q])
            == signed_area(p),
        p[1].sy == p[0].sy && p[2].sx == p[0].sx ==> signed_area(p) == (p[1].sx - p[0].sx) * (
        p[2].sy - p[0].sy),
        signed_area([p[1], p[2], p[0]]) == signed_area(p),
{
    lemma_shoelace(p[0], p[1], p[2]);
    lemma_shoelace(p[1], p[2], p[0]);
    lemma_shoelace(p[0], p[1], q);
    lemma_shoelace(p[1], p[2], q);
    lemma_shoelace(p[2], p[0], q);
    lemma_turned(p[0], q);
    lemma_turned(p[1], q);
    lemma_turned(p[2], q);
    let dx = p[2].sx - p[0].sx;
    assert(0 * dx == 0);
}

spec fn cross(a: Projected, b: Projected) -> int {
    a.sx * b.sy - a.sy * b.sx
}

proof fn lemma_turned(a: Projected, b: Projected)
    ensures
        cross(a, b) == -cross(b, a),
{
    let ax = a.sx as int;
    let ay = a.sy as int;
    let bx = b.sx as int;
    let by = b.sy as int;
    assert(ax * by == by * ax && ay * bx == bx * ay) by (nonlinear_arith);
}

proof fn lemma_shoelace(a: Projected, b: Projected, c: Projected)
    ensures
        signed_area([a, b, c]) == cross(a, b) + cross(b, c) + cross(c, a),
{
    let x0 = a.sx as int;
    let y0 = a.sy as int;
    let x1 = b.sx as int;
    let y1 = b.sy as int;
    let x2 = c.sx as int;
    let y2 = c.sy as int;
    assert((x1 - x0) * (y2 - y0) == x1 * y2 - x1 * y0 - x0 * y2 + x0 * y0) by (nonlinear_arith);
    assert((y1 - y0) * (x2 - x0) == y1 * x2 - y1 * x0 - y0 * x2 + y0 * x0) by (nonlinear_arith);
    assert(x1 * y0 == y0 * x1 && x0 * y2 == y2 * x0 && x0 * y0 == y0 * x0 && y1 * x0 == x0 * y1 && y0
        * x2 == x2 * y0) by (nonlinear_arith);
}

/// A triangle shows at most one of its sides, a two-sided material is drawn where
/// either shows, and one without an area shows neither. Going right and then
/// down shows the front.
pub proof fn law_a_triangle_shows_one_side(p: [Projected; 3])
    ensures
        !(side_visible(MaterialFaceSidedness::Front, p) && side_visible(
            MaterialFaceSidedness::Back,
            p,
        )),
        side_visible(MaterialFaceSidedness::Both, p) <==> side_visible(
            MaterialFaceSidedness::Front,
            p,
        ) || side_visible(MaterialFaceSidedness::Back, p),
        p[0] == p[1] || p[1] == p[2] || p[0] == p[2] ==> !side_visible(
            MaterialFaceSidedness::Both,
            p,
        ),
        p[1].sy == p[0].sy && p[2].sx == p[0].sx && p[1].sx > p[0].sx && p[2].sy > p[0].sy
            ==> side_visible(MaterialFaceSidedness::Front, p),
{
    law_areas_add_up(p, p[0]);
    lemma_shoelace(p[0], p[1], p[2]);
    lemma_turned(p[0], p[1]);
    lemma_turned(p[1], p[2]);
    lemma_turned(p[2], p[0]);
    lemma_turned(p[0], p[0]);
    lemma_turned(p[1], p[1]);
    let w = p[1].sx - p[0].sx;
    let h = p[2].sy - p[0].sy;
    assert(w > 0 && h > 0 ==> w * h > 0) by (nonlinear_arith);
}

/// A corner that a packet cannot hold goes to the nearest one that it can.
pub proof fn law_corners_move_no_further_than_needed(p: Projected, x: i16, y: i16)
    requires
        PSX_VERTEX_MIN <= x <= PSX_VERTEX_MAX,
        PSX_VERTEX_MIN <= y <= PSX_VERTEX_MAX,
    ensures
        PSX_VERTEX_MIN <= clamped(p).sx <= PSX_VERTEX_MAX,
        PSX_VERTEX_MIN <= clamped(p).sy <= PSX_VERTEX_MAX,
        abs_int(p.sx - clamped(p).sx) <= abs_int(p.sx - x),
        abs_int(p.sy - clamped(p).sy) <= abs_int(p.sy - y),
        clamped(p).sz == p.sz,
{
}

/// The slot of geometry is its depth in steps of 64, kept to the band; a
/// triangle counts with the mean depth of its corners.
pub proof fn law_slots_step_by_depth(slot: int, within: int, p: [Projected; 3])
    requires
        0 <= within < 64,
        slot >= 0,
    ensures
        PREVIEW_GEOMETRY_SLOT_MIN <= slot <= PREVIEW_GEOMETRY_SLOT_MAX ==> depth_slot(
            64 * slot + within,
        ) == slot,
        slot < PREVIEW_GEOMETRY_SLOT_MIN ==> depth_slot(64 * slot + within)
            == PREVIEW_GEOMETRY_SLOT_MIN,
        slot > PREVIEW_GEOMETRY_SLOT_MAX ==> depth_slot(64 * slot + within)
            == PREVIEW_GEOMETRY_SLOT_MAX,
        3 * mean_depth(p) <= p[0].sz + p[1].sz + p[2].sz < 3 * mean_depth(p) + 3,
{
}

/// A face is drawn as its shade says: an untextured one without a texture and in
/// the slot of each piece's depth, a textured one with the texture of its slot,
/// blended as asked, in the slot of the whole triangle's depth. A triangle that
/// the hardware draws as it is gives one packet with its corners.
pub proof fn law_faces_are_drawn_in_their_shade(
    p: [Projected; 3],
    uvs: [(u8, u8); 3],
    shade: FaceShade,
    colors: [(u8, u8, u8); 3],
    cuts: nat,
)
    ensures
        ({
            let packets = face_packets(p, uvs, shade, colors, cuts);
            &&& forall|i: int|
                0 <= i < packets.len() ==> match shade {
                    FaceShade::Flat { .. } => (#[trigger] packets[i]).material is None,
                    FaceShade::Textured { slot, blend_mode, .. } => (
                    #[trigger] packets[i]).material matches Some(material) && material.clut_word
                        == slot.clut_word && material.tpage_word == slot.tpage_word
                        && material.texture_window == slot.texture_window && material.blend_mode
                        == blend_mode && material.tint == colors[0] && !material.raw_texture
                        && packets[i].slot == depth_slot(mean_depth(p)),
                }
            &&& xy_drawable(corner_xy(p)) ==> packets.len() == 1 && packets[0].xy == corner_xy(p)
                && packets[0].colors == colors && (shade is Textured ==> packets[0].uvs == uvs)
                && packets[0].slot == depth_slot(mean_depth(p))
        }),
{
    let packets = face_packets(p, uvs, shade, colors, cuts);
    let whole = PreviewTriangle { p, uvs, colors };
    if xy_drawable(corner_xy(p)) {
        law_small_triangle_is_not_cut(whole, cuts);
        law_small_triangle_is_not_cut(flat_triangle(p, colors), cuts);
        match shade {
            FaceShade::Flat { .. } => {
                assert(pieces(flat_triangle(p, colors), cuts)[0].p == p);
            },
            FaceShade::Textured { .. } => {
                assert(pieces(whole, cuts)[0].p == p);
            },
        }
    }
}

/// A face is drawn exactly if it shows a side that its material draws, and then
/// as any of its sides would be.
pub proof fn law_faces_are_drawn_from_their_sides(
    p: [Projected; 3],
    uvs: [(u8, u8); 3],
    shade: FaceShade,
    colors: [(u8, u8, u8); 3],
    cuts: nat,
)
    ensures
        visible_face_packets(p, uvs, shade, colors, cuts) == face_packets(
            p,
            uvs,
            shade,
            colors,
            cuts,
        ) || visible_face_packets(p, uvs, shade, colors, cuts) == Seq::<TrianglePacket>::empty(),
        xy_drawable(corner_xy(p)) ==> (visible_face_packets(p, uvs, shade, colors, cuts).len() > 0
            <==> side_visible(shade.spec_sidedness(), p)),
{
    if xy_drawable(corner_xy(p)) {
        law_faces_are_drawn_in_their_shade(p, uvs, shade, colors, cuts);
    }
}

/// A shadow darkens what it lies on by half and shows its texture as it is.
pub proof fn law_shadows_are_half_transparent(slot: MaterialSlot)
    ensures
        shadow_material(slot).blend_mode == BlendMode::Average,
        shadow_material(slot).raw_texture,
        shadow_material(slot).clut_word == slot.clut_word,
        shadow_material(slot).tpage_word == slot.tpage_word,
        shadow_material(slot).texture_window == TextureWindow::Unbounded,
{
}

/// Corners can be drawn exactly where each lies in the range of a packet, and no
/// two lie further apart than the hardware draws.
pub proof fn law_drawable_corners_lie_close(xy: [(i16, i16); 3])
    ensures
        xy_drawable(xy) <==> {
            let lo = min_int(min_int(xy[0].0 as int, xy[1].0 as int), xy[2].0 as int);
            let hi = max_int(max_int(xy[0].0 as int, xy[1].0 as int), xy[2].0 as int);
            let top = min_int(min_int(xy[0].1 as int, xy[1].1 as int), xy[2].1 as int);
            let foot = max_int(max_int(xy[0].1 as int, xy[1].1 as int), xy[2].1 as int);
            &&& PSX_VERTEX_MIN <= lo && hi <= PSX_VERTEX_MAX
            &&& PSX_VERTEX_MIN <= top && foot <= PSX_VERTEX_MAX
            &&& hi - lo <= PSX_TRI_MAX_DX
            &&& foot - top <= PSX_TRI_MAX_DY
        },
{
    reveal(xy_drawable);
    let a = xy[0];
    let b = xy[1];
    let c = xy[2];
}

} // verus!
