//! Exact frustum clipping of convex brush polygons.
//!
//! A polygon is cut by the near plane and by the four guarded screen edges.
//! Texture coordinates and colours travel along in 16.16 fixed point, so that
//! a cut edge carries the attributes of the point where it was cut.

use crate::math::{abs_int, clamp_int, max_int, trunc_div};
use crate::preview::screen::{Projected, ViewVertex, WorldProjection, SCREEN_CX, SCREEN_CY};
use vstd::prelude::*;

verus! {

/// Pixels by which the side planes lie outside the visible screen.
pub const PREVIEW_CLIP_EDGE_MARGIN: i32 = 16;

/// One in 16.16 fixed point.
pub const PREVIEW_CLIP_ATTR_ONE: i64 = 65536;

/// Most vertices that a polygon may have before it is clipped.
pub const PREVIEW_FACE_VERTEX_CAP: usize = 39;

/// Most vertices that a clipped polygon has: one more for each plane.
pub const PREVIEW_CLIP_VERTEX_CAP: usize = 44;

/// Texture coordinates lie strictly inside this bound, in 16.16.
pub const PREVIEW_CLIP_UV_BOUND: i64 = 0x4000_0000_0000;

/// Camera-space polygon corner with its 16.16 texture coordinate and colour.
#[derive(Clone, Copy, Debug, PartialEq, Eq, Structural)]
pub struct PreviewClipVertex {
    pub view: ViewVertex,
    pub u_q16: i64,
    pub v_q16: i64,
    pub r_q16: i64,
    pub g_q16: i64,
    pub b_q16: i64,
}

/// A scaled attribute leaves room for interpolation.
pub open spec fn attr_bounded(value: i64) -> bool {
    -PREVIEW_CLIP_UV_BOUND < value < PREVIEW_CLIP_UV_BOUND
}

impl PreviewClipVertex {
    /// Every attribute leaves room for interpolation.
    pub open spec fn wf(self) -> bool {
        &&& attr_bounded(self.u_q16)
        &&& attr_bounded(self.v_q16)
        &&& attr_bounded(self.r_q16)
        &&& attr_bounded(self.g_q16)
        &&& attr_bounded(self.b_q16)
    }

    /// A corner at `view` with a 16.16 texture coordinate and an 8-bit colour.
    pub fn new(view: ViewVertex, u_q16: i64, v_q16: i64, color: (u8, u8, u8)) -> (result: Self)
        ensures
            result.view == view,
            result.u_q16 == u_q16,
            result.v_q16 == v_q16,
            result.r_q16 == color.0 * 65536,
            result.g_q16 == color.1 * 65536,
            result.b_q16 == color.2 * 65536,
    {
        PreviewClipVertex {
            view,
            u_q16,
            v_q16,
            r_q16: color.0 as i64 * 65536,
            g_q16: color.1 as i64 * 65536,
            b_q16: color.2 as i64 * 65536,
        }
    }

    /// Screen attributes of the corner, given its projection: texture
    /// coordinates wrap at 256 and colours are limited to 8 bits.
    pub fn projected(self, screen: Option<Projected>) -> (result: Option<
        (Projected, (u8, u8), (u8, u8, u8)),
    >)
        ensures
            match screen {
                None => result is None,
                Some(p) => {
                    &&& result matches Some((position, uv, color))
                    &&& position == p
                    &&& uv.0 == uv_component(self.u_q16)
                    &&& uv.1 == uv_component(self.v_q16)
                    &&& color.0 == color_component(self.r_q16)
                    &&& color.1 == color_component(self.g_q16)
                    &&& color.2 == color_component(self.b_q16)
                },
            },
    {
        match screen {
            None => None,
            Some(p) => Some(
                (
                    p,
                    (wrap_uv(self.u_q16), wrap_uv(self.v_q16)),
                    (limit_color(self.r_q16), limit_color(self.g_q16), limit_color(self.b_q16)),
                ),
            ),
        }
    }
}

/// Whole part of a 16.16 texture coordinate, modulo 256.
pub open spec fn uv_component(value: i64) -> int {
    (value as int / 65536) % 256
}

/// Whole part of a 16.16 colour, limited to 8 bits.
pub open spec fn color_component(value: i64) -> int {
    clamp_int(value as int / 65536, 0, 255)
}

fn wrap_uv(value: i64) -> (result: u8)
    ensures
        result == uv_component(value),
{
    let whole: i64 = value >> 16;
    proof {
        crate::math::lemma_sar16_i64(value);
    }
    let low: i64 = whole & 0xFF;
    assert(low == whole % 256) by (bit_vector)
        requires
            low == whole & 0xFF,
    ;
    low as u8
}

fn limit_color(value: i64) -> (result: u8)
    ensures
        result == color_component(value),
{
    proof {
        crate::math::lemma_sar16_i64(value);
    }
    crate::math::clamp_i64(value >> 16, 0, 255) as u8
}

/// Signed distance of a camera-space point from one of the five planes; it is
/// negative outside. Plane 0 is the near plane, planes 1 to 4 are the guarded
/// left, right, top and bottom screen edges.
pub open spec fn clip_distance(projection: WorldProjection, plane: int, view: ViewVertex) -> int {
    let focal = max_int(projection.focal_length as int, 1);
    let x_limit = SCREEN_CX + PREVIEW_CLIP_EDGE_MARGIN;
    let y_limit = SCREEN_CY + PREVIEW_CLIP_EDGE_MARGIN;
    if plane == 0 {
        view.z - projection.near_z
    } else if plane == 1 {
        x_limit * view.z + focal * view.x
    } else if plane == 2 {
        x_limit * view.z - focal * view.x
    } else if plane == 3 {
        y_limit * view.z + focal * view.y
    } else {
        y_limit * view.z - focal * view.y
    }
}

/// Where the edge from a point at distance `da` to one at distance `db` of the
/// other side meets the plane, as a 16.16 fraction of the edge. The fraction is
/// rounded toward the point that lies inside.
pub open spec fn crossing_q16(da: int, db: int) -> int {
    if da >= 0 {
        (da * 65536) / (da - db)
    } else {
        (-da * 65536 + (db - da) - 1) / (db - da)
    }
}

/// The value a 16.16 fraction `t` of the way from `x` to `y`, rounded toward `x`.
pub open spec fn lerp_q16(x: int, y: int, t: int) -> int {
    x + trunc_div((y - x) * t, 65536)
}

/// The corner a 16.16 fraction `t` of the way from `a` to `b`.
pub open spec fn interpolated(a: PreviewClipVertex, b: PreviewClipVertex, t: int) -> PreviewClipVertex {
    PreviewClipVertex {
        view: ViewVertex {
            x: lerp_q16(a.view.x as int, b.view.x as int, t) as i32,
            y: lerp_q16(a.view.y as int, b.view.y as int, t) as i32,
            z: lerp_q16(a.view.z as int, b.view.z as int, t) as i32,
        },
        u_q16: lerp_q16(a.u_q16 as int, b.u_q16 as int, t) as i64,
        v_q16: lerp_q16(a.v_q16 as int, b.v_q16 as int, t) as i64,
        r_q16: lerp_q16(a.r_q16 as int, b.r_q16 as int, t) as i64,
        g_q16: lerp_q16(a.g_q16 as int, b.g_q16 as int, t) as i64,
        b_q16: lerp_q16(a.b_q16 as int, b.b_q16 as int, t) as i64,
    }
}

/// What the edge from `a` to `b` leaves on the inner side of a plane, apart
/// from `a` itself: the crossing, if the edge crosses, then `b`, if it is inside.
pub open spec fn clipped_edge(
    projection: WorldProjection,
    plane: int,
    a: PreviewClipVertex,
    b: PreviewClipVertex,
) -> Seq<PreviewClipVertex> {
    let da = clip_distance(projection, plane, a.view);
    let db = clip_distance(projection, plane, b.view);
    let crossing = if (da >= 0) != (db >= 0) {
        seq![interpolated(a, b, crossing_q16(da, db))]
    } else {
        Seq::empty()
    };
    if db >= 0 {
        crossing.push(b)
    } else {
        crossing
    }
}

/// The corner before corner `i` of a closed polygon.
pub open spec fn previous_corner(polygon: Seq<PreviewClipVertex>, i: int) -> PreviewClipVertex {
    if i == 0 {
        polygon[polygon.len() - 1]
    } else {
        polygon[i - 1]
    }
}

/// What the first `n` edges of a closed polygon leave on the inner side of a plane.
pub open spec fn clipped_edges(
    projection: WorldProjection,
    plane: int,
    polygon: Seq<PreviewClipVertex>,
    n: nat,
) -> Seq<PreviewClipVertex>
    decreases n,
{
    if n == 0 {
        Seq::empty()
    } else {
        clipped_edges(projection, plane, polygon, (n - 1) as nat) + clipped_edge(
            projection,
            plane,
            previous_corner(polygon, n - 1),
            polygon[n - 1],
        )
    }
}

/// The part of a closed polygon on the inner side of a plane.
pub open spec fn clipped_by_plane(
    projection: WorldProjection,
    plane: int,
    polygon: Seq<PreviewClipVertex>,
) -> Seq<PreviewClipVertex> {
    clipped_edges(projection, plane, polygon, polygon.len())
}

/// The part of a polygon inside every plane from `plane` on; empty once fewer
/// than three corners are left.
pub open spec fn clipped_from_plane(
    projection: WorldProjection,
    plane: int,
    polygon: Seq<PreviewClipVertex>,
) -> Seq<PreviewClipVertex>
    decreases 5 - plane,
{
    if polygon.len() < 3 {
        Seq::empty()
    } else if plane >= 5 {
        polygon
    } else {
        clipped_from_plane(projection, plane + 1, clipped_by_plane(projection, plane, polygon))
    }
}

/// The visible part of a brush polygon. Degenerate polygons and polygons with
/// too many corners have none.
pub open spec fn clipped_polygon(
    projection: WorldProjection,
    polygon: Seq<PreviewClipVertex>,
) -> Seq<PreviewClipVertex> {
    if polygon.len() > PREVIEW_FACE_VERTEX_CAP {
        Seq::empty()
    } else {
        clipped_from_plane(projection, 0, polygon)
    }
}

/// An attribute can be blended along an edge: the scaled step is an `i64` value.
pub open spec fn attr_blends(x: i64, y: i64, t: int) -> bool {
    &&& i64::MIN <= y - x <= i64::MAX
    &&& i64::MIN <= (y - x) * t <= i64::MAX
}

/// An edge that crosses a plane can be cut there: the distance of its first
/// corner can be scaled to 16.16, and the attributes can be blended.
pub open spec fn can_be_cut(
    projection: WorldProjection,
    plane: int,
    a: PreviewClipVertex,
    b: PreviewClipVertex,
) -> bool {
    let da = clip_distance(projection, plane, a.view);
    let db = clip_distance(projection, plane, b.view);
    (da >= 0) != (db >= 0) ==> {
        let t = crossing_q16(da, db);
        &&& i64::MIN <= da * 65536 <= i64::MAX
        &&& attr_blends(a.u_q16, b.u_q16, t)
        &&& attr_blends(a.v_q16, b.v_q16, t)
        &&& attr_blends(a.r_q16, b.r_q16, t)
        &&& attr_blends(a.g_q16, b.g_q16, t)
        &&& attr_blends(a.b_q16, b.b_q16, t)
    }
}

/// Every edge of a closed polygon can be cut.
pub open spec fn edges_can_be_cut(
    projection: WorldProjection,
    plane: int,
    polygon: Seq<PreviewClipVertex>,
) -> bool {
    forall|i: int|
        0 <= i < polygon.len() ==> can_be_cut(
            projection,
            plane,
            previous_corner(polygon, i),
            #[trigger] polygon[i],
        )
}

/// The edges of what is left of a polygon can be cut by every plane from `plane`
/// on.
pub open spec fn can_be_clipped_from(
    projection: WorldProjection,
    plane: int,
    polygon: Seq<PreviewClipVertex>,
) -> bool
    decreases 5 - plane,
{
    polygon.len() < 3 || plane >= 5 || {
        &&& edges_can_be_cut(projection, plane, polygon)
        &&& can_be_clipped_from(
            projection,
            plane + 1,
            clipped_by_plane(projection, plane, polygon),
        )
    }
}

/// A polygon that is not refused at once can be clipped: every edge that a plane
/// meets can be cut.
pub open spec fn can_be_clipped(projection: WorldProjection, polygon: Seq<PreviewClipVertex>) -> bool {
    polygon.len() > PREVIEW_FACE_VERTEX_CAP || can_be_clipped_from(projection, 0, polygon)
}

proof fn lemma_crossing_range(da: int, db: int)
    requires
        (da >= 0) != (db >= 0),
    ensures
        0 <= crossing_q16(da, db) <= 65536,
{
    if da >= 0 {
        let d = da - db;
        assert(0 <= (da * 65536) / d <= 65536) by (nonlinear_arith)
            requires
                0 <= da <= d,
                d > 0,
        ;
    } else {
        let d = db - da;
        let n = -da * 65536 + d - 1;
        assert(0 <= n / d) by (nonlinear_arith)
            requires
                n >= 0,
                d > 0,
        ;
        assert(n / d <= 65536) by (nonlinear_arith)
            requires
                n < 65537 * d,
                d > 0,
        ;
        assert(n < 65537 * d) by (nonlinear_arith)
            requires
                n == -da * 65536 + d - 1,
                -da <= d,
                d > 0,
        ;
    }
}

proof fn lemma_lerp_between(x: int, y: int, t: int)
    requires
        0 <= t <= 65536,
    ensures
        x <= y ==> x <= lerp_q16(x, y, t) <= y,
        y <= x ==> y <= lerp_q16(x, y, t) <= x,
{
    let p = (y - x) * t;
    if x <= y {
        assert(0 <= p <= (y - x) * 65536) by (nonlinear_arith)
            requires
                p == (y - x) * t,
                0 <= t <= 65536,
                y >= x,
        ;
    } else {
        assert((y - x) * 65536 <= p <= 0) by (nonlinear_arith)
            requires
                p == (y - x) * t,
                0 <= t <= 65536,
                y < x,
        ;
    }
}

proof fn lemma_round_up(n: int, d: int)
    requires
        n >= 0,
        d > 0,
    ensures
        n % d != 0 ==> (n + d - 1) / d == n / d + 1,
        n % d == 0 ==> (n + d - 1) / d == n / d,
        0 <= n / d <= n,
        n / d * d <= n,
{
    let q = n / d;
    let r = n % d;
    assert(n == q * d + r && 0 <= r < d) by (nonlinear_arith)
        requires
            q == n / d,
            r == n % d,
            d > 0,
    ;
    assert(0 <= q <= n) by (nonlinear_arith)
        requires
            q == n / d,
            n >= 0,
            d > 0,
    ;
    let m = n + d - 1;
    if r != 0 {
        assert(m == (q + 1) * d + (r - 1)) by (nonlinear_arith)
            requires
                m == n + d - 1,
                n == q * d + r,
        ;
        vstd::arithmetic::div_mod::lemma_fundamental_div_mod_converse(m, d, q + 1, r - 1);
    } else {
        vstd::arithmetic::div_mod::lemma_fundamental_div_mod_converse(m, d, q, d - 1);
    }
}

/// A crossing of the near plane is computed on the inner side or on the plane.
proof fn lemma_crossing_in_front(az: int, bz: int, near: int)
    requires
        (az >= near) != (bz >= near),
    ensures
        lerp_q16(az, bz, crossing_q16(az - near, bz - near)) >= near,
{
    let da = az - near;
    let db = bz - near;
    let t = crossing_q16(da, db);
    lemma_crossing_range(da, db);
    if da >= 0 {
        let d = da - db;
        assert(d * t <= da * 65536) by (nonlinear_arith)
            requires
                t == (da * 65536) / d,
                d > 0,
        ;
        assert((bz - az) * t == -(d * t)) by (nonlinear_arith)
            requires
                d == az - bz,
        ;
        assert(0 <= d * t) by (nonlinear_arith)
            requires
                0 <= t,
                d > 0,
        ;
        assert((d * t) / 65536 <= da);
    } else {
        let d = db - da;
        let n = -da * 65536 + d - 1;
        assert(d * t >= -da * 65536) by (nonlinear_arith)
            requires
                t == n / d,
                n == -da * 65536 + d - 1,
                d > 0,
        ;
        assert((bz - az) * t == d * t) by (nonlinear_arith)
            requires
                d == bz - az,
        ;
        assert((d * t) / 65536 >= -da);
    }
}

fn preview_clip_distance(projection: WorldProjection, plane: usize, view: ViewVertex) -> (result: i64)
    requires
        plane < 5,
    ensures
        result == clip_distance(projection, plane as int, view),
        -0x5000_0000_0000_0000 < result < 0x5000_0000_0000_0000,
{
    let x_limit: i64 = (SCREEN_CX + PREVIEW_CLIP_EDGE_MARGIN) as i64;
    let y_limit: i64 = (SCREEN_CY + PREVIEW_CLIP_EDGE_MARGIN) as i64;
    let focal: i64 = if projection.focal_length > 1 {
        projection.focal_length as i64
    } else {
        1
    };
    let x: i64 = view.x as i64;
    let y: i64 = view.y as i64;
    let z: i64 = view.z as i64;
    assert(-0x4000_0000_0000_0000 <= focal * x <= 0x4000_0000_0000_0000) by (nonlinear_arith)
        requires
            1 <= focal <= 0x8000_0000,
            -0x8000_0000 <= x <= 0x8000_0000,
    ;
    assert(-0x4000_0000_0000_0000 <= focal * y <= 0x4000_0000_0000_0000) by (nonlinear_arith)
        requires
            1 <= focal <= 0x8000_0000,
            -0x8000_0000 <= y <= 0x8000_0000,
    ;
    match plane {
        0 => z - projection.near_z as i64,
        1 => x_limit * z + focal * x,
        2 => x_limit * z - focal * x,
        3 => y_limit * z + focal * y,
        _ => y_limit * z - focal * y,
    }
}

fn lerp_attr(x: i64, y: i64, t_q16: i64) -> (result: i64)
    requires
        attr_blends(x, y, t_q16 as int),
        0 <= t_q16 <= 65536,
    ensures
        result == lerp_q16(x as int, y as int, t_q16 as int),
{
    proof {
        lemma_lerp_between(x as int, y as int, t_q16 as int);
    }
    let d: i64 = y - x;
    x + (d * t_q16) / PREVIEW_CLIP_ATTR_ONE
}

fn lerp_coordinate(x: i32, y: i32, t_q16: i64) -> (result: i32)
    requires
        0 <= t_q16 <= 65536,
    ensures
        result == lerp_q16(x as int, y as int, t_q16 as int),
{
    proof {
        lemma_lerp_between(x as int, y as int, t_q16 as int);
    }
    assert(-0x1_0000_0000_0000 <= (y - x) * t_q16 <= 0x1_0000_0000_0000) by (nonlinear_arith)
        requires
            -0x1_0000_0000 <= y - x <= 0x1_0000_0000,
            0 <= t_q16 <= 65536,
    ;
    lerp_attr(x as i64, y as i64, t_q16) as i32
}

fn interpolate_preview_clip_vertex(
    a: PreviewClipVertex,
    b: PreviewClipVertex,
    a_distance: i64,
    b_distance: i64,
) -> (result: PreviewClipVertex)
    requires
        (a_distance >= 0) != (b_distance >= 0),
        i64::MIN <= a_distance * 65536 <= i64::MAX,
        -0x5000_0000_0000_0000 < b_distance < 0x5000_0000_0000_0000,
        ({
            let t = crossing_q16(a_distance as int, b_distance as int);
            &&& attr_blends(a.u_q16, b.u_q16, t)
            &&& attr_blends(a.v_q16, b.v_q16, t)
            &&& attr_blends(a.r_q16, b.r_q16, t)
            &&& attr_blends(a.g_q16, b.g_q16, t)
            &&& attr_blends(a.b_q16, b.b_q16, t)
        }),
    ensures
        result == interpolated(a, b, crossing_q16(a_distance as int, b_distance as int)),
{
    proof {
        lemma_crossing_range(a_distance as int, b_distance as int);
    }
    let t_q16: i64 = if a_distance >= 0 {
        (a_distance * 65536) / (a_distance - b_distance)
    } else {
        let numerator: i128 = -(a_distance as i128) * 65536;
        let denominator: i128 = b_distance as i128 - a_distance as i128;
        proof {
            lemma_round_up(numerator as int, denominator as int);
        }
        let rounded_down: i128 = numerator / denominator;
        if numerator % denominator != 0 {
            (rounded_down + 1) as i64
        } else {
            rounded_down as i64
        }
    };
    PreviewClipVertex {
        view: ViewVertex {
            x: lerp_coordinate(a.view.x, b.view.x, t_q16),
            y: lerp_coordinate(a.view.y, b.view.y, t_q16),
            z: lerp_coordinate(a.view.z, b.view.z, t_q16),
        },
        u_q16: lerp_attr(a.u_q16, b.u_q16, t_q16),
        v_q16: lerp_attr(a.v_q16, b.v_q16, t_q16),
        r_q16: lerp_attr(a.r_q16, b.r_q16, t_q16),
        g_q16: lerp_attr(a.g_q16, b.g_q16, t_q16),
        b_q16: lerp_attr(a.b_q16, b.b_q16, t_q16),
    }
}

/// Clip a convex brush polygon against the near plane and the guarded screen
/// edges. What is left has no corner behind the near plane and, unless it is
/// empty, at least three corners.
pub fn clip_preview_brush_polygon(
    projection: WorldProjection,
    vertices: &[PreviewClipVertex],
) -> (result: Vec<PreviewClipVertex>)
    requires
        can_be_clipped(projection, vertices@),
    ensures
        result@ == clipped_polygon(projection, vertices@),
        result@.len() == 0 || result@.len() >= 3,
        forall|i: int|
            0 <= i < result@.len() ==> (#[trigger] result@[i]).view.z >= projection.near_z,
{
    let mut polygon: Vec<PreviewClipVertex> = Vec::new();
    if vertices.len() < 3 || vertices.len() > PREVIEW_FACE_VERTEX_CAP {
        return polygon;
    }
    for i in 0..vertices.len()
        invariant
            polygon@ == vertices@.take(i as int),
    {
        polygon.push(vertices[i]);
    }
    assert(vertices@.take(vertices@.len() as int) == vertices@);
    for plane in 0..5
        invariant
            can_be_clipped_from(projection, plane as int, polygon@),
            vertices@.len() <= PREVIEW_FACE_VERTEX_CAP,
            clipped_polygon(projection, vertices@) == clipped_from_plane(
                projection,
                plane as int,
                polygon@,
            ),
            plane > 0 ==> forall|i: int|
                0 <= i < polygon@.len() ==> (#[trigger] polygon@[i]).view.z >= projection.near_z,
    {
        if polygon.len() < 3 {
            return Vec::new();
        }
        polygon = clip_by_plane(projection, plane, &polygon);
    }
    if polygon.len() < 3 {
        return Vec::new();
    }
    polygon
}

/// The part of a closed polygon on the inner side of one plane.
fn clip_by_plane(
    projection: WorldProjection,
    plane: usize,
    polygon: &Vec<PreviewClipVertex>,
) -> (result: Vec<PreviewClipVertex>)
    requires
        plane < 5,
        polygon@.len() > 0,
        edges_can_be_cut(projection, plane as int, polygon@),
        plane > 0 ==> forall|i: int|
            0 <= i < polygon@.len() ==> (#[trigger] polygon@[i]).view.z >= projection.near_z,
    ensures
        result@ == clipped_by_plane(projection, plane as int, polygon@),
        forall|i: int|
            0 <= i < result@.len() ==> (#[trigger] result@[i]).view.z >= projection.near_z,
{
    let mut output: Vec<PreviewClipVertex> = Vec::new();
    let mut previous: PreviewClipVertex = polygon[polygon.len() - 1];
    let mut previous_distance: i64 = preview_clip_distance(projection, plane, previous.view);
    for i in 0..polygon.len()
        invariant
            plane < 5,
            edges_can_be_cut(projection, plane as int, polygon@),
            plane > 0 ==> forall|j: int|
                0 <= j < polygon@.len() ==> (#[trigger] polygon@[j]).view.z >= projection.near_z,
            polygon@.len() > 0,
            i < polygon@.len() ==> previous == previous_corner(polygon@, i as int),
            plane > 0 ==> previous.view.z >= projection.near_z,
            previous_distance == clip_distance(projection, plane as int, previous.view),
            output@ == clipped_edges(projection, plane as int, polygon@, i as nat),
            forall|j: int|
                0 <= j < output@.len() ==> (#[trigger] output@[j]).view.z >= projection.near_z,
    {
        let current: PreviewClipVertex = polygon[i];
        let current_distance: i64 = preview_clip_distance(projection, plane, current.view);
        assert(can_be_cut(projection, plane as int, previous, polygon@[i as int]));
        if (previous_distance >= 0) != (current_distance >= 0) {
            let crossing = interpolate_preview_clip_vertex(
                previous,
                current,
                previous_distance,
                current_distance,
            );
            proof {
                lemma_crossing_range(previous_distance as int, current_distance as int);
                lemma_lerp_between(
                    previous.view.z as int,
                    current.view.z as int,
                    crossing_q16(previous_distance as int, current_distance as int),
                );
                if plane == 0 {
                    lemma_crossing_in_front(
                        previous.view.z as int,
                        current.view.z as int,
                        projection.near_z as int,
                    );
                }
            }
            output.push(crossing);
        }
        if current_distance >= 0 {
            output.push(current);
        }
        assert(output@ == clipped_edges(projection, plane as int, polygon@, i as nat)
            + clipped_edge(projection, plane as int, previous, current));
        previous = current;
        previous_distance = current_distance;
    }
    output
}

/// A corner lies inside every plane.
pub open spec fn corner_inside(projection: WorldProjection, corner: PreviewClipVertex) -> bool {
    forall|plane: int|
        0 <= plane < 5 ==> #[trigger] clip_distance(projection, plane, corner.view) >= 0
}

/// A polygon that lies inside every plane is left as it is.
pub proof fn law_inside_polygon_is_unchanged(
    projection: WorldProjection,
    polygon: Seq<PreviewClipVertex>,
)
    requires
        3 <= polygon.len() <= PREVIEW_FACE_VERTEX_CAP,
        forall|i: int|
            0 <= i < polygon.len() ==> corner_inside(projection, #[trigger] polygon[i]),
    ensures
        clipped_polygon(projection, polygon) == polygon,
{
    lemma_inside_from_plane(projection, 0, polygon);
}

proof fn lemma_inside_from_plane(
    projection: WorldProjection,
    plane: int,
    polygon: Seq<PreviewClipVertex>,
)
    requires
        3 <= polygon.len(),
        0 <= plane <= 5,
        forall|i: int|
            0 <= i < polygon.len() ==> corner_inside(projection, #[trigger] polygon[i]),
    ensures
        clipped_from_plane(projection, plane, polygon) == polygon,
    decreases 5 - plane,
{
    if plane < 5 {
        lemma_inside_edges(projection, plane, polygon, polygon.len());
        assert(polygon.take(polygon.len() as int) == polygon);
        lemma_inside_from_plane(projection, plane + 1, polygon);
    }
}

proof fn lemma_inside_edges(
    projection: WorldProjection,
    plane: int,
    polygon: Seq<PreviewClipVertex>,
    n: nat,
)
    requires
        0 <= plane < 5,
        n <= polygon.len(),
        forall|i: int|
            0 <= i < polygon.len() ==> corner_inside(projection, #[trigger] polygon[i]),
    ensures
        clipped_edges(projection, plane, polygon, n) == polygon.take(n as int),
    decreases n,
{
    if n > 0 {
        lemma_inside_edges(projection, plane, polygon, (n - 1) as nat);
        let a = previous_corner(polygon, n - 1);
        let b = polygon[n - 1];
        assert(corner_inside(projection, a));
        assert(corner_inside(projection, b));
        assert(clip_distance(projection, plane, a.view) >= 0);
        assert(clip_distance(projection, plane, b.view) >= 0);
        assert(clipped_edge(projection, plane, a, b) == seq![b]);
        assert(polygon.take(n as int) == polygon.take(n - 1).push(b));
    }
}

/// A polygon that lies wholly behind the near plane leaves nothing behind.
pub proof fn law_polygon_behind_the_near_plane_is_cut_away(
    projection: WorldProjection,
    polygon: Seq<PreviewClipVertex>,
)
    requires
        forall|i: int|
            0 <= i < polygon.len() ==> (#[trigger] polygon[i]).view.z < projection.near_z,
    ensures
        clipped_polygon(projection, polygon) == Seq::<PreviewClipVertex>::empty(),
{
    lemma_outside_edges(projection, 0, polygon, polygon.len());
    reveal_with_fuel(clipped_from_plane, 2);
}

proof fn lemma_outside_edges(
    projection: WorldProjection,
    plane: int,
    polygon: Seq<PreviewClipVertex>,
    n: nat,
)
    requires
        n <= polygon.len(),
        forall|i: int|
            0 <= i < polygon.len() ==> clip_distance(
                projection,
                plane,
                (#[trigger] polygon[i]).view,
            ) < 0,
    ensures
        clipped_edges(projection, plane, polygon, n) == Seq::<PreviewClipVertex>::empty(),
    decreases n,
{
    if n > 0 {
        lemma_outside_edges(projection, plane, polygon, (n - 1) as nat);
        let a = previous_corner(polygon, n - 1);
        assert(clip_distance(projection, plane, a.view) < 0);
        assert(clip_distance(projection, plane, polygon[n - 1].view) < 0);
    }
}

/// A corner lies on the inner side of a plane.
pub open spec fn is_inside(projection: WorldProjection, plane: int, corner: PreviewClipVertex) -> bool {
    clip_distance(projection, plane, corner.view) >= 0
}

/// How many of the first `n` edges of a closed polygon lead out of a plane.
pub open spec fn leading_out(
    projection: WorldProjection,
    plane: int,
    polygon: Seq<PreviewClipVertex>,
    n: nat,
) -> int
    decreases n,
{
    if n == 0 {
        0
    } else {
        leading_out(projection, plane, polygon, (n - 1) as nat) + if is_inside(
            projection,
            plane,
            previous_corner(polygon, n - 1),
        ) && !is_inside(projection, plane, polygon[n - 1]) {
            1int
        } else {
            0
        }
    }
}

/// How many of the first `n` edges of a closed polygon cross a plane.
pub open spec fn crossing_edges(
    projection: WorldProjection,
    plane: int,
    polygon: Seq<PreviewClipVertex>,
    n: nat,
) -> int
    decreases n,
{
    if n == 0 {
        0
    } else {
        crossing_edges(projection, plane, polygon, (n - 1) as nat) + if is_inside(
            projection,
            plane,
            previous_corner(polygon, n - 1),
        ) != is_inside(projection, plane, polygon[n - 1]) {
            1int
        } else {
            0
        }
    }
}

proof fn lemma_edge_counts(
    projection: WorldProjection,
    plane: int,
    polygon: Seq<PreviewClipVertex>,
    n: nat,
)
    requires
        n <= polygon.len(),
        polygon.len() > 0,
    ensures
        ({
            let out = leading_out(projection, plane, polygon, n);
            let all = crossing_edges(projection, plane, polygon, n);
            let start = is_inside(projection, plane, polygon.last());
            let now = if n == 0 {
                start
            } else {
                is_inside(projection, plane, polygon[n - 1])
            };
            &&& 0 <= out <= all
            &&& clipped_edges(projection, plane, polygon, n).len() <= n + all - out
            &&& (start == now) ==> all == 2 * out
            &&& (start && !now) ==> all == 2 * out - 1
            &&& (!start && now) ==> all == 2 * out + 1
        }),
    decreases n,
{
    if n > 0 {
        lemma_edge_counts(projection, plane, polygon, (n - 1) as nat);
        let a = previous_corner(polygon, n - 1);
        let b = polygon[n - 1];
        assert(clipped_edge(projection, plane, a, b).len() == (if is_inside(projection, plane, a)
            != is_inside(projection, plane, b) {
            1int
        } else {
            0
        }) + if is_inside(projection, plane, b) {
            1int
        } else {
            0
        });
    }
}

/// A plane adds no more corners to a polygon than half the edges that cross it,
/// and an even number of them do.
pub proof fn law_plane_adds_half_its_crossings(
    projection: WorldProjection,
    plane: int,
    polygon: Seq<PreviewClipVertex>,
)
    ensures
        crossing_edges(projection, plane, polygon, polygon.len()) % 2 == 0,
        clipped_by_plane(projection, plane, polygon).len() <= polygon.len() + crossing_edges(
            projection,
            plane,
            polygon,
            polygon.len(),
        ) / 2,
{
    if polygon.len() > 0 {
        lemma_edge_counts(projection, plane, polygon, polygon.len());
    }
}

/// A polygon crosses each plane from one on at most twice, once those before it
/// have cut it: it goes out once and comes back, as a convex one does.
pub open spec fn crosses_once(
    projection: WorldProjection,
    plane: int,
    polygon: Seq<PreviewClipVertex>,
) -> bool
    decreases 5 - plane,
{
    plane >= 5 || {
        &&& crossing_edges(projection, plane, polygon, polygon.len()) <= 2
        &&& crosses_once(projection, plane + 1, clipped_by_plane(projection, plane, polygon))
    }
}

proof fn lemma_corners_left(
    projection: WorldProjection,
    plane: int,
    polygon: Seq<PreviewClipVertex>,
)
    requires
        0 <= plane <= 5,
        crosses_once(projection, plane, polygon),
    ensures
        clipped_from_plane(projection, plane, polygon).len() <= polygon.len() + (5 - plane),
    decreases 5 - plane,
{
    if plane < 5 && polygon.len() >= 3 {
        law_plane_adds_half_its_crossings(projection, plane, polygon);
        lemma_corners_left(
            projection,
            plane + 1,
            clipped_by_plane(projection, plane, polygon),
        );
    }
}

/// A polygon that crosses each plane at most twice, as convex ones do, is left
/// with one more corner for each plane at most.
pub proof fn law_clipped_polygon_keeps_to_its_capacity(
    projection: WorldProjection,
    polygon: Seq<PreviewClipVertex>,
)
    requires
        crosses_once(projection, 0, polygon),
    ensures
        clipped_polygon(projection, polygon).len() <= PREVIEW_CLIP_VERTEX_CAP,
        clipped_polygon(projection, polygon).len() <= polygon.len() + 5,
{
    lemma_corners_left(projection, 0, polygon);
}

/// How far corners reach from the camera along each axis.
pub struct Reach {
    pub x: int,
    pub y: int,
    pub z: int,
}

impl Reach {
    /// A point lies within the reach.
    pub open spec fn holds(self, view: ViewVertex) -> bool {
        &&& abs_int(view.x as int) <= self.x
        &&& abs_int(view.y as int) <= self.y
        &&& abs_int(view.z as int) <= self.z
    }

    /// The distances within the reach can be scaled to 16.16.
    pub open spec fn distances_fit(self, projection: WorldProjection) -> bool {
        let focal = max_int(projection.focal_length as int, 1);
        &&& (SCREEN_CX + PREVIEW_CLIP_EDGE_MARGIN) * self.z + focal * self.x < 0x8000_0000_0000
        &&& (SCREEN_CY + PREVIEW_CLIP_EDGE_MARGIN) * self.z + focal * self.y < 0x8000_0000_0000
    }
}

/// A corner lies within a reach, and its attributes are moderate.
pub open spec fn is_moderate(corner: PreviewClipVertex, reach: Reach) -> bool {
    corner.wf() && reach.holds(corner.view)
}

proof fn lemma_moderate_distance(
    projection: WorldProjection,
    plane: int,
    view: ViewVertex,
    reach: Reach,
)
    requires
        reach.holds(view),
        reach.distances_fit(projection),
    ensures
        -0x8000_0000_0000 < clip_distance(projection, plane, view) < 0x8000_0000_0000,
{
    let focal = max_int(projection.focal_length as int, 1);
    let x = view.x as int;
    let y = view.y as int;
    assert(-(focal * reach.x) <= focal * x <= focal * reach.x) by (nonlinear_arith)
        requires
            focal >= 1,
            -reach.x <= x <= reach.x,
    ;
    assert(-(focal * reach.y) <= focal * y <= focal * reach.y) by (nonlinear_arith)
        requires
            focal >= 1,
            -reach.y <= y <= reach.y,
    ;
}

proof fn lemma_attr_blends(x: i64, y: i64, t: int)
    requires
        attr_bounded(x),
        attr_bounded(y),
        0 <= t <= 65536,
    ensures
        attr_blends(x, y, t),
        attr_bounded(lerp_q16(x as int, y as int, t) as i64),
{
    lemma_lerp_between(x as int, y as int, t);
    let d = y - x;
    assert(-0x7fff_ffff_ffff_ffff <= d * t <= 0x7fff_ffff_ffff_ffff) by (nonlinear_arith)
        requires
            -0x7fff_ffff_ffff <= d <= 0x7fff_ffff_ffff,
            0 <= t <= 65536,
    ;
}

proof fn lemma_moderate_edge(
    projection: WorldProjection,
    plane: int,
    a: PreviewClipVertex,
    b: PreviewClipVertex,
    reach: Reach,
)
    requires
        is_moderate(a, reach),
        is_moderate(b, reach),
        reach.distances_fit(projection),
    ensures
        can_be_cut(projection, plane, a, b),
        forall|i: int|
            0 <= i < clipped_edge(projection, plane, a, b).len() ==> is_moderate(
                #[trigger] clipped_edge(projection, plane, a, b)[i],
                reach,
            ),
{
    let da = clip_distance(projection, plane, a.view);
    let db = clip_distance(projection, plane, b.view);
    lemma_moderate_distance(projection, plane, a.view, reach);
    if (da >= 0) != (db >= 0) {
        let t = crossing_q16(da, db);
        lemma_crossing_range(da, db);
        lemma_attr_blends(a.u_q16, b.u_q16, t);
        lemma_attr_blends(a.v_q16, b.v_q16, t);
        lemma_attr_blends(a.r_q16, b.r_q16, t);
        lemma_attr_blends(a.g_q16, b.g_q16, t);
        lemma_attr_blends(a.b_q16, b.b_q16, t);
        lemma_lerp_between(a.view.x as int, b.view.x as int, t);
        lemma_lerp_between(a.view.y as int, b.view.y as int, t);
        lemma_lerp_between(a.view.z as int, b.view.z as int, t);
        assert(is_moderate(interpolated(a, b, t), reach));
    }
}

proof fn lemma_moderate_edges(
    projection: WorldProjection,
    plane: int,
    polygon: Seq<PreviewClipVertex>,
    reach: Reach,
    n: nat,
)
    requires
        n <= polygon.len(),
        forall|i: int| 0 <= i < polygon.len() ==> is_moderate(#[trigger] polygon[i], reach),
        reach.distances_fit(projection),
    ensures
        forall|i: int|
            0 <= i < clipped_edges(projection, plane, polygon, n).len() ==> is_moderate(
                #[trigger] clipped_edges(projection, plane, polygon, n)[i],
                reach,
            ),
    decreases n,
{
    if n > 0 {
        lemma_moderate_edges(projection, plane, polygon, reach, (n - 1) as nat);
        let a = previous_corner(polygon, n - 1);
        assert(is_moderate(polygon[polygon.len() - 1], reach));
        assert(is_moderate(a, reach));
        lemma_moderate_edge(projection, plane, a, polygon[n - 1], reach);
        let before = clipped_edges(projection, plane, polygon, (n - 1) as nat);
        let added = clipped_edge(projection, plane, a, polygon[n - 1]);
        let all = clipped_edges(projection, plane, polygon, n);
        assert(all == before + added);
        assert forall|i: int| 0 <= i < all.len() implies is_moderate(#[trigger] all[i], reach) by {
            if i < before.len() {
                assert(all[i] == before[i]);
            } else {
                assert(all[i] == added[i - before.len()]);
            }
        }
    }
}

proof fn lemma_moderate_from_plane(
    projection: WorldProjection,
    plane: int,
    polygon: Seq<PreviewClipVertex>,
    reach: Reach,
)
    requires
        forall|i: int| 0 <= i < polygon.len() ==> is_moderate(#[trigger] polygon[i], reach),
        reach.distances_fit(projection),
    ensures
        can_be_clipped_from(projection, plane, polygon),
    decreases 5 - plane,
{
    if polygon.len() >= 3 && plane < 5 {
        assert forall|i: int| 0 <= i < polygon.len() implies can_be_cut(
            projection,
            plane,
            previous_corner(polygon, i),
            #[trigger] polygon[i],
        ) by {
            assert(is_moderate(polygon[polygon.len() - 1], reach));
            assert(is_moderate(previous_corner(polygon, i), reach));
            lemma_moderate_edge(
                projection,
                plane,
                previous_corner(polygon, i),
                polygon[i],
                reach,
            );
        }
        lemma_moderate_edges(projection, plane, polygon, reach, polygon.len());
        lemma_moderate_from_plane(
            projection,
            plane + 1,
            clipped_by_plane(projection, plane, polygon),
            reach,
        );
    }
}

/// A polygon can be clipped if its corners lie within a reach whose distances
/// can be scaled and their attributes are moderate, as those of level geometry
/// are.
pub proof fn law_moderate_polygon_can_be_clipped(
    projection: WorldProjection,
    polygon: Seq<PreviewClipVertex>,
    reach: Reach,
)
    requires
        forall|i: int| 0 <= i < polygon.len() ==> is_moderate(#[trigger] polygon[i], reach),
        reach.distances_fit(projection),
    ensures
        can_be_clipped(projection, polygon),
{
    lemma_moderate_from_plane(projection, 0, polygon, reach);
}

/// What a corner carries: its position, its texture coordinate and its colour.
pub open spec fn components(corner: PreviewClipVertex) -> Seq<int> {
    seq![
        corner.view.x as int,
        corner.view.y as int,
        corner.view.z as int,
        corner.u_q16 as int,
        corner.v_q16 as int,
        corner.r_q16 as int,
        corner.g_q16 as int,
        corner.b_q16 as int,
    ]
}

/// The corner that a plane cuts from an edge that crosses it.
pub open spec fn cut_corner(
    projection: WorldProjection,
    plane: int,
    a: PreviewClipVertex,
    b: PreviewClipVertex,
) -> PreviewClipVertex {
    clipped_edge(projection, plane, a, b)[0]
}

/// One end of an edge is inside a plane and the other one is not.
pub open spec fn crosses(
    projection: WorldProjection,
    plane: int,
    a: PreviewClipVertex,
    b: PreviewClipVertex,
) -> bool {
    (clip_distance(projection, plane, a.view) >= 0) != (clip_distance(projection, plane, b.view)
        >= 0)
}

proof fn lemma_cut_components(
    projection: WorldProjection,
    plane: int,
    a: PreviewClipVertex,
    b: PreviewClipVertex,
)
    requires
        crosses(projection, plane, a, b),
    ensures
        ({
            let t = crossing_q16(
                clip_distance(projection, plane, a.view),
                clip_distance(projection, plane, b.view),
            );
            let c = cut_corner(projection, plane, a, b);
            &&& 0 <= t <= 65536
            &&& forall|i: int|
                0 <= i < 8 ==> #[trigger] components(c)[i] == lerp_q16(
                    components(a)[i],
                    components(b)[i],
                    t,
                )
        }),
{
    let da = clip_distance(projection, plane, a.view);
    let db = clip_distance(projection, plane, b.view);
    let t = crossing_q16(da, db);
    lemma_crossing_range(da, db);
    lemma_lerp_between(a.view.x as int, b.view.x as int, t);
    lemma_lerp_between(a.view.y as int, b.view.y as int, t);
    lemma_lerp_between(a.view.z as int, b.view.z as int, t);
    lemma_lerp_between(a.u_q16 as int, b.u_q16 as int, t);
    lemma_lerp_between(a.v_q16 as int, b.v_q16 as int, t);
    lemma_lerp_between(a.r_q16 as int, b.r_q16 as int, t);
    lemma_lerp_between(a.g_q16 as int, b.g_q16 as int, t);
    lemma_lerp_between(a.b_q16 as int, b.b_q16 as int, t);
    assert(cut_corner(projection, plane, a, b) == interpolated(a, b, t));
    let c = interpolated(a, b, t);
    assert(components(c) =~= Seq::new(
        8,
        |i: int| lerp_q16(components(a)[i], components(b)[i], t),
    ));
}

/// What an interpolated value misses is less than one.
proof fn lemma_lerp_error(x: int, y: int, t: int)
    requires
        0 <= t <= 65536,
    ensures
        abs_int((lerp_q16(x, y, t) - x) * 65536 - (y - x) * t) < 65536,
        y >= x ==> (lerp_q16(x, y, t) - x) * 65536 <= (y - x) * t,
        y <= x ==> (lerp_q16(x, y, t) - x) * 65536 >= (y - x) * t,
{
    let p = (y - x) * t;
    if y >= x {
        assert(p >= 0) by (nonlinear_arith)
            requires
                p == (y - x) * t,
                y >= x,
                t >= 0,
        ;
    }
    if y <= x {
        assert(p <= 0) by (nonlinear_arith)
            requires
                p == (y - x) * t,
                y <= x,
                t >= 0,
        ;
    }
}

/// A corner that a plane cuts from an edge lies the same part of the way between
/// the ends of the edge in everything that it carries, up to rounding: how far
/// one component went of its way is how far any other went of its own. No
/// component leaves the range between the ends.
pub proof fn law_cut_corner_keeps_proportion(
    projection: WorldProjection,
    plane: int,
    a: PreviewClipVertex,
    b: PreviewClipVertex,
    i: int,
    j: int,
)
    requires
        crosses(projection, plane, a, b),
        0 <= i < 8,
        0 <= j < 8,
    ensures
        ({
            let c = components(cut_corner(projection, plane, a, b));
            let from = components(a);
            let to = components(b);
            let wi = to[i] - from[i];
            let wj = to[j] - from[j];
            &&& abs_int((c[i] - from[i]) * wj - (c[j] - from[j]) * wi) <= abs_int(wi) + abs_int(wj)
            &&& from[i] <= c[i] <= to[i] || to[i] <= c[i] <= from[i]
        }),
{
    lemma_cut_components(projection, plane, a, b);
    let t = crossing_q16(
        clip_distance(projection, plane, a.view),
        clip_distance(projection, plane, b.view),
    );
    let c = components(cut_corner(projection, plane, a, b));
    let from = components(a);
    let to = components(b);
    assert(c[i] == lerp_q16(from[i], to[i], t));
    assert(c[j] == lerp_q16(from[j], to[j], t));
    let wi = to[i] - from[i];
    let wj = to[j] - from[j];
    lemma_lerp_between(from[i], to[i], t);
    lemma_lerp_error(from[i], to[i], t);
    lemma_lerp_error(from[j], to[j], t);
    lemma_proportion(c[i] - from[i], c[j] - from[j], wi, wj, t);
}

proof fn lemma_proportion(pi: int, pj: int, wi: int, wj: int, t: int)
    requires
        abs_int(pi * 65536 - wi * t) < 65536,
        abs_int(pj * 65536 - wj * t) < 65536,
    ensures
        abs_int(pi * wj - pj * wi) <= abs_int(wi) + abs_int(wj),
{
    let ei = pi * 65536 - wi * t;
    let ej = pj * 65536 - wj * t;
    let d = pi * wj - pj * wi;
    assert(d * 65536 == ei * wj - ej * wi) by (nonlinear_arith)
        requires
            d == pi * wj - pj * wi,
            ei == pi * 65536 - wi * t,
            ej == pj * 65536 - wj * t,
    ;
    lemma_product_bound(ei, wj);
    lemma_product_bound(ej, wi);
}

proof fn lemma_product_bound(e: int, w: int)
    requires
        abs_int(e) <= 65536,
    ensures
        -65536 * abs_int(w) <= e * w <= 65536 * abs_int(w),
{
    let m = abs_int(w);
    assert(-65536 * m <= e * w <= 65536 * m) by (nonlinear_arith)
        requires
            -65536 <= e <= 65536,
            m == w || m == -w,
            m >= 0,
    ;
}

proof fn lemma_crossing_turns(da: int, db: int)
    requires
        (da >= 0) != (db >= 0),
    ensures
        crossing_q16(db, da) == 65536 - crossing_q16(da, db),
        da == -db ==> crossing_q16(da, db) == 32768,
        abs_int(crossing_q16(da, db) * (da - db) - da * 65536) <= abs_int(da - db),
        crossing_q16(da, db) * (if da >= 0 {
            da - db
        } else {
            db - da
        }) <= da * 65536 || da < 0,
        da < 0 ==> crossing_q16(da, db) * (db - da) >= -da * 65536,
{
    if da >= 0 {
        let d = da - db;
        lemma_cut_fraction(da, d);
        assert(-db == d - da);
    } else {
        let d = db - da;
        lemma_cut_fraction(db, d);
        assert(-da == d - db);
        let t = crossing_q16(db, da);
        assert((65536 - t) * d == 65536 * d - t * d) by (nonlinear_arith);
        assert((65536 - t) * (da - db) == -((65536 - t) * d)) by (nonlinear_arith)
            requires
                d == db - da,
        ;
    }
}

/// The part `inside / whole` rounded down, and the rest of one rounded up.
proof fn lemma_cut_fraction(inside: int, whole: int)
    requires
        0 <= inside < whole,
    ensures
        ({
            let down = (inside * 65536) / whole;
            let up = ((whole - inside) * 65536 + whole - 1) / whole;
            &&& up == 65536 - down
            &&& down * whole <= inside * 65536
            &&& inside * 65536 - down * whole <= whole
            &&& 2 * inside == whole ==> down == 32768
        }),
{
    let n = inside * 65536;
    let down = n / whole;
    let r = n % whole;
    assert(n == down * whole + r && 0 <= r < whole) by (nonlinear_arith)
        requires
            down == n / whole,
            r == n % whole,
            whole > 0,
    ;
    let m = (whole - inside) * 65536 + whole - 1;
    assert(m == (65536 - down) * whole + (whole - 1 - r)) by (nonlinear_arith)
        requires
            m == (whole - inside) * 65536 + whole - 1,
            n == inside * 65536,
            n == down * whole + r,
    ;
    vstd::arithmetic::div_mod::lemma_fundamental_div_mod_converse(
        m,
        whole,
        65536 - down,
        whole - 1 - r,
    );
    if 2 * inside == whole {
        assert(n == 32768 * whole);
        vstd::arithmetic::div_mod::lemma_fundamental_div_mod_converse(n, whole, 32768, 0);
    }
}

/// Cutting an edge from either end gives the same corner, up to rounding, and a
/// cut half way gives the mean of the ends.
pub proof fn law_cut_is_the_same_from_both_ends(
    projection: WorldProjection,
    plane: int,
    a: PreviewClipVertex,
    b: PreviewClipVertex,
    i: int,
)
    requires
        crosses(projection, plane, a, b),
        0 <= i < 8,
    ensures
        ({
            let there = components(cut_corner(projection, plane, a, b))[i];
            let back = components(cut_corner(projection, plane, b, a))[i];
            &&& abs_int(there - back) <= 1
            &&& clip_distance(projection, plane, a.view) == -clip_distance(
                projection,
                plane,
                b.view,
            ) ==> abs_int(2 * there - (components(a)[i] + components(b)[i])) <= 1
        }),
{
    lemma_cut_components(projection, plane, a, b);
    lemma_cut_components(projection, plane, b, a);
    let da = clip_distance(projection, plane, a.view);
    let db = clip_distance(projection, plane, b.view);
    lemma_crossing_turns(da, db);
    let t = crossing_q16(da, db);
    let x = components(a)[i];
    let y = components(b)[i];
    let there = components(cut_corner(projection, plane, a, b))[i];
    let back = components(cut_corner(projection, plane, b, a))[i];
    assert(there == lerp_q16(x, y, t));
    assert(back == lerp_q16(y, x, 65536 - t));
    lemma_lerp_error(x, y, t);
    lemma_lerp_error(y, x, 65536 - t);
    assert((x - y) * (65536 - t) == (x - y) * 65536 + (y - x) * t) by (nonlinear_arith);
    if da == -db {
        assert((y - x) * t == (y - x) * 32768);
    }
}

/// A corner that is cut lies on the plane, up to rounding: where the distances of
/// the ends say that the edge meets it.
pub proof fn law_cut_lies_where_the_edge_meets_the_plane(
    projection: WorldProjection,
    plane: int,
    a: PreviewClipVertex,
    b: PreviewClipVertex,
    i: int,
)
    requires
        crosses(projection, plane, a, b),
        0 <= i < 8,
    ensures
        ({
            let c = components(cut_corner(projection, plane, a, b))[i];
            let x = components(a)[i];
            let w = components(b)[i] - x;
            let da = clip_distance(projection, plane, a.view);
            let d = da - clip_distance(projection, plane, b.view);
            abs_int((c - x) * d - w * da) * 65536 <= abs_int(d) * (abs_int(w) + 65536)
        }),
{
    lemma_cut_components(projection, plane, a, b);
    let da = clip_distance(projection, plane, a.view);
    let db = clip_distance(projection, plane, b.view);
    lemma_crossing_turns(da, db);
    let t = crossing_q16(da, db);
    let x = components(a)[i];
    let y = components(b)[i];
    let w = y - x;
    let d = da - db;
    let c = components(cut_corner(projection, plane, a, b))[i];
    assert(c == lerp_q16(x, y, t));
    lemma_lerp_error(x, y, t);
    let e = (c - x) * 65536 - w * t;
    let f = t * d - da * 65536;
    let miss = (c - x) * d - w * da;
    assert(miss * 65536 == e * d + w * f) by (nonlinear_arith)
        requires
            miss == (c - x) * d - w * da,
            e == (c - x) * 65536 - w * t,
            f == t * d - da * 65536,
    ;
    lemma_product_bound(e, d);
    let m = abs_int(d);
    let n = abs_int(w);
    assert(-(m * n) <= w * f <= m * n) by (nonlinear_arith)
        requires
            -m <= f <= m,
            n == w || n == -w,
            n >= 0,
    ;
    assert(m * (n + 65536) == m * n + m * 65536) by (nonlinear_arith);
}

/// A corner is inside a plane exactly if it is not nearer than the near plane, or
/// if its place on the screen is not beyond the guarded edge: left, right, top
/// or bottom.
pub proof fn law_planes_bound_the_screen(projection: WorldProjection, view: ViewVertex)
    ensures
        ({
            let focal = max_int(projection.focal_length as int, 1);
            let inside = |plane: int| clip_distance(projection, plane, view) >= 0;
            &&& inside(0) <==> view.z >= projection.near_z
            &&& inside(1) <==> focal * view.x >= -176 * view.z
            &&& inside(2) <==> focal * view.x <= 176 * view.z
            &&& inside(3) <==> focal * view.y >= -136 * view.z
            &&& inside(4) <==> focal * view.y <= 136 * view.z
        }),
{
}

/// How much rounding can move a corner across a plane.
pub open spec fn plane_slack(projection: WorldProjection) -> int {
    max_int(projection.focal_length as int, 1) + SCREEN_CX + PREVIEW_CLIP_EDGE_MARGIN
}

proof fn lemma_cut_distance(
    projection: WorldProjection,
    cut: int,
    plane: int,
    a: PreviewClipVertex,
    b: PreviewClipVertex,
    least: int,
)
    requires
        0 <= cut < 5,
        0 <= plane < 5,
        crosses(projection, cut, a, b),
        plane != cut ==> clip_distance(projection, plane, a.view) >= least && clip_distance(
            projection,
            plane,
            b.view,
        ) >= least,
        plane == cut ==> least <= 0,
    ensures
        clip_distance(projection, plane, cut_corner(projection, cut, a, b).view) >= least
            - plane_slack(projection),
{
    lemma_cut_components(projection, cut, a, b);
    let da = clip_distance(projection, cut, a.view);
    let db = clip_distance(projection, cut, b.view);
    let t = crossing_q16(da, db);
    let c = cut_corner(projection, cut, a, b);
    lemma_crossing_turns(da, db);
    let ca = components(a);
    let cb = components(b);
    let cc = components(c);
    assert(cc[0] == lerp_q16(ca[0], cb[0], t));
    assert(cc[1] == lerp_q16(ca[1], cb[1], t));
    assert(cc[2] == lerp_q16(ca[2], cb[2], t));
    lemma_lerp_error(ca[0], cb[0], t);
    lemma_lerp_error(ca[1], cb[1], t);
    lemma_lerp_error(ca[2], cb[2], t);
    let pa = clip_distance(projection, plane, a.view);
    let pb = clip_distance(projection, plane, b.view);
    let pc = clip_distance(projection, plane, c.view);
    let focal = max_int(projection.focal_length as int, 1);
    let sx = if plane == 1 {
        focal
    } else if plane == 2 {
        -focal
    } else {
        0
    };
    let sy = if plane == 3 {
        focal
    } else if plane == 4 {
        -focal
    } else {
        0
    };
    let sz = if plane == 0 {
        1int
    } else if plane <= 2 {
        176
    } else {
        136
    };
    let k = if plane == 0 {
        -projection.near_z as int
    } else {
        0
    };
    lemma_plane_is_flat(projection, plane, a.view, sx, sy, sz, k);
    lemma_plane_is_flat(projection, plane, b.view, sx, sy, sz, k);
    lemma_plane_is_flat(projection, plane, c.view, sx, sy, sz, k);
    let ex = (cc[0] - ca[0]) * 65536 - (cb[0] - ca[0]) * t;
    let ey = (cc[1] - ca[1]) * 65536 - (cb[1] - ca[1]) * t;
    let ez = (cc[2] - ca[2]) * 65536 - (cb[2] - ca[2]) * t;
    lemma_axis(sx, ca[0], cb[0], cc[0], t);
    lemma_axis(sy, ca[1], cb[1], cc[1], t);
    lemma_axis(sz, ca[2], cb[2], cc[2], t);
    let wx = sx * cb[0] - sx * ca[0];
    let wy = sy * cb[1] - sy * ca[1];
    let wz = sz * cb[2] - sz * ca[2];
    assert(pb - pa == wx + wy + wz);
    assert((wx + wy + wz) * t == wx * t + wy * t + wz * t) by (nonlinear_arith);
    assert((pc - pa) * 65536 - (pb - pa) * t == sx * ex + sy * ey + sz * ez);
    lemma_product_bound(ex, sx);
    lemma_product_bound(ey, sy);
    lemma_product_bound(ez, sz);
    assert(ex * sx == sx * ex && ey * sy == sy * ey && ez * sz == sz * ez) by (nonlinear_arith);
    assert(abs_int(sx) + abs_int(sy) + abs_int(sz) <= plane_slack(projection));
    if plane == cut {
        assert(pa == da && pb == db);
        if da >= 0 {
            assert((pb - pa) * t >= -(pa * 65536)) by (nonlinear_arith)
                requires
                    t * (pa - pb) <= pa * 65536,
            ;
        } else {
            assert((pb - pa) * t >= -(pa * 65536)) by (nonlinear_arith)
                requires
                    t * (pb - pa) >= -pa * 65536,
            ;
        }
    } else {
        assert(pa * (65536 - t) + pb * t >= least * 65536) by (nonlinear_arith)
            requires
                pa >= least,
                pb >= least,
                0 <= t <= 65536,
        ;
        assert(pa * (65536 - t) + pb * t == pa * 65536 + (pb - pa) * t) by (nonlinear_arith);
    }
}

proof fn lemma_axis(s: int, a: int, b: int, c: int, t: int)
    ensures
        s * ((c - a) * 65536 - (b - a) * t) == (s * c - s * a) * 65536 - (s * b - s * a) * t,
{
    assert(s * ((c - a) * 65536) == (s * c - s * a) * 65536) by (nonlinear_arith);
    assert(s * ((b - a) * t) == (s * b - s * a) * t) by (nonlinear_arith);
    let x = (c - a) * 65536;
    let y = (b - a) * t;
    assert(s * (x - y) == s * x - s * y) by (nonlinear_arith);
}

proof fn lemma_plane_is_flat(
    projection: WorldProjection,
    plane: int,
    view: ViewVertex,
    sx: int,
    sy: int,
    sz: int,
    k: int,
)
    requires
        0 <= plane < 5,
        ({
            let focal = max_int(projection.focal_length as int, 1);
            &&& sx == if plane == 1 {
                focal
            } else if plane == 2 {
                -focal
            } else {
                0
            }
            &&& sy == if plane == 3 {
                focal
            } else if plane == 4 {
                -focal
            } else {
                0
            }
            &&& sz == if plane == 0 {
                1int
            } else if plane <= 2 {
                176
            } else {
                136
            }
            &&& k == if plane == 0 {
                -projection.near_z as int
            } else {
                0
            }
        }),
    ensures
        clip_distance(projection, plane, view) == sx * view.x + sy * view.y + sz * view.z + k,
{
    let focal = max_int(projection.focal_length as int, 1);
    assert((-focal) * view.x == -(focal * view.x)) by (nonlinear_arith);
    assert((-focal) * view.y == -(focal * view.y)) by (nonlinear_arith);
    assert(0 * view.x == 0 && 0 * view.y == 0);
}

/// Every corner lies inside the first planes, up to so much rounding.
spec fn corners_in_view(
    projection: WorldProjection,
    planes: int,
    polygon: Seq<PreviewClipVertex>,
    slack: int,
) -> bool {
    forall|i: int, plane: int|
        0 <= i < polygon.len() && 0 <= plane < planes ==> #[trigger] clip_distance(
            projection,
            plane,
            (#[trigger] polygon[i]).view,
        ) >= -slack
}

proof fn lemma_edges_in_view(
    projection: WorldProjection,
    plane: int,
    polygon: Seq<PreviewClipVertex>,
    slack: int,
    n: nat,
)
    requires
        0 <= plane < 5,
        n <= polygon.len(),
        slack >= 0,
        corners_in_view(projection, plane, polygon, slack),
    ensures
        corners_in_view(
            projection,
            plane + 1,
            clipped_edges(projection, plane, polygon, n),
            slack + plane_slack(projection),
        ),
    decreases n,
{
    if n > 0 {
        lemma_edges_in_view(projection, plane, polygon, slack, (n - 1) as nat);
        let before = clipped_edges(projection, plane, polygon, (n - 1) as nat);
        let a = previous_corner(polygon, n - 1);
        let b = polygon[n - 1];
        let added = clipped_edge(projection, plane, a, b);
        let all = clipped_edges(projection, plane, polygon, n);
        assert(all == before + added);
        let bound = slack + plane_slack(projection);
        assert forall|i: int, p: int|
            0 <= i < all.len() && 0 <= p < plane + 1 implies #[trigger] clip_distance(
            projection,
            p,
            (#[trigger] all[i]).view,
        ) >= -bound by {
            if i < before.len() {
                assert(all[i] == before[i]);
            } else {
                let c = added[i - before.len()];
                assert(all[i] == c);
                if c == b && clip_distance(projection, plane, b.view) >= 0 {
                    if p < plane {
                        assert(clip_distance(projection, p, polygon[n - 1].view) >= -slack);
                    }
                } else {
                    assert(crosses(projection, plane, a, b));
                    assert(c == cut_corner(projection, plane, a, b));
                    if p < plane {
                        assert(clip_distance(projection, p, polygon[polygon.len() - 1].view)
                            >= -slack);
                        if n >= 2 {
                            assert(clip_distance(projection, p, polygon[n - 2].view) >= -slack);
                        }
                        assert(clip_distance(projection, p, polygon[n - 1].view) >= -slack);
                        lemma_cut_distance(projection, plane, p, a, b, -slack);
                    } else {
                        lemma_cut_distance(projection, plane, p, a, b, 0);
                    }
                }
            }
        }
    }
}

proof fn lemma_polygon_in_view(
    projection: WorldProjection,
    plane: int,
    polygon: Seq<PreviewClipVertex>,
)
    requires
        0 <= plane <= 5,
        corners_in_view(projection, plane, polygon, plane * plane_slack(projection)),
    ensures
        corners_in_view(
            projection,
            5,
            clipped_from_plane(projection, plane, polygon),
            5 * plane_slack(projection),
        ),
    decreases 5 - plane,
{
    if polygon.len() >= 3 && plane < 5 {
        let unit = plane_slack(projection);
        assert(plane * unit >= 0) by (nonlinear_arith)
            requires
                plane >= 0,
                unit >= 0,
        ;
        assert((plane + 1) * unit == plane * unit + unit) by (nonlinear_arith);
        lemma_edges_in_view(projection, plane, polygon, plane * unit, polygon.len());
        lemma_polygon_in_view(
            projection,
            plane + 1,
            clipped_by_plane(projection, plane, polygon),
        );
    }
}

/// What is left of a polygon lies inside every plane: no corner is beyond one by
/// more than rounding can move it.
pub proof fn law_clipped_polygon_lies_in_view(
    projection: WorldProjection,
    polygon: Seq<PreviewClipVertex>,
)
    ensures
        forall|i: int, plane: int|
            0 <= i < clipped_polygon(projection, polygon).len() && 0 <= plane < 5
                ==> #[trigger] clip_distance(
                projection,
                plane,
                (#[trigger] clipped_polygon(projection, polygon)[i]).view,
            ) >= -5 * plane_slack(projection),
{
    assert(0 * plane_slack(projection) == 0);
    lemma_polygon_in_view(projection, 0, polygon);
}

proof fn lemma_inside_kept_by_plane(
    projection: WorldProjection,
    plane: int,
    polygon: Seq<PreviewClipVertex>,
    corner: PreviewClipVertex,
    n: nat,
)
    requires
        n <= polygon.len(),
        polygon.take(n as int).contains(corner),
        clip_distance(projection, plane, corner.view) >= 0,
    ensures
        clipped_edges(projection, plane, polygon, n).contains(corner),
    decreases n,
{
    let i = choose|i: int| 0 <= i < n && polygon.take(n as int)[i] == corner;
    assert(polygon[i] == corner);
    let before = clipped_edges(projection, plane, polygon, (n - 1) as nat);
    let added = clipped_edge(
        projection,
        plane,
        previous_corner(polygon, n - 1),
        polygon[n - 1],
    );
    let all = clipped_edges(projection, plane, polygon, n);
    if i == n - 1 {
        assert(added.last() == corner);
        assert(all[all.len() - 1] == corner);
    } else {
        assert(polygon.take(n - 1)[i] == corner);
        lemma_inside_kept_by_plane(projection, plane, polygon, corner, (n - 1) as nat);
        let k = choose|k: int| 0 <= k < before.len() && before[k] == corner;
        assert(all[k] == corner);
    }
}

proof fn lemma_inside_kept(
    projection: WorldProjection,
    plane: int,
    polygon: Seq<PreviewClipVertex>,
    corner: PreviewClipVertex,
)
    requires
        0 <= plane <= 5,
        polygon.contains(corner),
        corner_inside(projection, corner),
        clipped_from_plane(projection, plane, polygon).len() > 0,
    ensures
        clipped_from_plane(projection, plane, polygon).contains(corner),
    decreases 5 - plane,
{
    if plane < 5 {
        assert(polygon.take(polygon.len() as int) =~= polygon);
        assert(clip_distance(projection, plane, corner.view) >= 0);
        lemma_inside_kept_by_plane(projection, plane, polygon, corner, polygon.len());
        lemma_inside_kept(
            projection,
            plane + 1,
            clipped_by_plane(projection, plane, polygon),
            corner,
        );
    }
}

/// A corner inside every plane is a corner of what is left, unless nothing is.
pub proof fn law_visible_corners_are_kept(
    projection: WorldProjection,
    polygon: Seq<PreviewClipVertex>,
    corner: PreviewClipVertex,
)
    requires
        polygon.contains(corner),
        corner_inside(projection, corner),
        clipped_polygon(projection, polygon).len() > 0,
    ensures
        clipped_polygon(projection, polygon).contains(corner),
{
    lemma_inside_kept(projection, 0, polygon, corner);
}

} // verus!
