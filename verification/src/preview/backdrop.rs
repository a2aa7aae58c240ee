//! What is drawn behind the geometry: the cleared screen, the sky, the far
//! vista.

use crate::math::{
    abs_int, clamp_i32, clamp_int, law_division_rounds_toward_zero, saturate_i32,
    saturating_add_i32, trunc_div,
};
use crate::preview::grid::ResourceId;
use crate::preview::material::{BlendMode, MaterialSlot};
use crate::preview::primitives::{
    lemma_extends_twice, preview_texture_material, push_textured_material_tri, surface_material,
    triangle_packets, Paint, PreviewScratch, PreviewTriangle, TrianglePacket,
    PREVIEW_ORDERING_SLOTS,
};
use crate::preview::screen::{Projected, PROJ_H, SCREEN_CX, SCREEN_CY, SCREEN_H, SCREEN_W};
use crate::textures::editor::EditorTextures;
use vstd::prelude::*;

verus! {

/// The words of the packet that fills the screen with a colour: command and
/// colour, corner, size.
pub fn clear_packet(color: [u8; 3]) -> (words: [u32; 3])
    ensures
        words@[0] == 0x0200_0000 + color@[0] + 0x100 * color@[1] + 0x1_0000 * color@[2],
        words@[1] == 0,
        words@[2] == 240 * 0x1_0000 + 320,
{
    let r: u32 = color[0] as u32;
    let g: u32 = color[1] as u32;
    let b: u32 = color[2] as u32;
    assert(0x0200_0000 | r | (g << 8) | (b << 16) == 0x0200_0000 + r + 0x100 * g + 0x1_0000 * b
        && (240u32 << 16) | 320 == 240 * 0x1_0000 + 320) by (bit_vector)
        requires
            r <= 255,
            g <= 255,
            b <= 255,
    ;
    [0x0200_0000 | r | (g << 8) | (b << 16), 0, (240u32 << 16) | 320]
}

/// A direction seen by the camera: right, up and into the screen.
#[derive(Clone, Copy, Debug, PartialEq, Eq, Structural)]
pub struct ViewDirection {
    pub x: i32,
    pub y: i32,
    pub z: i32,
}

impl ViewDirection {
    /// Projecting the direction stays in range.
    pub open spec fn wf(self) -> bool {
        &&& -6_000_000 <= self.x <= 6_000_000
        &&& -6_000_000 <= self.y <= 6_000_000
    }
}

/// A level direction's parts times the sine and cosine of the camera's yaw.
#[derive(Clone, Copy, Debug, PartialEq, Eq, Structural)]
pub struct YawProducts {
    pub x_cos: i32,
    pub x_sin: i32,
    pub z_cos: i32,
    pub z_sin: i32,
}

/// A turned direction's parts times the sine and cosine of the camera's pitch.
#[derive(Clone, Copy, Debug, PartialEq, Eq, Structural)]
pub struct PitchProducts {
    pub y_cos: i32,
    pub y_sin: i32,
    pub z_cos: i32,
    pub z_sin: i32,
}

/// The parts of a direction to the right and into the screen, after the
/// camera's yaw.
pub fn turned_direction(products: YawProducts) -> (parts: (i32, i32))
    requires
        i32::MIN <= products.x_cos - products.z_sin <= i32::MAX,
        i32::MIN < products.x_sin,
        i32::MIN <= -products.x_sin - products.z_cos <= i32::MAX,
    ensures
        parts.0 == products.x_cos - products.z_sin,
        parts.1 == -products.x_sin - products.z_cos,
{
    (products.x_cos - products.z_sin, -products.x_sin - products.z_cos)
}

/// A direction after the camera's pitch, given its part to the right.
pub fn tilted_direction(x: i32, products: PitchProducts) -> (direction: ViewDirection)
    requires
        i32::MIN <= products.y_cos - products.z_sin <= i32::MAX,
        i32::MIN <= products.y_sin + products.z_cos <= i32::MAX,
    ensures
        direction.x == x,
        direction.y == products.y_cos - products.z_sin,
        direction.z == products.y_sin + products.z_cos,
{
    ViewDirection { x, y: products.y_cos - products.z_sin, z: products.y_sin + products.z_cos }
}

/// Where a direction meets the screen, kept near it; nowhere if it does not
/// point far enough forward.
pub open spec fn direction_point(direction: ViewDirection, near_z: i32) -> Option<(i16, i16)> {
    if direction.z <= near_z {
        None
    } else {
        Some(
            (
                clamp_int(160 + trunc_div(direction.x * 320, direction.z as int), -512, 831) as i16,
                clamp_int(120 - trunc_div(direction.y * 320, direction.z as int), -256, 495) as i16,
            ),
        )
    }
}

/// Where a direction meets the screen.
pub fn preview_project_cyclorama_direction(direction: ViewDirection, near_z: i32) -> (point: Option<
    (i16, i16),
>)
    requires
        direction.wf(),
        near_z >= 0,
    ensures
        point == direction_point(direction, near_z),
{
    if direction.z <= near_z {
        return None;
    }
    let across: i32 = (direction.x * PROJ_H) / direction.z;
    let up: i32 = (direction.y * PROJ_H) / direction.z;
    proof {
        lemma_quotient(direction.x * 320, direction.z as int);
        lemma_quotient(direction.y * 320, direction.z as int);
    }
    let sx: i32 = SCREEN_CX + across;
    let sy: i32 = SCREEN_CY - up;
    Some((clamp_i32(sx, -512, 831) as i16, clamp_i32(sy, -256, 495) as i16))
}

proof fn lemma_quotient(a: int, b: int)
    requires
        b > 0,
        -2_000_000_000 <= a <= 2_000_000_000,
    ensures
        -2_000_000_000 <= trunc_div(a, b) <= 2_000_000_000,
{
    assert(a >= 0 ==> 0 <= a / b <= a) by (nonlinear_arith)
        requires
            b > 0,
    ;
    assert(a < 0 ==> 0 <= (-a) / b <= -a) by (nonlinear_arith)
        requires
            b > 0,
    ;
}

/// The corners of a sky quad on the screen, if each of them is there.
pub fn preview_project_cyclorama_quad(directions: [ViewDirection; 4], near_z: i32) -> (points:
    Option<[(i16, i16); 4]>)
    requires
        near_z >= 0,
        forall|i: int| 0 <= i < 4 ==> (#[trigger] directions@[i]).wf(),
    ensures
        match points {
            Some(points) => forall|i: int|
                0 <= i < 4 ==> direction_point(directions@[i], near_z) == Some(
                    #[trigger] points@[i],
                ),
            None => exists|i: int|
                0 <= i < 4 && direction_point(#[trigger] directions@[i], near_z) is None,
        },
{
    assert(directions@[0].wf() && directions@[1].wf() && directions@[2].wf()
        && directions@[3].wf());
    let a = preview_project_cyclorama_direction(directions[0], near_z);
    let b = preview_project_cyclorama_direction(directions[1], near_z);
    let c = preview_project_cyclorama_direction(directions[2], near_z);
    let d = preview_project_cyclorama_direction(directions[3], near_z);
    match (a, b, c, d) {
        (Some(a), Some(b), Some(c), Some(d)) => {
            let points = [a, b, c, d];
            proof {
                assert forall|i: int| 0 <= i < 4 implies direction_point(directions@[i], near_z)
                    == Some(#[trigger] points@[i]) by {
                    assert(i == 0 || i == 1 || i == 2 || i == 3);
                }
            }
            Some(points)
        },
        _ => {
            assert(direction_point(directions@[0], near_z) is None || direction_point(
                directions@[1],
                near_z,
            ) is None || direction_point(directions@[2], near_z) is None || direction_point(
                directions@[3],
                near_z,
            ) is None);
            None
        },
    }
}

/// A quad lies wholly on one side of the screen.
pub open spec fn outside_screen(points: Seq<(i16, i16)>) -> bool {
    ||| forall|i: int| 0 <= i < 4 ==> (#[trigger] points[i]).0 < 0
    ||| forall|i: int| 0 <= i < 4 ==> (#[trigger] points[i]).0 >= SCREEN_W
    ||| forall|i: int| 0 <= i < 4 ==> (#[trigger] points[i]).1 < 0
    ||| forall|i: int| 0 <= i < 4 ==> (#[trigger] points[i]).1 >= SCREEN_H
}

/// Whether a quad lies wholly on one side of the screen.
pub fn preview_cyclorama_quad_outside_screen(points: [(i16, i16); 4]) -> (outside: bool)
    ensures
        outside == outside_screen(points@),
{
    let mut left = true;
    let mut right = true;
    let mut above = true;
    let mut below = true;
    let mut i: usize = 0;
    while i < 4
        invariant
            i <= 4,
            left == forall|j: int| 0 <= j < i ==> (#[trigger] points@[j]).0 < 0,
            right == forall|j: int| 0 <= j < i ==> (#[trigger] points@[j]).0 >= SCREEN_W,
            above == forall|j: int| 0 <= j < i ==> (#[trigger] points@[j]).1 < 0,
            below == forall|j: int| 0 <= j < i ==> (#[trigger] points@[j]).1 >= SCREEN_H,
        decreases 4 - i,
    {
        let (x, y) = points[i];
        left = left && x < 0;
        right = right && x as i32 >= SCREEN_W;
        above = above && y < 0;
        below = below && y as i32 >= SCREEN_H;
        assert(points@[i as int] == (x, y));
        i = i + 1;
    }
    left || right || above || below
}

/// A quad of the sky or the vista.
#[derive(Clone, Copy, Debug, PartialEq, Eq)]
pub struct BackdropQuad {
    pub xy: [(i16, i16); 4],
    pub colors: [[u8; 3]; 4],
}

/// Queues a quad if there is room.
pub fn push_backdrop_quad(quads: &mut Vec<BackdropQuad>, cap: usize, quad: BackdropQuad) -> (queued:
    bool)
    ensures
        queued == (old(quads)@.len() < cap),
        final(quads)@ == if queued {
            old(quads)@.push(quad)
        } else {
            old(quads)@
        },
{
    if quads.len() >= cap {
        return false;
    }
    quads.push(quad);
    true
}

/// A quad of the sky: the directions of its corners and their colours.
#[derive(Clone, Copy, Debug, PartialEq, Eq)]
pub struct SkyQuad {
    pub directions: [ViewDirection; 4],
    pub colors: [[u8; 3]; 4],
}

impl SkyQuad {
    /// Projecting the corners stays in range.
    pub open spec fn wf(self) -> bool {
        forall|i: int| 0 <= i < 4 ==> (#[trigger] self.directions@[i]).wf()
    }
}

/// A sky quad on the screen, if all of it lies in front and any of it on the
/// screen.
pub open spec fn seen_sky_quad(sky: SkyQuad, near_z: i32) -> Option<BackdropQuad> {
    let a = direction_point(sky.directions@[0], near_z);
    let b = direction_point(sky.directions@[1], near_z);
    let c = direction_point(sky.directions@[2], near_z);
    let d = direction_point(sky.directions@[3], near_z);
    if a is None || b is None || c is None || d is None || outside_screen(
        seq![a->0, b->0, c->0, d->0],
    ) {
        None
    } else {
        Some(BackdropQuad { xy: [a->0, b->0, c->0, d->0], colors: sky.colors })
    }
}

/// Queues a quad of the sky, if all of it lies in front and any of it on the
/// screen.
pub fn push_sky_quad(quads: &mut Vec<BackdropQuad>, cap: usize, sky: SkyQuad, near_z: i32) -> (queued:
    bool)
    requires
        near_z >= 0,
        sky.wf(),
    ensures
        queued == (old(quads)@.len() < cap && seen_sky_quad(sky, near_z) is Some),
        final(quads)@ == if queued {
            old(quads)@.push(seen_sky_quad(sky, near_z)->0)
        } else {
            old(quads)@
        },
{
    let xy = match preview_project_cyclorama_quad(sky.directions, near_z) {
        Some(xy) => xy,
        None => {
            proof {
                let i = choose|i: int|
                    0 <= i < 4 && direction_point(#[trigger] sky.directions@[i], near_z) is None;
                assert(i == 0 || i == 1 || i == 2 || i == 3);
            }
            return false;
        },
    };
    proof {
        assert(direction_point(sky.directions@[0], near_z) == Some(xy@[0]));
        assert(direction_point(sky.directions@[1], near_z) == Some(xy@[1]));
        assert(direction_point(sky.directions@[2], near_z) == Some(xy@[2]));
        assert(direction_point(sky.directions@[3], near_z) == Some(xy@[3]));
        assert(xy@ =~= seq![xy@[0], xy@[1], xy@[2], xy@[3]]);
        assert(xy =~= [xy@[0], xy@[1], xy@[2], xy@[3]]);
    }
    if preview_cyclorama_quad_outside_screen(xy) {
        return false;
    }
    push_backdrop_quad(quads, cap, BackdropQuad { xy, colors: sky.colors })
}

/// As many of the first quads as there is room for.
pub open spec fn as_far_as(quads: Seq<BackdropQuad>, cap: int) -> Seq<BackdropQuad> {
    if quads.len() <= cap {
        quads
    } else {
        quads.take(cap)
    }
}

/// The quads of the sky that are seen, last of them first.
pub open spec fn sky_quads(sky: Seq<SkyQuad>, near_z: i32, count: int) -> Seq<BackdropQuad>
    decreases count,
{
    if count <= 0 {
        Seq::empty()
    } else {
        let rest = sky_quads(sky, near_z, count - 1);
        match seen_sky_quad(sky[count - 1], near_z) {
            Some(quad) => seq![quad] + rest,
            None => rest,
        }
    }
}

/// Queues the sky, unless it is switched off: the last quad first, as far as
/// there is room.
pub fn push_cyclorama(
    quads: &mut Vec<BackdropQuad>,
    cap: usize,
    enabled: bool,
    sky: &Vec<SkyQuad>,
    near_z: i32,
)
    requires
        near_z >= 0,
        old(quads)@.len() <= cap,
        forall|i: int| 0 <= i < sky@.len() ==> (#[trigger] sky@[i]).wf(),
    ensures
        final(quads)@ == if enabled {
            as_far_as(old(quads)@ + sky_quads(sky@, near_z, sky@.len() as int), cap as int)
        } else {
            old(quads)@
        },
{
    if !enabled {
        return;
    }
    let ghost start = quads@;
    let ghost all = start + sky_quads(sky@, near_z, sky@.len() as int);
    let mut left: usize = sky.len();
    while left > 0
        invariant
            left <= sky@.len(),
            near_z >= 0,
            quads@.len() <= cap,
            forall|i: int| 0 <= i < sky@.len() ==> (#[trigger] sky@[i]).wf(),
            as_far_as(quads@ + sky_quads(sky@, near_z, left as int), cap as int) == as_far_as(
                all,
                cap as int,
            ),
        decreases left,
    {
        left = left - 1;
        let ghost before = quads@;
        let quad = sky[left];
        assert(sky@[left as int].wf());
        let queued = push_sky_quad(quads, cap, quad, near_z);
        proof {
            let rest = sky_quads(sky@, near_z, left as int);
            match seen_sky_quad(quad, near_z) {
                Some(seen) => {
                    assert(before.push(seen) + rest =~= before + (seq![seen] + rest));
                    if !queued {
                        assert(before.len() == cap);
                        assert(as_far_as(before + (seq![seen] + rest), cap as int) =~= before);
                        assert(as_far_as(before + rest, cap as int) =~= before);
                    }
                },
                None => {},
            }
        }
    }
    assert(quads@ + sky_quads(sky@, near_z, 0) =~= quads@);
}

/// The textures of a far vista.
#[derive(Debug, PartialEq, Eq)]
pub struct FarVistaTextures {
    /// The texture of the whole ring, unless panels are given.
    pub texture: Option<ResourceId>,
    pub panels: Vec<Option<ResourceId>>,
}

/// Some panel is given.
pub open spec fn any_panel(panels: Seq<Option<ResourceId>>) -> bool {
    exists|i: int| 0 <= i < panels.len() && (#[trigger] panels[i]) is Some
}

/// Panels up to the last one that is given.
pub open spec fn panels_given(panels: Seq<Option<ResourceId>>, count: int) -> int
    decreases count,
{
    if count <= 0 {
        0
    } else if panels[count - 1] is Some {
        count
    } else {
        panels_given(panels, count - 1)
    }
}

/// Panels that the ring shows: those up to the last one that is given, and no
/// more than the ring has parts.
pub fn active_far_vista_panel_count(panels: &Vec<Option<ResourceId>>, segments: u8) -> (count:
    usize)
    ensures
        count == if panels_given(panels@, panels@.len() as int) <= segments {
            panels_given(panels@, panels@.len() as int)
        } else {
            segments as int
        },
        count <= panels@.len(),
        count <= segments,
{
    let mut count: usize = panels.len();
    while count > 0 && panels[count - 1].is_none()
        invariant
            count <= panels@.len(),
            panels_given(panels@, panels@.len() as int) == panels_given(panels@, count as int),
        decreases count,
    {
        count = count - 1;
    }
    if count <= segments as usize {
        count
    } else {
        segments as usize
    }
}

/// The texture of a part of the ring: the panels are spread evenly over it.
pub open spec fn segment_texture(
    vista: FarVistaTextures,
    segment: int,
    segments: int,
) -> Option<ResourceId> {
    let panels = vista.panels@;
    if !any_panel(panels) {
        vista.texture
    } else {
        let given = panels_given(panels, panels.len() as int);
        let count = if given <= segments {
            given
        } else {
            segments
        };
        if count == 0 {
            None
        } else {
            let divisor = if segments > 1 {
                segments
            } else {
                1
            };
            let index = (segment * count) / divisor;
            panels[if index <= count - 1 {
                index
            } else {
                count - 1
            }]
        }
    }
}

/// The texture of a part of the ring.
pub fn far_vista_texture_for_segment(
    vista: &FarVistaTextures,
    segment: u8,
    segments: u8,
) -> (texture: Option<ResourceId>)
    ensures
        texture == segment_texture(*vista, segment as int, segments as int),
{
    let mut given = false;
    let mut i: usize = 0;
    while i < vista.panels.len()
        invariant
            i <= vista.panels@.len(),
            given == exists|j: int| 0 <= j < i && (#[trigger] vista.panels@[j]) is Some,
        decreases vista.panels@.len() - i,
    {
        given = given || vista.panels[i].is_some();
        i = i + 1;
    }
    if !given {
        return vista.texture;
    }
    let count: usize = active_far_vista_panel_count(&vista.panels, segments);
    if count == 0 {
        return None;
    }
    let divisor: usize = if segments > 1 {
        segments as usize
    } else {
        1
    };
    let part: usize = segment as usize;
    assert(0 <= part * count <= 65025) by (nonlinear_arith)
        requires
            0 <= part <= 255,
            0 <= count <= 255,
    ;
    let mut index: usize = part * count / divisor;
    if index > count - 1 {
        index = count - 1;
    }
    vista.panels[index]
}

/// Parts that a ring is drawn in: three at least, and as many as there is room
/// for.
pub fn far_vista_segments(segments: u8, cap: u8) -> (parts: u8)
    requires
        cap >= 3,
    ensures
        parts == clamp_int(segments as int, 3, cap as int),
{
    if segments < 3 {
        3
    } else if segments > cap {
        cap
    } else {
        segments
    }
}

/// The lower and upper edge of a ring.
pub fn far_vista_heights(camera_y: i32, offset: i32, height: i32) -> (edges: (i32, i32))
    ensures
        edges.0 == saturate_i32(camera_y + offset),
        edges.1 == saturate_i32(edges.0 + height),
{
    let lower: i32 = saturating_add_i32(camera_y, offset);
    (lower, saturating_add_i32(lower, height))
}

/// Every vertex lies in front of the near plane, by its view depth.
pub fn preview_vertices_in_front(depths: &Vec<i32>, near_z: i32) -> (in_front: bool)
    ensures
        in_front == forall|i: int| 0 <= i < depths@.len() ==> #[trigger] depths@[i] >= near_z,
{
    let mut i: usize = 0;
    while i < depths.len()
        invariant
            i <= depths@.len(),
            forall|j: int| 0 <= j < i ==> #[trigger] depths@[j] >= near_z,
        decreases depths@.len() - i,
    {
        if depths[i] < near_z {
            return false;
        }
        i = i + 1;
    }
    true
}

/// The last texel of a picture's row or column.
pub open spec fn last_texel(size: u8) -> u8 {
    if size == 0 {
        0
    } else {
        (size - 1) as u8
    }
}

/// The packets of a textured part of the ring: two triangles that share a
/// diagonal.
pub open spec fn vista_packets(
    p: Seq<Projected>,
    slot: MaterialSlot,
    tint: (u8, u8, u8),
    at: usize,
    cuts: nat,
) -> Seq<TrianglePacket> {
    let u = last_texel(slot.texture_width);
    let v = last_texel(slot.texture_height);
    let colors = [tint, tint, tint];
    let paint = Paint::Textured {
        material: surface_material(slot, tint, BlendMode::Opaque),
        slot: at,
    };
    triangle_packets(
        PreviewTriangle { p: [p[0], p[1], p[2]], uvs: [(0, 0), (u, 0), (u, v)], colors },
        cuts,
        paint,
    ) + triangle_packets(
        PreviewTriangle { p: [p[0], p[2], p[3]], uvs: [(0, 0), (u, v), (0, v)], colors },
        cuts,
        paint,
    )
}

/// Queues a textured part of the ring.
pub fn push_far_vista_textured_quad(
    scratch: &mut PreviewScratch,
    projected: [Projected; 4],
    slot: MaterialSlot,
    tint: (u8, u8, u8),
    slot_idx: usize,
)
    requires
        old(scratch).wf(),
        slot_idx < PREVIEW_ORDERING_SLOTS,
    ensures
        final(scratch).wf(),
        final(scratch).extends(
            *old(scratch),
            vista_packets(projected@, slot, tint, slot_idx, old(scratch).split_depth as nat),
        ),
{
    let material = preview_texture_material(slot, tint, BlendMode::Opaque);
    let u: u8 = slot.texture_width.saturating_sub(1);
    let v: u8 = slot.texture_height.saturating_sub(1);
    let colors = [tint, tint, tint];
    let ghost start = *scratch;
    let one = push_textured_material_tri(
        scratch,
        [projected[0], projected[1], projected[2]],
        [(0, 0), (u, 0), (u, v)],
        colors,
        material,
        slot_idx,
    );
    let ghost between = *scratch;
    let two = push_textured_material_tri(
        scratch,
        [projected[0], projected[2], projected[3]],
        [(0, 0), (u, v), (0, v)],
        colors,
        material,
        slot_idx,
    );
    proof {
        let cuts = start.split_depth as nat;
        let paint = Paint::Textured { material, slot: slot_idx };
        let a = triangle_packets(
            PreviewTriangle {
                p: [projected@[0], projected@[1], projected@[2]],
                uvs: [(0, 0), (u, 0), (u, v)],
                colors,
            },
            cuts,
            paint,
        );
        let b = triangle_packets(
            PreviewTriangle {
                p: [projected@[0], projected@[2], projected@[3]],
                uvs: [(0, 0), (u, v), (0, v)],
                colors,
            },
            cuts,
            paint,
        );
        lemma_extends_twice(start, between, *scratch, a, b);
    }
}

/// The corners of a part of the ring in the world: upper edge first, each edge
/// from its start to its end, the lower one back. `from` and `to` are where the
/// part starts and ends, seen from the camera.
pub fn far_vista_corners(
    camera: [i32; 3],
    from: (i32, i32),
    to: (i32, i32),
    lower: i32,
    upper: i32,
) -> (corners: [[i32; 3]; 4])
    ensures
        ({
            let x0 = saturate_i32(camera@[0] + from.0);
            let z0 = saturate_i32(camera@[2] + from.1);
            let x1 = saturate_i32(camera@[0] + to.0);
            let z1 = saturate_i32(camera@[2] + to.1);
            &&& corners@[0]@ == seq![x0 as i32, upper, z0 as i32]
            &&& corners@[1]@ == seq![x1 as i32, upper, z1 as i32]
            &&& corners@[2]@ == seq![x1 as i32, lower, z1 as i32]
            &&& corners@[3]@ == seq![x0 as i32, lower, z0 as i32]
        }),
{
    let x0: i32 = saturating_add_i32(camera[0], from.0);
    let z0: i32 = saturating_add_i32(camera[2], from.1);
    let x1: i32 = saturating_add_i32(camera[0], to.0);
    let z1: i32 = saturating_add_i32(camera[2], to.1);
    let corners = [[x0, upper, z0], [x1, upper, z1], [x1, lower, z1], [x0, lower, z0]];
    assert(corners@[0]@ =~= seq![x0, upper, z0]);
    assert(corners@[1]@ =~= seq![x1, upper, z1]);
    assert(corners@[2]@ =~= seq![x1, lower, z1]);
    assert(corners@[3]@ =~= seq![x0, lower, z0]);
    corners
}

/// The texture slot of a part of the ring, if its texture is in memory.
pub open spec fn segment_slot(
    vista: FarVistaTextures,
    segment: int,
    segments: int,
    textures: EditorTextures,
) -> Option<MaterialSlot> {
    match segment_texture(vista, segment, segments) {
        Some(id) => if textures.cache@.contains_key(id.0) {
            Some(textures.cache@[id.0])
        } else {
            None
        },
        None => None,
    }
}

/// The texture slot of a part of the ring.
pub fn far_vista_texture_slot(
    vista: &FarVistaTextures,
    segment: u8,
    segments: u8,
    textures: &EditorTextures,
) -> (slot: Option<MaterialSlot>)
    ensures
        slot == segment_slot(*vista, segment as int, segments as int, *textures),
{
    match far_vista_texture_for_segment(vista, segment, segments) {
        Some(id) => textures.slot(id),
        None => None,
    }
}

/// A part of the ring as the camera sees it: whether it lies before the near
/// plane, and its corners on the screen.
#[derive(Clone, Copy, Debug, PartialEq, Eq)]
pub struct VistaView {
    pub in_front: bool,
    pub projected: [Projected; 4],
}

impl VistaView {
    /// The part is drawn: it lies in front, and every corner has a depth.
    pub open spec fn seen(self) -> bool {
        &&& self.in_front
        &&& forall|i: int| 0 <= i < 4 ==> (#[trigger] self.projected@[i]).sz != 0
    }

    fn is_seen(&self) -> (result: bool)
        ensures
            result == self.seen(),
    {
        let p = self.projected;
        let deep = p[0].sz != 0 && p[1].sz != 0 && p[2].sz != 0 && p[3].sz != 0;
        proof {
            if deep {
                assert forall|i: int| 0 <= i < 4 implies (#[trigger] p@[i]).sz != 0 by {
                    assert(i == 0 || i == 1 || i == 2 || i == 3);
                }
            }
        }
        self.in_front && deep
    }
}

/// A flat part of the ring on the screen.
pub open spec fn flat_vista(p: [Projected; 4], tint: [u8; 3]) -> BackdropQuad {
    BackdropQuad {
        xy: [
            (p@[0].sx, p@[0].sy),
            (p@[1].sx, p@[1].sy),
            (p@[3].sx, p@[3].sy),
            (p@[2].sx, p@[2].sy),
        ],
        colors: [tint, tint, tint, tint],
    }
}

/// A flat part of the ring: its corners in the order of a quad packet.
pub fn far_vista_quad(projected: [Projected; 4], tint: [u8; 3]) -> (quad: BackdropQuad)
    ensures
        quad == flat_vista(projected, tint),
{
    BackdropQuad {
        xy: [
            (projected[0].sx, projected[0].sy),
            (projected[1].sx, projected[1].sy),
            (projected[3].sx, projected[3].sy),
            (projected[2].sx, projected[2].sy),
        ],
        colors: [tint, tint, tint, tint],
    }
}

/// How a ring is coloured and where it is queued.
#[derive(Clone, Copy, Debug, PartialEq, Eq)]
pub struct VistaStyle {
    pub enabled: bool,
    pub tint: [u8; 3],
    /// Place of the textured parts in the drawing order.
    pub slot_idx: usize,
}

impl VistaStyle {
    /// The tint as a vertex colour.
    pub open spec fn color(self) -> (u8, u8, u8) {
        (self.tint@[0], self.tint@[1], self.tint@[2])
    }
}

/// The packets of the textured ones among the first parts.
pub open spec fn ring_packets(
    vista: FarVistaTextures,
    style: VistaStyle,
    views: Seq<VistaView>,
    textures: EditorTextures,
    cuts: nat,
    count: int,
) -> Seq<TrianglePacket>
    decreases count,
{
    if count <= 0 {
        Seq::empty()
    } else {
        let rest = ring_packets(vista, style, views, textures, cuts, count - 1);
        let slot = segment_slot(vista, count - 1, views.len() as int, textures);
        if views[count - 1].seen() && slot is Some {
            rest + vista_packets(
                views[count - 1].projected@,
                slot->0,
                style.color(),
                style.slot_idx,
                cuts,
            )
        } else {
            rest
        }
    }
}

/// The flat ones among the first parts.
pub open spec fn ring_quads(
    vista: FarVistaTextures,
    style: VistaStyle,
    views: Seq<VistaView>,
    textures: EditorTextures,
    count: int,
) -> Seq<BackdropQuad>
    decreases count,
{
    if count <= 0 {
        Seq::empty()
    } else {
        let rest = ring_quads(vista, style, views, textures, count - 1);
        if views[count - 1].seen() && segment_slot(
            vista,
            count - 1,
            views.len() as int,
            textures,
        ) is None {
            rest.push(flat_vista(views[count - 1].projected, style.tint))
        } else {
            rest
        }
    }
}

/// Queues the ring, unless it is switched off: a part whose texture is in memory
/// as two textured triangles, another as a quad in the tint, as far as there is
/// room. `views` has one entry for every part.
pub fn push_far_vista_ring(
    scratch: &mut PreviewScratch,
    quads: &mut Vec<BackdropQuad>,
    cap: usize,
    vista: &FarVistaTextures,
    style: VistaStyle,
    views: &Vec<VistaView>,
    textures: &EditorTextures,
)
    requires
        old(scratch).wf(),
        old(quads)@.len() <= cap,
        views@.len() <= 255,
        style.slot_idx < PREVIEW_ORDERING_SLOTS,
    ensures
        final(scratch).wf(),
        final(scratch).extends(
            *old(scratch),
            if style.enabled {
                ring_packets(
                    *vista,
                    style,
                    views@,
                    *textures,
                    old(scratch).split_depth as nat,
                    views@.len() as int,
                )
            } else {
                Seq::empty()
            },
        ),
        final(quads)@ == if style.enabled {
            as_far_as(
                old(quads)@ + ring_quads(*vista, style, views@, *textures, views@.len() as int),
                cap as int,
            )
        } else {
            old(quads)@
        },
{
    let ghost start = *scratch;
    let ghost flat = quads@;
    assert(start.packets@ + Seq::<TrianglePacket>::empty() =~= start.packets@);
    assert(flat + Seq::<BackdropQuad>::empty() =~= flat);
    if !style.enabled {
        return;
    }
    let tint = (style.tint[0], style.tint[1], style.tint[2]);
    let parts: u8 = views.len() as u8;
    for i in 0..views.len()
        invariant
            scratch.wf(),
            start.wf(),
            start == *old(scratch),
            flat == old(quads)@,
            flat.len() <= cap,
            parts == views@.len(),
            tint == style.color(),
            style.slot_idx < PREVIEW_ORDERING_SLOTS,
            scratch.extends(
                start,
                ring_packets(
                    *vista,
                    style,
                    views@,
                    *textures,
                    start.split_depth as nat,
                    i as int,
                ),
            ),
            quads@ == as_far_as(
                flat + ring_quads(*vista, style, views@, *textures, i as int),
                cap as int,
            ),
    {
        let view = views[i];
        if view.is_seen() {
            let ghost between = *scratch;
            let ghost before = flat + ring_quads(*vista, style, views@, *textures, i as int);
            match far_vista_texture_slot(vista, i as u8, parts, textures) {
                Some(slot) => {
                    push_far_vista_textured_quad(
                        scratch,
                        view.projected,
                        slot,
                        tint,
                        style.slot_idx,
                    );
                    proof {
                        let cuts = start.split_depth as nat;
                        lemma_extends_twice(
                            start,
                            between,
                            *scratch,
                            ring_packets(*vista, style, views@, *textures, cuts, i as int),
                            vista_packets(view.projected@, slot, tint, style.slot_idx, cuts),
                        );
                    }
                },
                None => {
                    let quad = far_vista_quad(view.projected, style.tint);
                    let queued = push_backdrop_quad(quads, cap, quad);
                    proof {
                        assert(flat + ring_quads(*vista, style, views@, *textures, i + 1)
                            =~= before.push(quad));
                        if !queued {
                            assert(as_far_as(before.push(quad), cap as int) =~= as_far_as(
                                before,
                                cap as int,
                            ));
                        }
                    }
                },
            }
        }
    }
}

/// The panels of a ring follow each other: a later part never shows an earlier
/// panel.
pub proof fn law_panels_go_round_in_order(count: int, segments: int, a: int, b: int)
    requires
        0 <= a <= b < segments,
        0 < count <= segments,
    ensures
        0 <= (a * count) / segments <= (b * count) / segments < count,
{
    assert(0 <= a * count <= b * count && b * count < segments * count) by (nonlinear_arith)
        requires
            0 <= a <= b < segments,
            0 < count,
    ;
    assert(0 <= (a * count) / segments && (a * count) / segments <= (b * count) / segments && (b
        * count) / segments < count) by (nonlinear_arith)
        requires
            0 <= a * count <= b * count,
            b * count < segments * count,
            segments > 0,
    ;
}

/// What lies straight ahead is in the middle of the screen, what lies to the
/// right is right of it, and what lies above is above. Within the limits a
/// direction is seen as far off the middle as it leans, at the distance of the
/// screen.
pub proof fn law_directions_meet_the_screen(direction: ViewDirection, near_z: i32)
    requires
        near_z >= 0,
        direction.z > near_z,
        direction.wf(),
    ensures
        ({
            let point = direction_point(direction, near_z)->0;
            let z = direction.z as int;
            &&& direction_point(direction, near_z) is Some
            &&& -512 <= point.0 <= 831 && -256 <= point.1 <= 495
            &&& direction.x == 0 ==> point.0 == 160
            &&& direction.y == 0 ==> point.1 == 120
            &&& direction.x >= 0 ==> point.0 >= 160
            &&& direction.x <= 0 ==> point.0 <= 160
            &&& direction.y >= 0 ==> point.1 <= 120
            &&& direction.y <= 0 ==> point.1 >= 120
            &&& -512 < point.0 < 831 ==> abs_int((point.0 - 160) * z - 320 * direction.x) < z
            &&& -256 < point.1 < 495 ==> abs_int((120 - point.1) * z - 320 * direction.y) < z
        }),
        direction_point(ViewDirection { z: near_z, ..direction }, near_z) is None,
{
    let z = direction.z as int;
    law_division_rounds_toward_zero(direction.x * 320, z);
    law_division_rounds_toward_zero(direction.y * 320, z);
}

/// A quad with a corner on the screen is not outside, and one wholly beyond a
/// side is.
pub proof fn law_quads_on_the_screen_are_not_outside(points: Seq<(i16, i16)>, i: int)
    requires
        points.len() == 4,
        0 <= i < 4,
    ensures
        0 <= points[i].0 < SCREEN_W && 0 <= points[i].1 < SCREEN_H ==> !outside_screen(points),
        (forall|k: int| 0 <= k < 4 ==> (#[trigger] points[k]).0 < 0) ==> outside_screen(points),
        (forall|k: int| 0 <= k < 4 ==> (#[trigger] points[k]).0 >= SCREEN_W) ==> outside_screen(
            points,
        ),
        (forall|k: int| 0 <= k < 4 ==> (#[trigger] points[k]).1 < 0) ==> outside_screen(points),
        (forall|k: int| 0 <= k < 4 ==> (#[trigger] points[k]).1 >= SCREEN_H) ==> outside_screen(
            points,
        ),
{
}

/// Every quad of the sky that is seen is drawn, the last of them first.
pub proof fn law_every_seen_sky_quad_is_drawn(sky: Seq<SkyQuad>, near_z: i32, count: int, i: int)
    requires
        0 <= i < count <= sky.len(),
    ensures
        ({
            let quads = sky_quads(sky, near_z, count);
            let behind = sky_quads(sky, near_z, i).len() as int;
            let at = quads.len() - 1 - behind;
            &&& seen_sky_quad(sky[i], near_z) matches Some(quad) ==> 0 <= at && quads[at] == quad
            &&& seen_sky_quad(sky[i], near_z) is None ==> sky_quads(sky, near_z, i + 1).len()
                == behind
            &&& quads.len() <= count
        }),
    decreases count,
{
    let before = sky_quads(sky, near_z, count - 1);
    if i < count - 1 {
        law_every_seen_sky_quad_is_drawn(sky, near_z, count - 1, i);
        let behind = sky_quads(sky, near_z, i).len() as int;
        let at = before.len() - 1 - behind;
        if seen_sky_quad(sky[count - 1], near_z) is Some && 0 <= at {
            assert(sky_quads(sky, near_z, count)[at + 1] == before[at]);
        }
    } else if count > 1 {
        law_every_seen_sky_quad_is_drawn(sky, near_z, count - 1, 0);
    } else {
        assert(before.len() == 0);
    }
}

/// A sky quad keeps the colours of its corners and their order.
pub proof fn law_sky_quads_keep_their_corners(sky: SkyQuad, near_z: i32, i: int)
    requires
        0 <= i < 4,
        seen_sky_quad(sky, near_z) is Some,
    ensures
        ({
            let quad = seen_sky_quad(sky, near_z)->0;
            &&& direction_point(sky.directions@[i], near_z) == Some(quad.xy@[i])
            &&& quad.colors@[i] == sky.colors@[i]
            &&& !outside_screen(quad.xy@)
        }),
{
    let quad = seen_sky_quad(sky, near_z)->0;
    let a = direction_point(sky.directions@[0], near_z)->0;
    let b = direction_point(sky.directions@[1], near_z)->0;
    let c = direction_point(sky.directions@[2], near_z)->0;
    let d = direction_point(sky.directions@[3], near_z)->0;
    assert(quad.xy@ =~= seq![a, b, c, d]);
    assert(i == 0 || i == 1 || i == 2 || i == 3);
}

/// What there is no room for is left out from the end.
pub proof fn law_quads_fill_the_room(quads: Seq<BackdropQuad>, cap: int, i: int)
    requires
        0 <= cap,
        0 <= i < cap,
        i < quads.len(),
    ensures
        as_far_as(quads, cap).len() <= cap,
        as_far_as(quads, cap).len() <= quads.len(),
        i < as_far_as(quads, cap).len() && as_far_as(quads, cap)[i] == quads[i],
{
}

/// The panels that count end with one that is given, and none behind them is.
pub proof fn law_panels_count_up_to_the_last_given(
    panels: Seq<Option<ResourceId>>,
    count: int,
    i: int,
)
    requires
        0 <= i < count <= panels.len(),
    ensures
        0 <= panels_given(panels, count) <= count,
        panels[i] is Some ==> i < panels_given(panels, count),
        panels_given(panels, count) > 0 ==> panels[panels_given(panels, count) - 1] is Some,
    decreases count,
{
    if !(panels[count - 1] is Some) {
        if i < count - 1 {
            law_panels_count_up_to_the_last_given(panels, count - 1, i);
        } else if count > 1 {
            law_panels_count_up_to_the_last_given(panels, count - 1, 0);
        }
    }
}

/// Without panels the whole ring shows one texture. With as many panels as the
/// ring has parts every part shows its own; with fewer the ring begins with the
/// first and ends with the last of them.
pub proof fn law_panels_are_spread_over_the_ring(
    vista: FarVistaTextures,
    segment: int,
    segments: int,
)
    requires
        0 <= segment < segments,
    ensures
        ({
            let panels = vista.panels@;
            let given = panels_given(panels, panels.len() as int);
            &&& !any_panel(panels) ==> segment_texture(vista, segment, segments) == vista.texture
            &&& any_panel(panels) ==> given > 0
            &&& any_panel(panels) && given >= segments ==> segment_texture(vista, segment, segments)
                == panels[segment]
            &&& any_panel(panels) ==> segment_texture(vista, 0, segments) == panels[0]
            &&& any_panel(panels) && given <= segments ==> segment_texture(
                vista,
                segments - 1,
                segments,
            ) == panels[given - 1]
        }),
{
    let panels = vista.panels@;
    let given = panels_given(panels, panels.len() as int);
    if any_panel(panels) {
        let i = choose|i: int| 0 <= i < panels.len() && (#[trigger] panels[i]) is Some;
        law_panels_count_up_to_the_last_given(panels, panels.len() as int, i);
        let count = if given <= segments {
            given
        } else {
            segments
        };
        assert((segment * segments) / segments == segment) by (nonlinear_arith)
            requires
                segments > 0,
        ;
        assert(0 * count == 0 && 0int / segments == 0) by (nonlinear_arith)
            requires
                segments > 0,
        ;
        assert(((segments - 1) * count) / segments == count - 1) by (nonlinear_arith)
            requires
                0 < count <= segments,
        ;
    }
}

/// Every part of the ring that is seen and has no texture in memory is drawn in
/// the tint, in order; with a texture it is drawn textured and not in the tint.
pub proof fn law_every_seen_part_is_drawn(
    vista: FarVistaTextures,
    style: VistaStyle,
    views: Seq<VistaView>,
    textures: EditorTextures,
    count: int,
    i: int,
)
    requires
        0 <= i < count <= views.len(),
    ensures
        ({
            let quads = ring_quads(vista, style, views, textures, count);
            let at = ring_quads(vista, style, views, textures, i).len() as int;
            let flat = views[i].seen() && segment_slot(vista, i, views.len() as int, textures)
                is None;
            &&& flat ==> at < quads.len() && quads[at] == flat_vista(views[i].projected, style.tint)
            &&& !flat ==> ring_quads(vista, style, views, textures, i + 1).len() == at
        }),
    decreases count,
{
    let before = ring_quads(vista, style, views, textures, count - 1);
    if i < count - 1 {
        law_every_seen_part_is_drawn(vista, style, views, textures, count - 1, i);
        let at = ring_quads(vista, style, views, textures, i).len() as int;
        if at < before.len() {
            assert(ring_quads(vista, style, views, textures, count)[at] == before[at]);
        }
    }
}

/// The corners of a flat part go round as those of the ring do, with the lower
/// edge turned round: the upper edge is that of the part, and each lower corner
/// stands under its upper one.
pub proof fn law_flat_parts_keep_their_corners(p: [Projected; 4], tint: [u8; 3])
    ensures
        ({
            let quad = flat_vista(p, tint);
            let at = |i: int| (p@[i].sx, p@[i].sy);
            &&& quad.xy@[0] == at(0) && quad.xy@[1] == at(1)
            &&& quad.xy@[2] == at(3) && quad.xy@[3] == at(2)
            &&& forall|i: int| 0 <= i < 4 ==> #[trigger] quad.colors@[i] == tint
        }),
{
}

/// The last texel is the one before the size, and a picture of no size has its
/// first.
pub proof fn law_last_texel_is_inside(size: u8)
    ensures
        size > 0 ==> last_texel(size) + 1 == size,
        size == 0 ==> last_texel(size) == 0,
{
}

} // verus!
