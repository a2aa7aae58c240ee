//! Beacons of points of interest, queued like any other geometry so that walls
//! hide them.

use crate::lines::{trim, trimmed};
use crate::math::{
    clamp_i32, clamp_int, lemma_sar12_i32, max_int, saturate_i32, saturating_add_i32,
    saturating_mul_i32, saturating_sub_i32,
};
use crate::preview::primitives::{
    depth_slot, flat_triangle, lemma_extends_twice, mean_depth, preview_geometry_depth_slot,
    projected_avg_sz, push_tri_colors_at_slot, triangle_packets, Paint, PreviewScratch,
    TrianglePacket,
};
use crate::preview::screen::Projected;
use crate::text::chars_of;
use vstd::prelude::*;

verus! {

/// How far a beacon turns per tick.
pub const POI_ROTATION_Q12_PER_TICK: u32 = 9;

/// Colours of a beacon.
#[derive(Clone, Copy, Debug, PartialEq, Eq)]
pub struct PoiPreviewStyle {
    pub face: (u8, u8, u8),
    pub side: (u8, u8, u8),
}

/// A colour of an item's beacon.
pub open spec fn cyan(c: (u8, u8, u8)) -> (u8, u8, u8) {
    (c.2, ((c.0 * 3) / 4) as u8, c.0)
}

fn to_cyan(c: (u8, u8, u8)) -> (result: (u8, u8, u8))
    ensures
        result == cyan(c),
{
    (c.2, ((c.0 as u16 * 3) / 4) as u8, c.0)
}

impl PoiPreviewStyle {
    /// The colours, turned to cyan for an item.
    pub fn tinted(self, item: bool) -> (style: PoiPreviewStyle)
        ensures
            style == if item {
                PoiPreviewStyle { face: cyan(self.face), side: cyan(self.side) }
            } else {
                self
            },
    {
        if item {
            PoiPreviewStyle { face: to_cyan(self.face), side: to_cyan(self.side) }
        } else {
            self
        }
    }
}

/// The colours of a beacon by its state.
pub open spec fn style_of(
    enabled: bool,
    incomplete: bool,
    selected: bool,
    hovered: bool,
) -> PoiPreviewStyle {
    if !enabled {
        PoiPreviewStyle { face: (45, 18, 18), side: (31, 12, 12) }
    } else if incomplete {
        PoiPreviewStyle { face: (144, 78, 20), side: (78, 39, 10) }
    } else if selected {
        PoiPreviewStyle { face: (220, 58, 39), side: (105, 15, 11) }
    } else if hovered {
        PoiPreviewStyle { face: (188, 45, 31), side: (92, 14, 10) }
    } else {
        PoiPreviewStyle { face: (105, 15, 11), side: (58, 9, 7) }
    }
}

/// The colours of a beacon by its state.
pub fn poi_preview_style(
    enabled: bool,
    incomplete: bool,
    selected: bool,
    hovered: bool,
) -> (style: PoiPreviewStyle)
    ensures
        style == style_of(enabled, incomplete, selected, hovered),
{
    if !enabled {
        PoiPreviewStyle { face: (45, 18, 18), side: (31, 12, 12) }
    } else if incomplete {
        PoiPreviewStyle { face: (144, 78, 20), side: (78, 39, 10) }
    } else if selected {
        PoiPreviewStyle { face: (220, 58, 39), side: (105, 15, 11) }
    } else if hovered {
        PoiPreviewStyle { face: (188, 45, 31), side: (92, 14, 10) }
    } else {
        PoiPreviewStyle { face: (105, 15, 11), side: (58, 9, 7) }
    }
}

/// Any two states that differ look different, and a selected beacon is brighter
/// than one at rest.
pub proof fn law_states_look_different()
    ensures
        style_of(false, false, false, false).face != style_of(true, true, false, false).face,
        style_of(false, false, false, false).face != style_of(true, false, true, false).face,
        style_of(false, false, false, false).face != style_of(true, false, false, true).face,
        style_of(false, false, false, false).face != style_of(true, false, false, false).face,
        style_of(true, true, false, false).face != style_of(true, false, true, false).face,
        style_of(true, true, false, false).face != style_of(true, false, false, true).face,
        style_of(true, true, false, false).face != style_of(true, false, false, false).face,
        style_of(true, false, true, false).face != style_of(true, false, false, true).face,
        style_of(true, false, true, false).face != style_of(true, false, false, false).face,
        style_of(true, false, false, true).face != style_of(true, false, false, false).face,
        style_of(true, false, true, false).face.0 > style_of(true, false, false, false).face.0,
{
}

/// A point of interest lacks text: it has no page, or an empty one.
pub open spec fn lacks_text(pages: Seq<String>) -> bool {
    pages.len() == 0 || exists|i: int|
        0 <= i < pages.len() && trimmed((#[trigger] pages[i])@).len() == 0
}

/// Whether a point of interest lacks text.
pub fn is_incomplete(pages: &Vec<String>) -> (incomplete: bool)
    ensures
        incomplete == lacks_text(pages@),
{
    if pages.len() == 0 {
        return true;
    }
    let mut i: usize = 0;
    while i < pages.len()
        invariant
            pages@.len() > 0,
            i <= pages@.len(),
            forall|j: int| 0 <= j < i ==> trimmed((#[trigger] pages@[j])@).len() > 0,
        decreases pages@.len() - i,
    {
        let chars = chars_of(pages[i].as_str());
        let said = trim(&chars);
        if said.len() == 0 {
            assert(trimmed(pages@[i as int]@).len() == 0);
            return true;
        }
        i = i + 1;
    }
    false
}

/// What a point of interest is.
#[derive(Debug)]
pub struct PoiFacts {
    pub enabled: bool,
    pub pages: Vec<String>,
    /// It gives an item.
    pub item: bool,
    pub selected: bool,
    pub hovered: bool,
}

/// The colours of a point of interest: those of its state, in cyan if it gives an
/// item.
pub open spec fn facts_style(poi: PoiFacts) -> PoiPreviewStyle {
    let plain = style_of(poi.enabled, lacks_text(poi.pages@), poi.selected, poi.hovered);
    if poi.item {
        PoiPreviewStyle { face: cyan(plain.face), side: cyan(plain.side) }
    } else {
        plain
    }
}

/// The colours of a point of interest.
pub fn beacon_style(poi: &PoiFacts) -> (style: PoiPreviewStyle)
    ensures
        style == facts_style(*poi),
{
    let incomplete = is_incomplete(&poi.pages);
    poi_preview_style(poi.enabled, incomplete, poi.selected, poi.hovered).tinted(poi.item)
}

/// A node below an entity that is a point of interest.
#[derive(Debug)]
pub struct PoiComponent {
    /// The node or its entity is hidden.
    pub hidden: bool,
    pub facts: PoiFacts,
}

/// An entity as the walk over beacons reads it.
#[derive(Debug)]
pub struct PoiEntity {
    /// Its bounds are those of a point of interest.
    pub marked: bool,
    /// Which of its children are points of interest.
    pub children: Vec<Option<PoiComponent>>,
}

/// The first point of interest among the children.
pub open spec fn first_component(children: Seq<Option<PoiComponent>>, from: int) -> Option<
    PoiComponent,
>
    decreases children.len() - from,
{
    if from < 0 || from >= children.len() {
        None
    } else if children[from] is Some {
        children[from]
    } else {
        first_component(children, from + 1)
    }
}

/// The colours of an entity's beacon; none unless it is a point of interest that
/// is not hidden.
pub open spec fn entity_beacon(entity: PoiEntity) -> Option<PoiPreviewStyle> {
    match first_component(entity.children@, 0) {
        Some(component) => if entity.marked && !component.hidden {
            Some(facts_style(component.facts))
        } else {
            None
        },
        None => None,
    }
}

/// A beacon that is drawn, with the place of its entity.
#[derive(Clone, Copy, Debug, PartialEq, Eq)]
pub struct Beacon {
    pub index: usize,
    pub style: PoiPreviewStyle,
}

/// The beacons of the first entities.
pub open spec fn beacons_of(entities: Seq<PoiEntity>, count: int) -> Seq<Beacon>
    decreases count,
{
    if count <= 0 {
        Seq::empty()
    } else {
        let rest = beacons_of(entities, count - 1);
        match entity_beacon(entities[count - 1]) {
            Some(style) => rest.push(Beacon { index: (count - 1) as usize, style }),
            None => rest,
        }
    }
}

/// The beacons that are drawn, with their colours.
pub fn walk_point_of_interest_beacons(entities: &Vec<PoiEntity>) -> (beacons: Vec<Beacon>)
    ensures
        beacons@ == beacons_of(entities@, entities@.len() as int),
{
    let mut beacons: Vec<Beacon> = Vec::new();
    for i in 0..entities.len()
        invariant
            beacons@ == beacons_of(entities@, i as int),
    {
        if let Some(style) = beacon_of_entity(&entities[i]) {
            beacons.push(Beacon { index: i, style });
        }
    }
    beacons
}

fn beacon_of_entity(entity: &PoiEntity) -> (style: Option<PoiPreviewStyle>)
    ensures
        style == entity_beacon(*entity),
{
    let children = &entity.children;
    let mut i: usize = 0;
    while i < children.len()
        invariant
            i <= children@.len(),
            *children == entity.children,
            first_component(children@, 0) == first_component(children@, i as int),
        decreases children@.len() - i,
    {
        if let Some(component) = &children[i] {
            if entity.marked && !component.hidden {
                return Some(beacon_style(&component.facts));
            }
            return None;
        }
        i = i + 1;
    }
    None
}

/// Measures of a beacon.
#[derive(Clone, Copy, Debug, PartialEq, Eq, Structural)]
pub struct BeaconShape {
    /// Half the height and the width.
    pub half: i32,
    /// What is cut from two opposite corners.
    pub cut: i32,
    pub half_depth: i32,
}

/// The measures of a beacon by its height.
pub fn beacon_shape(height: i32) -> (shape: BeaconShape)
    requires
        64 <= height,
        height * 11 <= i32::MAX,
    ensures
        shape.half == height / 2,
        shape.cut == clamp_int((height * 11) / 50, 2, height / 2 - 1),
        shape.half_depth == max_int((height * 2) / 25, 4),
{
    let half: i32 = height / 2;
    let wanted_cut: i32 = (height * 11) / 50;
    let depth: i32 = (height * 2) / 25;
    BeaconShape {
        half,
        cut: clamp_i32(wanted_cut, 2, half - 1),
        half_depth: if depth > 4 {
            depth
        } else {
            4
        },
    }
}

/// The outline of a beacon: a square without two opposite corners.
pub open spec fn outline_of(half: int, cut: int) -> Seq<(int, int)> {
    seq![
        (-half + cut, half),
        (half, half),
        (half, -half + cut),
        (half - cut, -half),
        (-half, -half),
        (-half, half - cut),
    ]
}

/// The outline of a beacon.
pub fn beacon_outline(shape: BeaconShape) -> (outline: [[i32; 2]; 6])
    requires
        0 <= shape.half <= 0x3FFF_FFFF,
        0 <= shape.cut <= shape.half,
    ensures
        forall|i: int|
            0 <= i < 6 ==> ((#[trigger] outline@[i])@[0] as int, outline@[i]@[1] as int)
                == outline_of(shape.half as int, shape.cut as int)[i],
{
    let half: i32 = shape.half;
    let cut: i32 = shape.cut;
    [
        [-half + cut, half],
        [half, half],
        [half, -half + cut],
        [half - cut, -half],
        [-half, -half],
        [-half, half - cut],
    ]
}

/// The turn of a beacon: its own, and what it has turned since.
pub fn beacon_yaw(authored: u16, tick: u32) -> (yaw: u16)
    ensures
        yaw == (authored + (tick * 9) % 0x1_0000_0000 % 0x1_0000) % 0x1_0000,
{
    let turned: u32 = tick.wrapping_mul(POI_ROTATION_Q12_PER_TICK);
    let low: u16 = (turned & 0xFFFF) as u16;
    assert(turned & 0xFFFF == turned % 0x1_0000) by (bit_vector);
    authored.wrapping_add(low)
}

/// A point of a face: turned about the vertical axis and moved to the beacon's
/// centre.
pub open spec fn face_point(
    center: Seq<i32>,
    sin: i32,
    cos: i32,
    depth: i32,
    x: i32,
    y: i32,
) -> (int, int, int) {
    (
        saturate_i32(
            center[0] + saturate_i32(saturate_i32(x * cos) + saturate_i32(depth * sin)) / 4096,
        ),
        saturate_i32(center[1] + y),
        saturate_i32(
            center[2] + saturate_i32(saturate_i32(depth * cos) - saturate_i32(x * sin)) / 4096,
        ),
    )
}

fn place_point(center: [i32; 3], sin: i32, cos: i32, depth: i32, x: i32, y: i32) -> (point: [i32; 3])
    ensures
        (point@[0] as int, point@[1] as int, point@[2] as int) == face_point(
            center@,
            sin,
            cos,
            depth,
            x,
            y,
        ),
{
    let across: i32 = saturating_add_i32(
        saturating_mul_i32(x, cos),
        saturating_mul_i32(depth, sin),
    );
    let into: i32 = saturating_sub_i32(saturating_mul_i32(depth, cos), saturating_mul_i32(x, sin));
    proof {
        lemma_sar12_i32(across);
        lemma_sar12_i32(into);
    }
    [
        saturating_add_i32(center[0], across >> 12),
        saturating_add_i32(center[1], y),
        saturating_add_i32(center[2], into >> 12),
    ]
}

/// The corners of a face in the world.
pub fn poi_face_world_points(
    center: [i32; 3],
    sin: i32,
    cos: i32,
    depth: i32,
    local: [[i32; 2]; 6],
) -> (points: [[i32; 3]; 6])
    ensures
        forall|i: int|
            0 <= i < 6 ==> (
                (#[trigger] points@[i])@[0] as int,
                points@[i]@[1] as int,
                points@[i]@[2] as int,
            ) == face_point(center@, sin, cos, depth, local@[i]@[0], local@[i]@[1]),
{
    [
        place_point(center, sin, cos, depth, local[0][0], local[0][1]),
        place_point(center, sin, cos, depth, local[1][0], local[1][1]),
        place_point(center, sin, cos, depth, local[2][0], local[2][1]),
        place_point(center, sin, cos, depth, local[3][0], local[3][1]),
        place_point(center, sin, cos, depth, local[4][0], local[4][1]),
        place_point(center, sin, cos, depth, local[5][0], local[5][1]),
    ]
}

/// Every corner could be projected.
pub open spec fn all_projected(face: Seq<Projected>) -> bool {
    forall|i: int| 0 <= i < 6 ==> (#[trigger] face[i]).sz != 0
}

/// The mean depth of a face.
pub open spec fn face_depth(face: Seq<Projected>) -> int {
    (face[0].sz + face[1].sz + face[2].sz + face[3].sz + face[4].sz + face[5].sz) / 6
}

/// The mean depth of a face.
pub fn poi_face_depth(face: [Projected; 6]) -> (depth: u32)
    ensures
        depth == face_depth(face@),
{
    (face[0].sz as u32 + face[1].sz as u32 + face[2].sz as u32 + face[3].sz as u32
        + face[4].sz as u32 + face[5].sz as u32) / 6
}

fn projected_all(face: &[Projected; 6]) -> (result: bool)
    ensures
        result == all_projected(face@),
{
    let result = face[0].sz != 0 && face[1].sz != 0 && face[2].sz != 0 && face[3].sz != 0
        && face[4].sz != 0 && face[5].sz != 0;
    proof {
        if result {
            assert forall|i: int| 0 <= i < 6 implies (#[trigger] face@[i]).sz != 0 by {
                assert(i == 0 || i == 1 || i == 2 || i == 3 || i == 4 || i == 5);
            }
        }
    }
    result
}

/// The packets of one triangle of a beacon.
#[verifier::opaque]
pub open spec fn beacon_triangle(
    a: Projected,
    b: Projected,
    c: Projected,
    color: (u8, u8, u8),
    cuts: nat,
) -> Seq<TrianglePacket> {
    let p = [a, b, c];
    triangle_packets(
        flat_triangle(p, [color, color, color]),
        cuts,
        Paint::FlatAt { slot: depth_slot(mean_depth(p)) as usize },
    )
}

/// Queues one triangle of a beacon at its mean depth.
fn push_poi_triangle(
    scratch: &mut PreviewScratch,
    a: Projected,
    b: Projected,
    c: Projected,
    color: (u8, u8, u8),
)
    requires
        old(scratch).wf(),
    ensures
        final(scratch).wf(),
        final(scratch).extends(
            *old(scratch),
            beacon_triangle(a, b, c, color, old(scratch).split_depth as nat),
        ),
{
    reveal(beacon_triangle);
    let p = [a, b, c];
    let slot: usize = preview_geometry_depth_slot(projected_avg_sz(p));
    let pushed = push_tri_colors_at_slot(scratch, p, [color, color, color], slot);
}

/// The packets of the sides, up to one of the six.
pub open spec fn side_packets(
    front: Seq<Projected>,
    back: Seq<Projected>,
    color: (u8, u8, u8),
    cuts: nat,
    count: int,
) -> Seq<TrianglePacket>
    decreases count,
{
    if count <= 0 {
        Seq::empty()
    } else {
        let edge = count - 1;
        let next = if edge == 5 {
            0
        } else {
            edge + 1
        };
        side_packets(front, back, color, cuts, edge) + beacon_triangle(
            front[edge],
            front[next],
            back[next],
            color,
            cuts,
        ) + beacon_triangle(front[edge], back[next], back[edge], color, cuts)
    }
}

/// The packets of a face, as a fan up to one of its four triangles.
pub open spec fn fan_packets(
    face: Seq<Projected>,
    color: (u8, u8, u8),
    cuts: nat,
    count: int,
) -> Seq<TrianglePacket>
    decreases count,
{
    if count <= 0 {
        Seq::empty()
    } else {
        fan_packets(face, color, cuts, count - 1) + beacon_triangle(
            face[0],
            face[count],
            face[count + 1],
            color,
            cuts,
        )
    }
}

/// The packets of a beacon: its sides, then the nearer of its faces. A beacon
/// with a corner behind the camera has none.
pub open spec fn beacon_packets(
    front: Seq<Projected>,
    back: Seq<Projected>,
    style: PoiPreviewStyle,
    cuts: nat,
) -> Seq<TrianglePacket> {
    if all_projected(front) && all_projected(back) {
        let near = if face_depth(front) <= face_depth(back) {
            front
        } else {
            back
        };
        side_packets(front, back, style.side, cuts, 6) + fan_packets(near, style.face, cuts, 4)
    } else {
        Seq::empty()
    }
}

/// Queues a beacon.
pub fn push_point_of_interest_beacon(
    scratch: &mut PreviewScratch,
    front: [Projected; 6],
    back: [Projected; 6],
    style: PoiPreviewStyle,
)
    requires
        old(scratch).wf(),
    ensures
        final(scratch).wf(),
        final(scratch).extends(
            *old(scratch),
            beacon_packets(front@, back@, style, old(scratch).split_depth as nat),
        ),
{
    let ghost start = *scratch;
    let ghost cuts = scratch.split_depth as nat;
    proof {
        lemma_extends_nothing(start);
    }
    if !projected_all(&front) || !projected_all(&back) {
        return;
    }
    let mut edge: usize = 0;
    while edge < 6
        invariant
            edge <= 6,
            start == *old(scratch),
            cuts == start.split_depth,
            scratch.wf(),
            start.wf(),
            scratch.extends(start, side_packets(front@, back@, style.side, cuts, edge as int)),
        decreases 6 - edge,
    {
        let next: usize = if edge == 5 {
            0
        } else {
            edge + 1
        };
        let ghost before = *scratch;
        let ghost so_far = side_packets(front@, back@, style.side, cuts, edge as int);
        push_poi_triangle(scratch, front[edge], front[next], back[next], style.side);
        let ghost between = *scratch;
        let ghost one = beacon_triangle(
            front@[edge as int],
            front@[next as int],
            back@[next as int],
            style.side,
            cuts,
        );
        proof {
            lemma_extends_twice(start, before, between, so_far, one);
        }
        push_poi_triangle(scratch, front[edge], back[next], back[edge], style.side);
        proof {
            let two = beacon_triangle(
                front@[edge as int],
                back@[next as int],
                back@[edge as int],
                style.side,
                cuts,
            );
            lemma_extends_twice(start, between, *scratch, so_far + one, two);
        }
        edge = edge + 1;
    }
    let near = if poi_face_depth(front) <= poi_face_depth(back) {
        front
    } else {
        back
    };
    let ghost sides = side_packets(front@, back@, style.side, cuts, 6);
    let mut count: usize = 0;
    assert(sides + fan_packets(near@, style.face, cuts, 0) =~= sides);
    while count < 4
        invariant
            count <= 4,
            start == *old(scratch),
            cuts == start.split_depth,
            scratch.wf(),
            start.wf(),
            scratch.extends(
                start,
                sides + fan_packets(near@, style.face, cuts, count as int),
            ),
        decreases 4 - count,
    {
        let ghost before = *scratch;
        let ghost so_far = sides + fan_packets(near@, style.face, cuts, count as int);
        push_poi_triangle(scratch, near[0], near[count + 1], near[count + 2], style.face);
        proof {
            let one = beacon_triangle(
                near@[0],
                near@[count + 1],
                near@[count + 2],
                style.face,
                cuts,
            );
            lemma_extends_twice(start, before, *scratch, so_far, one);
            assert(so_far + one =~= sides + fan_packets(near@, style.face, cuts, count + 1));
        }
        count = count + 1;
    }
}

proof fn lemma_extends_nothing(scratch: PreviewScratch)
    requires
        scratch.wf(),
    ensures
        scratch.extends(scratch, Seq::empty()),
{
    assert(scratch.packets@ + Seq::<TrianglePacket>::empty() =~= scratch.packets@);
}

/// A beacon that is off looks so whatever else holds of it, and one that lacks
/// text looks so whether or not it is selected. Sides are darker than faces, and
/// the beacon of an item is blue where another is red.
pub proof fn law_states_come_before_each_other(
    enabled: bool,
    incomplete: bool,
    selected: bool,
    hovered: bool,
)
    ensures
        style_of(false, incomplete, selected, hovered) == style_of(false, false, false, false),
        style_of(true, true, selected, hovered) == style_of(true, true, false, false),
        style_of(true, false, true, hovered) == style_of(true, false, true, false),
        ({
            let style = style_of(enabled, incomplete, selected, hovered);
            &&& style.side.0 < style.face.0 && style.side.1 < style.face.1 && style.side.2
                < style.face.2
            &&& style.face.0 > style.face.2
            &&& cyan(style.face).2 == style.face.0 && cyan(style.face).0 == style.face.2
            &&& cyan(style.face).0 < cyan(style.face).1 < cyan(style.face).2
            &&& 4 * cyan(style.face).1 <= 3 * style.face.0 < 4 * cyan(style.face).1 + 4
        }),
{
}

/// The point of interest of an entity is the first among its children.
pub proof fn law_first_component_counts(children: Seq<Option<PoiComponent>>, from: int, i: int)
    requires
        0 <= from <= i < children.len(),
        forall|j: int| from <= j < i ==> (#[trigger] children[j]) is None,
    ensures
        children[i] is Some ==> first_component(children, from) == children[i],
        i == children.len() - 1 && children[i] is None ==> first_component(children, from) is None,
    decreases children.len() - from,
{
    if from < i {
        assert(children[from] is None);
        law_first_component_counts(children, from + 1, i);
    } else if children[i] is None && i == children.len() - 1 {
        assert(first_component(children, i + 1) is None);
    }
}

/// Every entity with a beacon gets it, in order, and no other entity does.
pub proof fn law_every_beacon_is_drawn(entities: Seq<PoiEntity>, count: int, i: int)
    requires
        0 <= i < count <= entities.len() <= usize::MAX,
    ensures
        ({
            let beacons = beacons_of(entities, count);
            let at = beacons_of(entities, i).len() as int;
            &&& entity_beacon(entities[i]) matches Some(style) ==> at < beacons.len()
                && beacons[at].index == i && beacons[at].style == style
            &&& entity_beacon(entities[i]) is None ==> beacons_of(entities, i + 1).len() == at
        }),
    decreases count,
{
    let before = beacons_of(entities, count - 1);
    if i < count - 1 {
        law_every_beacon_is_drawn(entities, count - 1, i);
        let at = beacons_of(entities, i).len() as int;
        if at < before.len() {
            assert(beacons_of(entities, count)[at] == before[at]);
        }
    }
}

/// The outline of a beacon is the same turned half round, stays in its square,
/// and leaves out the same part of both cut corners.
pub proof fn law_outline_is_the_same_turned_round(half: int, cut: int, i: int)
    requires
        0 <= cut <= half,
        0 <= i < 3,
    ensures
        ({
            let outline = outline_of(half, cut);
            let a = outline[i];
            let b = outline[i + 3];
            &&& outline.len() == 6
            &&& b.0 == -a.0 && b.1 == -a.1
            &&& -half <= a.0 <= half && -half <= a.1 <= half
            &&& outline[1] == (half, half)
            &&& outline[1].0 - outline[0].0 == 2 * half - cut && outline[0].1 == half
            &&& outline[1].1 - outline[2].1 == 2 * half - cut && outline[2].0 == half
        }),
{
    assert(i == 0 || i == 1 || i == 2);
}

/// An unturned face stands at its centre as it is. Turned a quarter further, a
/// point has gone to the right what it had gone into the scene.
pub proof fn law_faces_turn_about_their_centre(
    center: Seq<i32>,
    sin: i32,
    cos: i32,
    depth: i32,
    x: i32,
    y: i32,
)
    requires
        center.len() == 3,
        -4096 <= sin <= 4096,
        -4096 <= cos <= 4096,
        -100_000 <= x <= 100_000,
        -100_000 <= y <= 100_000,
        -100_000 <= depth <= 100_000,
        forall|i: int| 0 <= i < 3 ==> -0x4000_0000 <= (#[trigger] center[i]) <= 0x4000_0000,
    ensures
        face_point(center, 0, 4096, depth, x, y) == (center[0] + x, center[1] + y, center[2] + depth),
        ({
            let here = face_point(center, sin, cos, depth, x, y);
            let turned = face_point(center, cos, (-sin) as i32, depth, x, y);
            &&& turned.0 - center[0] == here.2 - center[2]
            &&& turned.1 == here.1 && here.1 == center[1] + y
        }),
{
    assert(-0x4000_0000 <= center[0] <= 0x4000_0000 && -0x4000_0000 <= center[1] <= 0x4000_0000
        && -0x4000_0000 <= center[2] <= 0x4000_0000);
    lemma_part(x, cos);
    lemma_part(x, sin);
    lemma_part(depth, cos);
    lemma_part(depth, sin);
    assert(x * (-sin) == -(x * sin)) by (nonlinear_arith);
    assert(x * 0 == 0 && depth * 0 == 0) by (nonlinear_arith);
}

proof fn lemma_part(a: i32, b: i32)
    requires
        -100_000 <= a <= 100_000,
        -4096 <= b <= 4096,
    ensures
        -409_600_000 <= a * b <= 409_600_000,
{
    assert(-409_600_000 <= a * b <= 409_600_000) by (nonlinear_arith)
        requires
            -100_000 <= a <= 100_000,
            -4096 <= b <= 4096,
    ;
}

/// The depth of a face lies among those of its corners.
pub proof fn law_face_depth_lies_among_the_corners(face: Seq<Projected>, lo: int, hi: int)
    requires
        face.len() == 6,
        forall|i: int| 0 <= i < 6 ==> lo <= (#[trigger] face[i]).sz <= hi,
    ensures
        lo <= face_depth(face) <= hi,
{
    assert(lo <= face[0].sz <= hi && lo <= face[1].sz <= hi && lo <= face[2].sz <= hi && lo
        <= face[3].sz <= hi && lo <= face[4].sz <= hi && lo <= face[5].sz <= hi);
}

/// A beacon shows its sides and one face, the nearer one, in whichever order its
/// faces are given; with a corner behind the camera it shows nothing.
pub proof fn law_beacons_show_the_nearer_face(
    front: Seq<Projected>,
    back: Seq<Projected>,
    style: PoiPreviewStyle,
    cuts: nat,
)
    ensures
        !all_projected(front) || !all_projected(back) ==> beacon_packets(
            front,
            back,
            style,
            cuts,
        ).len() == 0,
        all_projected(front) && all_projected(back) && face_depth(front) < face_depth(back) ==> {
            &&& beacon_packets(front, back, style, cuts) == side_packets(
                front,
                back,
                style.side,
                cuts,
                6,
            ) + fan_packets(front, style.face, cuts, 4)
            &&& beacon_packets(back, front, style, cuts) == side_packets(
                back,
                front,
                style.side,
                cuts,
                6,
            ) + fan_packets(front, style.face, cuts, 4)
        },
{
}

} // verus!
