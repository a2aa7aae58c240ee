//! Colours of room faces: materials, fog and texture coordinates.

use crate::math::min_int;
use crate::preview::grid::{ResourceId, WorldGrid};
use crate::preview::material::{BlendMode, FaceShade, MaterialFaceSidedness, MaterialSlot};
use crate::preview::primitives::NEUTRAL_TINT;
use crate::text::{chars_of, contains_folded, contains_ignoring_case};
use crate::textures::editor::EditorTextures;
use vstd::prelude::*;

verus! {

/// Texture coordinate span of one cell.
pub const GRID_TILE_UV: u8 = 64;

/// Texture corners of a floor, north-west first, clockwise.
pub const PREVIEW_FLOOR_UVS: [(u8, u8); 4] = [(0, 0), (64, 0), (64, 64), (0, 64)];

/// Texture corners of a wall: bottom left, bottom right, top right, top left.
pub const PREVIEW_WALL_UVS: [(u8, u8); 4] = [(0, 64), (64, 64), (64, 0), (0, 0)];

/// Colours of faces without a material.
pub const FALLBACK_FLOOR: (u8, u8, u8) = (0xB0, 0xA0, 0x88);

pub const FALLBACK_WALL: (u8, u8, u8) = (0x88, 0x70, 0x58);

pub const FALLBACK_CEILING: (u8, u8, u8) = (0x60, 0x60, 0x70);

/// Authored semi-transparency of a material.
#[derive(Clone, Copy, Debug, PartialEq, Eq, Structural)]
pub enum PsxBlendMode {
    Opaque,
    Average,
    Add,
    Subtract,
    AddQuarter,
}

/// The drawing settings of a material.
#[derive(Clone, Copy, Debug, PartialEq, Eq)]
pub struct ShadeMaterial {
    pub tint: (u8, u8, u8),
    pub blend_mode: PsxBlendMode,
    pub sidedness: MaterialFaceSidedness,
}

/// A resource that a face may name.
#[derive(Debug)]
pub struct ShadeResource {
    pub id: ResourceId,
    pub name: String,
    pub material: Option<ShadeMaterial>,
}

/// The resources of a project, and the sidedness of faces without a material.
#[derive(Debug)]
pub struct ShadeProject {
    pub resources: Vec<ShadeResource>,
    pub default_sidedness: MaterialFaceSidedness,
}

/// Position of the first resource with an identity, from position `from` on.
pub open spec fn shade_index(resources: Seq<ShadeResource>, id: ResourceId, from: int) -> Option<int>
    decreases resources.len() - from,
{
    if from >= resources.len() {
        None
    } else if resources[from].id == id {
        Some(from)
    } else {
        shade_index(resources, id, from + 1)
    }
}

proof fn lemma_shade_index(resources: Seq<ShadeResource>, id: ResourceId, from: int)
    requires
        0 <= from,
    ensures
        match shade_index(resources, id, from) {
            Some(i) => from <= i < resources.len() && resources[i].id == id && forall|j: int|
                from <= j < i ==> (#[trigger] resources[j]).id != id,
            None => forall|j: int|
                from <= j < resources.len() ==> (#[trigger] resources[j]).id != id,
        },
    decreases resources.len() - from,
{
    if from < resources.len() && resources[from].id != id {
        lemma_shade_index(resources, id, from + 1);
    }
}

impl ShadeProject {
    /// The resource with an identity.
    pub open spec fn found(self, id: ResourceId) -> Option<ShadeResource> {
        match shade_index(self.resources@, id, 0) {
            Some(i) => Some(self.resources@[i]),
            None => None,
        }
    }

    /// The material with an identity.
    pub open spec fn material(self, id: ResourceId) -> Option<ShadeMaterial> {
        match self.found(id) {
            Some(resource) => resource.material,
            None => None,
        }
    }

    /// The resource with an identity.
    pub fn resource(&self, id: ResourceId) -> (result: Option<&ShadeResource>)
        ensures
            match result {
                Some(resource) => self.found(id) == Some(*resource),
                None => self.found(id) is None,
            },
    {
        proof {
            lemma_shade_index(self.resources@, id, 0);
        }
        for i in 0..self.resources.len()
            invariant
                forall|j: int| 0 <= j < i ==> (#[trigger] self.resources@[j]).id != id,
                match shade_index(self.resources@, id, 0) {
                    Some(k) => 0 <= k < self.resources@.len() && self.resources@[k].id == id
                        && forall|j: int|
                        0 <= j < k ==> (#[trigger] self.resources@[j]).id != id,
                    None => forall|j: int|
                        0 <= j < self.resources@.len() ==> (#[trigger] self.resources@[j]).id != id,
                },
        {
            if self.resources[i].id == id {
                return Some(&self.resources[i]);
            }
        }
        None
    }
}

/// The tint that a textured material is drawn with; neutral if there is none.
pub fn material_texture_tint(project: &ShadeProject, material: ResourceId) -> (result: (u8, u8, u8))
    ensures
        result == match project.material(material) {
            Some(m) => m.tint,
            None => NEUTRAL_TINT,
        },
{
    match project.resource(material) {
        Some(resource) => match resource.material {
            Some(m) => m.tint,
            None => NEUTRAL_TINT,
        },
        None => NEUTRAL_TINT,
    }
}

/// The drawing mode of an authored mode.
pub open spec fn drawn_blend_mode(mode: PsxBlendMode) -> BlendMode {
    match mode {
        PsxBlendMode::Opaque => BlendMode::Opaque,
        PsxBlendMode::Average => BlendMode::Average,
        PsxBlendMode::Add => BlendMode::Add,
        PsxBlendMode::Subtract => BlendMode::Subtract,
        PsxBlendMode::AddQuarter => BlendMode::AddQuarter,
    }
}

pub fn psx_blend_mode(mode: PsxBlendMode) -> (result: BlendMode)
    ensures
        result == drawn_blend_mode(mode),
{
    match mode {
        PsxBlendMode::Opaque => BlendMode::Opaque,
        PsxBlendMode::Average => BlendMode::Average,
        PsxBlendMode::Add => BlendMode::Add,
        PsxBlendMode::Subtract => BlendMode::Subtract,
        PsxBlendMode::AddQuarter => BlendMode::AddQuarter,
    }
}

/// The material that a face names, if it names one.
pub open spec fn face_material(project: ShadeProject, material: Option<ResourceId>) -> Option<
    ShadeMaterial,
> {
    match material {
        Some(id) => project.material(id),
        None => None,
    }
}

/// The drawing mode of a face; opaque without a material.
pub fn material_blend_mode(project: &ShadeProject, material: Option<ResourceId>) -> (result: BlendMode)
    ensures
        result == match face_material(*project, material) {
            Some(m) => drawn_blend_mode(m.blend_mode),
            None => BlendMode::Opaque,
        },
{
    let Some(id) = material else {
        return BlendMode::Opaque;
    };
    match project.resource(id) {
        Some(resource) => match resource.material {
            Some(m) => psx_blend_mode(m.blend_mode),
            None => BlendMode::Opaque,
        },
        None => BlendMode::Opaque,
    }
}

/// The sides of a face that are drawn.
pub open spec fn face_sidedness(project: ShadeProject, material: Option<ResourceId>) -> MaterialFaceSidedness {
    match face_material(project, material) {
        Some(m) => m.sidedness,
        None => project.default_sidedness,
    }
}

pub fn material_sidedness(project: &ShadeProject, material: Option<ResourceId>) -> (result:
    MaterialFaceSidedness)
    ensures
        result == face_sidedness(*project, material),
{
    let Some(id) = material else {
        return project.default_sidedness;
    };
    match project.resource(id) {
        Some(resource) => match resource.material {
            Some(m) => m.sidedness,
            None => project.default_sidedness,
        },
        None => project.default_sidedness,
    }
}

/// The colour that a resource's name suggests.
pub open spec fn named_color(name: Seq<char>) -> Option<(u8, u8, u8)> {
    if contains_folded(name, "brick"@) {
        Some((0xC8u8, 0x70u8, 0x40u8))
    } else if contains_folded(name, "floor"@) || contains_folded(name, "stone"@) {
        Some((0xB6u8, 0xACu8, 0x96u8))
    } else if contains_folded(name, "glass"@) {
        Some((0x70u8, 0xA8u8, 0xC0u8))
    } else if contains_folded(name, "wood"@) {
        Some((0x90u8, 0x60u8, 0x40u8))
    } else if contains_folded(name, "metal"@) {
        Some((0x90u8, 0x96u8, 0x9Au8))
    } else {
        None
    }
}

fn color_for_name(name: &str) -> (result: Option<(u8, u8, u8)>)
    ensures
        result == named_color(name@),
{
    let chars = chars_of(name);
    if contains_ignoring_case(&chars, "brick") {
        Some((0xC8, 0x70, 0x40))
    } else if contains_ignoring_case(&chars, "floor") || contains_ignoring_case(&chars, "stone") {
        Some((0xB6, 0xAC, 0x96))
    } else if contains_ignoring_case(&chars, "glass") {
        Some((0x70, 0xA8, 0xC0))
    } else if contains_ignoring_case(&chars, "wood") {
        Some((0x90, 0x60, 0x40))
    } else if contains_ignoring_case(&chars, "metal") {
        Some((0x90, 0x96, 0x9A))
    } else {
        None
    }
}

/// The colour of an untextured face: the one that the resource's name suggests,
/// else the material's tint if it is not neutral, else `fallback`.
pub open spec fn face_color(
    project: ShadeProject,
    material: Option<ResourceId>,
    fallback: (u8, u8, u8),
) -> (u8, u8, u8) {
    match material {
        None => fallback,
        Some(id) => match project.found(id) {
            None => fallback,
            Some(resource) => match (named_color(resource.name@), resource.material) {
                (Some(color), _) => color,
                (None, Some(m)) => if m.tint != NEUTRAL_TINT {
                    m.tint
                } else {
                    fallback
                },
                (None, None) => fallback,
            },
        },
    }
}

pub fn material_color(
    project: &ShadeProject,
    material: Option<ResourceId>,
    fallback: (u8, u8, u8),
) -> (result: (u8, u8, u8))
    ensures
        result == face_color(*project, material, fallback),
{
    let Some(id) = material else {
        return fallback;
    };
    let Some(resource) = project.resource(id) else {
        return fallback;
    };
    if let Some(color) = color_for_name(resource.name.as_str()) {
        return color;
    }
    match resource.material {
        Some(m) => if m.tint.0 != 0x80 || m.tint.1 != 0x80 || m.tint.2 != 0x80 {
            m.tint
        } else {
            fallback
        },
        None => fallback,
    }
}

/// How a face is painted before light falls on it: textured if its material has
/// a texture slot, in a plain colour otherwise.
pub open spec fn base_shade(
    project: ShadeProject,
    material: Option<ResourceId>,
    fallback: (u8, u8, u8),
    slot: Option<MaterialSlot>,
) -> FaceShade {
    match (material, slot) {
        (Some(id), Some(slot)) => FaceShade::Textured {
            slot,
            tint: match project.material(id) {
                Some(m) => m.tint,
                None => NEUTRAL_TINT,
            },
            blend_mode: match project.material(id) {
                Some(m) => drawn_blend_mode(m.blend_mode),
                None => BlendMode::Opaque,
            },
            sidedness: face_sidedness(project, material),
        },
        _ => FaceShade::Flat {
            rgb: face_color(project, material, fallback),
            sidedness: face_sidedness(project, material),
        },
    }
}

/// The shade of a face, given the textures in memory.
pub open spec fn textured_shade(
    project: ShadeProject,
    material: Option<ResourceId>,
    fallback: (u8, u8, u8),
    textures: EditorTextures,
) -> FaceShade {
    base_shade(
        project,
        material,
        fallback,
        match material {
            Some(id) => if textures.cache@.contains_key(id.0) {
                Some(textures.cache@[id.0])
            } else {
                None
            },
            None => None,
        },
    )
}

/// The shade of a face: its texture if that is in memory, else the colour of its
/// material.
pub fn face_shade(
    project: &ShadeProject,
    material: Option<ResourceId>,
    fallback: (u8, u8, u8),
    textures: &EditorTextures,
) -> (result: FaceShade)
    ensures
        result == textured_shade(*project, material, fallback, *textures),
{
    let sidedness = material_sidedness(project, material);
    if let Some(id) = material {
        if let Some(slot) = textures.slot(id) {
            return FaceShade::Textured {
                slot,
                tint: material_texture_tint(project, id),
                blend_mode: material_blend_mode(project, Some(id)),
                sidedness,
            };
        }
    }
    FaceShade::Flat { rgb: material_color(project, material, fallback), sidedness }
}

/// Put the colour that lighting computed into a shade.
pub fn light_face(base: FaceShade, lit: (u8, u8, u8)) -> (result: FaceShade)
    ensures
        result == base.spec_with_color(lit),
{
    base.with_color(lit)
}

/// A culled face is outlined when the author asks for it, unless both sides of
/// it are drawn.
pub fn should_draw_culled_face_outline(preview_backface_wireframe: bool, shade: FaceShade) -> (result:
    bool)
    ensures
        result == (preview_backface_wireframe && shade.spec_sidedness()
            != MaterialFaceSidedness::Both),
{
    preview_backface_wireframe && !matches!(shade.sidedness(), MaterialFaceSidedness::Both)
}

/// Distance fog of a room.
#[derive(Clone, Copy, Debug, PartialEq, Eq)]
pub struct PreviewFog {
    pub enabled: bool,
    pub rgb: (u8, u8, u8),
    pub near: i32,
    pub far: i32,
}

impl PreviewFog {
    /// The room's fog, if the viewport shows fog.
    pub fn from_grid(grid: &WorldGrid, preview_enabled: bool) -> (result: PreviewFog)
        ensures
            result == (PreviewFog {
                enabled: preview_enabled && grid.fog_enabled,
                rgb: grid.fog_color,
                near: grid.fog_near,
                far: grid.fog_far,
            }),
    {
        PreviewFog {
            enabled: preview_enabled && grid.fog_enabled,
            rgb: grid.fog_color,
            near: grid.fog_near,
            far: grid.fog_far,
        }
    }

    /// How much of the fog's colour is mixed in at a depth, in 256ths.
    pub open spec fn weight(self, depth: int) -> int {
        if !self.enabled || self.far <= self.near || depth <= self.near {
            0
        } else {
            min_int(min_int((depth - self.near) * 256, i32::MAX as int) / (self.far - self.near), 256)
        }
    }

    /// A colour seen through the fog.
    pub open spec fn fogged(self, rgb: (u8, u8, u8), depth: int) -> (u8, u8, u8) {
        let w = self.weight(depth);
        (
            blended(rgb.0, self.rgb.0, w) as u8,
            blended(rgb.1, self.rgb.1, w) as u8,
            blended(rgb.2, self.rgb.2, w) as u8,
        )
    }

    /// A shade seen through the fog.
    pub fn apply_shade(self, shade: FaceShade, depth: i32) -> (result: FaceShade)
        ensures
            result == shade.spec_with_color(self.fogged(shade.spec_color(), depth as int)),
    {
        shade.with_color(self.apply_rgb(shade.color(), depth))
    }

    /// A colour seen through the fog.
    pub fn apply_rgb(self, rgb: (u8, u8, u8), depth: i32) -> (result: (u8, u8, u8))
        ensures
            result == self.fogged(rgb, depth as int),
    {
        if !self.enabled || self.far <= self.near || depth <= self.near {
            proof {
                lemma_no_blend(rgb.0, self.rgb.0);
                lemma_no_blend(rgb.1, self.rgb.1);
                lemma_no_blend(rgb.2, self.rgb.2);
            }
            return rgb;
        }
        let scaled: i64 = (depth as i64 - self.near as i64) * 256;
        let limited: i64 = if scaled > i32::MAX as i64 {
            i32::MAX as i64
        } else {
            scaled
        };
        let range: i64 = self.far as i64 - self.near as i64;
        proof {
            assert(0 <= limited / range) by (nonlinear_arith)
                requires
                    limited >= 0,
                    range > 0,
            ;
        }
        let share: i64 = limited / range;
        let weight: i32 = if share > 256 {
            256
        } else {
            share as i32
        };
        let keep: i32 = 256 - weight;
        (
            fog_blend_channel(rgb.0, self.rgb.0, keep, weight),
            fog_blend_channel(rgb.1, self.rgb.1, keep, weight),
            fog_blend_channel(rgb.2, self.rgb.2, keep, weight),
        )
    }
}

/// A channel mixed with `weight` 256ths of the fog's.
pub open spec fn blended(src: u8, fog: u8, weight: int) -> int {
    (src * (256 - weight) + fog * weight) / 256
}

proof fn lemma_no_blend(src: u8, fog: u8)
    ensures
        blended(src, fog, 0) == src,
{
    assert(src * (256 - 0) == src * 256) by (nonlinear_arith);
    assert(fog * 0 == 0) by (nonlinear_arith);
}

/// A channel mixed with the fog's.
pub fn fog_blend_channel(src: u8, fog: u8, keep: i32, weight: i32) -> (result: u8)
    requires
        0 <= weight <= 256,
        keep == 256 - weight,
    ensures
        result == blended(src, fog, weight as int),
        src <= fog ==> src <= result <= fog,
        fog <= src ==> fog <= result <= src,
{
    proof {
        lemma_blend_between(src as int, fog as int, weight as int);
    }
    ((src as i32 * keep + fog as i32 * weight) / 256) as u8
}

proof fn lemma_blend_between(src: int, fog: int, weight: int)
    requires
        0 <= src <= 255,
        0 <= fog <= 255,
        0 <= weight <= 256,
    ensures
        0 <= src * (256 - weight) <= 65280,
        0 <= fog * weight <= 65280,
        src <= fog ==> src <= (src * (256 - weight) + fog * weight) / 256 <= fog,
        fog <= src ==> fog <= (src * (256 - weight) + fog * weight) / 256 <= src,
{
    assert(0 <= src * (256 - weight) <= 65280 && 0 <= fog * weight <= 65280) by (nonlinear_arith)
        requires
            0 <= src <= 255,
            0 <= fog <= 255,
            0 <= weight <= 256,
    ;
    let sum = src * (256 - weight) + fog * weight;
    if src <= fog {
        assert(src * 256 <= sum <= fog * 256) by (nonlinear_arith)
            requires
                sum == src * (256 - weight) + fog * weight,
                src <= fog,
                0 <= weight <= 256,
        ;
    } else {
        assert(fog * 256 <= sum <= src * 256) by (nonlinear_arith)
            requires
                sum == src * (256 - weight) + fog * weight,
                fog < src,
                0 <= weight <= 256,
        ;
    }
}

/// Nothing changes up to the fog's near plane, and from its far plane on
/// everything has the fog's colour. Fog deeper than 8388607 units is left out:
/// its weight saturates before the far plane.
pub proof fn law_fog_starts_near_and_closes_far(fog: PreviewFog, rgb: (u8, u8, u8), depth: int)
    requires
        fog.enabled,
        fog.near < fog.far,
        fog.far - fog.near <= 8388607,
    ensures
        depth <= fog.near ==> fog.fogged(rgb, depth) == rgb,
        depth >= fog.far ==> fog.fogged(rgb, depth) == fog.rgb,
{
    if depth >= fog.far {
        let range = fog.far - fog.near;
        let limited = min_int((depth - fog.near) * 256, i32::MAX as int);
        assert(limited >= range * 256);
        assert(limited / range >= 256) by (nonlinear_arith)
            requires
                limited >= range * 256,
                range > 0,
        ;
        assert(fog.weight(depth) == 256);
    }
    if depth <= fog.near {
        assert(fog.weight(depth) == 0);
        assert(forall|a: u8, b: u8| #[trigger] blended(a, b, 0) == a);
    }
}

/// The texture corners of a face before its own transform: all zero without a
/// texture.
pub fn textured_base_uvs(shade: FaceShade, textured_uvs: [(u8, u8); 4]) -> (result: [(u8, u8); 4])
    ensures
        result == if shade is Textured {
            textured_uvs
        } else {
            [(0, 0), (0, 0), (0, 0), (0, 0)]
        },
{
    if matches!(shade, FaceShade::Textured { .. }) {
        textured_uvs
    } else {
        [(0, 0), (0, 0), (0, 0), (0, 0)]
    }
}

/// A texture coordinate of one cell scaled to a texture's side. A side of zero
/// or beyond one cell's span counts as one span.
pub open spec fn sized_component(value: u8, size: u8) -> int {
    let side = if size == 0 || size > GRID_TILE_UV {
        GRID_TILE_UV
    } else {
        size
    };
    value * side / 64
}

pub fn material_sized_uv_component(value: u8, size: u8) -> (result: u8)
    ensures
        result == sized_component(value, size),
{
    let side: u8 = if size == 0 || size > GRID_TILE_UV {
        GRID_TILE_UV
    } else {
        size
    };
    assert(0 <= value * side <= value * 64) by (nonlinear_arith)
        requires
            0 <= side <= 64,
            0 <= value,
    ;
    ((value as u16 * side as u16) / 64) as u8
}

pub open spec fn sized_uv(slot: MaterialSlot, uv: (u8, u8)) -> (u8, u8) {
    (
        sized_component(uv.0, slot.texture_width) as u8,
        sized_component(uv.1, slot.texture_height) as u8,
    )
}

pub fn material_sized_uv(slot: MaterialSlot, uv: (u8, u8)) -> (result: (u8, u8))
    ensures
        result == sized_uv(slot, uv),
{
    (
        material_sized_uv_component(uv.0, slot.texture_width),
        material_sized_uv_component(uv.1, slot.texture_height),
    )
}

/// Texture corners scaled to the texture of a face.
pub open spec fn sized_uvs(shade: FaceShade, uvs: [(u8, u8); 4]) -> [(u8, u8); 4] {
    match shade {
        FaceShade::Textured { slot, .. } => [
            sized_uv(slot, uvs[0]),
            sized_uv(slot, uvs[1]),
            sized_uv(slot, uvs[2]),
            sized_uv(slot, uvs[3]),
        ],
        FaceShade::Flat { .. } => uvs,
    }
}

pub fn material_sized_uvs(shade: FaceShade, uvs: [(u8, u8); 4]) -> (result: [(u8, u8); 4])
    ensures
        result == sized_uvs(shade, uvs),
{
    match shade {
        FaceShade::Textured { slot, .. } => [
            material_sized_uv(slot, uvs[0]),
            material_sized_uv(slot, uvs[1]),
            material_sized_uv(slot, uvs[2]),
            material_sized_uv(slot, uvs[3]),
        ],
        FaceShade::Flat { .. } => uvs,
    }
}

/// How a material's texture moves.
#[derive(Clone, Copy, Debug, PartialEq, Eq, Structural)]
pub enum MaterialAnimationMode {
    Static,
    UvScroll { enabled: bool },
    /// A sheet of frames; both counts are at least one.
    Flipbook { columns: u8, rows: u8 },
}

/// The motion that is played.
#[derive(Clone, Copy, Debug, PartialEq, Eq, Structural)]
pub enum PlayedAnimation {
    Static,
    UvScroll,
    Flipbook,
}

/// The size of the frame that is shown, and the motion that is played: a
/// flipbook shows one frame of its sheet, and a scroll that is switched off
/// stands still.
pub fn animated_material_frame(mode: MaterialAnimationMode, slot: MaterialSlot) -> (result: (
    u8,
    u8,
    PlayedAnimation,
))
    requires
        mode matches MaterialAnimationMode::Flipbook { columns, rows } ==> columns > 0 && rows > 0,
    ensures
        result == match mode {
            MaterialAnimationMode::Static => (
                slot.texture_width,
                slot.texture_height,
                PlayedAnimation::Static,
            ),
            MaterialAnimationMode::UvScroll { enabled } => (
                slot.texture_width,
                slot.texture_height,
                if enabled {
                    PlayedAnimation::UvScroll
                } else {
                    PlayedAnimation::Static
                },
            ),
            MaterialAnimationMode::Flipbook { columns, rows } => (
                crate::math::max_int(slot.texture_width as int / columns as int, 1) as u8,
                crate::math::max_int(slot.texture_height as int / rows as int, 1) as u8,
                PlayedAnimation::Flipbook,
            ),
        },
{
    match mode {
        MaterialAnimationMode::Static => (
            slot.texture_width,
            slot.texture_height,
            PlayedAnimation::Static,
        ),
        MaterialAnimationMode::UvScroll { enabled } => (
            slot.texture_width,
            slot.texture_height,
            if enabled {
                PlayedAnimation::UvScroll
            } else {
                PlayedAnimation::Static
            },
        ),
        MaterialAnimationMode::Flipbook { columns, rows } => {
            let width: u8 = slot.texture_width / columns;
            let height: u8 = slot.texture_height / rows;
            (
                if width > 1 {
                    width
                } else {
                    1
                },
                if height > 1 {
                    height
                } else {
                    1
                },
                PlayedAnimation::Flipbook,
            )
        },
    }
}

/// The texture corners of a frame that is moved by an offset, wrapping at 256.
pub fn animated_material_quad_uvs(
    frame_width: u8,
    frame_height: u8,
    offset_u: u8,
    offset_v: u8,
) -> (result: [(u8, u8); 4])
    ensures
        ({
            let right = ((crate::math::max_int(frame_width - 1, 0) + offset_u) % 256) as u8;
            let bottom = ((crate::math::max_int(frame_height - 1, 0) + offset_v) % 256) as u8;
            result == [
                (offset_u, offset_v),
                (right, offset_v),
                (right, bottom),
                (offset_u, bottom),
            ]
        }),
{
    let u_max: u8 = frame_width.saturating_sub(1);
    let v_max: u8 = frame_height.saturating_sub(1);
    let right: u8 = u_max.wrapping_add(offset_u);
    let bottom: u8 = v_max.wrapping_add(offset_v);
    [(offset_u, offset_v), (right, offset_v), (right, bottom), (offset_u, bottom)]
}

/// Fog thickens with the depth: it never gets thinner, and between its near and
/// its far plane it mixes in the part of its colour that is the part of the way.
/// Without fog nothing changes.
pub proof fn law_fog_thickens_with_depth(fog: PreviewFog, near: int, far: int)
    requires
        near <= far,
    ensures
        0 <= fog.weight(near) <= fog.weight(far) <= 256,
        fog.enabled && fog.near < fog.far && fog.near <= far <= fog.far && (far - fog.near) * 256
            <= i32::MAX ==> fog.weight(far) * (fog.far - fog.near) <= (far - fog.near) * 256 && (far
            - fog.near) * 256 < (fog.weight(far) + 1) * (fog.far - fog.near),
        !fog.enabled || fog.far <= fog.near ==> fog.weight(far) == 0,
{
    let range = fog.far - fog.near;
    if fog.enabled && range > 0 {
        let a = min_int((near - fog.near) * 256, i32::MAX as int);
        let b = min_int((far - fog.near) * 256, i32::MAX as int);
        if far > fog.near {
            lemma_share(b, range);
        }
        if near > fog.near {
            lemma_share(a, range);
            vstd::arithmetic::div_mod::lemma_div_is_ordered(a, b, range);
        }
        if fog.near <= far <= fog.far && (far - fog.near) * 256 <= i32::MAX {
            if far > fog.near {
                let q = b / range;
                assert(q <= 256) by (nonlinear_arith)
                    requires
                        q * range <= b,
                        b <= range * 256,
                        range > 0,
                ;
            } else {
                assert(0 * range == 0);
                assert((0 + 1) * range == range) by (nonlinear_arith);
            }
        }
    }
}

proof fn lemma_share(n: int, d: int)
    requires
        n >= 0,
        d > 0,
    ensures
        0 <= n / d,
        n / d * d <= n < (n / d + 1) * d,
{
    let q = n / d;
    assert(0 <= q && q * d <= n && n < (q + 1) * d) by (nonlinear_arith)
        requires
            q == n / d,
            n >= 0,
            d > 0,
    ;
}

/// Each channel of a colour moves toward the same channel of the fog, by the
/// weight's part of the way and never beyond.
pub proof fn law_fog_mixes_channel_by_channel(fog: PreviewFog, rgb: (u8, u8, u8), depth: int)
    ensures
        ({
            let w = fog.weight(depth);
            let seen = fog.fogged(rgb, depth);
            &&& moves_toward(seen.0 as int, rgb.0 as int, fog.rgb.0 as int, w)
            &&& moves_toward(seen.1 as int, rgb.1 as int, fog.rgb.1 as int, w)
            &&& moves_toward(seen.2 as int, rgb.2 as int, fog.rgb.2 as int, w)
        }),
{
    law_fog_thickens_with_depth(fog, depth, depth);
    let w = fog.weight(depth);
    lemma_moves_toward(rgb.0, fog.rgb.0, w);
    lemma_moves_toward(rgb.1, fog.rgb.1, w);
    lemma_moves_toward(rgb.2, fog.rgb.2, w);
}

/// A value lies `w` 256ths of the way from one number to another, rounded down.
pub open spec fn moves_toward(value: int, from: int, to: int, w: int) -> bool {
    &&& 0 <= (to - from) * w - (value - from) * 256 < 256
    &&& from <= value <= to || to <= value <= from
}

proof fn lemma_moves_toward(src: u8, fog: u8, w: int)
    requires
        0 <= w <= 256,
    ensures
        0 <= blended(src, fog, w) <= 255,
        moves_toward(blended(src, fog, w), src as int, fog as int, w),
{
    lemma_blend_between(src as int, fog as int, w);
    let s = src as int;
    let f = fog as int;
    assert(s * (256 - w) + f * w == s * 256 + (f - s) * w) by (nonlinear_arith);
}

/// A resource is found exactly if there is one with its identity, and then it is
/// the first.
pub proof fn law_resources_are_found_by_identity(project: ShadeProject, id: ResourceId, k: int)
    requires
        0 <= k < project.resources@.len(),
        project.resources@[k].id == id,
        forall|j: int| 0 <= j < k ==> (#[trigger] project.resources@[j]).id != id,
    ensures
        project.found(id) == Some(project.resources@[k]),
        project.material(id) == project.resources@[k].material,
{
    lemma_shade_index(project.resources@, id, 0);
}

/// Without a resource of that identity there is nothing to find, and a face that
/// names it is drawn like one without a material.
pub proof fn law_missing_resources_leave_the_fallback(
    project: ShadeProject,
    id: ResourceId,
    fallback: (u8, u8, u8),
)
    requires
        forall|j: int|
            0 <= j < project.resources@.len() ==> (#[trigger] project.resources@[j]).id != id,
    ensures
        project.found(id) is None,
        face_color(project, Some(id), fallback) == fallback,
        face_color(project, None, fallback) == fallback,
        face_sidedness(project, Some(id)) == project.default_sidedness,
        face_sidedness(project, None) == project.default_sidedness,
        base_shade(project, Some(id), fallback, None) == base_shade(project, None, fallback, None),
{
    lemma_shade_index(project.resources@, id, 0);
}

/// Only the opaque mode draws opaque, and every other mode blends as its name
/// says.
pub proof fn law_blend_modes_keep_their_names(mode: PsxBlendMode)
    ensures
        drawn_blend_mode(mode).spec_is_translucent() <==> mode != PsxBlendMode::Opaque,
        (mode == PsxBlendMode::Average) == (drawn_blend_mode(mode) == BlendMode::Average),
        (mode == PsxBlendMode::Add) == (drawn_blend_mode(mode) == BlendMode::Add),
        (mode == PsxBlendMode::Subtract) == (drawn_blend_mode(mode) == BlendMode::Subtract),
        (mode == PsxBlendMode::AddQuarter) == (drawn_blend_mode(mode) == BlendMode::AddQuarter),
{
}

/// A face has a texture exactly if it names a material whose texture is in
/// memory, and then it is drawn with that; otherwise it has a plain colour. The
/// sides that are drawn do not depend on the texture.
pub proof fn law_faces_are_textured_from_memory(
    project: ShadeProject,
    material: Option<ResourceId>,
    fallback: (u8, u8, u8),
    textures: EditorTextures,
)
    ensures
        ({
            let shade = textured_shade(project, material, fallback, textures);
            &&& shade is Textured <==> (material matches Some(id) && textures.cache@.contains_key(
                id.0,
            ))
            &&& shade is Textured ==> (material matches Some(id) && shade->Textured_slot
                == textures.cache@[id.0])
            &&& shade is Flat ==> shade.spec_color() == face_color(project, material, fallback)
            &&& shade.spec_sidedness() == face_sidedness(project, material)
            &&& (material matches Some(id) && project.material(id) is Some) ==> {
                let own = project.material(material->0)->0;
                &&& shade.spec_sidedness() == own.sidedness
                &&& shade is Textured ==> shade.spec_color() == own.tint && shade->blend_mode
                    == drawn_blend_mode(own.blend_mode)
            }
        }),
{
}

/// A texture coordinate of a cell goes to the same part of the texture: the whole
/// span to the whole side, in order, rounded down.
pub proof fn law_cell_coordinates_span_the_texture(a: u8, b: u8, size: u8)
    requires
        a <= b,
    ensures
        sized_component(a, size) <= sized_component(b, size),
        sized_component(0, size) == 0,
        1 <= size <= 64 ==> sized_component(64, size) == size,
        size == 0 || size > 64 ==> sized_component(b, size) == b,
        1 <= size <= 64 ==> 64 * sized_component(b, size) <= b * size < 64 * sized_component(
            b,
            size,
        ) + 64,
{
    let side = if size == 0 || size > GRID_TILE_UV {
        GRID_TILE_UV as int
    } else {
        size as int
    };
    assert(a * side <= b * side) by (nonlinear_arith)
        requires
            a <= b,
            side >= 0,
    ;
    assert(0 * side == 0);
    assert(64 * side == side * 64) by (nonlinear_arith);
}

/// Texture corners are scaled each by its own side, and only where there is a
/// texture.
pub proof fn law_corners_are_scaled_by_their_texture(
    shade: FaceShade,
    uvs: [(u8, u8); 4],
    i: int,
)
    requires
        0 <= i < 4,
    ensures
        shade is Flat ==> sized_uvs(shade, uvs)[i] == uvs[i],
        shade is Textured ==> ({
            let slot = shade->Textured_slot;
            &&& sized_uvs(shade, uvs)[i].0 == sized_component(uvs[i].0, slot.texture_width)
            &&& sized_uvs(shade, uvs)[i].1 == sized_component(uvs[i].1, slot.texture_height)
        }),
{
    if shade is Textured {
        let slot = shade->Textured_slot;
        lemma_sized(uvs[i].0, slot.texture_width);
        lemma_sized(uvs[i].1, slot.texture_height);
    }
}

proof fn lemma_sized(value: u8, size: u8)
    ensures
        0 <= sized_component(value, size) <= 255,
{
    let side = if size == 0 || size > GRID_TILE_UV {
        GRID_TILE_UV as int
    } else {
        size as int
    };
    assert(0 <= value * side <= value * 64) by (nonlinear_arith)
        requires
            0 <= side <= 64,
            0 <= value,
    ;
}

} // verus!
