//! Materials as the viewport draws them: texture slots, blending, sidedness.

use vstd::prelude::*;

verus! {

/// Which sides of a face are drawn.
#[derive(Clone, Copy, Debug, PartialEq, Eq, Structural)]
pub enum MaterialFaceSidedness {
    Front,
    Back,
    Both,
}

/// Semi-transparency equation of a primitive.
#[derive(Clone, Copy, Debug, PartialEq, Eq, Structural)]
pub enum BlendMode {
    Opaque,
    Average,
    Add,
    Subtract,
    AddQuarter,
}

impl BlendMode {
    /// Every mode but `Opaque` reads the destination pixel.
    pub open spec fn spec_is_translucent(self) -> bool {
        self != BlendMode::Opaque
    }

    pub fn is_translucent(self) -> (result: bool)
        ensures
            result == self.spec_is_translucent(),
    {
        !matches!(self, BlendMode::Opaque)
    }
}

/// Part of a texture page that texture coordinates repeat in.
#[derive(Clone, Copy, Debug, PartialEq, Eq, Structural)]
pub enum TextureWindow {
    /// Coordinates are used as they are.
    Unbounded,
    /// Coordinates repeat inside a tile whose sides are powers of two.
    Tile { origin_u: u8, origin_v: u8, width: u8, height: u8 },
}

/// Where an uploaded texture is sampled from.
#[derive(Clone, Copy, Debug, PartialEq, Eq, Structural)]
pub struct MaterialSlot {
    pub tpage_word: u16,
    pub clut_word: u16,
    pub texture_window: TextureWindow,
    pub texture_width: u8,
    pub texture_height: u8,
}

/// Sampling state of one textured primitive.
#[derive(Clone, Copy, Debug, PartialEq, Eq)]
pub struct TextureMaterial {
    pub clut_word: u16,
    pub tpage_word: u16,
    pub tint: (u8, u8, u8),
    pub blend_mode: BlendMode,
    pub raw_texture: bool,
    pub texture_window: TextureWindow,
}

impl TextureMaterial {
    /// A material that replaces the destination pixel.
    pub fn opaque(clut_word: u16, tpage_word: u16, tint: (u8, u8, u8)) -> (result: TextureMaterial)
        ensures
            result == (TextureMaterial {
                clut_word,
                tpage_word,
                tint,
                blend_mode: BlendMode::Opaque,
                raw_texture: false,
                texture_window: TextureWindow::Unbounded,
            }),
    {
        TextureMaterial {
            clut_word,
            tpage_word,
            tint,
            blend_mode: BlendMode::Opaque,
            raw_texture: false,
            texture_window: TextureWindow::Unbounded,
        }
    }

    /// A material that mixes with the destination pixel.
    pub fn blended(
        clut_word: u16,
        tpage_word: u16,
        tint: (u8, u8, u8),
        blend_mode: BlendMode,
    ) -> (result: TextureMaterial)
        ensures
            result == (TextureMaterial {
                clut_word,
                tpage_word,
                tint,
                blend_mode,
                raw_texture: false,
                texture_window: TextureWindow::Unbounded,
            }),
    {
        TextureMaterial {
            clut_word,
            tpage_word,
            tint,
            blend_mode,
            raw_texture: false,
            texture_window: TextureWindow::Unbounded,
        }
    }

    /// The same material sampling inside `texture_window`.
    pub fn with_texture_window(self, texture_window: TextureWindow) -> (result: TextureMaterial)
        ensures
            result == (TextureMaterial { texture_window, ..self }),
    {
        TextureMaterial { texture_window, ..self }
    }

    /// The same material with texel modulation switched off or on.
    pub fn with_raw_texture(self, raw_texture: bool) -> (result: TextureMaterial)
        ensures
            result == (TextureMaterial { raw_texture, ..self }),
    {
        TextureMaterial { raw_texture, ..self }
    }
}

/// How one face is painted: a texture sample with a tint, or a plain colour.
#[derive(Clone, Copy, Debug, PartialEq, Eq)]
pub enum FaceShade {
    Flat { rgb: (u8, u8, u8), sidedness: MaterialFaceSidedness },
    Textured {
        slot: MaterialSlot,
        tint: (u8, u8, u8),
        blend_mode: BlendMode,
        sidedness: MaterialFaceSidedness,
    },
}

impl FaceShade {
    /// The sidedness of either kind of shade.
    pub open spec fn spec_sidedness(self) -> MaterialFaceSidedness {
        match self {
            FaceShade::Flat { sidedness, .. } => sidedness,
            FaceShade::Textured { sidedness, .. } => sidedness,
        }
    }

    /// The colour that lighting and fog act on.
    pub open spec fn spec_color(self) -> (u8, u8, u8) {
        match self {
            FaceShade::Flat { rgb, .. } => rgb,
            FaceShade::Textured { tint, .. } => tint,
        }
    }

    /// The shade with its colour exchanged.
    pub open spec fn spec_with_color(self, color: (u8, u8, u8)) -> FaceShade {
        match self {
            FaceShade::Flat { rgb, sidedness } => FaceShade::Flat { rgb: color, sidedness },
            FaceShade::Textured { slot, tint, blend_mode, sidedness } => FaceShade::Textured {
                slot,
                tint: color,
                blend_mode,
                sidedness,
            },
        }
    }

    pub fn sidedness(self) -> (result: MaterialFaceSidedness)
        ensures
            result == self.spec_sidedness(),
    {
        match self {
            FaceShade::Flat { sidedness, .. } => sidedness,
            FaceShade::Textured { sidedness, .. } => sidedness,
        }
    }

    pub fn with_sidedness(self, sidedness: MaterialFaceSidedness) -> (result: FaceShade)
        ensures
            result.spec_sidedness() == sidedness,
            result.spec_color() == self.spec_color(),
            result is Textured == self is Textured,
            self is Textured ==> result->Textured_slot == self->Textured_slot
                && result->blend_mode == self->blend_mode,
    {
        match self {
            FaceShade::Flat { rgb, .. } => FaceShade::Flat { rgb, sidedness },
            FaceShade::Textured { slot, tint, blend_mode, .. } => FaceShade::Textured {
                slot,
                tint,
                blend_mode,
                sidedness,
            },
        }
    }

    /// The colour that lighting and fog act on.
    pub fn color(self) -> (result: (u8, u8, u8))
        ensures
            result == self.spec_color(),
    {
        match self {
            FaceShade::Flat { rgb, .. } => rgb,
            FaceShade::Textured { tint, .. } => tint,
        }
    }

    /// The shade with its colour exchanged.
    pub fn with_color(self, color: (u8, u8, u8)) -> (result: FaceShade)
        ensures
            result == self.spec_with_color(color),
    {
        match self {
            FaceShade::Flat { sidedness, .. } => FaceShade::Flat { rgb: color, sidedness },
            FaceShade::Textured { slot, blend_mode, sidedness, .. } => FaceShade::Textured {
                slot,
                tint: color,
                blend_mode,
                sidedness,
            },
        }
    }
}

/// Exchanging the colour of a shade changes that and nothing else.
pub proof fn law_colours_are_exchanged_alone(shade: FaceShade, color: (u8, u8, u8))
    ensures
        shade.spec_with_color(color).spec_color() == color,
        shade.spec_with_color(color).spec_sidedness() == shade.spec_sidedness(),
        shade.spec_with_color(shade.spec_color()) == shade,
        shade.spec_with_color(color).spec_with_color(shade.spec_color()) == shade,
{
}

/// Of all ways to blend only one hides what is behind.
pub proof fn law_only_opaque_hides(a: BlendMode, b: BlendMode)
    ensures
        !BlendMode::Opaque.spec_is_translucent(),
        !a.spec_is_translucent() && !b.spec_is_translucent() ==> a == b,
{
}

} // verus!
