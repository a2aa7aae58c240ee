//! Texture slots of the editor viewport.
//!
//! Room textures live in texture pages 5 to 15 of the upper row, model atlases
//! in the lower row, and each kind has palette rows of its own below. A blob
//! shadow and a particle mask have fixed places.

use crate::math::min_int;
use crate::preview::grid::ResourceId;
use crate::preview::material::{MaterialSlot, TextureWindow};
use crate::textures::patterns::{
    named_pattern, particle_pixels, particle_texel, pattern_for_name, pattern_palette,
    pattern_pixels, shadow_palette, shadow_palette_entry,
};
use crate::textures::vram::{
    in_rect, in_vram, law_words_hold_their_bytes, le_word, le_words, pack_texels, packed_texels,
    texel_words, words_from_bytes, Vram,
};
use crate::textures::words::{
    align_up_to, law_marking_keeps_the_colour, model_atlas_clut_entry, pack_clut_word, pack_indexed_tpage_word, pack_tpage_word,
    preview_clut_entry, room_clut_entry, room_texture_window_size, window_size,
};
use std::collections::HashMap;
use vstd::prelude::*;

verus! {

/// First texture page of room textures.
pub const ROOM_FIRST_TPAGE: u16 = 5;

/// Texture pages that hold room textures.
pub const ROOM_TPAGE_COUNT: u16 = 11;

/// Row of the room textures' palettes.
pub const ROOM_CLUT_Y: u16 = 480;

/// Words of a 16-colour palette.
pub const ROOM_CLUT_HALFWORDS: u16 = 16;

/// Texture page column of the shadow and the particle mask.
pub const SHADOW_TPAGE_INDEX: u16 = 15;

pub const SHADOW_TPAGE_X: u16 = 960;

pub const SHADOW_TPAGE_Y: u16 = 256;

pub const SHADOW_CLUT_X: u16 = 1008;

pub const SHADOW_CLUT_Y: u16 = 479;

pub const PARTICLE_TEXTURE_X: u16 = 976;

pub const PARTICLE_CLUT_X: u16 = 992;

pub const PARTICLE_CLUT_Y: u16 = 479;

/// Top row of the model atlases.
pub const MODEL_TPAGE_Y: u16 = 256;

/// First row of the model palettes.
pub const MODEL_CLUT_FIRST_Y: u16 = 481;

/// Words between texture page columns.
pub const MODEL_TPAGE_ALIGNMENT_HALFWORDS: u16 = 64;

/// Words of the widest model atlas.
pub const MODEL_TPAGE_MAX_HALFWORDS: u16 = 128;

/// Rows of the tallest model atlas: those above the palettes of the room
/// textures.
pub const MODEL_ATLAS_MAX_ROWS: u16 = 224;

/// A parsed palette texture. Rows are `halfwords_per_row` words long.
#[derive(Debug)]
pub struct IndexedTexture {
    pub width: u16,
    pub height: u16,
    pub halfwords_per_row: u16,
    pub clut_entries: u16,
    pub index_zero_transparent: bool,
    pub pixel_bytes: Vec<u8>,
    pub clut_bytes: Vec<u8>,
}

/// Where the allocator placed a room texture: a page counted from the first room
/// page, and the texel position of the upper left corner in it.
#[derive(Clone, Copy, Debug, PartialEq, Eq, Structural)]
pub struct AtlasPlacement {
    pub page_index: u16,
    pub origin_u: u8,
    pub origin_v: u8,
}

impl AtlasPlacement {
    /// A texture of this size lies in the page.
    pub open spec fn holds(self, width: int, height: int) -> bool {
        self.page_index < ROOM_TPAGE_COUNT && self.origin_u + width <= 256 && self.origin_v + height
            <= 256
    }

    /// Column of the texture's first word.
    pub open spec fn left(self) -> int {
        (ROOM_FIRST_TPAGE + self.page_index) * 64 + self.origin_u as int / 4
    }
}

/// What identifies an uploaded set of room textures.
#[derive(Debug)]
pub struct PreviewTextureSignature {
    pub id: ResourceId,
    pub path: String,
    pub cache_signature: String,
    pub name: String,
    pub force_zero_opaque: bool,
    pub allow_procedural_fallback: bool,
    pub secondary_signature: String,
}

impl PreviewTextureSignature {
    /// Two entries name the same upload.
    pub open spec fn same(self, other: PreviewTextureSignature) -> bool {
        &&& self.id == other.id
        &&& self.path@ == other.path@
        &&& self.cache_signature@ == other.cache_signature@
        &&& self.name@ == other.name@
        &&& self.force_zero_opaque == other.force_zero_opaque
        &&& self.allow_procedural_fallback == other.allow_procedural_fallback
        &&& self.secondary_signature@ == other.secondary_signature@
    }

    fn is_same(&self, other: &PreviewTextureSignature) -> (result: bool)
        ensures
            result == self.same(*other),
    {
        self.id == other.id && self.path == other.path && self.cache_signature
            == other.cache_signature && self.name == other.name && self.force_zero_opaque
            == other.force_zero_opaque && self.allow_procedural_fallback
            == other.allow_procedural_fallback && self.secondary_signature
            == other.secondary_signature
    }
}

/// Two lists of entries name the same uploads.
pub open spec fn same_signatures(
    a: Seq<PreviewTextureSignature>,
    b: Seq<PreviewTextureSignature>,
) -> bool {
    a.len() == b.len() && forall|i: int| 0 <= i < a.len() ==> (#[trigger] a[i]).same(b[i])
}

/// What is known of a model: the path of its atlas and the slot that the atlas
/// got. A model without an atlas has an empty path and no slot.
#[derive(Debug)]
pub struct ModelAtlasCacheEntry {
    pub slot: Option<MaterialSlot>,
    pub signature: String,
}

/// The video memory of the editor viewport and what was uploaded to it.
#[derive(Debug)]
pub struct EditorTextures {
    pub vram: Vram,
    pub cache: HashMap<u64, MaterialSlot>,
    pub secondary_cache: HashMap<u64, MaterialSlot>,
    pub model_cache: HashMap<u64, ModelAtlasCacheEntry>,
    pub shadow_slot: MaterialSlot,
    pub particle_slot: MaterialSlot,
    pub room_signature: Vec<PreviewTextureSignature>,
    /// Column of the next free room palette.
    pub next_clut_x: u16,
    /// Column of the next free model atlas.
    pub next_model_tpage_x: u16,
    /// Row of the next free model palette.
    pub next_model_clut_y: u16,
}

/// A word of the memory that room textures and their palettes use.
pub open spec fn in_room_region(x: int, y: int) -> bool {
    in_rect(x, y, 320, 0, 704, 256) || in_rect(x, y, 0, 480, 1024, 1)
}

/// A word of the shadow, the particle mask, or their palettes.
pub open spec fn in_fixed_region(x: int, y: int) -> bool {
    in_rect(x, y, 960, 256, 20, 64) || in_rect(x, y, 992, 479, 32, 1)
}

/// A word of the memory that model atlases and their palettes use.
pub open spec fn in_model_region(x: int, y: int) -> bool {
    in_rect(x, y, 0, 256, 960, 224) || in_rect(x, y, 0, 481, 256, 31)
}

/// Room textures, model atlases and the fixed textures have memory of their own.
pub proof fn law_texture_regions_are_disjoint(x: int, y: int)
    ensures
        !(in_room_region(x, y) && in_fixed_region(x, y)),
        !(in_room_region(x, y) && in_model_region(x, y)),
        !(in_fixed_region(x, y) && in_model_region(x, y)),
{
}

impl IndexedTexture {
    /// The pixel data is as long as the dimensions say.
    pub open spec fn pixels_complete(self) -> bool {
        self.pixel_bytes@.len() == self.halfwords_per_row * self.height * 2
    }

    /// The window size of a texture that the room pages can hold: sixteen
    /// colours, sides that are powers of two from 8 to 128, rows no longer than
    /// the window, and complete pixel data.
    pub open spec fn room_window(self) -> Option<(u8, u8)> {
        match (window_size(self.width), window_size(self.height)) {
            (Some(w), Some(h)) => if self.clut_entries == 16 && self.halfwords_per_row <= w / 4
                && self.pixels_complete() {
                Some((w, h))
            } else {
                None
            },
            _ => None,
        }
    }

    /// The window size of a texture that the room pages can hold.
    pub fn room_window_size(&self) -> (result: Option<(u8, u8)>)
        ensures
            result == self.room_window(),
    {
        if self.clut_entries != 16 {
            return None;
        }
        let Some(width) = room_texture_window_size(self.width) else {
            return None;
        };
        let Some(height) = room_texture_window_size(self.height) else {
            return None;
        };
        if self.halfwords_per_row > (width / 4) as u16 {
            return None;
        }
        proof {
            lemma_pixel_count(self.halfwords_per_row as int, self.height as int);
        }
        if self.pixel_bytes.len() != self.halfwords_per_row as usize * self.height as usize * 2 {
            return None;
        }
        Some((width, height))
    }

    /// Palette entries given for a 16-colour palette.
    pub open spec fn room_clut_len(self) -> int {
        min_int(self.clut_bytes@.len() as int / 2, 16)
    }
}

proof fn lemma_pixel_count(halfwords: int, height: int)
    requires
        0 <= halfwords <= 128,
        0 <= height <= 256,
    ensures
        0 <= halfwords * height <= 32768,
{
    assert(0 <= halfwords * height <= 32768) by (nonlinear_arith)
        requires
            0 <= halfwords <= 128,
            0 <= height <= 256,
    ;
}

/// `after` is `before` with a block of pixel words and, over it, one row of
/// palette entries.
pub open spec fn overlaid(
    after: Vram,
    before: Vram,
    left: int,
    top: int,
    width: int,
    height: int,
    pixels: Seq<u16>,
    clut_x: int,
    clut_y: int,
    clut: Seq<u16>,
) -> bool {
    forall|x: int, y: int|
        in_vram(x, y) ==> #[trigger] after.at(x, y) == if in_rect(
            x,
            y,
            clut_x,
            clut_y,
            clut.len() as int,
            1,
        ) {
            clut[x - clut_x]
        } else if in_rect(x, y, left, top, width, height) {
            pixels[(y - top) * width + (x - left)]
        } else {
            before.at(x, y)
        }
}

proof fn lemma_overlaid(
    before: Vram,
    between: Vram,
    after: Vram,
    left: int,
    top: int,
    width: int,
    height: int,
    pixels: Seq<u16>,
    clut_x: int,
    clut_y: int,
    clut: Seq<u16>,
)
    requires
        between.has_rect(before, left, top, width, height, pixels),
        after.has_rect(between, clut_x, clut_y, clut.len() as int, 1, clut),
    ensures
        overlaid(after, before, left, top, width, height, pixels, clut_x, clut_y, clut),
{
    assert forall|x: int, y: int| in_vram(x, y) implies #[trigger] after.at(x, y) == if in_rect(
        x,
        y,
        clut_x,
        clut_y,
        clut.len() as int,
        1,
    ) {
        clut[x - clut_x]
    } else if in_rect(x, y, left, top, width, height) {
        pixels[(y - top) * width + (x - left)]
    } else {
        before.at(x, y)
    } by {
        if in_rect(x, y, clut_x, clut_y, clut.len() as int, 1) {
            assert((y - clut_y) * clut.len() == 0) by (nonlinear_arith)
                requires
                    y == clut_y,
            ;
        } else {
            assert(after.at(x, y) == between.at(x, y));
        }
    }
}

/// The fixed slot of the blob shadow.
pub open spec fn fixed_shadow_slot() -> MaterialSlot {
    MaterialSlot {
        tpage_word: 31,
        clut_word: 30719,
        texture_window: TextureWindow::Unbounded,
        texture_width: 64,
        texture_height: 64,
    }
}

/// The fixed slot of the particle mask.
pub open spec fn fixed_particle_slot() -> MaterialSlot {
    MaterialSlot {
        tpage_word: 31,
        clut_word: 30718,
        texture_window: TextureWindow::Unbounded,
        texture_width: 16,
        texture_height: 16,
    }
}

/// A word of freshly prepared memory: the shadow, the particle mask and their
/// palettes, and zeros.
pub open spec fn fresh_word(shadow_pixels: Seq<u8>, x: int, y: int) -> u16 {
    if in_rect(x, y, 960, 256, 16, 64) {
        packed_texels(shadow_pixels, (y - 256) * 16 + (x - 960))
    } else if in_rect(x, y, 976, 256, 4, 16) {
        let row = y - 256;
        let column = 4 * (x - 976);
        (particle_texel(column, row) + 16 * particle_texel(column + 1, row) + 256 * particle_texel(
            column + 2,
            row,
        ) + 4096 * particle_texel(column + 3, row)) as u16
    } else if in_rect(x, y, 1008, 479, 16, 1) {
        shadow_palette_entry(x - 1008) as u16
    } else if x == 993 && y == 479 {
        0xFFFF
    } else {
        0
    }
}

impl EditorTextures {
    /// The cursors lie where the next palette or atlas may start.
    pub open spec fn wf(self) -> bool {
        &&& self.vram.wf()
        &&& self.next_clut_x <= 1024 && self.next_clut_x % 16 == 0
        &&& self.next_model_tpage_x <= 960 && self.next_model_tpage_x % 64 == 0
        &&& 481 <= self.next_model_clut_y <= 512
    }

    /// Nothing but the memory and the cursors differs.
    pub open spec fn same_caches(self, before: EditorTextures) -> bool {
        &&& self.cache@ == before.cache@
        &&& self.secondary_cache@ == before.secondary_cache@
        &&& self.model_cache@ == before.model_cache@
        &&& self.shadow_slot == before.shadow_slot
        &&& self.particle_slot == before.particle_slot
        &&& self.room_signature@ == before.room_signature@
    }

    /// Nothing at all differs.
    pub open spec fn unchanged(self, before: EditorTextures) -> bool {
        &&& self.same_caches(before)
        &&& self.vram@ == before.vram@
        &&& self.next_clut_x == before.next_clut_x
        &&& self.next_model_tpage_x == before.next_model_tpage_x
        &&& self.next_model_clut_y == before.next_model_clut_y
    }

    /// Memory with the shadow, 64 by 64 texels, and the particle mask in place.
    pub fn new(shadow_pixels: &Vec<u8>) -> (result: EditorTextures)
        requires
            shadow_pixels@.len() == 4096,
            forall|i: int| 0 <= i < 4096 ==> (#[trigger] shadow_pixels@[i]) < 16,
        ensures
            result.wf(),
            result.cache@ == Map::<u64, MaterialSlot>::empty(),
            result.secondary_cache@ == Map::<u64, MaterialSlot>::empty(),
            result.model_cache@ == Map::<u64, ModelAtlasCacheEntry>::empty(),
            result.shadow_slot == fixed_shadow_slot(),
            result.particle_slot == fixed_particle_slot(),
            result.room_signature@.len() == 0,
            result.next_clut_x == 0,
            result.next_model_tpage_x == 0,
            result.next_model_clut_y == MODEL_CLUT_FIRST_Y,
            forall|x: int, y: int|
                in_vram(x, y) ==> #[trigger] result.vram.at(x, y) == fresh_word(
                    shadow_pixels@,
                    x,
                    y,
                ),
    {
        let mut vram = Vram::new();
        upload_shadow_texture(&mut vram, shadow_pixels);
        upload_particle_texture(&mut vram);
        let fixed_page: u16 = pack_tpage_word(SHADOW_TPAGE_INDEX, 1);
        EditorTextures {
            vram,
            cache: HashMap::new(),
            secondary_cache: HashMap::new(),
            model_cache: HashMap::new(),
            shadow_slot: MaterialSlot {
                tpage_word: fixed_page,
                clut_word: pack_clut_word(SHADOW_CLUT_X, SHADOW_CLUT_Y),
                texture_window: TextureWindow::Unbounded,
                texture_width: 64,
                texture_height: 64,
            },
            particle_slot: MaterialSlot {
                tpage_word: fixed_page,
                clut_word: pack_clut_word(PARTICLE_CLUT_X, PARTICLE_CLUT_Y),
                texture_window: TextureWindow::Unbounded,
                texture_width: 16,
                texture_height: 16,
            },
            room_signature: Vec::new(),
            next_clut_x: 0,
            next_model_tpage_x: 0,
            next_model_clut_y: MODEL_CLUT_FIRST_Y,
        }
    }

    /// The video memory, row by row.
    pub fn vram_words(&self) -> (result: &Vec<u16>)
        ensures
            result@ == self.vram@,
    {
        self.vram.words()
    }

    /// The texture slot of a material.
    pub fn slot(&self, id: ResourceId) -> (result: Option<MaterialSlot>)
        ensures
            result == if self.cache@.contains_key(id.0) {
                Some(self.cache@[id.0])
            } else {
                None
            },
    {
        match self.cache.get(&id.0) {
            Some(slot) => Some(*slot),
            None => None,
        }
    }

    /// The second texture slot of a model material.
    pub fn secondary_slot(&self, id: ResourceId) -> (result: Option<MaterialSlot>)
        ensures
            result == if self.secondary_cache@.contains_key(id.0) {
                Some(self.secondary_cache@[id.0])
            } else {
                None
            },
    {
        match self.secondary_cache.get(&id.0) {
            Some(slot) => Some(*slot),
            None => None,
        }
    }

    /// The atlas slot of a model.
    pub fn model_atlas_slot(&self, id: ResourceId) -> (result: Option<MaterialSlot>)
        ensures
            result == if self.model_cache@.contains_key(id.0) {
                self.model_cache@[id.0].slot
            } else {
                None
            },
    {
        match self.model_cache.get(&id.0) {
            Some(entry) => entry.slot,
            None => None,
        }
    }

    pub fn shadow_slot(&self) -> (result: MaterialSlot)
        ensures
            result == self.shadow_slot,
    {
        self.shadow_slot
    }

    pub fn particle_slot(&self) -> (result: MaterialSlot)
        ensures
            result == self.particle_slot,
    {
        self.particle_slot
    }

    /// A palette slot is left for another room texture.
    pub fn has_room_material_slot(&self) -> (result: bool)
        requires
            self.wf(),
        ensures
            result == (self.next_clut_x + ROOM_CLUT_HALFWORDS <= 1024),
    {
        self.next_clut_x + ROOM_CLUT_HALFWORDS <= 1024
    }

    /// Forget every room texture and clear its memory. Nothing else is touched.
    pub fn clear_room_materials(&mut self)
        requires
            old(self).wf(),
        ensures
            final(self).wf(),
            final(self).cache@ == Map::<u64, MaterialSlot>::empty(),
            final(self).secondary_cache@ == Map::<u64, MaterialSlot>::empty(),
            final(self).next_clut_x == 0,
            forall|x: int, y: int|
                in_vram(x, y) ==> #[trigger] final(self).vram.at(x, y) == if in_room_region(x, y) {
                    0
                } else {
                    old(self).vram.at(x, y)
                },
            final(self).model_cache@ == old(self).model_cache@,
            final(self).shadow_slot == old(self).shadow_slot,
            final(self).particle_slot == old(self).particle_slot,
            final(self).room_signature@ == old(self).room_signature@,
            final(self).next_model_tpage_x == old(self).next_model_tpage_x,
            final(self).next_model_clut_y == old(self).next_model_clut_y,
    {
        self.cache.clear();
        self.secondary_cache.clear();
        self.next_clut_x = 0;
        let pages: Vec<u16> = vec![0u16; 180224];
        self.vram.write_rect(320, 0, 704, 256, &pages);
        let cluts: Vec<u16> = vec![0u16; 1024];
        self.vram.write_rect(0, 480, 1024, 1, &cluts);
        proof {
            assert forall|x: int, y: int| in_rect(x, y, 320, 0, 704, 256) implies 0 <= (y - 0) * 704
                + (x - 320) < 180224 by {}
        }
    }
}

fn upload_shadow_texture(vram: &mut Vram, shadow_pixels: &Vec<u8>)
    requires
        old(vram).wf(),
        shadow_pixels@.len() == 4096,
    ensures
        final(vram).wf(),
        forall|x: int, y: int|
            in_vram(x, y) ==> #[trigger] final(vram).at(x, y) == if in_rect(
                x,
                y,
                960,
                256,
                16,
                64,
            ) {
                packed_texels(shadow_pixels@, (y - 256) * 16 + (x - 960))
            } else if in_rect(x, y, 1008, 479, 16, 1) {
                shadow_palette_entry(x - 1008) as u16
            } else {
                old(vram).at(x, y)
            },
{
    let words = pack_texels(shadow_pixels, 1024);
    vram.write_rect(SHADOW_TPAGE_X as usize, SHADOW_TPAGE_Y as usize, 16, 64, &words);
    let palette = shadow_palette();
    vram.write_rect(SHADOW_CLUT_X as usize, SHADOW_CLUT_Y as usize, 16, 1, &palette);
}

fn upload_particle_texture(vram: &mut Vram)
    requires
        old(vram).wf(),
    ensures
        final(vram).wf(),
        forall|x: int, y: int|
            in_vram(x, y) && !in_rect(x, y, 976, 256, 4, 16) && !in_rect(
                x,
                y,
                992,
                479,
                16,
                1,
            ) ==> #[trigger] final(vram).at(x, y) == old(vram).at(x, y),
        forall|x: int, y: int|
            in_rect(x, y, 976, 256, 4, 16) || in_rect(
                x,
                y,
                992,
                479,
                16,
                1,
            ) ==> #[trigger] final(vram).at(x, y) == fresh_word(Seq::empty(), x, y),
{
    let texels = particle_pixels();
    let words = pack_texels(&texels, 64);
    vram.write_rect(PARTICLE_TEXTURE_X as usize, SHADOW_TPAGE_Y as usize, 4, 16, &words);
    let mut palette: Vec<u16> = vec![0u16; 16];
    palette.set(1, 0xFFFF);
    let ghost before = *vram;
    vram.write_rect(PARTICLE_CLUT_X as usize, PARTICLE_CLUT_Y as usize, 16, 1, &palette);
    proof {
        assert forall|x: int, y: int| in_rect(x, y, 976, 256, 4, 16) implies #[trigger] vram.at(x, y)
            == fresh_word(Seq::empty(), x, y) by {
            let i = (y - 256) * 4 + (x - 976);
            assert(vram.at(x, y) == before.at(x, y));
            assert(before.at(x, y) == packed_texels(texels@, i));
            assert((4 * i) % 16 == 4 * (x - 976) && (4 * i) / 16 == y - 256);
            assert(texels@[4 * i] == particle_texel(4 * (x - 976), y - 256));
            assert(texels@[4 * i + 1] == particle_texel(4 * (x - 976) + 1, y - 256));
            assert(texels@[4 * i + 2] == particle_texel(4 * (x - 976) + 2, y - 256));
            assert(texels@[4 * i + 3] == particle_texel(4 * (x - 976) + 3, y - 256));
        }
        assert forall|x: int, y: int| in_rect(x, y, 992, 479, 16, 1) implies #[trigger] vram.at(x, y)
            == fresh_word(Seq::empty(), x, y) by {
            assert(vram.at(x, y) == palette@[x - 992]);
        }
    }
}

/// The palette entries of a room texture.
pub open spec fn room_clut(texture: IndexedTexture, force_zero_opaque: bool) -> Seq<u16> {
    Seq::new(
        texture.room_clut_len() as nat,
        |i: int|
            room_clut_entry(
                i,
                le_word(texture.clut_bytes@, i),
                texture.index_zero_transparent,
                force_zero_opaque,
            ),
    )
}

/// The slot of a room texture of the given size.
pub open spec fn room_slot(
    placement: AtlasPlacement,
    clut_x: u16,
    width: u8,
    height: u8,
) -> MaterialSlot {
    MaterialSlot {
        tpage_word: (ROOM_FIRST_TPAGE + placement.page_index) as u16,
        clut_word: (clut_x / 16 + 64 * ROOM_CLUT_Y) as u16,
        texture_window: TextureWindow::Tile {
            origin_u: placement.origin_u,
            origin_v: placement.origin_v,
            width,
            height,
        },
        texture_width: width,
        texture_height: height,
    }
}

/// The room texture is taken: it fits the room pages, has at least one column,
/// and a palette slot is left.
pub open spec fn room_texture_taken(texture: IndexedTexture, next_clut_x: u16) -> bool {
    texture.room_window() is Some && texture.halfwords_per_row > 0 && next_clut_x
        + ROOM_CLUT_HALFWORDS <= 1024
}

impl EditorTextures {
    /// The size of the tile that a room texture asks the page allocator for, or
    /// `None` if the texture is refused before anything is allocated.
    pub fn room_tile_request(&self, texture: &IndexedTexture) -> (result: Option<(u8, u8)>)
        requires
            self.wf(),
        ensures
            result == if self.next_clut_x + ROOM_CLUT_HALFWORDS <= 1024 {
                texture.room_window()
            } else {
                None
            },
    {
        let window = texture.room_window_size();
        if !self.has_room_material_slot() {
            return None;
        }
        window
    }

    /// Upload a room texture into the tile that was allocated for it. A refused
    /// texture changes nothing.
    pub fn upload_psxt_bytes_with_clut_mode(
        &mut self,
        texture: &IndexedTexture,
        placement: Option<AtlasPlacement>,
        force_zero_opaque: bool,
    ) -> (result: Option<MaterialSlot>)
        requires
            old(self).wf(),
            placement matches Some(p) ==> p.holds(texture.width as int, texture.height as int),
        ensures
            final(self).wf(),
            match (placement, room_texture_taken(*texture, old(self).next_clut_x)) {
                (Some(p), true) => {
                    &&& result == Some(
                        room_slot(
                            p,
                            old(self).next_clut_x,
                            texture.width as u8,
                            texture.height as u8,
                        ),
                    )
                    &&& overlaid(
                        final(self).vram,
                        old(self).vram,
                        p.left(),
                        p.origin_v as int,
                        texture.halfwords_per_row as int,
                        texture.height as int,
                        le_words(
                            texture.pixel_bytes@,
                            (texture.halfwords_per_row * texture.height) as nat,
                        ),
                        old(self).next_clut_x as int,
                        ROOM_CLUT_Y as int,
                        room_clut(*texture, force_zero_opaque),
                    )
                    &&& final(self).next_clut_x == old(self).next_clut_x + ROOM_CLUT_HALFWORDS
                    &&& final(self).next_model_tpage_x == old(self).next_model_tpage_x
                    &&& final(self).next_model_clut_y == old(self).next_model_clut_y
                    &&& final(self).same_caches(*old(self))
                },
                _ => result is None && final(self).unchanged(*old(self)),
            },
    {
        let Some((width, height)) = self.room_tile_request(texture) else {
            return None;
        };
        let Some(tile) = placement else {
            return None;
        };
        if texture.halfwords_per_row == 0 {
            return None;
        }
        let clut_x: u16 = self.next_clut_x;
        let columns: usize = texture.halfwords_per_row as usize;
        let rows: usize = texture.height as usize;
        proof {
            lemma_pixel_count(columns as int, rows as int);
            assert(columns * rows == texture.halfwords_per_row * texture.height);
        }
        let tpage_index: u16 = ROOM_FIRST_TPAGE + tile.page_index;
        let left: usize = tpage_index as usize * 64 + (tile.origin_u / 4) as usize;
        let words = words_from_bytes(&texture.pixel_bytes, columns * rows);
        self.vram.write_rect(left, tile.origin_v as usize, columns, rows, &words);
        let ghost pixels_in = self.vram;
        let clut = room_clut_words(texture, force_zero_opaque);
        self.vram.write_rect(clut_x as usize, ROOM_CLUT_Y as usize, clut.len(), 1, &clut);
        assert(left == tile.left());
        assert(words@ == pixel_words(*texture));
        proof {
            lemma_overlaid(
                old(self).vram,
                pixels_in,
                self.vram,
                tile.left(),
                tile.origin_v as int,
                columns as int,
                rows as int,
                words@,
                clut_x as int,
                ROOM_CLUT_Y as int,
                clut@,
            );
        }
        self.next_clut_x = clut_x + ROOM_CLUT_HALFWORDS;
        Some(
            MaterialSlot {
                tpage_word: pack_tpage_word(tpage_index, 0),
                clut_word: pack_clut_word(clut_x, ROOM_CLUT_Y),
                texture_window: TextureWindow::Tile {
                    origin_u: tile.origin_u,
                    origin_v: tile.origin_v,
                    width,
                    height,
                },
                texture_width: width,
                texture_height: height,
            },
        )
    }

    /// Upload the pattern that a material's name asks for into the 64 by 64 tile
    /// that was allocated for it. Without a tile or a palette slot nothing
    /// changes.
    pub fn upload_procedural(&mut self, material_name: &str, placement: Option<AtlasPlacement>) -> (result:
        Option<MaterialSlot>)
        requires
            old(self).wf(),
            placement matches Some(p) ==> p.holds(64, 64),
        ensures
            final(self).wf(),
            match (placement, old(self).next_clut_x + ROOM_CLUT_HALFWORDS <= 1024) {
                (Some(p), true) => {
                    &&& result == Some(room_slot(p, old(self).next_clut_x, 64, 64))
                    &&& overlaid(
                        final(self).vram,
                        old(self).vram,
                        p.left(),
                        p.origin_v as int,
                        16,
                        64,
                        texel_words(pattern_pixels(named_pattern(material_name@)), 1024),
                        old(self).next_clut_x as int,
                        ROOM_CLUT_Y as int,
                        pattern_palette(named_pattern(material_name@)),
                    )
                    &&& final(self).next_clut_x == old(self).next_clut_x + ROOM_CLUT_HALFWORDS
                    &&& final(self).next_model_tpage_x == old(self).next_model_tpage_x
                    &&& final(self).next_model_clut_y == old(self).next_model_clut_y
                    &&& final(self).same_caches(*old(self))
                },
                _ => result is None && final(self).unchanged(*old(self)),
            },
    {
        if !self.has_room_material_slot() {
            return None;
        }
        let Some(tile) = placement else {
            return None;
        };
        let pattern = pattern_for_name(material_name);
        let clut_x: u16 = self.next_clut_x;
        let tpage_index: u16 = ROOM_FIRST_TPAGE + tile.page_index;
        let left: usize = tpage_index as usize * 64 + (tile.origin_u / 4) as usize;
        upload_4bpp(&mut self.vram, left, tile.origin_v as usize, &pattern.pixels);
        self.vram.write_rect(clut_x as usize, ROOM_CLUT_Y as usize, 16, 1, &pattern.palette);
        self.next_clut_x = clut_x + ROOM_CLUT_HALFWORDS;
        Some(
            MaterialSlot {
                tpage_word: pack_tpage_word(tpage_index, 0),
                clut_word: pack_clut_word(clut_x, ROOM_CLUT_Y),
                texture_window: TextureWindow::Tile {
                    origin_u: tile.origin_u,
                    origin_v: tile.origin_v,
                    width: 64,
                    height: 64,
                },
                texture_width: 64,
                texture_height: 64,
            },
        )
    }

    /// Start a new set of room textures. Returns whether anything has to be
    /// uploaded: an unchanged set is kept, a changed one is cleared first.
    pub fn begin_refresh(&mut self, signature: Vec<PreviewTextureSignature>) -> (result: bool)
        requires
            old(self).wf(),
        ensures
            final(self).wf(),
            result == !same_signatures(old(self).room_signature@, signature@),
            !result ==> final(self).unchanged(*old(self)),
            result ==> {
                &&& final(self).room_signature@ == signature@
                &&& final(self).cache@ == Map::<u64, MaterialSlot>::empty()
                &&& final(self).secondary_cache@ == Map::<u64, MaterialSlot>::empty()
                &&& final(self).next_clut_x == 0
                &&& forall|x: int, y: int|
                    in_vram(x, y) ==> #[trigger] final(self).vram.at(x, y) == if in_room_region(
                        x,
                        y,
                    ) {
                        0
                    } else {
                        old(self).vram.at(x, y)
                    }
                &&& final(self).model_cache@ == old(self).model_cache@
                &&& final(self).next_model_tpage_x == old(self).next_model_tpage_x
                &&& final(self).next_model_clut_y == old(self).next_model_clut_y
            },
            final(self).shadow_slot == old(self).shadow_slot,
            final(self).particle_slot == old(self).particle_slot,
    {
        if signatures_equal(&self.room_signature, &signature) {
            return false;
        }
        self.clear_room_materials();
        self.room_signature = signature;
        true
    }

    /// Record the slot that a planned material got, if it got one. Returns whether
    /// it did.
    pub fn finish_room_item(&mut self, id: ResourceId, slot: Option<MaterialSlot>) -> (result: bool)
        requires
            old(self).wf(),
        ensures
            final(self).wf(),
            result == slot is Some,
            final(self).cache@ == match slot {
                Some(s) => old(self).cache@.insert(id.0, s),
                None => old(self).cache@,
            },
            final(self).secondary_cache@ == old(self).secondary_cache@,
            final(self).model_cache@ == old(self).model_cache@,
            final(self).room_signature@ == old(self).room_signature@,
            final(self).vram@ == old(self).vram@,
            final(self).next_clut_x == old(self).next_clut_x,
            final(self).next_model_tpage_x == old(self).next_model_tpage_x,
            final(self).next_model_clut_y == old(self).next_model_clut_y,
            final(self).shadow_slot == old(self).shadow_slot,
            final(self).particle_slot == old(self).particle_slot,
    {
        match slot {
            Some(slot) => {
                self.cache.insert(id.0, slot);
                true
            },
            None => false,
        }
    }

    /// Record the slot that a material's second texture got, if it got one.
    pub fn finish_secondary_item(&mut self, id: ResourceId, slot: Option<MaterialSlot>)
        requires
            old(self).wf(),
        ensures
            final(self).wf(),
            final(self).secondary_cache@ == match slot {
                Some(s) => old(self).secondary_cache@.insert(id.0, s),
                None => old(self).secondary_cache@,
            },
            final(self).cache@ == old(self).cache@,
            final(self).model_cache@ == old(self).model_cache@,
            final(self).room_signature@ == old(self).room_signature@,
            final(self).vram@ == old(self).vram@,
            final(self).next_clut_x == old(self).next_clut_x,
            final(self).next_model_tpage_x == old(self).next_model_tpage_x,
            final(self).next_model_clut_y == old(self).next_model_clut_y,
            final(self).shadow_slot == old(self).shadow_slot,
            final(self).particle_slot == old(self).particle_slot,
    {
        if let Some(slot) = slot {
            self.secondary_cache.insert(id.0, slot);
        }
    }
}

fn signatures_equal(
    a: &Vec<PreviewTextureSignature>,
    b: &Vec<PreviewTextureSignature>,
) -> (result: bool)
    ensures
        result == same_signatures(a@, b@),
{
    if a.len() != b.len() {
        return false;
    }
    for i in 0..a.len()
        invariant
            a@.len() == b@.len(),
            forall|j: int| 0 <= j < i ==> (#[trigger] a@[j]).same(b@[j]),
    {
        if !a[i].is_same(&b[i]) {
            return false;
        }
    }
    true
}

fn room_clut_words(texture: &IndexedTexture, force_zero_opaque: bool) -> (result: Vec<u16>)
    ensures
        result@ == room_clut(*texture, force_zero_opaque),
{
    let given: usize = texture.clut_bytes.len() / 2;
    let count: usize = if given < 16 {
        given
    } else {
        16
    };
    let raw = words_from_bytes(&texture.clut_bytes, count);
    let mut out: Vec<u16> = Vec::new();
    for i in 0..count
        invariant
            raw@ == le_words(texture.clut_bytes@, count as nat),
            count == texture.room_clut_len(),
            out@.len() == i,
            forall|j: int|
                0 <= j < i ==> #[trigger] out@[j] == room_clut_entry(
                    j,
                    le_word(texture.clut_bytes@, j),
                    texture.index_zero_transparent,
                    force_zero_opaque,
                ),
    {
        out.push(
            preview_clut_entry(i, raw[i], texture.index_zero_transparent, force_zero_opaque),
        );
    }
    assert(out@ =~= room_clut(*texture, force_zero_opaque));
    out
}

/// Pack a 64 by 64 pattern at a word position.
pub fn upload_4bpp(vram: &mut Vram, texture_x: usize, texture_y: usize, pixels: &Vec<u8>)
    requires
        old(vram).wf(),
        pixels@.len() == 4096,
        texture_x + 16 <= 1024,
        texture_y + 64 <= 512,
    ensures
        final(vram).wf(),
        final(vram).has_rect(
            *old(vram),
            texture_x as int,
            texture_y as int,
            16,
            64,
            texel_words(pixels@, 1024),
        ),
{
    let words = pack_texels(pixels, 1024);
    vram.write_rect(texture_x, texture_y, 16, 64, &words);
}

/// What becomes of a model's atlas on a refresh.
#[derive(Clone, Copy, Debug, PartialEq, Eq, Structural)]
pub enum ModelRefresh {
    /// The atlas of this path is in place.
    Keep,
    /// The model has no atlas, which is recorded.
    Clear,
    /// The atlas has to be read and uploaded.
    Load,
}

/// The depth code of a palette with this many entries.
pub open spec fn depth_code(clut_entries: u16) -> Option<u16> {
    if clut_entries == 16 {
        Some(0u16)
    } else if clut_entries == 256 {
        Some(1u16)
    } else {
        None
    }
}

/// Words reserved for an atlas of this width: one page column or two.
pub open spec fn atlas_columns(halfwords_per_row: u16) -> int {
    if halfwords_per_row <= MODEL_TPAGE_ALIGNMENT_HALFWORDS {
        64
    } else {
        128
    }
}

/// The model region takes an atlas's pixels.
pub open spec fn atlas_taken(
    texture: IndexedTexture,
    next_model_tpage_x: u16,
    next_model_clut_y: u16,
) -> bool {
    &&& depth_code(texture.clut_entries) is Some
    &&& 1 <= texture.width <= 256
    &&& 1 <= texture.height <= MODEL_ATLAS_MAX_ROWS
    &&& texture.halfwords_per_row <= MODEL_TPAGE_MAX_HALFWORDS
    &&& texture.pixels_complete()
    &&& next_model_tpage_x + atlas_columns(texture.halfwords_per_row) <= SHADOW_TPAGE_X
    &&& next_model_clut_y < 512
}

/// The palette entries of a model atlas.
pub open spec fn atlas_clut(texture: IndexedTexture) -> Seq<u16> {
    Seq::new(
        texture.clut_entries as nat,
        |i: int|
            room_clut_entry(
                i,
                le_word(texture.clut_bytes@, i),
                texture.index_zero_transparent,
                false,
            ),
    )
}

/// The slot of a model atlas.
pub open spec fn atlas_slot(texture: IndexedTexture, tpage_x: u16, clut_y: u16) -> MaterialSlot {
    MaterialSlot {
        tpage_word: (tpage_x / 64 + 16 + 128 * depth_code(texture.clut_entries)->0) as u16,
        clut_word: (64 * clut_y) as u16,
        texture_window: TextureWindow::Unbounded,
        texture_width: min_int(texture.width as int, 255) as u8,
        texture_height: min_int(texture.height as int, 255) as u8,
    }
}

/// The pixel words of a texture.
pub open spec fn pixel_words(texture: IndexedTexture) -> Seq<u16> {
    le_words(texture.pixel_bytes@, (texture.halfwords_per_row * texture.height) as nat)
}

impl EditorTextures {
    /// What a model whose atlas path is `signature` needs; a model without an
    /// atlas has an empty path.
    pub fn model_refresh(&self, id: ResourceId, signature: &str) -> (result: ModelRefresh)
        ensures
            result == if self.model_cache@.contains_key(id.0)
                && self.model_cache@[id.0].signature@ == signature@ {
                ModelRefresh::Keep
            } else if signature@.len() == 0 {
                ModelRefresh::Clear
            } else {
                ModelRefresh::Load
            },
    {
        let path = String::from_str(signature);
        if let Some(entry) = self.model_cache.get(&id.0) {
            if entry.signature == path {
                return ModelRefresh::Keep;
            }
        }
        if chars_empty(signature) {
            ModelRefresh::Clear
        } else {
            ModelRefresh::Load
        }
    }

    /// Forget a model's atlas.
    pub fn drop_model(&mut self, id: ResourceId)
        requires
            old(self).wf(),
        ensures
            final(self).wf(),
            final(self).model_cache@ == old(self).model_cache@.remove(id.0),
            final(self).cache@ == old(self).cache@,
            final(self).secondary_cache@ == old(self).secondary_cache@,
            final(self).room_signature@ == old(self).room_signature@,
            final(self).vram@ == old(self).vram@,
            final(self).next_clut_x == old(self).next_clut_x,
            final(self).next_model_tpage_x == old(self).next_model_tpage_x,
            final(self).next_model_clut_y == old(self).next_model_clut_y,
            final(self).shadow_slot == old(self).shadow_slot,
            final(self).particle_slot == old(self).particle_slot,
    {
        self.model_cache.remove(&id.0);
        assert(self.model_cache@ =~= old(self).model_cache@.remove(id.0));
    }

    /// Record that a model has no atlas, under its empty path.
    pub fn clear_model(&mut self, id: ResourceId, signature: String)
        requires
            old(self).wf(),
            signature@.len() == 0,
        ensures
            final(self).wf(),
            final(self).model_cache@ == old(self).model_cache@.insert(
                id.0,
                ModelAtlasCacheEntry { slot: None, signature },
            ),
            final(self).cache@ == old(self).cache@,
            final(self).secondary_cache@ == old(self).secondary_cache@,
            final(self).room_signature@ == old(self).room_signature@,
            final(self).vram@ == old(self).vram@,
            final(self).next_clut_x == old(self).next_clut_x,
            final(self).next_model_tpage_x == old(self).next_model_tpage_x,
            final(self).next_model_clut_y == old(self).next_model_clut_y,
            final(self).shadow_slot == old(self).shadow_slot,
            final(self).particle_slot == old(self).particle_slot,
    {
        self.model_cache.insert(id.0, ModelAtlasCacheEntry { slot: None, signature });
    }

    /// Upload a model atlas and its palette into the model region. An atlas whose
    /// palette is incomplete is refused after its pixels were written to the
    /// place that the next atlas will use.
    pub fn upload_model_atlas_psxt(&mut self, texture: &IndexedTexture) -> (result: Option<MaterialSlot>)
        requires
            old(self).wf(),
        ensures
            final(self).wf(),
            final(self).same_caches(*old(self)),
            final(self).next_clut_x == old(self).next_clut_x,
            ({
                let x = old(self).next_model_tpage_x;
                let y = old(self).next_model_clut_y;
                if !atlas_taken(*texture, x, y) {
                    result is None && final(self).unchanged(*old(self))
                } else if texture.clut_bytes@.len() != 2 * texture.clut_entries {
                    &&& result is None
                    &&& final(self).vram.has_rect(
                        old(self).vram,
                        x as int,
                        MODEL_TPAGE_Y as int,
                        texture.halfwords_per_row as int,
                        texture.height as int,
                        pixel_words(*texture),
                    )
                    &&& final(self).next_model_tpage_x == x
                    &&& final(self).next_model_clut_y == y
                } else {
                    &&& result == Some(atlas_slot(*texture, x, y))
                    &&& overlaid(
                        final(self).vram,
                        old(self).vram,
                        x as int,
                        MODEL_TPAGE_Y as int,
                        texture.halfwords_per_row as int,
                        texture.height as int,
                        pixel_words(*texture),
                        0,
                        y as int,
                        atlas_clut(*texture),
                    )
                    &&& final(self).next_model_tpage_x == x + atlas_columns(
                        texture.halfwords_per_row,
                    )
                    &&& final(self).next_model_clut_y == y + 1
                }
            }),
    {
        let depth: u16 = match texture.clut_entries {
            16 => 0,
            256 => 1,
            _ => return None,
        };
        let halfwords_per_row: u16 = texture.halfwords_per_row;
        let height_px: u16 = texture.height;
        if texture.width == 0 || texture.width > 256 || height_px == 0 || height_px
            > MODEL_ATLAS_MAX_ROWS || halfwords_per_row > MODEL_TPAGE_MAX_HALFWORDS {
            return None;
        }
        proof {
            lemma_pixel_count(halfwords_per_row as int, height_px as int);
        }
        let count: usize = halfwords_per_row as usize * height_px as usize;
        if texture.pixel_bytes.len() != count * 2 {
            return None;
        }
        let slot_halfwords: u16 = if halfwords_per_row <= MODEL_TPAGE_ALIGNMENT_HALFWORDS {
            MODEL_TPAGE_ALIGNMENT_HALFWORDS
        } else {
            MODEL_TPAGE_MAX_HALFWORDS
        };
        let tpage_x: u16 = align_up_to(self.next_model_tpage_x, MODEL_TPAGE_ALIGNMENT_HALFWORDS);
        if tpage_x >= SHADOW_TPAGE_X || tpage_x + slot_halfwords > SHADOW_TPAGE_X {
            return None;
        }
        if self.next_model_clut_y >= 512 {
            return None;
        }
        let clut_y: u16 = self.next_model_clut_y;
        let words = words_from_bytes(&texture.pixel_bytes, count);
        self.vram.write_rect(
            tpage_x as usize,
            MODEL_TPAGE_Y as usize,
            halfwords_per_row as usize,
            height_px as usize,
            &words,
        );
        let clut_entries: usize = texture.clut_entries as usize;
        if texture.clut_bytes.len() != clut_entries * 2 {
            return None;
        }
        let clut = atlas_clut_words(texture);
        let ghost pixels_in = self.vram;
        self.vram.write_rect(0, clut_y as usize, clut_entries, 1, &clut);
        proof {
            lemma_overlaid(
                old(self).vram,
                pixels_in,
                self.vram,
                tpage_x as int,
                MODEL_TPAGE_Y as int,
                halfwords_per_row as int,
                height_px as int,
                words@,
                0,
                clut_y as int,
                clut@,
            );
        }
        let tpage_index: u16 = tpage_x / MODEL_TPAGE_ALIGNMENT_HALFWORDS;
        let slot = MaterialSlot {
            tpage_word: pack_indexed_tpage_word(tpage_index, 1, depth),
            clut_word: pack_clut_word(0, clut_y),
            texture_window: TextureWindow::Unbounded,
            texture_width: limit_to_u8(texture.width),
            texture_height: limit_to_u8(texture.height),
        };
        self.next_model_tpage_x = tpage_x + slot_halfwords;
        self.next_model_clut_y = clut_y + 1;
        Some(slot)
    }

    /// Record what became of a model's atlas: its slot under its path, or
    /// nothing if it could not be uploaded.
    pub fn finish_model(&mut self, id: ResourceId, signature: String, slot: Option<MaterialSlot>)
        requires
            old(self).wf(),
        ensures
            final(self).wf(),
            final(self).model_cache@ == match slot {
                Some(_) => old(self).model_cache@.insert(
                    id.0,
                    ModelAtlasCacheEntry { slot, signature },
                ),
                None => old(self).model_cache@.remove(id.0),
            },
            final(self).cache@ == old(self).cache@,
            final(self).secondary_cache@ == old(self).secondary_cache@,
            final(self).room_signature@ == old(self).room_signature@,
            final(self).vram@ == old(self).vram@,
            final(self).next_clut_x == old(self).next_clut_x,
            final(self).next_model_tpage_x == old(self).next_model_tpage_x,
            final(self).next_model_clut_y == old(self).next_model_clut_y,
            final(self).shadow_slot == old(self).shadow_slot,
            final(self).particle_slot == old(self).particle_slot,
    {
        match slot {
            Some(_) => {
                self.model_cache.insert(id.0, ModelAtlasCacheEntry { slot, signature });
            },
            None => {
                self.drop_model(id);
            },
        }
    }
}

fn chars_empty(text: &str) -> (result: bool)
    ensures
        result == (text@.len() == 0),
{
    crate::text::chars_of(text).len() == 0
}

fn limit_to_u8(value: u16) -> (result: u8)
    ensures
        result == min_int(value as int, 255),
{
    if value > 255 {
        255
    } else {
        value as u8
    }
}

fn atlas_clut_words(texture: &IndexedTexture) -> (result: Vec<u16>)
    requires
        texture.clut_bytes@.len() == 2 * texture.clut_entries,
    ensures
        result@ == atlas_clut(*texture),
{
    let count: usize = texture.clut_entries as usize;
    let raw = words_from_bytes(&texture.clut_bytes, count);
    let mut out: Vec<u16> = Vec::new();
    for i in 0..count
        invariant
            count == texture.clut_entries,
            raw@ == le_words(texture.clut_bytes@, count as nat),
            out@.len() == i,
            forall|j: int|
                0 <= j < i ==> #[trigger] out@[j] == room_clut_entry(
                    j,
                    le_word(texture.clut_bytes@, j),
                    texture.index_zero_transparent,
                    false,
                ),
    {
        out.push(model_atlas_clut_entry(i, raw[i], texture.index_zero_transparent));
    }
    assert(out@ =~= atlas_clut(*texture));
    out
}

/// An uploaded room texture touches room memory alone.
pub proof fn law_room_upload_stays_in_room_memory(
    after: Vram,
    before: Vram,
    placement: AtlasPlacement,
    texture: IndexedTexture,
    next_clut_x: u16,
    force_zero_opaque: bool,
    x: int,
    y: int,
)
    requires
        placement.holds(texture.width as int, texture.height as int),
        room_texture_taken(texture, next_clut_x),
        overlaid(
            after,
            before,
            placement.left(),
            placement.origin_v as int,
            texture.halfwords_per_row as int,
            texture.height as int,
            pixel_words(texture),
            next_clut_x as int,
            ROOM_CLUT_Y as int,
            room_clut(texture, force_zero_opaque),
        ),
        in_vram(x, y),
        !in_room_region(x, y),
    ensures
        after.at(x, y) == before.at(x, y),
{
}

/// An uploaded model atlas touches neither room memory nor the fixed textures.
pub proof fn law_model_upload_stays_in_model_memory(
    after: Vram,
    before: Vram,
    texture: IndexedTexture,
    tpage_x: u16,
    clut_y: u16,
    x: int,
    y: int,
)
    requires
        atlas_taken(texture, tpage_x, clut_y),
        clut_y >= MODEL_CLUT_FIRST_Y,
        overlaid(
            after,
            before,
            tpage_x as int,
            MODEL_TPAGE_Y as int,
            texture.halfwords_per_row as int,
            texture.height as int,
            pixel_words(texture),
            0,
            clut_y as int,
            atlas_clut(texture),
        ),
        in_vram(x, y),
        in_room_region(x, y) || in_fixed_region(x, y),
    ensures
        after.at(x, y) == before.at(x, y),
{
}

/// The slot of a room texture points at the texture: its page and its tile there
/// begin where the texture was put, and its palette word names the palette's
/// place.
pub proof fn law_room_slots_point_at_their_textures(
    placement: AtlasPlacement,
    clut_x: u16,
    width: u8,
    height: u8,
)
    requires
        placement.holds(width as int, height as int),
        clut_x % 16 == 0,
        clut_x + ROOM_CLUT_HALFWORDS <= 1024,
    ensures
        ({
            let slot = room_slot(placement, clut_x, width, height);
            &&& (slot.tpage_word % 16) * 64 + placement.origin_u / 4 == placement.left()
            &&& slot.tpage_word < 16
            &&& (slot.clut_word % 64) * 16 == clut_x
            &&& slot.clut_word / 64 == ROOM_CLUT_Y
            &&& slot.texture_window == (TextureWindow::Tile {
                origin_u: placement.origin_u,
                origin_v: placement.origin_v,
                width: slot.texture_width,
                height: slot.texture_height,
            })
            &&& slot.texture_width == width && slot.texture_height == height
            &&& in_room_region(placement.left(), placement.origin_v as int) || width == 0 || height
                == 0
        }),
{
}

/// The slot of a model atlas points at the atlas: its page lies in the lower row
/// where the atlas was put, in the depth of its palette, which begins its row.
pub proof fn law_model_slots_point_at_their_atlases(
    texture: IndexedTexture,
    tpage_x: u16,
    clut_y: u16,
)
    requires
        atlas_taken(texture, tpage_x, clut_y),
        tpage_x % 64 == 0,
    ensures
        ({
            let slot = atlas_slot(texture, tpage_x, clut_y);
            &&& (slot.tpage_word % 16) * 64 == tpage_x
            &&& slot.tpage_word / 16 % 2 * 256 == MODEL_TPAGE_Y
            &&& slot.tpage_word / 128 == (if texture.clut_entries == 256 {
                1int
            } else {
                0
            })
            &&& slot.clut_word % 64 == 0 && slot.clut_word / 64 == clut_y
            &&& texture.width < 256 ==> slot.texture_width == texture.width
            &&& texture.height < 256 ==> slot.texture_height == texture.height
            &&& slot.texture_window == TextureWindow::Unbounded
        }),
        texture.halfwords_per_row <= atlas_columns(texture.halfwords_per_row),
        atlas_columns(texture.halfwords_per_row) % 64 == 0,
        texture.clut_entries == 16 || texture.clut_entries == 256,
{
}

/// The fixed slots point at the shadow and at the palettes of both fixed
/// textures, as they stand in freshly prepared memory.
pub proof fn law_fixed_slots_point_at_their_textures(
    shadow_pixels: Seq<u8>,
    column: int,
    row: int,
    i: int,
)
    requires
        0 <= column < 16,
        0 <= row < 64,
        0 <= i < 16,
    ensures
        ({
            let shadow = fixed_shadow_slot();
            let left = (shadow.tpage_word % 16) * 64;
            let top = (shadow.tpage_word / 16 % 2) * 256;
            let palette_left = (shadow.clut_word % 64) * 16;
            let palette_top = (shadow.clut_word / 64) as int;
            &&& fresh_word(shadow_pixels, left + column, top + row) == packed_texels(
                shadow_pixels,
                16 * row + column,
            )
            &&& fresh_word(shadow_pixels, palette_left + i, palette_top) == shadow_palette_entry(
                i,
            ) as u16
            &&& shadow.texture_width == 64 && shadow.texture_height == 64
        }),
        ({
            let particle = fixed_particle_slot();
            let palette_left = (particle.clut_word % 64) * 16;
            let palette_top = (particle.clut_word / 64) as int;
            &&& fresh_word(shadow_pixels, palette_left + i, palette_top) == (if i == 1 {
                0xFFFFu16
            } else {
                0
            })
            &&& (particle.tpage_word % 16) * 64 + 16 == PARTICLE_TEXTURE_X
            &&& (particle.tpage_word / 16 % 2) * 256 == SHADOW_TPAGE_Y
            &&& particle.texture_width == 16 && particle.texture_height == 16
        }),
{
}

/// A room texture keeps at most sixteen colours of its palette, each as it was
/// but for the mark.
pub proof fn law_palettes_keep_their_colours(texture: IndexedTexture, force_zero_opaque: bool, i: int)
    requires
        0 <= i < room_clut(texture, force_zero_opaque).len(),
    ensures
        room_clut(texture, force_zero_opaque).len() <= 16,
        2 * i + 1 < texture.clut_bytes@.len(),
        room_clut(texture, force_zero_opaque)[i] % 0x8000 == (texture.clut_bytes@[2 * i] + 256
            * texture.clut_bytes@[2 * i + 1]) % 0x8000,
{
    law_marking_keeps_the_colour(
        i,
        le_word(texture.clut_bytes@, i),
        texture.index_zero_transparent,
        force_zero_opaque,
    );
    law_words_hold_their_bytes(texture.clut_bytes@, i);
}

/// An atlas is taken up to these sizes and no further: 256 texels wide, 224 rows,
/// 128 words a row, as long as a palette row is left and its columns end before
/// the fixed textures.
pub proof fn law_atlases_are_taken_up_to_their_limits(
    texture: IndexedTexture,
    tpage_x: u16,
    clut_y: u16,
)
    requires
        texture.clut_entries == 16 || texture.clut_entries == 256,
        texture.pixels_complete(),
        texture.width >= 1,
        texture.height >= 1,
    ensures
        atlas_taken(texture, tpage_x, clut_y) <==> {
            &&& texture.width <= 256 && texture.height <= 224 && texture.halfwords_per_row <= 128
            &&& clut_y < 512
            &&& texture.halfwords_per_row <= 64 ==> tpage_x + 64 <= 960
            &&& texture.halfwords_per_row > 64 ==> tpage_x + 128 <= 960
        },
{
}

} // verus!
