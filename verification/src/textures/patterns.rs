//! Procedural stand-ins for textures that cannot be loaded.
//!
//! A pattern is 64 by 64 texels with a palette of sixteen colours.

use crate::math::max_int;
use crate::text::{
    chars_of, contains_folded, contains_ignoring_case, law_words_are_found_in_any_capitals, small,
};
use crate::textures::words::{psx_555, rgb_555};
use vstd::prelude::*;

verus! {

/// Mortar, then brick tones from dark to light.
pub const BRICK_COLORS: [(u8, u8, u8); 16] = [
    (0x30, 0x18, 0x10),
    (0xC8, 0x70, 0x40),
    (0xB0, 0x60, 0x38),
    (0xD8, 0x88, 0x58),
    (0x40, 0x20, 0x18),
    (0x50, 0x28, 0x18),
    (0x60, 0x30, 0x20),
    (0x70, 0x40, 0x28),
    (0x80, 0x48, 0x30),
    (0x90, 0x50, 0x38),
    (0xA0, 0x58, 0x38),
    (0xC0, 0x68, 0x40),
    (0xD0, 0x78, 0x48),
    (0xE0, 0x90, 0x60),
    (0xF0, 0xA0, 0x70),
    (0xFF, 0xB8, 0x88),
];

/// Grout, then sand tones.
pub const STONE_COLORS: [(u8, u8, u8); 16] = [
    (0x60, 0x58, 0x4C),
    (0xB6, 0xAC, 0x96),
    (0xA0, 0x96, 0x80),
    (0xC8, 0xBC, 0xA8),
    (0x90, 0x88, 0x70),
    (0x98, 0x90, 0x78),
    (0xA8, 0x9E, 0x88),
    (0xB0, 0xA6, 0x90),
    (0xB8, 0xAE, 0x98),
    (0xC0, 0xB6, 0xA0),
    (0xC8, 0xBE, 0xA8),
    (0xD0, 0xC4, 0xB0),
    (0xD8, 0xCC, 0xB8),
    (0xE0, 0xD4, 0xC0),
    (0x88, 0x80, 0x6C),
    (0x70, 0x68, 0x58),
];

/// Blue tones.
pub const GLASS_COLORS: [(u8, u8, u8); 16] = [
    (0x10, 0x20, 0x30),
    (0x30, 0x60, 0x90),
    (0x40, 0x78, 0xA8),
    (0x50, 0x88, 0xB8),
    (0x60, 0x98, 0xC8),
    (0x70, 0xA8, 0xD0),
    (0x80, 0xB0, 0xD8),
    (0x88, 0xB8, 0xE0),
    (0x90, 0xC0, 0xE8),
    (0x98, 0xC8, 0xF0),
    (0xA0, 0xD0, 0xF8),
    (0xB0, 0xD8, 0xFF),
    (0xC0, 0xE0, 0xFF),
    (0x20, 0x40, 0x68),
    (0x28, 0x48, 0x70),
    (0x18, 0x30, 0x58),
];

/// Plank seam, then brown tones.
pub const WOOD_COLORS: [(u8, u8, u8); 16] = [
    (0x30, 0x18, 0x10),
    (0x90, 0x60, 0x40),
    (0x80, 0x50, 0x30),
    (0xA0, 0x70, 0x48),
    (0x70, 0x48, 0x28),
    (0x60, 0x38, 0x20),
    (0x50, 0x30, 0x18),
    (0x40, 0x28, 0x18),
    (0xB0, 0x80, 0x50),
    (0xC0, 0x90, 0x58),
    (0xD0, 0xA0, 0x68),
    (0xA8, 0x78, 0x48),
    (0x98, 0x68, 0x40),
    (0x88, 0x58, 0x38),
    (0x78, 0x50, 0x30),
    (0x68, 0x48, 0x28),
];

/// Grey tones.
pub const METAL_COLORS: [(u8, u8, u8); 16] = [
    (0x30, 0x30, 0x30),
    (0x80, 0x80, 0x80),
    (0x90, 0x90, 0x90),
    (0xA0, 0xA0, 0xA0),
    (0xB0, 0xB0, 0xB0),
    (0xC0, 0xC0, 0xC0),
    (0xD0, 0xD0, 0xD0),
    (0xE0, 0xE0, 0xE0),
    (0x70, 0x70, 0x70),
    (0x60, 0x60, 0x60),
    (0x50, 0x50, 0x50),
    (0x40, 0x40, 0x40),
    (0xF0, 0xF0, 0xF0),
    (0xFF, 0xFF, 0xFF),
    (0xC8, 0xC8, 0xC8),
    (0xB8, 0xB8, 0xB8),
];

/// Grey tones, and loud colours for texels that should not occur.
pub const DEFAULT_COLORS: [(u8, u8, u8); 16] = [
    (0x40, 0x40, 0x40),
    (0x80, 0x80, 0x80),
    (0xA0, 0xA0, 0xA0),
    (0xC0, 0xC0, 0xC0),
    (0xE0, 0xE0, 0xE0),
    (0xFF, 0x80, 0xFF),
    (0xFF, 0xFF, 0x80),
    (0x80, 0xFF, 0xFF),
    (0x80, 0x80, 0x80),
    (0x80, 0x80, 0x80),
    (0x80, 0x80, 0x80),
    (0x80, 0x80, 0x80),
    (0x80, 0x80, 0x80),
    (0x80, 0x80, 0x80),
    (0x80, 0x80, 0x80),
    (0x80, 0x80, 0x80),
];

/// One generated texture: a texel per byte, and its palette.
#[derive(Debug)]
pub struct ProceduralTexture {
    pub pixels: Vec<u8>,
    pub palette: Vec<u16>,
}

/// The patterns that can be drawn.
#[derive(Clone, Copy, Debug, PartialEq, Eq, Structural)]
pub enum Pattern {
    Brick,
    Stone,
    Glass,
    Wood,
    Metal,
    Checker,
}

/// The pattern that a material's name asks for.
pub open spec fn named_pattern(name: Seq<char>) -> Pattern {
    if contains_folded(name, "brick"@) {
        Pattern::Brick
    } else if contains_folded(name, "floor"@) || contains_folded(name, "stone"@) {
        Pattern::Stone
    } else if contains_folded(name, "glass"@) {
        Pattern::Glass
    } else if contains_folded(name, "wood"@) {
        Pattern::Wood
    } else if contains_folded(name, "metal"@) {
        Pattern::Metal
    } else {
        Pattern::Checker
    }
}

/// The pattern that a material's name asks for.
pub fn pattern_kind(name: &str) -> (result: Pattern)
    ensures
        result == named_pattern(name@),
{
    let chars = chars_of(name);
    if contains_ignoring_case(&chars, "brick") {
        Pattern::Brick
    } else if contains_ignoring_case(&chars, "floor") || contains_ignoring_case(&chars, "stone") {
        Pattern::Stone
    } else if contains_ignoring_case(&chars, "glass") {
        Pattern::Glass
    } else if contains_ignoring_case(&chars, "wood") {
        Pattern::Wood
    } else if contains_ignoring_case(&chars, "metal") {
        Pattern::Metal
    } else {
        Pattern::Checker
    }
}

/// Bricks of 16 by 8 texels, every other row shifted by half a brick.
pub open spec fn brick_texel(x: int, y: int) -> int {
    let across = (x + if (y / 8) % 2 == 0 {
        0int
    } else {
        8
    }) % 16;
    let down = y % 8;
    if down == 0 || down == 7 || across == 0 || across == 15 {
        0
    } else if down == 1 || across == 1 || across == 14 {
        2
    } else if down == 6 {
        3
    } else {
        1
    }
}

/// The speckle of a stone tile, from 0 to 7.
pub open spec fn stone_speckle(x: int, y: int) -> u32 {
    (((x * 73) as u32) ^ ((y * 151) as u32)) & 7
}

/// Tiles of 16 by 16 texels with grout, a shadowed and a lit edge, and speckles.
pub open spec fn stone_texel(x: int, y: int) -> int {
    let across = x % 16;
    let down = y % 16;
    if across == 0 || down == 0 {
        0
    } else if across == 1 || down == 1 {
        2
    } else if across == 15 || down == 15 {
        3
    } else if stone_speckle(x, y) < 2 {
        2
    } else if stone_speckle(x, y) > 5 {
        3
    } else {
        1
    }
}

/// A glow that fades with the squared distance from the centre.
pub open spec fn glass_texel(x: int, y: int) -> int {
    max_int(12 - ((x - 32) * (x - 32) + (y - 32) * (y - 32)) / 96, 0)
}

/// Planks of sixteen rows under a seam, each with vertical grain.
pub open spec fn wood_texel(x: int, y: int) -> int {
    if y % 16 == 0 {
        0
    } else {
        max_int((((y / 16) * 31 + x) * 2654435761) % 0x1_0000_0000 / 0x1000_0000, 1)
    }
}

/// Brushed stripes of two rows.
pub open spec fn metal_texel(x: int, y: int) -> int {
    let grain = (((x * 101) as u32) ^ ((y * 13) as u32)) & 3;
    grain as int + if (y / 2) % 2 == 0 {
        4int
    } else {
        5
    }
}

/// A checkerboard of 4 by 4 texels.
pub open spec fn checker_texel(x: int, y: int) -> int {
    if (x / 4 + y / 4) % 2 == 0 {
        1
    } else {
        3
    }
}

/// The texel of a pattern at `(x, y)`.
pub open spec fn texel(pattern: Pattern, x: int, y: int) -> int {
    match pattern {
        Pattern::Brick => brick_texel(x, y),
        Pattern::Stone => stone_texel(x, y),
        Pattern::Glass => glass_texel(x, y),
        Pattern::Wood => wood_texel(x, y),
        Pattern::Metal => metal_texel(x, y),
        Pattern::Checker => checker_texel(x, y),
    }
}

/// The colours of a pattern.
pub open spec fn colors(pattern: Pattern) -> [(u8, u8, u8); 16] {
    match pattern {
        Pattern::Brick => BRICK_COLORS,
        Pattern::Stone => STONE_COLORS,
        Pattern::Glass => GLASS_COLORS,
        Pattern::Wood => WOOD_COLORS,
        Pattern::Metal => METAL_COLORS,
        Pattern::Checker => DEFAULT_COLORS,
    }
}

fn pattern_texel(pattern: Pattern, x: u32, y: u32) -> (result: u8)
    requires
        x < 64,
        y < 64,
    ensures
        result == texel(pattern, x as int, y as int),
        result < 16,
{
    match pattern {
        Pattern::Brick => {
            let row_offset: u32 = if (y / 8) % 2 == 0 {
                0
            } else {
                8
            };
            let local_y: u32 = y % 8;
            let local_x: u32 = (x + row_offset) % 16;
            if local_y == 0 || local_y == 7 || local_x == 0 || local_x == 15 {
                0
            } else if local_y == 1 || local_x == 1 || local_x == 14 {
                2
            } else if local_y == 6 {
                3
            } else {
                1
            }
        },
        Pattern::Stone => {
            let lx: u32 = x % 16;
            let ly: u32 = y % 16;
            if lx == 0 || ly == 0 {
                0
            } else if lx == 1 || ly == 1 {
                2
            } else if lx == 15 || ly == 15 {
                3
            } else {
                let h: u32 = ((x * 73) ^ (y * 151)) & 7;
                if h < 2 {
                    2
                } else if h > 5 {
                    3
                } else {
                    1
                }
            }
        },
        Pattern::Glass => {
            let dx: i32 = x as i32 - 32;
            let dy: i32 = y as i32 - 32;
            assert(0 <= dx * dx <= 1024 && 0 <= dy * dy <= 1024) by (nonlinear_arith)
                requires
                    -32 <= dx <= 31,
                    -32 <= dy <= 31,
            ;
            let r: u32 = (dx * dx + dy * dy) as u32;
            12u32.saturating_sub(r / 96) as u8
        },
        Pattern::Wood => {
            if y % 16 == 0 {
                0
            } else {
                let seed: u32 = (y / 16) * 31 + x;
                let mixed: u32 = seed.wrapping_mul(2654435761);
                let h: u32 = mixed >> 28;
                assert(h == mixed / 0x1000_0000 && h < 16) by (bit_vector)
                    requires
                        h == mixed >> 28,
                ;
                assert(mixed as int == (seed * 2654435761) % 0x1_0000_0000);
                if h >= 1 {
                    h as u8
                } else {
                    1
                }
            }
        },
        Pattern::Metal => {
            let base: u32 = if (y / 2) % 2 == 0 {
                4
            } else {
                5
            };
            let h: u32 = ((x * 101) ^ (y * 13)) & 3;
            assert(h <= 3) by (bit_vector)
                requires
                    h == ((x * 101) as u32 ^ (y * 13) as u32) & 3,
            ;
            (base + h) as u8
        },
        Pattern::Checker => {
            if (x / 4 + y / 4) % 2 == 0 {
                1
            } else {
                3
            }
        },
    }
}

fn pattern_colors(pattern: Pattern) -> (result: [(u8, u8, u8); 16])
    ensures
        result == colors(pattern),
{
    match pattern {
        Pattern::Brick => BRICK_COLORS,
        Pattern::Stone => STONE_COLORS,
        Pattern::Glass => GLASS_COLORS,
        Pattern::Wood => WOOD_COLORS,
        Pattern::Metal => METAL_COLORS,
        Pattern::Checker => DEFAULT_COLORS,
    }
}

/// The texels of a pattern, row by row.
pub open spec fn pattern_pixels(pattern: Pattern) -> Seq<u8> {
    Seq::new(4096, |i: int| texel(pattern, i % 64, i / 64) as u8)
}

/// The palette of a pattern.
pub open spec fn pattern_palette(pattern: Pattern) -> Seq<u16> {
    Seq::new(16, |i: int| rgb_555(colors(pattern)[i]) as u16)
}

/// Draw a pattern. Every texel names one of the sixteen palette entries.
pub fn draw_pattern(pattern: Pattern) -> (result: ProceduralTexture)
    ensures
        result.pixels@ == pattern_pixels(pattern),
        result.palette@ == pattern_palette(pattern),
        forall|i: int| 0 <= i < 4096 ==> (#[trigger] result.pixels@[i]) < 16,
{
    let mut pixels: Vec<u8> = Vec::new();
    for i in 0..4096u32
        invariant
            pixels@.len() == i,
            forall|j: int|
                0 <= j < i ==> (#[trigger] pixels@[j]) < 16 && pixels@[j] == texel(
                    pattern,
                    j % 64,
                    j / 64,
                ),
    {
        pixels.push(pattern_texel(pattern, i % 64, i / 64));
    }
    let table = pattern_colors(pattern);
    let mut palette: Vec<u16> = Vec::new();
    for i in 0..16
        invariant
            table == colors(pattern),
            palette@.len() == i,
            forall|j: int| 0 <= j < i ==> #[trigger] palette@[j] == rgb_555(colors(pattern)[j]),
    {
        palette.push(psx_555(table[i]));
    }
    assert(pixels@ =~= pattern_pixels(pattern));
    assert(palette@ =~= pattern_palette(pattern));
    ProceduralTexture { pixels, palette }
}

/// Draw the pattern that a material's name asks for.
pub fn pattern_for_name(name: &str) -> (result: ProceduralTexture)
    ensures
        result.pixels@ == pattern_pixels(named_pattern(name@)),
        result.palette@ == pattern_palette(named_pattern(name@)),
{
    draw_pattern(pattern_kind(name))
}

/// The sixteen palette entries of the blob shadow: clear, then dark greys.
pub open spec fn shadow_palette_entry(i: int) -> int {
    if i == 0 {
        0
    } else {
        let v = crate::math::min_int(1 + i / 4, 5);
        0x8000 + v * 1024 + v * 32 + v
    }
}

/// The palette of the blob shadow.
pub fn shadow_palette() -> (result: Vec<u16>)
    ensures
        result@.len() == 16,
        forall|i: int| 0 <= i < 16 ==> #[trigger] result@[i] == shadow_palette_entry(i),
{
    let mut palette: Vec<u16> = Vec::new();
    palette.push(0);
    for i in 1..16usize
        invariant
            palette@.len() == i,
            forall|j: int| 0 <= j < i ==> #[trigger] palette@[j] == shadow_palette_entry(j),
    {
        let step: usize = 1 + i / 4;
        let v: u8 = if step > 5 {
            5
        } else {
            step as u8
        };
        let shade: u8 = v * 8;
        palette.push(crate::textures::words::opaque_room_clut_entry(psx_555((shade, shade, shade))));
    }
    palette
}

/// Thresholds of an ordered dither, eight rows of eight.
pub const DITHER: [u8; 64] = [
    0, 48, 12, 60, 3, 51, 15, 63,
    32, 16, 44, 28, 35, 19, 47, 31,
    8, 56, 4, 52, 11, 59, 7, 55,
    40, 24, 36, 20, 43, 27, 39, 23,
    2, 50, 14, 62, 1, 49, 13, 61,
    34, 18, 46, 30, 33, 17, 45, 29,
    10, 58, 6, 54, 9, 57, 5, 53,
    42, 26, 38, 22, 41, 25, 37, 21,
];

/// Four times the squared distance of a texel from the middle of the shadow.
pub open spec fn shadow_distance(x: int, y: int) -> int {
    (2 * x - 63) * (2 * x - 63) + (2 * y - 63) * (2 * y - 63)
}

/// A texel of the blob shadow: clear from thirty texels on, solid up to twelve,
/// and between them dithered by how much of the texel the shadow covers.
pub open spec fn shadow_texel(x: int, y: int, coverage: u8, shade: u8) -> u8 {
    if shadow_distance(x, y) >= 3600 {
        0
    } else if shadow_distance(x, y) <= 576 {
        5
    } else if DITHER@[8 * (y % 8) + x % 8] >= coverage {
        0
    } else {
        shade
    }
}

/// The blob shadow, 64 by 64 texels, row by row. `coverage` tells of each texel
/// how much of it the shadow covers, in 64ths, and `shade` how dark it is there.
pub fn shadow_pattern(coverage: &Vec<u8>, shade: &Vec<u8>) -> (result: ProceduralTexture)
    requires
        coverage@.len() == 4096,
        shade@.len() == 4096,
    ensures
        result.pixels@.len() == 4096,
        forall|i: int|
            0 <= i < 4096 ==> #[trigger] result.pixels@[i] == shadow_texel(
                i % 64,
                i / 64,
                coverage@[i],
                shade@[i],
            ),
        result.palette@.len() == 16,
        forall|i: int| 0 <= i < 16 ==> #[trigger] result.palette@[i] == shadow_palette_entry(i),
{
    let thresholds = DITHER;
    let mut pixels: Vec<u8> = Vec::new();
    for i in 0..4096usize
        invariant
            thresholds == DITHER,
            coverage@.len() == 4096,
            shade@.len() == 4096,
            pixels@.len() == i,
            forall|j: int|
                0 <= j < i ==> #[trigger] pixels@[j] == shadow_texel(
                    j % 64,
                    j / 64,
                    coverage@[j],
                    shade@[j],
                ),
    {
        let x: i32 = (i % 64) as i32;
        let y: i32 = (i / 64) as i32;
        let dx: i32 = 2 * x - 63;
        let dy: i32 = 2 * y - 63;
        assert(0 <= dx * dx <= 3969 && 0 <= dy * dy <= 3969) by (nonlinear_arith)
            requires
                -63 <= dx <= 63,
                -63 <= dy <= 63,
        ;
        let distance: i32 = dx * dx + dy * dy;
        let texel: u8 = if distance >= 3600 {
            0
        } else if distance <= 576 {
            5
        } else if thresholds[8 * ((i / 64) % 8) + (i % 64) % 8] >= coverage[i] {
            0
        } else {
            shade[i]
        };
        pixels.push(texel);
    }
    ProceduralTexture { pixels, palette: shadow_palette() }
}

/// A texel of the round particle mask: set inside a circle around the centre.
pub open spec fn particle_texel(x: int, y: int) -> int {
    if (2 * x - 15) * (2 * x - 15) + (2 * y - 15) * (2 * y - 15) <= 225 {
        1
    } else {
        0
    }
}

/// The round particle mask, 16 by 16 texels, row by row.
pub fn particle_pixels() -> (result: Vec<u8>)
    ensures
        result@.len() == 256,
        forall|i: int| 0 <= i < 256 ==> #[trigger] result@[i] == particle_texel(i % 16, i / 16),
{
    let mut pixels: Vec<u8> = Vec::new();
    for i in 0..256i32
        invariant
            pixels@.len() == i,
            forall|j: int| 0 <= j < i ==> #[trigger] pixels@[j] == particle_texel(j % 16, j / 16),
    {
        let dx: i32 = 2 * (i % 16) - 15;
        let dy: i32 = 2 * (i / 16) - 15;
        assert(0 <= dx * dx <= 225 && 0 <= dy * dy <= 225) by (nonlinear_arith)
            requires
                -15 <= dx <= 15,
                -15 <= dy <= 15,
        ;
        if dx * dx + dy * dy <= 225 {
            pixels.push(1);
        } else {
            pixels.push(0);
        }
    }
    pixels
}

/// Bricks repeat every sixteen columns, the next row of them half a brick aside;
/// mortar runs between the rows and the bricks, each lit at its upper edge and
/// its ends, and shaded at its lower one.
pub proof fn law_bricks_are_laid_in_rows(x: int, y: int)
    requires
        x >= 0,
        y >= 0,
    ensures
        brick_texel(x + 16, y) == brick_texel(x, y),
        brick_texel(x + 8, y + 8) == brick_texel(x, y),
        y % 8 == 0 || y % 8 == 7 ==> brick_texel(x, y) == 0,
        y < 8 && (x % 16 == 0 || x % 16 == 15) ==> brick_texel(x, y) == 0,
        y < 8 && 1 <= y % 8 <= 6 && (x % 16 == 1 || x % 16 == 14) ==> brick_texel(x, y) == 2,
        y % 8 == 1 && 2 <= x % 16 <= 13 && y < 8 ==> brick_texel(x, y) == 2,
        y % 8 == 6 && 2 <= x % 16 <= 13 && y < 8 ==> brick_texel(x, y) == 3,
        2 <= y % 8 <= 5 && 2 <= x % 16 <= 13 && y < 8 ==> brick_texel(x, y) == 1,
        0 <= brick_texel(x, y) <= 3,
{
    assert((y + 8) / 8 == y / 8 + 1 && (y + 8) % 8 == y % 8);
    assert((x + 16) % 16 == x % 16 && (x + 16 + 8) % 16 == (x + 8) % 16 && (x + 8 + 8) % 16 == x
        % 16);
}

/// Stone tiles repeat their grout and edges every sixteen texels both ways; grout
/// is darkest, and nothing else is grout.
pub proof fn law_stones_are_laid_in_a_grid(x: int, y: int)
    requires
        x >= 0,
        y >= 0,
    ensures
        stone_texel(x, y) == 0 <==> x % 16 == 0 || y % 16 == 0,
        x % 16 == 1 && y % 16 != 0 ==> stone_texel(x, y) == 2,
        y % 16 == 1 && x % 16 != 0 ==> stone_texel(x, y) == 2,
        x % 16 == 15 && y % 16 >= 2 ==> stone_texel(x, y) == 3,
        y % 16 == 15 && x % 16 >= 2 ==> stone_texel(x, y) == 3,
        0 <= stone_texel(x, y) <= 3,
{
}

/// Glass glows the same on all sides, brightest in its middle, and no brighter
/// further out.
pub proof fn law_glass_glows_from_its_middle(x: int, y: int, u: int, v: int)
    ensures
        glass_texel(64 - x, y) == glass_texel(x, y),
        glass_texel(x, 64 - y) == glass_texel(x, y),
        glass_texel(y, x) == glass_texel(x, y),
        glass_texel(32, 32) == 12,
        (x - 32) * (x - 32) + (y - 32) * (y - 32) <= (u - 32) * (u - 32) + (v - 32) * (v - 32)
            ==> glass_texel(u, v) <= glass_texel(x, y),
        glass_texel(x, y) >= 0,
{
    assert((64 - x - 32) * (64 - x - 32) == (x - 32) * (x - 32)) by (nonlinear_arith);
    assert((64 - y - 32) * (64 - y - 32) == (y - 32) * (y - 32)) by (nonlinear_arith);
}

/// The grain of wood runs along a plank: it changes neither down the plank nor
/// into its seam, which lies every sixteen rows.
pub proof fn law_grain_runs_along_planks(x: int, y: int, v: int)
    requires
        0 <= x < 64,
        0 <= y < 64,
        0 <= v < 64,
    ensures
        wood_texel(x, y) == 0 <==> y % 16 == 0,
        y / 16 == v / 16 && y % 16 != 0 && v % 16 != 0 ==> wood_texel(x, y) == wood_texel(x, v),
        0 <= wood_texel(x, y) <= 15,
{
}

/// Stripes of metal are two rows high, and every other one is a step lighter.
pub proof fn law_metal_is_striped(x: int, y: int)
    requires
        0 <= x < 64,
        0 <= y < 64,
    ensures
        (y / 2) % 2 == 0 ==> 4 <= metal_texel(x, y) <= 7,
        (y / 2) % 2 == 1 ==> 5 <= metal_texel(x, y) <= 8,
{
    let grain = (((x * 101) as u32) ^ ((y * 13) as u32)) & 3;
    let mixed = ((x * 101) as u32) ^ ((y * 13) as u32);
    assert(mixed & 3 <= 3) by (bit_vector);
}

/// Neighbouring squares of a checkerboard differ, and squares across a corner are
/// alike.
pub proof fn law_checkers_alternate(x: int, y: int)
    requires
        x >= 0,
        y >= 0,
    ensures
        checker_texel(x + 4, y) != checker_texel(x, y),
        checker_texel(x, y + 4) != checker_texel(x, y),
        checker_texel(x + 4, y + 4) == checker_texel(x, y),
        x % 4 != 3 ==> checker_texel(x + 1, y) == checker_texel(x, y),
        y % 4 != 3 ==> checker_texel(x, y + 1) == checker_texel(x, y),
        checker_texel(0, 0) == 1,
        checker_texel(x, y) == 1 || checker_texel(x, y) == 3,
{
    assert((x + 4) / 4 == x / 4 + 1 && (y + 4) / 4 == y / 4 + 1);
}

/// The word that asks for a pattern may stand anywhere in a name, in any
/// capitals.
pub proof fn law_names_ask_for_patterns(before: Seq<char>, word: Seq<char>, after: Seq<char>)
    ensures
        in_small_letters(word, "brick"@) ==> named_pattern(before + word + after) == Pattern::Brick,
        in_small_letters(word, "floor"@) || in_small_letters(word, "stone"@) ==> named_pattern(
            before + word + after,
        ) == Pattern::Stone || contains_folded(before + word + after, "brick"@),
        in_small_letters(word, "glass"@) ==> named_pattern(before + word + after) != Pattern::Wood
            && named_pattern(before + word + after) != Pattern::Metal && named_pattern(
            before + word + after,
        ) != Pattern::Checker,
        in_small_letters(word, "wood"@) ==> named_pattern(before + word + after) != Pattern::Metal
            && named_pattern(before + word + after) != Pattern::Checker,
        in_small_letters(word, "metal"@) ==> named_pattern(before + word + after)
            != Pattern::Checker,
{
    if in_small_letters(word, "brick"@) {
        law_words_are_found_in_any_capitals(before, word, after, "brick"@);
    }
    if in_small_letters(word, "floor"@) {
        law_words_are_found_in_any_capitals(before, word, after, "floor"@);
    }
    if in_small_letters(word, "stone"@) {
        law_words_are_found_in_any_capitals(before, word, after, "stone"@);
    }
    if in_small_letters(word, "glass"@) {
        law_words_are_found_in_any_capitals(before, word, after, "glass"@);
    }
    if in_small_letters(word, "wood"@) {
        law_words_are_found_in_any_capitals(before, word, after, "wood"@);
    }
    if in_small_letters(word, "metal"@) {
        law_words_are_found_in_any_capitals(before, word, after, "metal"@);
    }
}

/// A word is another one in whatever capitals.
pub open spec fn in_small_letters(word: Seq<char>, name: Seq<char>) -> bool {
    &&& word.len() == name.len()
    &&& forall|i: int| 0 <= i < word.len() ==> small(#[trigger] word[i]) == name[i]
}

/// A name asks for a pattern only by the word for it.
pub proof fn law_patterns_are_asked_for_by_name(name: Seq<char>)
    ensures
        named_pattern(name) == Pattern::Brick ==> contains_folded(name, "brick"@),
        named_pattern(name) == Pattern::Stone ==> contains_folded(name, "floor"@)
            || contains_folded(name, "stone"@),
        named_pattern(name) == Pattern::Glass ==> contains_folded(name, "glass"@),
        named_pattern(name) == Pattern::Wood ==> contains_folded(name, "wood"@),
        named_pattern(name) == Pattern::Metal ==> contains_folded(name, "metal"@),
        named_pattern(name) == Pattern::Checker ==> !contains_folded(name, "brick"@)
            && !contains_folded(name, "floor"@) && !contains_folded(name, "stone"@)
            && !contains_folded(name, "glass"@) && !contains_folded(name, "wood"@)
            && !contains_folded(name, "metal"@),
{
}

/// The shadow is the same on all sides, solid in its middle and clear in its
/// corners, and nowhere darker than asked for in between.
pub proof fn law_shadow_is_round(x: int, y: int, coverage: u8, shade: u8)
    requires
        0 <= x < 64,
        0 <= y < 64,
    ensures
        shadow_distance(63 - x, y) == shadow_distance(x, y),
        shadow_distance(x, 63 - y) == shadow_distance(x, y),
        shadow_distance(y, x) == shadow_distance(x, y),
        shadow_distance(31, 31) <= shadow_distance(x, y),
        shadow_distance(x, y) <= 24 * 24 ==> shadow_texel(x, y, coverage, shade) == 5,
        shadow_distance(x, y) >= 60 * 60 ==> shadow_texel(x, y, coverage, shade) == 0,
        coverage == 0 && shadow_distance(x, y) > 24 * 24 ==> shadow_texel(x, y, coverage, shade)
            == 0,
        24 * 24 < shadow_distance(x, y) < 60 * 60 ==> shadow_texel(x, y, coverage, shade) == 0
            || shadow_texel(x, y, coverage, shade) == shade,
{
    assert((2 * (63 - x) - 63) * (2 * (63 - x) - 63) == (2 * x - 63) * (2 * x - 63))
        by (nonlinear_arith);
    assert((2 * (63 - y) - 63) * (2 * (63 - y) - 63) == (2 * y - 63) * (2 * y - 63))
        by (nonlinear_arith);
    let dx = 2 * x - 63;
    let dy = 2 * y - 63;
    assert(dx * dx >= 1 && dy * dy >= 1) by (nonlinear_arith)
        requires
            dx >= 1 || dx <= -1,
            dy >= 1 || dy <= -1,
    ;
    assert((2 * 31 - 63) * (2 * 31 - 63) == 1) by (nonlinear_arith);
}

/// The palette of the shadow is clear at first, then marked greys that never get
/// darker.
pub proof fn law_shadow_palette_is_grey(i: int, j: int)
    requires
        0 < i <= j < 16,
    ensures
        shadow_palette_entry(0) == 0,
        ({
            let entry = shadow_palette_entry(i);
            let colour = entry - 0x8000;
            &&& 0 < colour < 0x8000
            &&& colour % 32 == colour / 1024
            &&& colour / 32 % 32 == colour / 1024
            &&& colour / 1024 <= 5
        }),
        shadow_palette_entry(i) <= shadow_palette_entry(j),
{
    let v = crate::math::min_int(1 + i / 4, 5);
    let colour = shadow_palette_entry(i) - 0x8000;
    assert(1 <= v <= 5);
    assert(colour == v * 1024 + v * 32 + v);
    assert(colour / 1024 == v && colour % 32 == v && colour / 32 == 32 * v + v);
}

/// A particle is the same on all sides, set in its middle and clear in its
/// corners.
pub proof fn law_particle_is_round(x: int, y: int)
    ensures
        particle_texel(15 - x, y) == particle_texel(x, y),
        particle_texel(x, 15 - y) == particle_texel(x, y),
        particle_texel(y, x) == particle_texel(x, y),
        5 <= x <= 10 && 5 <= y <= 10 ==> particle_texel(x, y) == 1,
        x <= 0 && y <= 0 ==> particle_texel(x, y) == 0,
        particle_texel(x, y) == 0 || particle_texel(x, y) == 1,
{
    assert((2 * (15 - x) - 15) * (2 * (15 - x) - 15) == (2 * x - 15) * (2 * x - 15))
        by (nonlinear_arith);
    assert((2 * (15 - y) - 15) * (2 * (15 - y) - 15) == (2 * y - 15) * (2 * y - 15))
        by (nonlinear_arith);
    let dx = 2 * x - 15;
    let dy = 2 * y - 15;
    if 5 <= x <= 10 && 5 <= y <= 10 {
        assert(dx * dx <= 25 && dy * dy <= 25) by (nonlinear_arith)
            requires
                -5 <= dx <= 5,
                -5 <= dy <= 5,
        ;
    }
    if x <= 0 && y <= 0 {
        assert(dx * dx >= 225 && dy * dy >= 225) by (nonlinear_arith)
            requires
                dx <= -15,
                dy <= -15,
        ;
    }
}

/// The texels of a pattern stand row by row, and its colours in palette order.
pub proof fn law_patterns_are_drawn_row_by_row(pattern: Pattern, x: int, y: int, i: int)
    requires
        0 <= x < 64,
        0 <= y < 64,
        0 <= i < 16,
    ensures
        pattern_pixels(pattern).len() == 64 * 64,
        pattern_pixels(pattern)[64 * y + x] == texel(pattern, x, y) as u8,
        pattern_palette(pattern).len() == 16,
        pattern_palette(pattern)[i] == rgb_555(colors(pattern)[i]) as u16,
{
    assert((64 * y + x) % 64 == x && (64 * y + x) / 64 == y);
}

} // verus!
