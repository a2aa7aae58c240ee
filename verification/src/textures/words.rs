//! Palette entries and the packed words that primitives carry.

use vstd::prelude::*;

verus! {

/// A 24-bit colour reduced to five bits per channel, blue highest.
pub open spec fn rgb_555(rgb: (u8, u8, u8)) -> int {
    (rgb.2 / 8) * 1024 + (rgb.1 / 8) * 32 + rgb.0 / 8
}

/// Convert a 24-bit colour to 15 bits. The top bit stays clear.
pub fn psx_555(rgb: (u8, u8, u8)) -> (result: u16)
    ensures
        result == rgb_555(rgb),
        result < 0x8000,
{
    let r: u8 = rgb.0;
    let g: u8 = rgb.1;
    let b: u8 = rgb.2;
    let r5: u16 = (r >> 3) as u16;
    let g5: u16 = (g >> 3) as u16;
    let b5: u16 = (b >> 3) as u16;
    assert(((b5 << 10) | (g5 << 5) | r5) == (b / 8) * 1024 + (g / 8) * 32 + r / 8) by (bit_vector)
        requires
            r5 == (r >> 3) as u16,
            g5 == (g >> 3) as u16,
            b5 == (b >> 3) as u16,
    ;
    (b5 << 10) | (g5 << 5) | r5
}

/// A palette entry with its top bit set.
pub open spec fn marked(raw: u16) -> u16 {
    if raw < 0x8000 {
        (raw + 0x8000) as u16
    } else {
        raw
    }
}

/// Mark a palette entry as visible.
pub fn opaque_room_clut_entry(raw: u16) -> (result: u16)
    ensures
        result == marked(raw),
{
    assert((raw < 0x8000 ==> raw | 0x8000 == raw + 0x8000) && (raw >= 0x8000 ==> raw | 0x8000
        == raw)) by (bit_vector);
    raw | 0x8000
}

/// The palette entry of a room texture: marked visible, unless it is the zero
/// entry of a texture that keeps it clear.
pub open spec fn room_clut_entry(
    index: int,
    raw: u16,
    transparent_index_zero: bool,
    force_zero_opaque: bool,
) -> u16 {
    if transparent_index_zero && !force_zero_opaque && index == 0 && raw == 0 {
        0
    } else {
        marked(raw)
    }
}

pub fn preview_clut_entry(
    index: usize,
    raw: u16,
    transparent_index_zero: bool,
    force_zero_opaque: bool,
) -> (result: u16)
    ensures
        result == room_clut_entry(index as int, raw, transparent_index_zero, force_zero_opaque),
{
    if transparent_index_zero && !force_zero_opaque && index == 0 && raw == 0 {
        0
    } else {
        opaque_room_clut_entry(raw)
    }
}

pub fn model_atlas_clut_entry(index: usize, raw: u16, transparent_index_zero: bool) -> (result: u16)
    ensures
        result == room_clut_entry(index as int, raw, transparent_index_zero, false),
{
    preview_clut_entry(index, raw, transparent_index_zero, false)
}

/// Pack a texture page position for 4-bit textures: sixteen columns, two rows.
pub fn pack_tpage_word(tpage_index: u16, tpage_y_block: u16) -> (result: u16)
    ensures
        result == (tpage_index & 0xF) | (tpage_y_block << 4),
        tpage_y_block <= 1 ==> result == tpage_index % 16 + 16 * tpage_y_block,
{
    assert(tpage_y_block <= 1 ==> (tpage_index & 0xF) | (tpage_y_block << 4) == tpage_index % 16
        + 16 * tpage_y_block) by (bit_vector);
    (tpage_index & 0xF) | (tpage_y_block << 4)
}

/// Pack a texture page position with a depth code: 0 for 4-bit, 1 for 8-bit.
pub fn pack_indexed_tpage_word(tpage_index: u16, tpage_y_block: u16, depth: u16) -> (result: u16)
    requires
        depth <= 1,
    ensures
        result == (tpage_index & 0xF) | (tpage_y_block << 4) | (depth << 7),
        tpage_y_block <= 1 ==> result == tpage_index % 16 + 16 * tpage_y_block + 128 * depth,
{
    assert(tpage_y_block <= 1 && depth <= 1 ==> (tpage_index & 0xF) | (tpage_y_block << 4) | (depth
        << 7) == tpage_index % 16 + 16 * tpage_y_block + 128 * depth) by (bit_vector);
    (tpage_index & 0xF) | (tpage_y_block << 4) | (depth << 7)
}

/// Pack a palette position: columns of sixteen entries, 512 rows.
pub fn pack_clut_word(clut_x_halfwords: u16, clut_y: u16) -> (result: u16)
    ensures
        result == (clut_x_halfwords / 16) % 64 + 64 * (clut_y % 512),
{
    let cx: u16 = (clut_x_halfwords / 16) & 0x3F;
    let cy: u16 = clut_y & 0x1FF;
    let column: u16 = clut_x_halfwords / 16;
    assert((column & 0x3F) | ((clut_y & 0x1FF) << 6) == column % 64 + 64 * (clut_y % 512))
        by (bit_vector);
    cx | (cy << 6)
}

/// Palettes at different places of the texture memory have different words.
pub proof fn law_clut_words_tell_palettes_apart(x0: u16, y0: u16, x1: u16, y1: u16)
    requires
        x0 < 1024 && x1 < 1024 && y0 < 512 && y1 < 512,
        x0 % 16 == 0 && x1 % 16 == 0,
        (x0 / 16) % 64 + 64 * (y0 % 512) == (x1 / 16) % 64 + 64 * (y1 % 512),
    ensures
        x0 == x1 && y0 == y1,
{
}

/// The side of a room texture's window: a power of two from 8 to 128.
pub open spec fn window_size(size: u16) -> Option<u8> {
    if size == 8 || size == 16 || size == 32 || size == 64 || size == 128 {
        Some(size as u8)
    } else {
        None
    }
}

pub fn room_texture_window_size(size: u16) -> (result: Option<u8>)
    ensures
        result == window_size(size),
{
    match size {
        8 | 16 | 32 | 64 | 128 => Some(size as u8),
        _ => None,
    }
}

/// The least multiple of `boundary` that is not below `value`.
pub open spec fn aligned_up(value: int, boundary: int) -> int {
    if value % boundary == 0 {
        value
    } else {
        value + boundary - value % boundary
    }
}

/// Round `value` up to a multiple of `boundary`, as far as it fits. A boundary
/// of zero leaves the value alone.
pub fn align_up_to(value: u16, boundary: u16) -> (result: u16)
    ensures
        boundary == 0 ==> result == value,
        boundary > 0 ==> result == crate::math::min_int(
            aligned_up(value as int, boundary as int),
            u16::MAX as int,
        ),
{
    if boundary == 0 {
        return value;
    }
    let rem: u16 = value % boundary;
    if rem == 0 {
        value
    } else {
        value.saturating_add(boundary - rem)
    }
}

/// Rounding up gives the first multiple that is not below the value.
pub proof fn law_aligned_up_is_the_next_multiple(value: int, boundary: int)
    requires
        value >= 0,
        boundary > 0,
    ensures
        aligned_up(value, boundary) % boundary == 0,
        value <= aligned_up(value, boundary) < value + boundary,
{
    let q = value / boundary;
    let r = value % boundary;
    assert(value == q * boundary + r && 0 <= r < boundary) by (nonlinear_arith)
        requires
            q == value / boundary,
            r == value % boundary,
            boundary > 0,
    ;
    if r != 0 {
        assert(aligned_up(value, boundary) == (q + 1) * boundary) by (nonlinear_arith)
            requires
                aligned_up(value, boundary) == value + boundary - r,
                value == q * boundary + r,
        ;
        vstd::arithmetic::div_mod::lemma_mod_multiples_basic(q + 1, boundary);
    }
}

/// A colour keeps the five leading bits of each channel: red lowest, then green,
/// then blue, and the mark stays clear.
pub proof fn law_colours_keep_their_leading_bits(rgb: (u8, u8, u8))
    ensures
        0 <= rgb_555(rgb) < 0x8000,
        rgb_555(rgb) % 32 == rgb.0 / 8,
        rgb_555(rgb) / 32 % 32 == rgb.1 / 8,
        rgb_555(rgb) / 1024 == rgb.2 / 8,
{
}

/// Marking a palette entry sets the highest bit and leaves its colour. Only the
/// first entry can stay clear: where it is black, counts as transparent, and is
/// not forced to show.
pub proof fn law_marking_keeps_the_colour(
    index: int,
    raw: u16,
    transparent_index_zero: bool,
    force_zero_opaque: bool,
)
    ensures
        marked(raw) >= 0x8000,
        marked(raw) % 0x8000 == raw % 0x8000,
        marked(marked(raw)) == marked(raw),
        ({
            let entry = room_clut_entry(index, raw, transparent_index_zero, force_zero_opaque);
            &&& entry % 0x8000 == raw % 0x8000
            &&& entry < 0x8000 <==> index == 0 && raw == 0 && transparent_index_zero
                && !force_zero_opaque
        }),
{
}

/// The shortest side of a window is eight, every other one is twice a side, and
/// none is longer than 128.
pub proof fn law_windows_double_from_eight(size: u16)
    ensures
        size < 8 || size > 128 ==> window_size(size) is None,
        window_size(8) is Some,
        8 < size <= 128 ==> (window_size(size) is Some <==> size % 2 == 0 && window_size(
            (size / 2) as u16,
        ) is Some),
        window_size(size) matches Some(side) ==> side == size,
{
}

} // verus!
