//! The viewport's camera: from world coordinates to the projection's input.

use crate::math::{
    clamp_i16, lemma_sar12_i32, saturate_i16, saturate_i32, saturating_add_i32, saturating_mul_i32,
};
use vstd::prelude::*;

verus! {

/// Greatest camera distance, after scaling, that keeps depths in range.
pub const MAX_VIEW_RADIUS: i32 = 24576;

/// One in the fixed-point format of sines and cosines.
pub const Q12_ONE: i32 = 4096;

/// Sines and cosines of a camera's angles.
#[derive(Clone, Copy, Debug, PartialEq, Eq, Structural)]
pub struct CameraBasis {
    pub sin_yaw: i32,
    pub cos_yaw: i32,
    pub sin_pitch: i32,
    pub cos_pitch: i32,
}

impl CameraBasis {
    /// No value is greater than one.
    pub open spec fn wf(self) -> bool {
        &&& -4096 <= self.sin_yaw <= 4096
        &&& -4096 <= self.cos_yaw <= 4096
        &&& -4096 <= self.sin_pitch <= 4096
        &&& -4096 <= self.cos_pitch <= 4096
    }
}

/// A product of fixed-point numbers, rounded down.
pub open spec fn q12_product(a: int, b: int) -> int {
    (a * b) / 4096
}

fn q12_mul(a: i32, b: i32) -> (result: i32)
    requires
        -4096 <= a <= 4096,
        -4096 <= b <= 4096,
    ensures
        result == q12_product(a as int, b as int),
        -4096 <= result <= 4096,
{
    assert(-16777216 <= a * b <= 16777216) by (nonlinear_arith)
        requires
            -4096 <= a <= 4096,
            -4096 <= b <= 4096,
    ;
    let product: i32 = a * b;
    proof {
        lemma_sar12_i32(product);
    }
    product >> 12
}

/// The rows of the view rotation: right, down and into the screen.
pub open spec fn view_rows(basis: CameraBasis) -> Seq<Seq<int>> {
    seq![
        seq![basis.cos_yaw as int, 0int, -basis.sin_yaw as int],
        seq![
            -q12_product(basis.sin_yaw as int, basis.sin_pitch as int),
            -basis.cos_pitch as int,
            -q12_product(basis.cos_yaw as int, basis.sin_pitch as int),
        ],
        seq![
            -q12_product(basis.sin_yaw as int, basis.cos_pitch as int),
            basis.sin_pitch as int,
            -q12_product(basis.cos_yaw as int, basis.cos_pitch as int),
        ],
    ]
}

/// The rotation from world to view directions.
pub fn preview_view_rotation(basis: CameraBasis) -> (rows: [[i16; 3]; 3])
    requires
        basis.wf(),
    ensures
        forall|r: int, c: int|
            0 <= r < 3 && 0 <= c < 3 ==> #[trigger] rows@[r]@[c] == view_rows(basis)[r][c],
{
    let ss: i32 = q12_mul(basis.sin_yaw, basis.sin_pitch);
    let cs: i32 = q12_mul(basis.cos_yaw, basis.sin_pitch);
    let sc: i32 = q12_mul(basis.sin_yaw, basis.cos_pitch);
    let cc: i32 = q12_mul(basis.cos_yaw, basis.cos_pitch);
    let rows = [
        [clamp_i16(basis.cos_yaw), 0, clamp_i16(-basis.sin_yaw)],
        [clamp_i16(-ss), clamp_i16(-basis.cos_pitch), clamp_i16(-cs)],
        [clamp_i16(-sc), clamp_i16(basis.sin_pitch), clamp_i16(-cc)],
    ];
    assert forall|r: int, c: int| 0 <= r < 3 && 0 <= c < 3 implies #[trigger] rows@[r]@[c]
        == view_rows(basis)[r][c] by {
        if r == 0 {
        } else if r == 1 {
        } else {
        }
    }
    rows
}

/// How far everything is scaled down so that depths stay in range: the least
/// shift that brings the distance of an orbiting camera below the limit.
pub fn view_shift(orbit: bool, radius: i32) -> (shift: u32)
    ensures
        shift <= 17,
        is_view_shift(orbit, radius, shift),
{
    let mut shift: u32 = 0;
    if orbit {
        assert(radius >> 17u32 <= 24576) by (bit_vector);
        while shift < 17 && (radius >> shift) > MAX_VIEW_RADIUS
            invariant
                shift <= 17,
                radius >> 17u32 <= 24576,
                forall|k: u32| k < shift ==> #[trigger] (radius >> k) > MAX_VIEW_RADIUS,
            decreases 17 - shift,
        {
            shift = shift + 1;
        }
    }
    shift
}

/// A scaled camera distance and a scaled coordinate together stay below the
/// greatest depth.
pub proof fn law_depth_stays_in_range(radius: i32, shift: u32, coordinate: i16)
    requires
        radius >> shift <= MAX_VIEW_RADIUS,
    ensures
        (radius >> shift) + coordinate <= 65535,
{
}

/// A row of the rotation applied to a point: the products and their sums are
/// limited, then the fixed-point part is cut off.
pub open spec fn row_dot(row: Seq<i16>, v: Seq<i32>) -> int {
    let a = saturate_i32(row[0] * v[0]);
    let b = saturate_i32(row[1] * v[1]);
    let c = saturate_i32(row[2] * v[2]);
    saturate_i32(saturate_i32(a + b) + c) / 4096
}

/// A row of the rotation applied to a point.
pub fn dot_view_world(row: [i16; 3], v: [i32; 3]) -> (result: i32)
    ensures
        result == row_dot(row@, v@),
{
    let a: i32 = saturating_mul_i32(row[0] as i32, v[0]);
    let b: i32 = saturating_mul_i32(row[1] as i32, v[1]);
    let c: i32 = saturating_mul_i32(row[2] as i32, v[2]);
    let sum: i32 = saturating_add_i32(saturating_add_i32(a, b), c);
    proof {
        lemma_sar12_i32(sum);
    }
    sum >> 12
}

/// Coordinates relative to an anchor, scaled down, before they are limited.
pub open spec fn local_part(world: i32, anchor: i32, shift: u32) -> i32 {
    ((world - anchor) as i32) >> shift
}

/// The distance of two coordinates can be told.
pub open spec fn difference_fits(a: Seq<i32>, b: Seq<i32>) -> bool {
    forall|i: int| 0 <= i < 3 ==> i32::MIN <= #[trigger] a[i] - b[i] <= i32::MAX
}

/// The camera's position relative to the anchor, scaled down.
pub fn camera_local(position: [i32; 3], anchor: [i32; 3], shift: u32) -> (local: [i32; 3])
    requires
        difference_fits(position@, anchor@),
        shift < 32,
    ensures
        forall|i: int|
            0 <= i < 3 ==> #[trigger] local@[i] == local_part(position@[i], anchor@[i], shift),
{
    assert(i32::MIN <= position@[0] - anchor@[0] <= i32::MAX);
    assert(i32::MIN <= position@[1] - anchor@[1] <= i32::MAX);
    assert(i32::MIN <= position@[2] - anchor@[2] <= i32::MAX);
    [
        (position[0] - anchor[0]) >> shift,
        (position[1] - anchor[1]) >> shift,
        (position[2] - anchor[2]) >> shift,
    ]
}

/// The translation that goes with a rotation: the camera's own position,
/// rotated and turned round.
pub fn view_translation(rows: [[i16; 3]; 3], local: [i32; 3]) -> (translation: [i32; 3])
    ensures
        forall|i: int|
            0 <= i < 3 ==> #[trigger] translation@[i] == -row_dot(rows@[i]@, local@),
{
    [
        -dot_view_world(rows[0], local),
        -dot_view_world(rows[1], local),
        -dot_view_world(rows[2], local),
    ]
}

/// What the projection is set up with for a camera.
#[derive(Clone, Copy, Debug, PartialEq, Eq)]
pub struct CameraSetup {
    pub rows: [[i16; 3]; 3],
    pub translation: [i32; 3],
    /// What is subtracted from every world point.
    pub anchor: [i32; 3],
    /// How far every world point is scaled down after that.
    pub shift: u32,
}

/// The least shift that brings the distance of an orbiting camera below the
/// limit; none for a camera that flies freely.
pub open spec fn is_view_shift(orbit: bool, radius: i32, shift: u32) -> bool {
    if orbit {
        &&& radius >> shift <= MAX_VIEW_RADIUS
        &&& forall|k: u32| k < shift ==> #[trigger] (radius >> k) > MAX_VIEW_RADIUS
    } else {
        shift == 0
    }
}

/// Sets the projection up for a camera: the view rotation, and a translation
/// that puts the camera, scaled like the points, in the middle.
pub fn setup_gte_for_camera(
    basis: CameraBasis,
    position: [i32; 3],
    anchor: [i32; 3],
    orbit: bool,
    radius: i32,
) -> (setup: CameraSetup)
    requires
        basis.wf(),
        difference_fits(position@, anchor@),
    ensures
        forall|r: int, c: int|
            0 <= r < 3 && 0 <= c < 3 ==> #[trigger] setup.rows@[r]@[c] == view_rows(basis)[r][c],
        is_view_shift(orbit, radius, setup.shift),
        setup.shift <= 17,
        setup.anchor == anchor,
        forall|i: int|
            0 <= i < 3 ==> #[trigger] setup.translation@[i] == -row_dot(
                setup.rows@[i]@,
                seq![
                    local_part(position@[0], anchor@[0], setup.shift),
                    local_part(position@[1], anchor@[1], setup.shift),
                    local_part(position@[2], anchor@[2], setup.shift),
                ],
            ),
{
    let rows = preview_view_rotation(basis);
    let shift: u32 = view_shift(orbit, radius);
    let local = camera_local(position, anchor, shift);
    assert(local@ =~= seq![
        local_part(position@[0], anchor@[0], shift),
        local_part(position@[1], anchor@[1], shift),
        local_part(position@[2], anchor@[2], shift),
    ]);
    CameraSetup { rows, translation: view_translation(rows, local), anchor, shift }
}

/// A world point as the projection takes it: relative to the anchor, scaled
/// down, and limited to its range.
pub fn world_to_view(world: [i32; 3], anchor: [i32; 3], shift: u32) -> (view: [i16; 3])
    requires
        difference_fits(world@, anchor@),
        shift < 32,
    ensures
        forall|i: int|
            0 <= i < 3 ==> #[trigger] view@[i] == saturate_i16(
                local_part(world@[i], anchor@[i], shift) as int,
            ),
{
    let local = camera_local(world, anchor, shift);
    assert(local@[0] == local_part(world@[0], anchor@[0], shift));
    assert(local@[1] == local_part(world@[1], anchor@[1], shift));
    assert(local@[2] == local_part(world@[2], anchor@[2], shift));
    [clamp_i16(local[0]), clamp_i16(local[1]), clamp_i16(local[2])]
}

/// Without scaling, a point near the anchor is not changed by its way through
/// the projection's range.
pub proof fn law_near_points_are_exact(world: i32, anchor: i32)
    requires
        i16::MIN <= world - anchor <= i16::MAX,
    ensures
        saturate_i16(local_part(world, anchor, 0) as int) == world - anchor,
{
    let difference = (world - anchor) as i32;
    assert(difference >> 0u32 == difference) by (bit_vector);
}

/// A sine and a cosine belong together: their squares add up to one, up to
/// `miss`.
pub open spec fn is_turn(sin: int, cos: int, miss: int) -> bool {
    4096 * 4096 - miss <= sin * sin + cos * cos <= 4096 * 4096 + miss
}

/// The direction to the right of a camera, upward, and ahead, in the world: each
/// has the length of one, which counts 4096 * 4096.
pub open spec fn camera_axes(basis: CameraBasis) -> Seq<Seq<int>> {
    let sy = basis.sin_yaw as int;
    let cy = basis.cos_yaw as int;
    let sp = basis.sin_pitch as int;
    let cp = basis.cos_pitch as int;
    seq![
        seq![cy * 4096, 0, -(sy * 4096)],
        seq![sy * sp, cp * 4096, cy * sp],
        seq![-(sy * cp), sp * 4096, -(cy * cp)],
    ]
}

/// The sum of the products of two directions.
pub open spec fn dot(a: Seq<int>, b: Seq<int>) -> int {
    a[0] * b[0] + a[1] * b[1] + a[2] * b[2]
}

proof fn lemma_part(s: int, c: int, p: int, q: int, m: int)
    requires
        -4096 <= s <= 4096,
        -4096 <= c <= 4096,
        -4096 <= p <= 4096,
        -4096 <= q <= 4096,
        m >= 0,
        is_turn(s, c, m),
    ensures
        ({
            let sum = q12_product(s, p) * (s * q) + q12_product(c, p) * (c * q);
            let whole = p * q * 4096;
            -(4096 * m + 33554432) <= sum - whole <= 4096 * m + 33554432
        }),
{
    let a = q12_product(s, p);
    let b = q12_product(c, p);
    let ra = s * p - 4096 * a;
    let rb = c * p - 4096 * b;
    assert(0 <= ra < 4096);
    assert(0 <= rb < 4096);
    let sum = a * (s * q) + b * (c * q);
    let e = s * s + c * c - 16777216;
    let pq = p * q;
    assert(4096 * (a * (s * q)) == s * s * pq - ra * (s * q)) by (nonlinear_arith)
        requires
            ra == s * p - 4096 * a,
            pq == p * q,
    ;
    assert(4096 * (b * (c * q)) == c * c * pq - rb * (c * q)) by (nonlinear_arith)
        requires
            rb == c * p - 4096 * b,
            pq == p * q,
    ;
    assert(s * s * pq + c * c * pq == (e + 16777216) * pq) by (nonlinear_arith)
        requires
            e == s * s + c * c - 16777216,
    ;
    assert((e + 16777216) * pq == e * pq + 16777216 * pq) by (nonlinear_arith);
    lemma_small_product(p, q);
    lemma_small_product(s, q);
    lemma_small_product(c, q);
    assert(-16777216 * m <= e * pq <= 16777216 * m) by (nonlinear_arith)
        requires
            -m <= e <= m,
            -16777216 <= pq <= 16777216,
    ;
    let sq = s * q;
    let cq = c * q;
    assert(-68719476736 <= ra * sq <= 68719476736) by (nonlinear_arith)
        requires
            0 <= ra <= 4096,
            -16777216 <= sq <= 16777216,
    ;
    assert(-68719476736 <= rb * cq <= 68719476736) by (nonlinear_arith)
        requires
            0 <= rb <= 4096,
            -16777216 <= cq <= 16777216,
    ;
    assert(p * q * 4096 == pq * 4096);
}

proof fn lemma_small_product(a: int, b: int)
    requires
        -4096 <= a <= 4096,
        -4096 <= b <= 4096,
    ensures
        -16777216 <= a * b <= 16777216,
{
    assert(-16777216 <= a * b <= 16777216) by (nonlinear_arith)
        requires
            -4096 <= a <= 4096,
            -4096 <= b <= 4096,
    ;
}

/// The view rotation takes the axes of the camera to those of the screen, for
/// every yaw and pitch: what lies to the right of the camera goes right, what
/// lies above it goes up, against the screen's second axis, and what lies ahead
/// goes into the screen. `miss` is what the sines and cosines themselves are off.
pub proof fn law_rotation_takes_the_camera_to_the_screen(basis: CameraBasis, miss: int)
    requires
        basis.wf(),
        miss >= 0,
        is_turn(basis.sin_yaw as int, basis.cos_yaw as int, miss),
        is_turn(basis.sin_pitch as int, basis.cos_pitch as int, miss),
    ensures
        forall|r: int, a: int|
            0 <= r < 3 && 0 <= a < 3 ==> ({
                let shown = #[trigger] dot(view_rows(basis)[r], camera_axes(basis)[a]);
                let one = 68719476736int;
                let aim = if r != a {
                    0
                } else if r == 1 {
                    -one
                } else {
                    one
                };
                -(8192 * miss + 33554432) <= shown - aim <= 8192 * miss + 33554432
            }),
{
    let sy = basis.sin_yaw as int;
    let cy = basis.cos_yaw as int;
    let sp = basis.sin_pitch as int;
    let cp = basis.cos_pitch as int;
    let rows = view_rows(basis);
    let axes = camera_axes(basis);
    lemma_part(sy, cy, sp, sp, miss);
    lemma_part(sy, cy, sp, cp, miss);
    lemma_part(sy, cy, cp, sp, miss);
    lemma_part(sy, cy, cp, cp, miss);
    // Right.
    assert(dot(rows[0], axes[0]) == (sy * sy + cy * cy) * 4096) by (nonlinear_arith)
        requires
            dot(rows[0], axes[0]) == cy * (cy * 4096) + 0 * 0 + (-sy) * (-(sy * 4096)),
    ;
    assert(dot(rows[0], axes[1]) == 0) by (nonlinear_arith)
        requires
            dot(rows[0], axes[1]) == cy * (sy * sp) + 0 * (cp * 4096) + (-sy) * (cy * sp),
    ;
    assert(dot(rows[0], axes[2]) == 0) by (nonlinear_arith)
        requires
            dot(rows[0], axes[2]) == cy * (-(sy * cp)) + 0 * (sp * 4096) + (-sy) * (-(cy * cp)),
    ;
    // Down.
    let ss = q12_product(sy, sp);
    let cs = q12_product(cy, sp);
    let sc = q12_product(sy, cp);
    let cc = q12_product(cy, cp);
    lemma_cross(sy, cy, sp);
    lemma_cross(sy, cy, cp);
    assert(dot(rows[1], axes[0]) == 4096 * (cs * sy - ss * cy)) by (nonlinear_arith)
        requires
            dot(rows[1], axes[0]) == (-ss) * (cy * 4096) + (-cp) * 0 + (-cs) * (-(sy * 4096)),
    ;
    assert(dot(rows[2], axes[0]) == 4096 * (cc * sy - sc * cy)) by (nonlinear_arith)
        requires
            dot(rows[2], axes[0]) == (-sc) * (cy * 4096) + sp * 0 + (-cc) * (-(sy * 4096)),
    ;
    assert(dot(rows[1], axes[1]) == -(ss * (sy * sp) + cs * (cy * sp)) - cp * cp * 4096)
        by (nonlinear_arith)
        requires
            dot(rows[1], axes[1]) == (-ss) * (sy * sp) + (-cp) * (cp * 4096) + (-cs) * (cy * sp),
    ;
    assert(dot(rows[1], axes[2]) == ss * (sy * cp) + cs * (cy * cp) - sp * cp * 4096)
        by (nonlinear_arith)
        requires
            dot(rows[1], axes[2]) == (-ss) * (-(sy * cp)) + (-cp) * (sp * 4096) + (-cs) * (-(cy
                * cp)),
    ;
    // Ahead.
    assert(dot(rows[2], axes[1]) == -(sc * (sy * sp) + cc * (cy * sp)) + cp * sp * 4096)
        by (nonlinear_arith)
        requires
            dot(rows[2], axes[1]) == (-sc) * (sy * sp) + sp * (cp * 4096) + (-cc) * (cy * sp),
    ;
    assert(dot(rows[2], axes[2]) == sc * (sy * cp) + cc * (cy * cp) + sp * sp * 4096)
        by (nonlinear_arith)
        requires
            dot(rows[2], axes[2]) == (-sc) * (-(sy * cp)) + sp * (sp * 4096) + (-cc) * (-(cy * cp)),
    ;
    assert forall|r: int, a: int| 0 <= r < 3 && 0 <= a < 3 implies ({
        let shown = #[trigger] dot(rows[r], axes[a]);
        let one = 68719476736int;
        let aim = if r != a {
            0
        } else if r == 1 {
            -one
        } else {
            one
        };
        -(8192 * miss + 33554432) <= shown - aim <= 8192 * miss + 33554432
    }) by {
        if r == 0 {
            if a == 0 {
            } else if a == 1 {
            } else {
            }
        } else if r == 1 {
            if a == 0 {
            } else if a == 1 {
            } else {
            }
        } else {
            if a == 0 {
            } else if a == 1 {
            } else {
            }
        }
    }
}

proof fn lemma_cross(s: int, c: int, p: int)
    requires
        -4096 <= s <= 4096,
        -4096 <= c <= 4096,
    ensures
        -8192 <= q12_product(c, p) * s - q12_product(s, p) * c <= 8192,
{
    let a = q12_product(s, p);
    let b = q12_product(c, p);
    let ra = s * p - 4096 * a;
    let rb = c * p - 4096 * b;
    assert(0 <= ra < 4096);
    assert(0 <= rb < 4096);
    assert(4096 * (b * s - a * c) == ra * c - rb * s) by (nonlinear_arith)
        requires
            ra == s * p - 4096 * a,
            rb == c * p - 4096 * b,
    ;
    lemma_small_product(ra, c);
    lemma_small_product(rb, s);
}

/// Without overflow, a row takes a point to the sum of the products, rounded
/// down to whole units.
pub proof fn law_rows_sum_the_products(row: Seq<i16>, v: Seq<i32>)
    requires
        row.len() == 3,
        v.len() == 3,
        forall|i: int| 0 <= i < 3 ==> -16384 <= #[trigger] v[i] <= 16384,
    ensures
        ({
            let sum = row[0] * v[0] + row[1] * v[1] + row[2] * v[2];
            4096 * row_dot(row, v) <= sum < 4096 * row_dot(row, v) + 4096
        }),
{
    let x = row[0] as int;
    let y = row[1] as int;
    let z = row[2] as int;
    assert(-16384 <= v[0] <= 16384 && -16384 <= v[1] <= 16384 && -16384 <= v[2] <= 16384);
    lemma_row_product(x, v[0] as int);
    lemma_row_product(y, v[1] as int);
    lemma_row_product(z, v[2] as int);
}

proof fn lemma_row_product(a: int, b: int)
    requires
        -32768 <= a <= 32767,
        -16384 <= b <= 16384,
    ensures
        -536870912 <= a * b <= 536870912,
{
    assert(-536870912 <= a * b <= 536870912) by (nonlinear_arith)
        requires
            -32768 <= a <= 32767,
            -16384 <= b <= 16384,
    ;
}

/// One more step of scaling halves a coordinate, rounded down.
pub proof fn law_scaling_halves_step_by_step(world: i32, anchor: i32, shift: u32)
    requires
        i32::MIN <= world - anchor <= i32::MAX,
        shift < 31,
    ensures
        ({
            let coarse = local_part(world, anchor, (shift + 1) as u32);
            let fine = local_part(world, anchor, shift);
            2 * coarse <= fine <= 2 * coarse + 1
        }),
{
    let d = (world - anchor) as i32;
    let next = (shift + 1) as u32;
    let fine = d >> shift;
    let coarse = d >> next;
    assert(coarse == fine >> 1u32) by (bit_vector)
        requires
            shift < 31,
            next == shift + 1,
            fine == d >> shift,
            coarse == d >> next,
    ;
    assert(2 * coarse <= fine <= 2 * coarse + 1) by (bit_vector)
        requires
            coarse == fine >> 1u32,
    ;
}

} // verus!
