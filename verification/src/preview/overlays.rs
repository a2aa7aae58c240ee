//! Lines drawn over the viewport: surface grid, leak path, bounds, light
//! symbols.

use crate::math::{
    abs_int, clamp_int, i64_to_i32_saturating, law_division_rounds_toward_zero, lemma_sar12_i32,
    max_int, min_int, saturate_i32, saturating_sub_i32, trunc_div,
};
use crate::preview::scene::{node_of, NodeId, Scene, SceneNodeKind};
use crate::preview::screen::{Projected, ViewVertex, SCREEN_H, SCREEN_W};
use vstd::prelude::*;

verus! {

/// Grid lines of a face along one axis, at most.
pub const BSP_SURFACE_GRID_LINES_PER_AXIS: u64 = 24;

/// Grid lines of all faces, at most.
pub const BSP_SURFACE_GRID_SEGMENT_CAP: u64 = 2048;

/// Brightness of grid lines on a light and on a dark surface.
pub const BSP_SURFACE_GRID_DARK: u8 = 26;

pub const BSP_SURFACE_GRID_LIGHT: u8 = 230;

/// Pieces of a leak path's line that are tested for walls, at most.
pub const BSP_LEAK_OCCLUSION_SEGMENT_CAP: usize = 256;

/// Colour of a leak path, and of the opening that it leads through.
pub const BSP_LEAK_PATH_RGB: (u8, u8, u8) = (72, 236, 126);

pub const BSP_LEAK_OPENING_RGB: (u8, u8, u8) = (255, 74, 52);

/// Grid lines along an axis: every `stride`-th one from the first to the last.
#[derive(Clone, Copy, Debug, PartialEq, Eq, Structural)]
pub struct GridRange {
    pub first: i64,
    pub last: i64,
    pub stride: i64,
}

/// How many lines a range has.
pub open spec fn range_count(range: GridRange) -> int {
    if range.first > range.last || range.stride <= 0 {
        0
    } else {
        clamp_int(
            clamp_int(range.last - range.first, i64::MIN as int, i64::MAX as int) / (
            range.stride as int) + 1,
            0,
            i64::MAX as int,
        )
    }
}

/// How many lines a range has.
pub fn grid_index_count(range: GridRange) -> (count: u64)
    ensures
        count == range_count(range),
        count <= i64::MAX,
{
    if range.first > range.last || range.stride <= 0 {
        return 0;
    }
    let wide: i128 = range.last as i128 - range.first as i128;
    let span: i64 = if wide > i64::MAX as i128 {
        i64::MAX
    } else {
        wide as i64
    };
    proof {
        assert(0 <= span as int / range.stride as int <= span) by (nonlinear_arith)
            requires
                0 <= span,
                0 < range.stride,
        ;
    }
    let whole: i64 = span / range.stride;
    if whole == i64::MAX {
        i64::MAX as u64
    } else {
        (whole + 1) as u64
    }
}

/// A power of two.
pub open spec fn is_power_of_two(n: int) -> bool
    decreases n,
{
    n == 1 || (n > 1 && n % 2 == 0 && is_power_of_two(n / 2))
}

/// The least power of two that is not below a number.
pub open spec fn is_next_power(required: int, stride: int) -> bool {
    is_power_of_two(stride) && stride >= required && (stride == 1 || stride / 2 < required)
}

/// The least multiple of a stride that is not below a number.
pub open spec fn aligned_up(first: int, stride: int) -> int {
    ((first + stride - 1) / stride) * stride
}

/// Lines from the first to the last, at most the greatest number that is
/// counted.
pub open spec fn line_count(first: i64, last: i64) -> int {
    clamp_int(
        clamp_int(last - first, i64::MIN as int, i64::MAX as int) + 1,
        i64::MIN as int,
        i64::MAX as int,
    )
}

proof fn lemma_aligned(first: int, stride: int)
    requires
        stride > 0,
    ensures
        first <= aligned_up(first, stride) < first + stride,
        aligned_up(first, stride) % stride == 0,
        aligned_up(first, stride) == (first / stride + if first % stride != 0 {
            1int
        } else {
            0int
        }) * stride,
{
    let q = first / stride;
    let r = first % stride;
    vstd::arithmetic::div_mod::lemma_fundamental_div_mod(first, stride);
    assert(stride * q == q * stride) by (nonlinear_arith);
    let k = q + if r != 0 {
        1int
    } else {
        0int
    };
    assert((first + stride - 1) / stride == k) by {
        if r == 0 {
            vstd::arithmetic::div_mod::lemma_fundamental_div_mod_converse(
                first + stride - 1,
                stride,
                q,
                stride - 1,
            );
        } else {
            assert((q + 1) * stride == q * stride + stride) by (nonlinear_arith);
            vstd::arithmetic::div_mod::lemma_fundamental_div_mod_converse(
                first + stride - 1,
                stride,
                q + 1,
                r - 1,
            );
        }
    }
    assert(k * stride == q * stride + if r != 0 {
        stride
    } else {
        0int
    }) by (nonlinear_arith)
        requires
            k == q + if r != 0 {
                1int
            } else {
                0int
            },
    ;
    vstd::arithmetic::div_mod::lemma_mod_multiples_basic(k, stride);
}

/// The grid lines of a face along an axis: those with whole numbers from the
/// first to the last, thinned out by a power of two so that there are not too
/// many. Lines that are left stay on multiples of the stride.
pub fn grid_index_range(first: i64, last: i64) -> (range: GridRange)
    ensures
        first > last ==> range == (GridRange { first: 1, last: 0, stride: 1 }),
        first <= last ==> {
            let required = (line_count(first, last) + 23) / 24;
            &&& range.last == last
            &&& is_next_power(required, range.stride as int)
            &&& range.first == clamp_int(
                aligned_up(first as int, range.stride as int),
                i64::MIN as int,
                i64::MAX as int,
            )
        },
{
    if first > last {
        return GridRange { first: 1, last: 0, stride: 1 };
    }
    let wide: i128 = last as i128 - first as i128 + 1;
    let count: i64 = if wide > i64::MAX as i128 {
        i64::MAX
    } else {
        wide as i64
    };
    let required: i64 = count / 24 + if count % 24 == 0 {
        0
    } else {
        1
    };
    assert(required == (count + 23) / 24);
    let mut stride: i64 = 1;
    assert(is_power_of_two(1));
    while stride < required
        invariant
            1 <= stride,
            required <= 0x0600_0000_0000_0000,
            is_power_of_two(stride as int),
            stride == 1 || stride / 2 < required,
        decreases 2 * required - stride,
    {
        assert(is_power_of_two(2 * stride as int));
        stride = stride * 2;
    }
    proof {
        lemma_aligned(first as int, stride as int);
    }
    let start: i128 = first as i128;
    let step: i128 = stride as i128;
    let quotient: i128 = start / step;
    proof {
        lemma_trunc_size(first as int, stride as int);
    }
    let remainder: i128 = start - quotient * step;
    let floor: i128 = if remainder < 0 {
        start - remainder - step
    } else {
        start - remainder
    };
    proof {
        lemma_floor(first as int, stride as int, remainder as int, floor as int);
    }
    let aligned: i128 = if floor == start {
        start
    } else {
        floor + step
    };
    let shown: i64 = if aligned > i64::MAX as i128 {
        i64::MAX
    } else {
        aligned as i64
    };
    GridRange { first: shown, last, stride }
}

proof fn lemma_trunc_size(a: int, b: int)
    requires
        b > 0,
    ensures
        -b < a - trunc_div(a, b) * b < b,
{
    let m = if a < 0 {
        -a
    } else {
        a
    };
    vstd::arithmetic::div_mod::lemma_fundamental_div_mod(m, b);
    assert(b * (m / b) == (m / b) * b) by (nonlinear_arith);
    assert((-(m / b)) * b == -((m / b) * b)) by (nonlinear_arith);
}

proof fn lemma_floor(first: int, stride: int, remainder: int, floor: int)
    requires
        stride > 0,
        remainder == first - trunc_div(first, stride) * stride,
        floor == if remainder < 0 {
            first - remainder - stride
        } else {
            first - remainder
        },
    ensures
        floor <= first < floor + stride,
        aligned_up(first, stride) == if floor == first {
            first
        } else {
            floor + stride
        },
{
    lemma_aligned(first, stride);
    assert((first / stride + 1) * stride == (first / stride) * stride + stride) by (
    nonlinear_arith);
    vstd::arithmetic::div_mod::lemma_fundamental_div_mod(first, stride);
    assert(stride * (first / stride) == (first / stride) * stride) by (nonlinear_arith);
    if first < 0 {
        let m = -first;
        vstd::arithmetic::div_mod::lemma_fundamental_div_mod(m, stride);
        assert(stride * (m / stride) == (m / stride) * stride) by (nonlinear_arith);
        assert((-(m / stride)) * stride == -((m / stride) * stride)) by (nonlinear_arith);
        let q = m / stride;
        let r = m % stride;
        if r == 0 {
            vstd::arithmetic::div_mod::lemma_fundamental_div_mod_converse(first, stride, -q, 0);
        } else {
            assert((-q - 1) * stride == -(q * stride) - stride) by (nonlinear_arith);
            vstd::arithmetic::div_mod::lemma_fundamental_div_mod_converse(
                first,
                stride,
                -q - 1,
                stride - r,
            );
        }
    }
}

/// A face has no more grid lines along an axis than the limit.
pub proof fn law_grid_is_not_too_dense(first: i64, last: i64, stride: int)
    requires
        first <= last,
        last - first < 0x4000_0000_0000_0000,
        is_next_power((line_count(first, last) + 23) / 24, stride),
        aligned_up(first as int, stride) <= last,
    ensures
        (last - aligned_up(first as int, stride)) / stride + 1 <= 24,
{
    lemma_aligned(first as int, stride);
    let count = last - first + 1;
    let required = (count + 23) / 24;
    assert(24 * stride >= count);
    let rest = last - aligned_up(first as int, stride);
    assert(rest < 24 * stride);
    assert(rest / stride < 24) by (nonlinear_arith)
        requires
            0 <= rest < 24 * stride,
            stride > 0,
    ;
}

/// A line is among those that are drawn: all of them up to the limit, and
/// beyond it as many as the limit, evenly spread.
pub open spec fn is_selected(ordinal: int, total: int) -> bool {
    total <= 2048 || ((ordinal + 1) * 2048) / total > (ordinal * 2048) / total
}

/// Whether a line is among those that are drawn.
pub fn grid_candidate_selected(ordinal: u64, candidate_count: u64) -> (selected: bool)
    ensures
        selected == is_selected(ordinal as int, candidate_count as int),
{
    if candidate_count <= BSP_SURFACE_GRID_SEGMENT_CAP {
        return true;
    }
    let cap: u128 = BSP_SURFACE_GRID_SEGMENT_CAP as u128;
    let total: u128 = candidate_count as u128;
    ((ordinal as u128 + 1) * cap) / total > (ordinal as u128 * cap) / total
}

/// How many of the first lines are drawn.
pub open spec fn selected_count(count: nat, total: int) -> nat
    decreases count,
{
    if count == 0 {
        0
    } else {
        selected_count((count - 1) as nat, total) + if is_selected(count - 1, total) {
            1nat
        } else {
            0nat
        }
    }
}

/// Beyond the limit exactly as many lines are drawn as the limit allows, and of
/// any number of first lines the same share.
pub proof fn law_selection_is_even(count: nat, total: int)
    requires
        total > 2048,
    ensures
        selected_count(count, total) == (count as int * 2048) / total,
        selected_count(total as nat, total) == 2048,
    decreases count,
{
    lemma_selection(count, total);
    lemma_selection(total as nat, total);
    assert((total * 2048) / total == 2048) by {
        vstd::arithmetic::div_mod::lemma_div_multiples_vanish(2048, total);
        assert(total * 2048 == 2048 * total);
    }
}

proof fn lemma_none_between(from: nat, to: nat, total: int)
    requires
        from <= to,
        forall|k: int| from <= k < to ==> !#[trigger] is_selected(k, total),
    ensures
        selected_count(to, total) == selected_count(from, total),
    decreases to,
{
    if from < to {
        assert(!is_selected(to - 1, total));
        lemma_none_between(from, (to - 1) as nat, total);
    }
}

/// Beyond the limit, two lines that are drawn with none between them lie as far
/// apart as all lines go into the limit, rounded down or up.
pub proof fn law_neighbouring_picks_are_even(a: nat, b: nat, total: int)
    requires
        total > 2048,
        a < b,
        is_selected(a as int, total),
        is_selected(b as int, total),
        forall|k: int| a < k < b ==> !#[trigger] is_selected(k, total),
    ensures
        total / 2048 <= b - a <= (total + 2047) / 2048,
{
    lemma_none_between(a + 1, b, total);
    lemma_selection(a, total);
    lemma_selection(a + 1, total);
    lemma_selection(b, total);
    lemma_selection(b + 1, total);
    let q = selected_count(a, total) as int;
    assert(selected_count(a + 1, total) == q + 1);
    assert(selected_count(b, total) == q + 1);
    assert(selected_count(b + 1, total) == q + 2);
    lemma_quotient_bounds(a as int * 2048, total, q);
    lemma_quotient_bounds((a + 1) as int * 2048, total, q + 1);
    lemma_quotient_bounds(b as int * 2048, total, q + 1);
    lemma_quotient_bounds((b + 1) as int * 2048, total, q + 2);
    assert((q + 2) * total == (q + 1) * total + total) by (nonlinear_arith);
}

proof fn lemma_quotient_bounds(n: int, d: int, q: int)
    requires
        d > 0,
        n / d == q,
    ensures
        q * d <= n < (q + 1) * d,
{
    vstd::arithmetic::div_mod::lemma_fundamental_div_mod(n, d);
    assert(d * q == q * d && (q + 1) * d == q * d + d) by (nonlinear_arith);
}

proof fn lemma_selection(count: nat, total: int)
    requires
        total > 2048,
    ensures
        selected_count(count, total) == (count as int * 2048) / total,
    decreases count,
{
    if count == 0 {
        assert(0int / total == 0) by (nonlinear_arith)
            requires
                total > 0,
        ;
    } else {
        let before = count - 1;
        lemma_selection(before as nat, total);
        let a = before * 2048;
        let q = a / total;
        vstd::arithmetic::div_mod::lemma_fundamental_div_mod(a, total);
        let r = a % total;
        assert(total * q == q * total) by (nonlinear_arith);
        assert(count * 2048 == a + 2048);
        if r + 2048 < total {
            vstd::arithmetic::div_mod::lemma_fundamental_div_mod_converse(
                a + 2048,
                total,
                q,
                r + 2048,
            );
        } else {
            assert((q + 1) * total == q * total + total) by (nonlinear_arith);
            vstd::arithmetic::div_mod::lemma_fundamental_div_mod_converse(
                a + 2048,
                total,
                q + 1,
                r + 2048 - total,
            );
        }
    }
}

/// A grid line of a face: the plane across an axis, by its number.
#[derive(Clone, Copy, Debug, PartialEq, Eq, Structural)]
pub struct GridLine {
    pub axis: usize,
    pub index: i64,
}

/// The two axes across which the grid lines of a face stand: those that its
/// normal does not point along.
pub fn grid_axes(dominant: usize) -> (axes: (usize, usize))
    ensures
        axes == if dominant == 0 {
            (1usize, 2usize)
        } else if dominant == 1 {
            (0usize, 2usize)
        } else {
            (0usize, 1usize)
        },
{
    match dominant {
        0 => (1, 2),
        1 => (0, 2),
        _ => (0, 1),
    }
}

/// The next place in the order of all lines.
pub open spec fn next_ordinal(ordinal: u64) -> u64 {
    if ordinal == u64::MAX {
        ordinal
    } else {
        (ordinal + 1) as u64
    }
}

/// The lines of a range that are drawn, from a number on.
pub open spec fn drawn_lines(
    axis: usize,
    range: GridRange,
    index: i64,
    total: u64,
    ordinal: u64,
) -> Seq<GridLine>
    decreases range.last - index,
{
    if range.stride <= 0 || index > range.last {
        Seq::empty()
    } else {
        let own = if is_selected(ordinal as int, total as int) {
            seq![GridLine { axis, index }]
        } else {
            Seq::empty()
        };
        if index + range.stride > range.last {
            own
        } else {
            own + drawn_lines(
                axis,
                range,
                (index + range.stride) as i64,
                total,
                next_ordinal(ordinal),
            )
        }
    }
}

/// The place behind the lines of a range, from a number on.
pub open spec fn ordinal_after(range: GridRange, index: i64, ordinal: u64) -> u64
    decreases range.last - index,
{
    if range.stride <= 0 || index > range.last {
        ordinal
    } else if index + range.stride > range.last {
        next_ordinal(ordinal)
    } else {
        ordinal_after(range, (index + range.stride) as i64, next_ordinal(ordinal))
    }
}

/// Lists the lines of a range that are drawn. `ordinal` counts the lines of all
/// faces, of which there are `total`.
pub fn push_grid_lines(
    lines: &mut Vec<GridLine>,
    axis: usize,
    range: GridRange,
    total: u64,
    ordinal: &mut u64,
)
    requires
        range.stride > 0,
    ensures
        final(lines)@ == old(lines)@ + drawn_lines(axis, range, range.first, total, *old(ordinal)),
        *final(ordinal) == ordinal_after(range, range.first, *old(ordinal)),
{
    if range.first > range.last {
        return;
    }
    let ghost before = lines@;
    let ghost start = *ordinal;
    let mut index: i64 = range.first;
    let mut more = true;
    while more
        invariant
            range.stride > 0,
            range.first <= index <= range.last,
            more ==> before + drawn_lines(axis, range, range.first, total, start) == lines@
                + drawn_lines(axis, range, index, total, *ordinal),
            !more ==> before + drawn_lines(axis, range, range.first, total, start) == lines@,
            more ==> ordinal_after(range, range.first, start) == ordinal_after(
                range,
                index,
                *ordinal,
            ),
            !more ==> ordinal_after(range, range.first, start) == *ordinal,
        decreases
                range.last - index + if more {
                    1int
                } else {
                    0int
                },
    {
        let ghost so_far = lines@;
        if grid_candidate_selected(*ordinal, total) {
            lines.push(GridLine { axis, index });
        }
        *ordinal = ordinal.saturating_add(1);
        match index.checked_add(range.stride) {
            Some(next) => {
                if next <= range.last {
                    index = next;
                } else {
                    more = false;
                }
            },
            None => {
                more = false;
            },
        }
        proof {
            if more {
                assert(lines@ + drawn_lines(axis, range, index, total, *ordinal) =~= so_far + (
                lines@.skip(so_far.len() as int) + drawn_lines(
                    axis,
                    range,
                    index,
                    total,
                    *ordinal,
                )));
            }
        }
    }
}

/// A brush face as the grid sees it: its ranges, each with its axis, if the
/// face may be seen.
#[derive(Clone, Copy, Debug, PartialEq, Eq)]
pub struct FaceGrid {
    pub ranges: Option<[(usize, GridRange); 2]>,
    /// An opening to the sky is counted, but has no grid.
    pub sky: bool,
}

impl FaceGrid {
    /// The lines of the ranges can be walked.
    pub open spec fn wf(self) -> bool {
        self.ranges matches Some(r) ==> r@[0].1.stride > 0 && r@[1].1.stride > 0
    }

    /// The lines of the face before the limit.
    pub open spec fn count(self) -> int {
        match self.ranges {
            Some(r) => range_count(r@[0].1) + range_count(r@[1].1),
            None => 0,
        }
    }

    /// The lines of the face that are drawn, if its first line has this place.
    pub open spec fn lines(self, total: u64, ordinal: u64) -> Seq<GridLine> {
        match self.ranges {
            Some(r) => if self.sky {
                Seq::empty()
            } else {
                drawn_lines(r@[0].0, r@[0].1, r@[0].1.first, total, ordinal) + drawn_lines(
                    r@[1].0,
                    r@[1].1,
                    r@[1].1.first,
                    total,
                    ordinal_after(r@[0].1, r@[0].1.first, ordinal),
                )
            },
            None => Seq::empty(),
        }
    }

    /// The place behind the lines of the face.
    pub open spec fn behind(self, ordinal: u64) -> u64 {
        match self.ranges {
            Some(r) => if self.sky {
                ordinal
            } else {
                ordinal_after(
                    r@[1].1,
                    r@[1].1.first,
                    ordinal_after(r@[0].1, r@[0].1.first, ordinal),
                )
            },
            None => ordinal,
        }
    }
}

/// The lines of the first faces, before the limit.
pub open spec fn grid_total(faces: Seq<FaceGrid>, count: int) -> int
    decreases count,
{
    if count <= 0 {
        0
    } else {
        grid_total(faces, count - 1) + faces[count - 1].count()
    }
}

/// The same, as far as it can be counted.
pub open spec fn counted_total(faces: Seq<FaceGrid>) -> u64 {
    min_int(grid_total(faces, faces.len() as int), u64::MAX as int) as u64
}

/// The place behind the lines of the first faces.
pub open spec fn place_behind(faces: Seq<FaceGrid>, count: int) -> u64
    decreases count,
{
    if count <= 0 {
        0
    } else {
        faces[count - 1].behind(place_behind(faces, count - 1))
    }
}

/// The grid lines of every face that are drawn.
pub fn surface_grid(faces: &Vec<FaceGrid>) -> (grid: Vec<Vec<GridLine>>)
    requires
        forall|f: int| 0 <= f < faces@.len() ==> (#[trigger] faces@[f]).wf(),
    ensures
        grid@.len() == faces@.len(),
        forall|f: int|
            0 <= f < faces@.len() ==> (#[trigger] grid@[f])@ == faces@[f].lines(
                counted_total(faces@),
                place_behind(faces@, f),
            ),
{
    let mut total: u64 = 0;
    for i in 0..faces.len()
        invariant
            0 <= grid_total(faces@, i as int),
            total == min_int(grid_total(faces@, i as int), u64::MAX as int),
    {
        if let Some(ranges) = faces[i].ranges {
            let first: u64 = grid_index_count(ranges[0].1);
            let second: u64 = grid_index_count(ranges[1].1);
            total = total.saturating_add(first + second);
        }
    }
    let mut grid: Vec<Vec<GridLine>> = Vec::new();
    let mut ordinal: u64 = 0;
    for i in 0..faces.len()
        invariant
            forall|f: int| 0 <= f < faces@.len() ==> (#[trigger] faces@[f]).wf(),
            total == counted_total(faces@),
            ordinal == place_behind(faces@, i as int),
            grid@.len() == i,
            forall|f: int|
                0 <= f < i ==> (#[trigger] grid@[f])@ == faces@[f].lines(
                    total,
                    place_behind(faces@, f),
                ),
    {
        let mut lines: Vec<GridLine> = Vec::new();
        assert(faces@[i as int].wf());
        if let Some(ranges) = faces[i].ranges {
            if !faces[i].sky {
                let (first_axis, first) = ranges[0];
                let (second_axis, second) = ranges[1];
                push_grid_lines(&mut lines, first_axis, first, total, &mut ordinal);
                push_grid_lines(&mut lines, second_axis, second, total, &mut ordinal);
            }
        }
        assert(lines@ =~= faces@[i as int].lines(total, place_behind(faces@, i as int)));
        grid.push(lines);
    }
    grid
}

/// The lines of the first faces that are drawn.
pub open spec fn drawn_count(faces: Seq<FaceGrid>, count: int) -> int
    decreases count,
{
    if count <= 0 {
        0
    } else {
        drawn_count(faces, count - 1) + faces[count - 1].lines(
            counted_total(faces),
            place_behind(faces, count - 1),
        ).len()
    }
}

/// The numbers of a range lie close enough to be counted.
pub open spec fn countable(range: GridRange) -> bool {
    range.stride > 0 && range.last - range.first < i64::MAX
}

proof fn lemma_drawn_of_range(axis: usize, range: GridRange, index: i64, total: u64, ordinal: u64)
    requires
        countable(range),
        range.first <= index <= range.last,
        ordinal + (range.last - index) / (range.stride as int) + 1 <= u64::MAX,
    ensures
        ordinal_after(range, index, ordinal) == ordinal + (range.last - index) / (range.stride as int)
            + 1,
        drawn_lines(axis, range, index, total, ordinal).len() == selected_count(
            ordinal_after(range, index, ordinal) as nat,
            total as int,
        ) - selected_count(ordinal as nat, total as int),
    decreases range.last - index,
{
    let stride = range.stride as int;
    let left = range.last - index;
    if index + stride > range.last {
        assert(left / stride == 0) by (nonlinear_arith)
            requires
                0 <= left < stride,
        ;
    } else {
        assert(left / stride == (left - stride) / stride + 1 && (left - stride) / stride >= 0) by (
        nonlinear_arith)
            requires
                0 < stride <= left,
        ;
        lemma_drawn_of_range(
            axis,
            range,
            (index + stride) as i64,
            total,
            next_ordinal(ordinal),
        );
    }
}

proof fn lemma_range(axis: usize, range: GridRange, total: u64, ordinal: u64)
    requires
        countable(range),
        ordinal + range_count(range) <= u64::MAX,
    ensures
        range_count(range) >= 0,
        ordinal_after(range, range.first, ordinal) == ordinal + range_count(range),
        drawn_lines(axis, range, range.first, total, ordinal).len() == selected_count(
            (ordinal + range_count(range)) as nat,
            total as int,
        ) - selected_count(ordinal as nat, total as int),
{
    if range.first <= range.last {
        let span = range.last - range.first;
        assert(0 <= span / (range.stride as int) <= span) by (nonlinear_arith)
            requires
                0 <= span,
                0 < range.stride,
        ;
        lemma_drawn_of_range(axis, range, range.first, total, ordinal);
    }
}

proof fn lemma_drawn_of_faces(faces: Seq<FaceGrid>, count: int)
    requires
        0 <= count <= faces.len(),
        grid_total(faces, faces.len() as int) <= u64::MAX,
        forall|f: int|
            0 <= f < faces.len() ==> ((#[trigger] faces[f]).ranges matches Some(r) ==> countable(
                r@[0].1,
            ) && countable(r@[1].1)),
    ensures
        0 <= place_behind(faces, count) <= grid_total(faces, count) <= grid_total(
            faces,
            faces.len() as int,
        ),
        drawn_count(faces, count) == selected_count(
            place_behind(faces, count) as nat,
            counted_total(faces) as int,
        ),
    decreases count,
{
    lemma_totals_grow(faces, count, faces.len() as int);
    if count > 0 {
        lemma_drawn_of_faces(faces, count - 1);
        lemma_totals_grow(faces, count - 1, count);
        let face = faces[count - 1];
        let total = counted_total(faces);
        let place = place_behind(faces, count - 1);
        if let Some(r) = face.ranges {
            if !face.sky {
                lemma_count_is_natural(r@[0].1);
                lemma_count_is_natural(r@[1].1);
                lemma_range(r@[0].0, r@[0].1, total, place);
                lemma_range(
                    r@[1].0,
                    r@[1].1,
                    total,
                    ordinal_after(r@[0].1, r@[0].1.first, place),
                );
            } else {
                lemma_count_is_natural(r@[0].1);
                lemma_count_is_natural(r@[1].1);
            }
        }
    }
}

proof fn lemma_count_is_natural(range: GridRange)
    ensures
        range_count(range) >= 0,
{
}

proof fn lemma_totals_grow(faces: Seq<FaceGrid>, a: int, b: int)
    requires
        0 <= a <= b <= faces.len(),
    ensures
        0 <= grid_total(faces, a) <= grid_total(faces, b),
    decreases b,
{
    if b > a {
        lemma_totals_grow(faces, a, b - 1);
        if let Some(r) = faces[b - 1].ranges {
            lemma_count_is_natural(r@[0].1);
            lemma_count_is_natural(r@[1].1);
        }
    } else if a > 0 {
        lemma_totals_grow(faces, a - 1, a - 1);
        if let Some(r) = faces[a - 1].ranges {
            lemma_count_is_natural(r@[0].1);
            lemma_count_is_natural(r@[1].1);
        }
    }
}

proof fn lemma_selected_grows(a: nat, b: nat, total: int)
    requires
        a <= b,
    ensures
        selected_count(a, total) <= selected_count(b, total),
        selected_count(a, total) <= a,
    decreases b,
{
    if a < b {
        lemma_selected_grows(a, (b - 1) as nat, total);
    } else if a > 0 {
        lemma_selected_grows((a - 1) as nat, (a - 1) as nat, total);
    }
}

/// The grids of all faces together have no more lines than the limit, as long
/// as their lines can be counted at all.
pub proof fn law_grid_keeps_to_the_limit(faces: Seq<FaceGrid>)
    requires
        grid_total(faces, faces.len() as int) <= u64::MAX,
        forall|f: int|
            0 <= f < faces.len() ==> ((#[trigger] faces[f]).ranges matches Some(r) ==> countable(
                r@[0].1,
            ) && countable(r@[1].1)),
    ensures
        drawn_count(faces, faces.len() as int) <= BSP_SURFACE_GRID_SEGMENT_CAP,
{
    let n = faces.len() as int;
    let total = counted_total(faces) as int;
    lemma_drawn_of_faces(faces, n);
    lemma_selected_grows(place_behind(faces, n) as nat, total as nat, total);
    if total > 2048 {
        law_selection_is_even(total as nat, total);
    }
}

/// Some points reach the screen or its margin of eight points from every side.
pub open spec fn near_screen(points: Seq<(i16, i16)>) -> bool {
    &&& exists|i: int| 0 <= i < points.len() && (#[trigger] points[i]).0 >= -8
    &&& exists|i: int| 0 <= i < points.len() && (#[trigger] points[i]).0 <= SCREEN_W + 8
    &&& exists|i: int| 0 <= i < points.len() && (#[trigger] points[i]).1 >= -8
    &&& exists|i: int| 0 <= i < points.len() && (#[trigger] points[i]).1 <= SCREEN_H + 8
}

/// Whether a face may be on the screen, by the corners that can be projected: it
/// does not lie wholly beyond one side.
pub fn corners_near_screen(points: &Vec<(i16, i16)>) -> (near: bool)
    ensures
        near == near_screen(points@),
{
    let mut left = false;
    let mut right = false;
    let mut above = false;
    let mut below = false;
    for i in 0..points.len()
        invariant
            left == exists|j: int| 0 <= j < i && (#[trigger] points@[j]).0 >= -8,
            right == exists|j: int| 0 <= j < i && (#[trigger] points@[j]).0 <= SCREEN_W + 8,
            above == exists|j: int| 0 <= j < i && (#[trigger] points@[j]).1 >= -8,
            below == exists|j: int| 0 <= j < i && (#[trigger] points@[j]).1 <= SCREEN_H + 8,
    {
        let (x, y) = points[i];
        assert(points@[i as int] == (x, y));
        left = left || x >= -8;
        right = right || x as i32 <= SCREEN_W + 8;
        above = above || y >= -8;
        below = below || y as i32 <= SCREEN_H + 8;
    }
    left && right && above && below
}

/// World units between two heavy grid lines.
pub const BSP_SURFACE_GRID_MAJOR_WORLD_UNITS: i64 = 64;

/// How solid light and heavy grid lines are, close by.
pub const BSP_SURFACE_GRID_MINOR_ALPHA: u8 = 68;

pub const BSP_SURFACE_GRID_MAJOR_ALPHA: u8 = 104;

/// Whether a grid line is a heavy one, by its world coordinate.
pub fn grid_line_is_major(coordinate: i64) -> (major: bool)
    ensures
        major == (coordinate as int % 64 == 0),
{
    let whole: i64 = coordinate / BSP_SURFACE_GRID_MAJOR_WORLD_UNITS;
    proof {
        if coordinate >= 0 {
            assert(whole == coordinate as int / 64);
        } else {
            assert(whole == -((-coordinate) / 64));
        }
    }
    whole * BSP_SURFACE_GRID_MAJOR_WORLD_UNITS == coordinate
}

/// The brightness of a colour to the eye, in thousandths.
pub open spec fn luma(c: (u8, u8, u8)) -> int {
    299 * c.0 + 587 * c.1 + 114 * c.2
}

/// The red parts of the colours of exactly half brightness that count as dark:
/// with weights in binary fractions their brightness comes out just below half.
/// No two colours of half brightness have the same red part.
pub const HALF_BRIGHT_DARK_REDS: [u8; 44] = [
    0, 12, 15, 23, 30, 38, 41, 53, 56, 64, 71, 79, 86, 87, 94,
    97, 102, 112, 117, 120, 127, 132, 135, 138, 143, 147, 153, 158, 161, 168,
    173, 176, 188, 194, 198, 199, 209, 214, 217, 224, 232, 239, 240, 255,
];

/// A surface is dark: its brightness is below half.
pub open spec fn is_dark(c: (u8, u8, u8)) -> bool {
    luma(c) < 127_500 || luma(c) == 127_500 && HALF_BRIGHT_DARK_REDS@.contains(c.0)
}

/// The brightness of grid lines that stands out from a surface: light on a dark
/// one, dark on a light one.
pub fn adaptive_grid_value(background: (u8, u8, u8)) -> (value: u8)
    ensures
        value == if is_dark(background) {
            BSP_SURFACE_GRID_LIGHT
        } else {
            BSP_SURFACE_GRID_DARK
        },
{
    let brightness: u32 = 299 * (background.0 as u32) + 587 * (background.1 as u32) + 114 * (
    background.2 as u32);
    if brightness < 127_500 {
        return BSP_SURFACE_GRID_LIGHT;
    }
    if brightness == 127_500 {
        let reds = HALF_BRIGHT_DARK_REDS;
        for i in 0..44usize
            invariant
                reds == HALF_BRIGHT_DARK_REDS,
                brightness == 127_500,
                brightness == luma(background),
                forall|j: int| 0 <= j < i ==> reds@[j] != background.0,
        {
            if reds[i] == background.0 {
                assert(HALF_BRIGHT_DARK_REDS@[i as int] == background.0);
                return BSP_SURFACE_GRID_LIGHT;
            }
        }
    }
    BSP_SURFACE_GRID_DARK
}

/// A coordinate where a segment meets the near plane.
pub open spec fn near_part(from: i32, to: i32, numerator: int, denominator: int) -> int {
    saturate_i32(from + trunc_div((to - from) * numerator, denominator))
}

/// Where a segment that starts behind the near plane meets it; nowhere if it
/// does not come forward.
pub open spec fn near_crossing(behind: ViewVertex, front: ViewVertex, near: i32) -> Option<
    ViewVertex,
> {
    let numerator = saturate_i32(near - behind.z);
    let denominator = front.z - behind.z;
    if denominator <= 0 {
        None
    } else {
        Some(
            ViewVertex {
                x: near_part(behind.x, front.x, numerator, denominator) as i32,
                y: near_part(behind.y, front.y, numerator, denominator) as i32,
                z: near,
            },
        )
    }
}

fn meet_near(from: i32, to: i32, numerator: i64, denominator: i64) -> (result: i32)
    requires
        denominator > 0,
        -0x8000_0000 <= numerator <= 0x7FFF_FFFF,
    ensures
        result == near_part(from, to, numerator as int, denominator as int),
{
    let span: i64 = to as i64 - from as i64;
    assert(-0x7FFF_FFFF_8000_0000 <= span * numerator <= 0x7FFF_FFFF_8000_0000)
        by (nonlinear_arith)
        requires
            -0xFFFF_FFFF <= span <= 0xFFFF_FFFF,
            -0x8000_0000 <= numerator <= 0x7FFF_FFFF,
    ;
    let product: i64 = span * numerator;
    let part: i64 = product / denominator;
    proof {
        lemma_quotient_size(product as int, denominator as int);
    }
    i64_to_i32_saturating(from as i64 + part)
}

proof fn lemma_quotient_size(a: int, b: int)
    requires
        b > 0,
        -0x7FFF_FFFF_8000_0000 <= a <= 0x7FFF_FFFF_8000_0000,
    ensures
        -0x7FFF_FFFF_8000_0000 <= trunc_div(a, b) <= 0x7FFF_FFFF_8000_0000,
{
    assert(a >= 0 ==> 0 <= a / b <= a) by (nonlinear_arith)
        requires
            b > 0,
    ;
    assert(a < 0 ==> 0 <= (-a) / b <= -a) by (nonlinear_arith)
        requires
            b > 0,
    ;
}

/// Where a segment that starts behind the near plane meets it.
pub fn view_segment_near_intersection(behind: ViewVertex, front: ViewVertex, near: i32) -> (point:
    Option<ViewVertex>)
    ensures
        point == near_crossing(behind, front, near),
{
    let numerator: i64 = saturating_sub_i32(near, behind.z) as i64;
    let denominator: i64 = front.z as i64 - behind.z as i64;
    if denominator <= 0 {
        return None;
    }
    Some(
        ViewVertex {
            x: meet_near(behind.x, front.x, numerator, denominator),
            y: meet_near(behind.y, front.y, numerator, denominator),
            z: near,
        },
    )
}

/// The part of a segment in front of the near plane.
pub open spec fn clipped_segment(a: ViewVertex, b: ViewVertex, near: i32) -> Option<
    (ViewVertex, ViewVertex),
> {
    let plane = if near > 1 {
        near
    } else {
        1
    };
    if a.z < plane && b.z < plane {
        None
    } else if a.z < plane {
        match near_crossing(a, b, plane) {
            Some(start) => Some((start, b)),
            None => None,
        }
    } else if b.z < plane {
        match near_crossing(b, a, plane) {
            Some(end) => Some((a, end)),
            None => None,
        }
    } else {
        Some((a, b))
    }
}

/// The part of a segment in front of the near plane.
pub fn clip_view_segment(a: ViewVertex, b: ViewVertex, near: i32) -> (segment: Option<
    (ViewVertex, ViewVertex),
>)
    ensures
        segment == clipped_segment(a, b, near),
{
    let plane: i32 = if near > 1 {
        near
    } else {
        1
    };
    if a.z < plane && b.z < plane {
        return None;
    }
    if a.z < plane {
        match view_segment_near_intersection(a, b, plane) {
            Some(start) => Some((start, b)),
            None => None,
        }
    } else if b.z < plane {
        match view_segment_near_intersection(b, a, plane) {
            Some(end) => Some((a, end)),
            None => None,
        }
    } else {
        Some((a, b))
    }
}

/// A segment is dropped only if all of it is behind the near plane, and what is
/// left of it is in front.
pub proof fn law_clipped_segment_is_in_front(a: ViewVertex, b: ViewVertex, near: i32)
    requires
        near >= 1,
    ensures
        clipped_segment(a, b, near) is None <==> a.z < near && b.z < near,
        clipped_segment(a, b, near) matches Some(segment) ==> segment.0.z >= near && segment.1.z
            >= near,
        a.z >= near && b.z >= near ==> clipped_segment(a, b, near) == Some((a, b)),
{
}

/// The sum of a coordinate of some points.
pub open spec fn axis_sum(points: Seq<[i32; 3]>, axis: int) -> int
    decreases points.len(),
{
    if points.len() == 0 {
        0
    } else {
        axis_sum(points.drop_last(), axis) + points.last()@[axis]
    }
}

/// The middle of some points along an axis.
pub open spec fn middle(points: Seq<[i32; 3]>, axis: int) -> int {
    trunc_div(axis_sum(points, axis), points.len() as int)
}

proof fn lemma_axis_sum(points: Seq<[i32; 3]>, axis: int)
    requires
        0 <= axis < 3,
    ensures
        -0x8000_0000 * points.len() <= axis_sum(points, axis) <= 0x7FFF_FFFF * points.len(),
    decreases points.len(),
{
    if points.len() > 0 {
        lemma_axis_sum(points.drop_last(), axis);
        let n = points.len();
        assert(-0x8000_0000 * n == -0x8000_0000 * (n - 1) - 0x8000_0000) by (nonlinear_arith);
        assert(0x7FFF_FFFF * n == 0x7FFF_FFFF * (n - 1) + 0x7FFF_FFFF) by (nonlinear_arith);
    }
}

fn axis_middle(points: &Vec<[i32; 3]>, axis: usize) -> (result: i32)
    requires
        axis < 3,
        0 < points@.len() <= 0x7FFF_FFFF,
    ensures
        result == middle(points@, axis as int),
{
    let mut sum: i64 = 0;
    let mut i: usize = 0;
    assert(points@.take(0) =~= Seq::<[i32; 3]>::empty());
    while i < points.len()
        invariant
            axis < 3,
            points@.len() <= 0x7FFF_FFFF,
            i <= points@.len(),
            sum == axis_sum(points@.take(i as int), axis as int),
        decreases points@.len() - i,
    {
        proof {
            assert(points@.take(i + 1).drop_last() =~= points@.take(i as int));
            lemma_axis_sum(points@.take(i as int), axis as int);
        }
        sum = sum + points[i][axis] as i64;
        i = i + 1;
    }
    assert(points@.take(i as int) =~= points@);
    let length: i64 = points.len() as i64;
    proof {
        lemma_axis_sum(points@, axis as int);
        lemma_mean(sum as int, length as int);
    }
    (sum / length) as i32
}

proof fn lemma_mean(sum: int, n: int)
    requires
        n > 0,
        -0x8000_0000 * n <= sum <= 0x7FFF_FFFF * n,
    ensures
        -0x8000_0000 <= trunc_div(sum, n) <= 0x7FFF_FFFF,
{
    if sum >= 0 {
        assert(sum / n <= 0x7FFF_FFFF && 0 <= sum / n) by (nonlinear_arith)
            requires
                0 <= sum <= 0x7FFF_FFFF * n,
                n > 0,
        ;
    } else {
        assert((-sum) / n <= 0x8000_0000 && 0 <= (-sum) / n) by (nonlinear_arith)
            requires
                0 <= -sum <= 0x8000_0000 * n,
                n > 0,
        ;
    }
}

/// A coordinate of the marker of an opening: nine tenths of the way from the
/// middle.
pub open spec fn marker_part(vertex: i32, center: int) -> int {
    center + trunc_div((vertex - center) * 9, 10)
}

fn marker_coordinate(vertex: i32, center: i32) -> (result: i32)
    ensures
        result == marker_part(vertex, center as int),
{
    let inset: i64 = ((vertex as i64 - center as i64) * 9) / 10;
    let wide: i64 = center as i64 + inset;
    wide as i32
}

/// The outline of the marker of an opening: the opening drawn in towards its
/// middle. Fewer than three points have none.
pub fn opening_marker(opening: &Vec<[i32; 3]>) -> (marker: Vec<[i32; 3]>)
    requires
        opening@.len() <= 0x7FFF_FFFF,
    ensures
        opening@.len() < 3 ==> marker@.len() == 0,
        opening@.len() >= 3 ==> marker@.len() == opening@.len() && forall|i: int, axis: int|
            0 <= i < marker@.len() && 0 <= axis < 3 ==> #[trigger] marker@[i]@[axis]
                == marker_part(opening@[i]@[axis], middle(opening@, axis)),
{
    let mut marker: Vec<[i32; 3]> = Vec::new();
    if opening.len() < 3 {
        return marker;
    }
    let x: i32 = axis_middle(opening, 0);
    let y: i32 = axis_middle(opening, 1);
    let z: i32 = axis_middle(opening, 2);
    let mut i: usize = 0;
    while i < opening.len()
        invariant
            i <= opening@.len(),
            marker@.len() == i,
            x == middle(opening@, 0),
            y == middle(opening@, 1),
            z == middle(opening@, 2),
            forall|j: int, axis: int|
                0 <= j < i && 0 <= axis < 3 ==> #[trigger] marker@[j]@[axis] == marker_part(
                    opening@[j]@[axis],
                    middle(opening@, axis),
                ),
        decreases opening@.len() - i,
    {
        let vertex = opening[i];
        let point = [
            marker_coordinate(vertex[0], x),
            marker_coordinate(vertex[1], y),
            marker_coordinate(vertex[2], z),
        ];
        marker.push(point);
        assert forall|axis: int| 0 <= axis < 3 implies #[trigger] point@[axis] == marker_part(
            vertex@[axis],
            middle(opening@, axis),
        ) by {
            assert(axis == 0 || axis == 1 || axis == 2);
        }
        i = i + 1;
    }
    marker
}

/// How many pieces of a line are tested for walls.
pub fn leak_steps(wanted: usize) -> (steps: usize)
    ensures
        steps == clamp_int(wanted as int, 1, 256),
{
    if wanted < 1 {
        1
    } else if wanted > BSP_LEAK_OCCLUSION_SEGMENT_CAP {
        BSP_LEAK_OCCLUSION_SEGMENT_CAP
    } else {
        wanted
    }
}

/// Pieces that are seen without a gap.
#[derive(Clone, Copy, Debug, PartialEq, Eq, Structural)]
pub struct VisibleRun {
    pub start: usize,
    /// The first piece behind the run.
    pub end: usize,
}

/// A run is seen, and cannot be made longer.
pub open spec fn is_run(visible: Seq<bool>, run: VisibleRun) -> bool {
    &&& run.start < run.end <= visible.len()
    &&& forall|i: int| run.start <= i < run.end ==> #[trigger] visible[i]
    &&& run.start == 0 || !visible[run.start - 1]
    &&& run.end == visible.len() || !visible[run.end as int]
}

/// The pieces of a line that are seen, joined where they touch.
pub fn visible_runs(visible: &Vec<bool>) -> (runs: Vec<VisibleRun>)
    ensures
        forall|r: int| 0 <= r < runs@.len() ==> is_run(visible@, #[trigger] runs@[r]),
        forall|r: int, s: int|
            0 <= r < s < runs@.len() ==> (#[trigger] runs@[r]).end < (#[trigger] runs@[s]).start,
        forall|i: int|
            0 <= i < visible@.len() && #[trigger] visible@[i] ==> exists|r: int|
                0 <= r < runs@.len() && (#[trigger] runs@[r]).start <= i < runs@[r].end,
{
    let mut runs: Vec<VisibleRun> = Vec::new();
    let mut i: usize = 0;
    while i < visible.len()
        invariant
            i <= visible@.len(),
            i == 0 || i == visible@.len() || !visible@[i - 1] || runs@.len() == 0 || runs@[
            runs@.len() - 1].end < i,
            i > 0 ==> !visible@[i - 1] || i == visible@.len(),
            forall|r: int| 0 <= r < runs@.len() ==> is_run(visible@, #[trigger] runs@[r]),
            forall|r: int| 0 <= r < runs@.len() ==> (#[trigger] runs@[r]).end <= i,
            forall|r: int|
                0 <= r < runs@.len() && i < visible@.len() ==> (#[trigger] runs@[r]).end < i,
            forall|r: int, s: int|
                0 <= r < s < runs@.len() ==> (#[trigger] runs@[r]).end < (
                #[trigger] runs@[s]).start,
            forall|k: int|
                0 <= k < i && #[trigger] visible@[k] ==> exists|r: int|
                    0 <= r < runs@.len() && (#[trigger] runs@[r]).start <= k < runs@[r].end,
        decreases visible@.len() - i,
    {
        let ghost before = runs@;
        if !visible[i] {
            i = i + 1;
        } else {
            let start: usize = i;
            let mut end: usize = i + 1;
            while end < visible.len() && visible[end]
                invariant
                    start < end <= visible@.len(),
                    forall|k: int| start <= k < end ==> #[trigger] visible@[k],
                decreases visible@.len() - end,
            {
                end = end + 1;
            }
            let run = VisibleRun { start, end };
            assert(is_run(visible@, run));
            runs.push(run);
            proof {
                assert(runs@[runs@.len() - 1] == run);
                assert forall|k: int| 0 <= k < end && #[trigger] visible@[k] implies exists|r: int|
                    0 <= r < runs@.len() && (#[trigger] runs@[r]).start <= k < runs@[r].end by {
                    if k < start {
                        let r = choose|r: int|
                            0 <= r < before.len() && (#[trigger] before[r]).start <= k
                                < before[r].end;
                        assert(runs@[r] == before[r]);
                    } else {
                        assert(runs@[runs@.len() - 1].start <= k);
                    }
                }
            }
            i = if end < visible.len() {
                end + 1
            } else {
                end
            };
        }
    }
    runs
}

/// What an entity's bounds stand for.
#[derive(Clone, Copy, Debug, PartialEq, Eq, Structural)]
pub enum EntityBoundKind {
    Model,
    MeshFallback,
    ImageProp,
    BoxProp,
    CylinderProp,
    ArchProp,
    SpawnPoint,
    PointLight,
    ParticleEmitter,
    Portal,
    Logic,
}

/// How thick a line is.
#[derive(Clone, Copy, Debug, PartialEq, Eq, Structural)]
pub enum StrokeWeight {
    Hover,
    Selected,
    /// A portal's seam.
    Seam,
    /// A portal's seam that is selected or pointed at.
    StrongSeam,
}

/// Colour and weight of a line.
#[derive(Clone, Copy, Debug, PartialEq, Eq)]
pub struct FaceOutlineStyle {
    pub rgb: (u8, u8, u8),
    pub weight: StrokeWeight,
}

/// Colour of a portal's seam.
pub const PORTAL_SEAM_RGB: (u8, u8, u8) = (0xFF, 0x48, 0xD6);

/// The colour of bounds at rest.
pub open spec fn bound_color(kind: EntityBoundKind) -> (u8, u8, u8) {
    match kind {
        EntityBoundKind::Model => (0xC0, 0xC8, 0xD0),
        EntityBoundKind::MeshFallback => (0x90, 0x98, 0xA0),
        EntityBoundKind::ImageProp => (0xD0, 0xAA, 0x78),
        EntityBoundKind::BoxProp => (0x87, 0xB4, 0xDC),
        EntityBoundKind::CylinderProp => (0x78, 0xB8, 0xC8),
        EntityBoundKind::ArchProp => (0xC0, 0xA0, 0x70),
        EntityBoundKind::SpawnPoint => (0x60, 0xE0, 0x80),
        EntityBoundKind::PointLight => (0xFF, 0xD8, 0x70),
        EntityBoundKind::ParticleEmitter => (0x98, 0xD6, 0xE6),
        EntityBoundKind::Portal => PORTAL_SEAM_RGB,
        EntityBoundKind::Logic => (0xC8, 0x8C, 0xE8),
    }
}

/// The line of an entity's bounds: bold when selected, bright when pointed at,
/// else muted in the colour of its kind.
pub open spec fn bound_style(kind: EntityBoundKind, selected: bool, hovered: bool) -> FaceOutlineStyle {
    if selected {
        FaceOutlineStyle { rgb: (0x60u8, 0xC8u8, 0xFFu8), weight: StrokeWeight::Selected }
    } else if hovered {
        FaceOutlineStyle { rgb: (0xFFu8, 0xE0u8, 0x60u8), weight: StrokeWeight::Hover }
    } else {
        FaceOutlineStyle { rgb: bound_color(kind), weight: StrokeWeight::Hover }
    }
}

/// The line of an entity's bounds.
pub fn entity_bound_style(kind: EntityBoundKind, selected: bool, hovered: bool) -> (style:
    FaceOutlineStyle)
    ensures
        style == bound_style(kind, selected, hovered),
{
    if selected {
        return FaceOutlineStyle { rgb: (0x60, 0xC8, 0xFF), weight: StrokeWeight::Selected };
    }
    if hovered {
        return FaceOutlineStyle { rgb: (0xFF, 0xE0, 0x60), weight: StrokeWeight::Hover };
    }
    let rgb = match kind {
        EntityBoundKind::Model => (0xC0, 0xC8, 0xD0),
        EntityBoundKind::MeshFallback => (0x90, 0x98, 0xA0),
        EntityBoundKind::ImageProp => (0xD0, 0xAA, 0x78),
        EntityBoundKind::BoxProp => (0x87, 0xB4, 0xDC),
        EntityBoundKind::CylinderProp => (0x78, 0xB8, 0xC8),
        EntityBoundKind::ArchProp => (0xC0, 0xA0, 0x70),
        EntityBoundKind::SpawnPoint => (0x60, 0xE0, 0x80),
        EntityBoundKind::PointLight => (0xFF, 0xD8, 0x70),
        EntityBoundKind::ParticleEmitter => (0x98, 0xD6, 0xE6),
        EntityBoundKind::Portal => PORTAL_SEAM_RGB,
        EntityBoundKind::Logic => (0xC8, 0x8C, 0xE8),
    };
    FaceOutlineStyle { rgb, weight: StrokeWeight::Hover }
}

/// What is drawn for an entity's bounds: a box unless the entity draws a frame
/// of its own, and an arrow if it faces somewhere.
pub fn bound_parts(kind: EntityBoundKind) -> (parts: (bool, bool))
    ensures
        parts == (!frames_itself(kind), faces(kind)),
{
    match kind {
        EntityBoundKind::ImageProp | EntityBoundKind::BoxProp | EntityBoundKind::CylinderProp
        | EntityBoundKind::Portal => (false, false),
        EntityBoundKind::Model | EntityBoundKind::SpawnPoint | EntityBoundKind::MeshFallback => (
            true,
            true,
        ),
        _ => (true, false),
    }
}

/// The bounds of an entity.
#[derive(Clone, Copy, Debug, PartialEq, Eq)]
pub struct EntityBounds {
    pub node: NodeId,
    pub kind: EntityBoundKind,
}

/// What is drawn for the bounds of an entity.
#[derive(Clone, Copy, Debug, PartialEq, Eq)]
pub struct EntityOutline {
    /// Place of the bounds among those of all entities.
    pub index: usize,
    pub style: FaceOutlineStyle,
    /// An arrow shows where the entity faces.
    pub arrow: bool,
}

/// The kind draws a frame of its own instead of its bounds.
pub open spec fn frames_itself(kind: EntityBoundKind) -> bool {
    kind == EntityBoundKind::ImageProp || kind == EntityBoundKind::BoxProp || kind
        == EntityBoundKind::CylinderProp || kind == EntityBoundKind::Portal
}

/// The kind faces somewhere.
pub open spec fn faces(kind: EntityBoundKind) -> bool {
    kind == EntityBoundKind::Model || kind == EntityBoundKind::SpawnPoint || kind
        == EntityBoundKind::MeshFallback
}

/// What is drawn for the bounds at a place.
pub open spec fn outline_at(
    bounds: Seq<EntityBounds>,
    index: int,
    selected: NodeId,
    hovered: Option<NodeId>,
) -> EntityOutline {
    let entity = bounds[index];
    EntityOutline {
        index: index as usize,
        style: bound_style(entity.kind, entity.node == selected, hovered == Some(entity.node)),
        arrow: faces(entity.kind),
    }
}

/// What is drawn for the first bounds.
pub open spec fn outlines_of(
    bounds: Seq<EntityBounds>,
    selected: NodeId,
    hovered: Option<NodeId>,
    count: int,
) -> Seq<EntityOutline>
    decreases count,
{
    if count <= 0 {
        Seq::empty()
    } else {
        let so_far = outlines_of(bounds, selected, hovered, count - 1);
        if frames_itself(bounds[count - 1].kind) {
            so_far
        } else {
            so_far.push(outline_at(bounds, count - 1, selected, hovered))
        }
    }
}

/// What is drawn for the bounds of all entities.
pub fn walk_entity_bounds(
    bounds: &Vec<EntityBounds>,
    selected: NodeId,
    hovered: Option<NodeId>,
) -> (outlines: Vec<EntityOutline>)
    ensures
        outlines@ == outlines_of(bounds@, selected, hovered, bounds@.len() as int),
{
    let mut outlines: Vec<EntityOutline> = Vec::new();
    for i in 0..bounds.len()
        invariant
            outlines@ == outlines_of(bounds@, selected, hovered, i as int),
    {
        let entity = bounds[i];
        let (framed, arrow) = bound_parts(entity.kind);
        if framed {
            let pointed_at = match hovered {
                Some(id) => id == entity.node,
                None => false,
            };
            outlines.push(
                EntityOutline {
                    index: i,
                    style: entity_bound_style(entity.kind, entity.node == selected, pointed_at),
                    arrow,
                },
            );
        }
    }
    outlines
}

/// Whether the selected node is a flat, boxed or round prop, which draws its own
/// frame.
pub fn selected_node_is_image_prop(scene: &Scene, selected: NodeId) -> (result: bool)
    ensures
        result == match node_of(scene.nodes@, selected) {
            Some(node) => node.kind is ImageProp || node.kind is BoxProp || node.kind
                is CylinderProp,
            None => false,
        },
{
    match scene.node(selected) {
        Some(node) => matches!(
            node.kind,
            SceneNodeKind::ImageProp | SceneNodeKind::BoxProp | SceneNodeKind::CylinderProp
        ),
        None => false,
    }
}

/// A corner of a box: the bits of its number tell its side on each axis.
pub open spec fn box_corner(center: Seq<i32>, half: Seq<i32>, corner: int) -> Seq<int> {
    seq![
        if corner % 2 == 1 {
            center[0] + half[0]
        } else {
            center[0] - half[0]
        },
        if (corner / 2) % 2 == 1 {
            center[1] + half[1]
        } else {
            center[1] - half[1]
        },
        if (corner / 4) % 2 == 1 {
            center[2] + half[2]
        } else {
            center[2] - half[2]
        },
    ]
}

/// The corners of a box around a centre; a box without extent has none.
pub fn aabb_corners(center: [i32; 3], half: [i32; 3]) -> (corners: Option<[[i32; 3]; 8]>)
    requires
        forall|i: int|
            0 <= i < 3 ==> half@[i] > 0 ==> i32::MIN <= #[trigger] center@[i] - half@[i]
                && center@[i] + half@[i] <= i32::MAX,
    ensures
        match corners {
            Some(corners) => half@[0] > 0 && half@[1] > 0 && half@[2] > 0 && forall|
                k: int,
                axis: int,
            |
                0 <= k < 8 && 0 <= axis < 3 ==> #[trigger] corners@[k]@[axis] == box_corner(
                    center@,
                    half@,
                    k,
                )[axis],
            None => half@[0] <= 0 || half@[1] <= 0 || half@[2] <= 0,
        },
{
    if half[0] <= 0 || half[1] <= 0 || half[2] <= 0 {
        return None;
    }
    assert(i32::MIN <= center@[0] - half@[0]);
    assert(i32::MIN <= center@[1] - half@[1]);
    assert(i32::MIN <= center@[2] - half@[2]);
    let lx: i32 = center[0] - half[0];
    let ly: i32 = center[1] - half[1];
    let lz: i32 = center[2] - half[2];
    let hx: i32 = center[0] + half[0];
    let hy: i32 = center[1] + half[1];
    let hz: i32 = center[2] + half[2];
    let corners = [
        [lx, ly, lz],
        [hx, ly, lz],
        [lx, hy, lz],
        [hx, hy, lz],
        [lx, ly, hz],
        [hx, ly, hz],
        [lx, hy, hz],
        [hx, hy, hz],
    ];
    proof {
        assert forall|k: int, axis: int| 0 <= k < 8 && 0 <= axis < 3 implies
            #[trigger] corners@[k]@[axis] == box_corner(center@, half@, k)[axis] by {
            assert(k == 0 || k == 1 || k == 2 || k == 3 || k == 4 || k == 5 || k == 6 || k == 7);
            assert(axis == 0 || axis == 1 || axis == 2);
        }
    }
    Some(corners)
}

/// The edges of a box: four along each axis.
pub const BOX_EDGES: [(usize, usize); 12] = [
    (0, 1),
    (2, 3),
    (4, 5),
    (6, 7),
    (0, 2),
    (1, 3),
    (4, 6),
    (5, 7),
    (0, 4),
    (1, 5),
    (2, 6),
    (3, 7),
];

/// The first edges of a box with both ends on the screen.
pub open spec fn seen_edges(p: Seq<Projected>, count: int) -> Seq<(Projected, Projected)>
    decreases count,
{
    if count <= 0 {
        Seq::empty()
    } else {
        let (a, b) = BOX_EDGES@[count - 1];
        let so_far = seen_edges(p, count - 1);
        if p[a as int].sz != 0 && p[b as int].sz != 0 {
            so_far.push((p[a as int], p[b as int]))
        } else {
            so_far
        }
    }
}

/// The edges of a projected box that can be drawn.
pub fn box_wireframe(p: [Projected; 8]) -> (lines: Vec<(Projected, Projected)>)
    ensures
        lines@ == seen_edges(p@, 12),
{
    let mut lines: Vec<(Projected, Projected)> = Vec::new();
    let edges = BOX_EDGES;
    let mut i: usize = 0;
    while i < 12
        invariant
            i <= 12,
            edges == BOX_EDGES,
            forall|k: int| 0 <= k < 12 ==> (#[trigger] edges@[k]).0 < 8 && edges@[k].1 < 8,
            lines@ == seen_edges(p@, i as int),
        decreases 12 - i,
    {
        let (a, b) = edges[i];
        assert(edges@[i as int] == (a, b));
        if p[a].sz != 0 && p[b].sz != 0 {
            lines.push((p[a], p[b]));
        }
        i = i + 1;
    }
    lines
}

/// Every edge of a box joins two corners that differ along one axis.
pub proof fn law_edges_run_along_the_axes(k: int)
    requires
        0 <= k < 12,
    ensures
        ({
            let (a, b) = BOX_EDGES@[k];
            &&& a < 8
            &&& b < 8
            &&& b == a + 1 && a % 2 == 0 || b == a + 2 && (a / 2) % 2 == 0 || b == a + 4 && a < 4
        }),
{
    assert(k == 0 || k == 1 || k == 2 || k == 3 || k == 4 || k == 5 || k == 6 || k == 7 || k == 8
        || k == 9 || k == 10 || k == 11);
}

/// The turn of a ring's corner, in 4096ths.
pub fn ring_angle(corner: u16, segments: u16) -> (angle: u16)
    requires
        0 < segments,
        corner <= segments,
    ensures
        angle == (corner * 4096) / (segments as int),
{
    let wide: u32 = corner as u32 * 4096;
    proof {
        assert(wide / (segments as u32) <= 4096) by (nonlinear_arith)
            requires
                wide == corner * 4096,
                corner <= segments,
                0 < segments,
        ;
    }
    (wide / segments as u32) as u16
}

/// A point at a distance in the direction of a turn, on the level of the
/// centre. The cosine goes along the first axis.
pub fn level_point(center: [i32; 3], reach: i32, along: i32, across: i32) -> (point: [i32; 3])
    requires
        -4096 <= along <= 4096,
        -4096 <= across <= 4096,
        0 <= reach <= 0x7_FFFF,
        i32::MIN <= center@[0] - reach && center@[0] + reach <= i32::MAX,
        i32::MIN <= center@[2] - reach && center@[2] + reach <= i32::MAX,
    ensures
        point@[0] == center@[0] + (along * reach) / 4096,
        point@[1] == center@[1],
        point@[2] == center@[2] + (across * reach) / 4096,
{
    assert(-4096 * reach <= along * reach <= 4096 * reach && -4096 * reach <= across * reach
        <= 4096 * reach) by (nonlinear_arith)
        requires
            -4096 <= along <= 4096,
            -4096 <= across <= 4096,
            0 <= reach <= 0x7_FFFF,
    ;
    let a: i32 = along * reach;
    let b: i32 = across * reach;
    proof {
        lemma_sar12_i32(a);
        lemma_sar12_i32(b);
    }
    [center[0] + (a >> 12), center[1], center[2] + (b >> 12)]
}

/// A line of the light symbol, in hundredths of its radius from its centre.
#[derive(Clone, Copy, Debug, PartialEq, Eq, Structural)]
pub enum BulbStroke {
    /// Round the glass, whose centre lies above that of the symbol.
    Circle { center_y: i32, halo: bool },
    Line { from_x: i32, from_y: i32, to_x: i32, to_y: i32 },
}

/// The lines of the light symbol below its glass: the neck, the rings of the
/// socket, the filament.
pub open spec fn bulb_lines() -> Seq<BulbStroke> {
    seq![
        BulbStroke::Line { from_x: -46i32, from_y: 44i32, to_x: -34i32, to_y: 106i32 },
        BulbStroke::Line { from_x: 46i32, from_y: 44i32, to_x: 34i32, to_y: 106i32 },
        BulbStroke::Line { from_x: -34i32, from_y: 44i32, to_x: 34i32, to_y: 44i32 },
        BulbStroke::Line { from_x: -34i32, from_y: 72i32, to_x: 34i32, to_y: 72i32 },
        BulbStroke::Line { from_x: -34i32, from_y: 100i32, to_x: 34i32, to_y: 100i32 },
        BulbStroke::Line { from_x: -36i32, from_y: -10i32, to_x: -12i32, to_y: 10i32 },
        BulbStroke::Line { from_x: -12i32, from_y: 10i32, to_x: 12i32, to_y: 10i32 },
        BulbStroke::Line { from_x: 12i32, from_y: 10i32, to_x: 36i32, to_y: -10i32 },
    ]
}

/// The lines of the light symbol: the glass, what is below it, and a halo when
/// it is emphasised. A light behind the camera has no symbol.
pub fn light_bulb_icon(center: Projected, emphasized: bool) -> (strokes: Vec<BulbStroke>)
    ensures
        strokes@ == if center.sz == 0 {
            Seq::empty()
        } else {
            seq![BulbStroke::Circle { center_y: -28i32, halo: false }] + bulb_lines()
                + if emphasized {
                seq![BulbStroke::Circle { center_y: -28i32, halo: true }]
            } else {
                Seq::empty()
            }
        },
{
    let mut strokes: Vec<BulbStroke> = Vec::new();
    if center.sz == 0 {
        return strokes;
    }
    strokes.push(BulbStroke::Circle { center_y: -28, halo: false });
    strokes.push(BulbStroke::Line { from_x: -46, from_y: 44, to_x: -34, to_y: 106 });
    strokes.push(BulbStroke::Line { from_x: 46, from_y: 44, to_x: 34, to_y: 106 });
    strokes.push(BulbStroke::Line { from_x: -34, from_y: 44, to_x: 34, to_y: 44 });
    strokes.push(BulbStroke::Line { from_x: -34, from_y: 72, to_x: 34, to_y: 72 });
    strokes.push(BulbStroke::Line { from_x: -34, from_y: 100, to_x: 34, to_y: 100 });
    strokes.push(BulbStroke::Line { from_x: -36, from_y: -10, to_x: -12, to_y: 10 });
    strokes.push(BulbStroke::Line { from_x: -12, from_y: 10, to_x: 12, to_y: 10 });
    strokes.push(BulbStroke::Line { from_x: 12, from_y: 10, to_x: 36, to_y: -10 });
    if emphasized {
        strokes.push(BulbStroke::Circle { center_y: -28, halo: true });
    }
    strokes
}

/// A channel that is bright enough to be seen.
pub open spec fn at_least_64(c: u8) -> u8 {
    if c < 0x40 {
        0x40
    } else {
        c
    }
}

/// How a light is shown: the colour of its symbol, the line of its ring, and
/// whether the ring is drawn.
pub fn light_gizmo(color: [u8; 3], radius: i32, selected: bool, hovered: bool) -> (gizmo: (
    (u8, u8, u8),
    FaceOutlineStyle,
    bool,
))
    ensures
        gizmo.0 == (at_least_64(color@[0]), at_least_64(color@[1]), at_least_64(color@[2])),
        gizmo.1.rgb == if selected {
            (0xFFu8, 0xE0u8, 0x80u8)
        } else if hovered {
            (0xFFu8, 0xF0u8, 0x90u8)
        } else {
            gizmo.0
        },
        gizmo.1.weight == if selected {
            StrokeWeight::Selected
        } else {
            StrokeWeight::Hover
        },
        gizmo.2 == (radius > 0 && (selected || hovered)),
{
    let own = (color[0].max(0x40), color[1].max(0x40), color[2].max(0x40));
    let style = if selected {
        FaceOutlineStyle { rgb: (0xFF, 0xE0, 0x80), weight: StrokeWeight::Selected }
    } else if hovered {
        FaceOutlineStyle { rgb: (0xFF, 0xF0, 0x90), weight: StrokeWeight::Hover }
    } else {
        FaceOutlineStyle { rgb: own, weight: StrokeWeight::Hover }
    };
    (own, style, radius > 0 && (selected || hovered))
}

/// A channel three fifths of the way to full.
pub open spec fn lifted(c: u8) -> int {
    c + ((255 - c) * 3) / 5
}

fn lift(c: u8) -> (result: u8)
    ensures
        result == lifted(c),
{
    let wide: u16 = c as u16 + ((255 - c as u16) * 3) / 5;
    wide as u8
}

/// The colour of a line over the viewport: lighter than what it marks.
pub fn bright_overlay_color(rgb: (u8, u8, u8)) -> (bright: (u8, u8, u8))
    ensures
        bright.0 == lifted(rgb.0),
        bright.1 == lifted(rgb.1),
        bright.2 == lifted(rgb.2),
{
    (lift(rgb.0), lift(rgb.1), lift(rgb.2))
}

/// A line between two screen points is drawn unless they are the same.
pub fn screen_line_is_drawn(a: Projected, b: Projected) -> (drawn: bool)
    ensures
        drawn == (a.sx != b.sx || a.sy != b.sy),
{
    a.sx != b.sx || a.sy != b.sy
}

/// A range counts every line from the first to the last: one less would not
/// reach, one more would pass it.
pub proof fn law_ranges_count_their_lines(range: GridRange)
    requires
        range.stride > 0,
        range.first <= range.last,
        range.last - range.first < i64::MAX,
    ensures
        range.first + (range_count(range) - 1) * range.stride <= range.last,
        range.last < range.first + range_count(range) * range.stride,
        range_count(range) >= 1,
{
    let span = range.last - range.first;
    let stride = range.stride as int;
    let q = span / stride;
    assert(0 <= q <= span && q * stride <= span && span < (q + 1) * stride) by (nonlinear_arith)
        requires
            0 <= span,
            0 < stride,
            q == span / stride,
    ;
}

/// Within the limit every line of a range is drawn, in order.
pub proof fn law_lines_within_the_limit_are_drawn(
    axis: usize,
    range: GridRange,
    index: i64,
    total: u64,
    ordinal: u64,
    k: int,
)
    requires
        total <= 2048,
        range.stride > 0,
        0 <= k,
        index + k * range.stride <= range.last,
    ensures
        ({
            let lines = drawn_lines(axis, range, index, total, ordinal);
            &&& k < lines.len()
            &&& lines[k] == (GridLine { axis, index: (index + k * range.stride) as i64 })
        }),
    decreases k,
{
    let stride = range.stride as int;
    assert(k * stride >= 0) by (nonlinear_arith)
        requires
            k >= 0,
            stride > 0,
    ;
    if k > 0 {
        assert(k * stride == stride + (k - 1) * stride) by (nonlinear_arith);
        assert((k - 1) * stride >= 0) by (nonlinear_arith)
            requires
                k >= 1,
                stride > 0,
        ;
        law_lines_within_the_limit_are_drawn(
            axis,
            range,
            (index + stride) as i64,
            total,
            next_ordinal(ordinal),
            k - 1,
        );
    } else {
        assert(k * stride == 0) by (nonlinear_arith)
            requires
                k == 0,
        ;
    }
}

/// A face with a corner on the screen may be seen; one wholly beyond a side and
/// its margin may not.
pub proof fn law_faces_on_the_screen_are_near(points: Seq<(i16, i16)>, i: int)
    requires
        0 <= i < points.len(),
    ensures
        0 <= points[i].0 <= SCREEN_W && 0 <= points[i].1 <= SCREEN_H ==> near_screen(points),
        (forall|k: int| 0 <= k < points.len() ==> (#[trigger] points[k]).0 < -8) ==> !near_screen(
            points,
        ),
        (forall|k: int| 0 <= k < points.len() ==> (#[trigger] points[k]).0 > SCREEN_W + 8)
            ==> !near_screen(points),
        (forall|k: int| 0 <= k < points.len() ==> (#[trigger] points[k]).1 < -8) ==> !near_screen(
            points,
        ),
        (forall|k: int| 0 <= k < points.len() ==> (#[trigger] points[k]).1 > SCREEN_H + 8)
            ==> !near_screen(points),
{
}

/// A grey is as bright as it is light, brightness grows with every channel, and
/// what is no brighter than a dark colour below half is dark.
pub proof fn law_brightness_grows_with_every_channel(a: (u8, u8, u8), b: (u8, u8, u8), grey: u8)
    requires
        a.0 <= b.0,
        a.1 <= b.1,
        a.2 <= b.2,
    ensures
        luma((grey, grey, grey)) == 1000 * grey,
        luma(a) <= luma(b),
        a.0 < b.0 || a.1 < b.1 || a.2 < b.2 ==> luma(a) < luma(b),
        luma(b) < 127_500 ==> is_dark(a),
        luma(a) > 127_500 ==> !is_dark(b),
        luma((grey, 0, 0)) > luma((0, 0, grey)) || grey == 0,
        luma((0, grey, 0)) > luma((grey, 0, grey)) || grey == 0,
{
}

/// A segment is cut on the line between its ends: each coordinate has gone the
/// same part of its way as the depth, but for rounding, and lies between the
/// ends.
pub proof fn law_near_cut_lies_on_the_segment(behind: ViewVertex, front: ViewVertex, near: i32)
    requires
        behind.z < near <= front.z,
        near - behind.z <= i32::MAX,
    ensures
        near_crossing(behind, front, near) is Some,
        ({
            let cut = near_crossing(behind, front, near)->0;
            let whole = front.z - behind.z;
            let part = near - behind.z;
            &&& cut.z == near
            &&& abs_int((cut.x - behind.x) * whole - (front.x - behind.x) * part) < whole
            &&& abs_int((cut.y - behind.y) * whole - (front.y - behind.y) * part) < whole
            &&& min_int(behind.x as int, front.x as int) <= cut.x <= max_int(
                behind.x as int,
                front.x as int,
            )
            &&& min_int(behind.y as int, front.y as int) <= cut.y <= max_int(
                behind.y as int,
                front.y as int,
            )
        }),
{
    let whole = front.z - behind.z;
    let part = near - behind.z;
    lemma_near_part(behind.x, front.x, part, whole);
    lemma_near_part(behind.y, front.y, part, whole);
}

proof fn lemma_near_part(from: i32, to: i32, part: int, whole: int)
    requires
        0 < part <= whole,
    ensures
        abs_int((near_part(from, to, part, whole) - from) * whole - (to - from) * part) < whole,
        min_int(from as int, to as int) <= near_part(from, to, part, whole) <= max_int(
            from as int,
            to as int,
        ),
{
    let span = to - from;
    let step = trunc_div(span * part, whole);
    law_division_rounds_toward_zero(span * part, whole);
    assert(abs_int(step) <= abs_int(span)) by {
        let a = abs_int(step);
        let s = abs_int(span);
        assert(abs_int(step * whole) == a * whole) by (nonlinear_arith)
            requires
                whole > 0,
                a == abs_int(step),
        ;
        assert(abs_int(span * part) == s * part) by (nonlinear_arith)
            requires
                part > 0,
                s == abs_int(span),
        ;
        assert(a <= s) by (nonlinear_arith)
            requires
                a * whole <= s * part,
                0 < part <= whole,
                s >= 0,
                a >= 0,
        ;
    }
    assert(span >= 0 ==> span * part >= 0) by (nonlinear_arith)
        requires
            part > 0,
    ;
    assert(span <= 0 ==> span * part <= 0) by (nonlinear_arith)
        requires
            part > 0,
    ;
}

/// The middle of some points lies among them.
pub proof fn law_middle_lies_among_the_points(
    points: Seq<[i32; 3]>,
    axis: int,
    lo: int,
    hi: int,
)
    requires
        0 <= axis < 3,
        points.len() > 0,
        lo <= 0 <= hi,
        forall|i: int| 0 <= i < points.len() ==> lo <= (#[trigger] points[i])@[axis] <= hi,
    ensures
        lo <= middle(points, axis) <= hi,
{
    lemma_sum_bounds(points, axis, lo, hi);
    let n = points.len() as int;
    let sum = axis_sum(points, axis);
    law_division_rounds_toward_zero(sum, n);
    let m = middle(points, axis);
    assert(lo <= m <= hi) by (nonlinear_arith)
        requires
            lo * n <= sum <= hi * n,
            abs_int(m * n - sum) < n,
            abs_int(m * n) <= abs_int(sum),
            sum >= 0 ==> m >= 0,
            sum <= 0 ==> m <= 0,
            n > 0,
            lo <= 0 <= hi,
    ;
}

proof fn lemma_sum_bounds(points: Seq<[i32; 3]>, axis: int, lo: int, hi: int)
    requires
        forall|i: int| 0 <= i < points.len() ==> lo <= (#[trigger] points[i])@[axis] <= hi,
    ensures
        lo * points.len() <= axis_sum(points, axis) <= hi * points.len(),
    decreases points.len(),
{
    if points.len() > 0 {
        let rest = points.drop_last();
        assert forall|i: int| 0 <= i < rest.len() implies lo <= (#[trigger] rest[i])@[axis]
            <= hi by {
            assert(rest[i] == points[i]);
        }
        lemma_sum_bounds(rest, axis, lo, hi);
        let n = points.len() as int;
        assert(lo * n == lo * (n - 1) + lo && hi * n == hi * (n - 1) + hi) by (nonlinear_arith);
    }
}

/// A point of a marker has gone nine tenths of the way from the middle to its
/// corner, but for rounding, and lies between them; one point is its own middle.
pub proof fn law_marker_is_drawn_in(vertex: i32, center: int, point: [i32; 3], axis: int)
    requires
        0 <= axis < 3,
    ensures
        ({
            let part = marker_part(vertex, center);
            &&& abs_int(10 * (part - center) - 9 * (vertex - center)) < 10
            &&& min_int(vertex as int, center) <= part <= max_int(vertex as int, center)
        }),
        middle(seq![point], axis) == point@[axis],
{
    law_division_rounds_toward_zero((vertex - center) * 9, 10);
    assert(seq![point].drop_last() =~= Seq::<[i32; 3]>::empty());
    reveal_with_fuel(axis_sum, 2);
    law_division_rounds_toward_zero(point@[axis] as int, 1);
}

/// Bounds that are selected look alike, and so do those that are pointed at; at
/// rest no two kinds do. Only selected ones are bold.
pub proof fn law_bounds_are_told_apart(a: EntityBoundKind, b: EntityBoundKind, hovered: bool)
    ensures
        bound_style(a, true, hovered) == bound_style(b, true, !hovered),
        bound_style(a, false, true) == bound_style(b, false, true),
        bound_style(a, false, false) == bound_style(b, false, false) ==> a == b,
        bound_style(a, true, hovered).weight == StrokeWeight::Selected,
        bound_style(a, false, hovered).weight == StrokeWeight::Hover,
        bound_style(a, true, hovered).rgb != bound_style(a, false, true).rgb,
        bound_style(a, false, true).rgb != bound_style(a, false, false).rgb,
        bound_style(a, true, hovered).rgb != bound_style(a, false, false).rgb,
        faces(a) ==> !frames_itself(a),
{
}

/// Every entity that draws no frame of its own is outlined, in order, as what it
/// is; no other is.
pub proof fn law_every_entity_is_outlined(
    bounds: Seq<EntityBounds>,
    selected: NodeId,
    hovered: Option<NodeId>,
    count: int,
    i: int,
)
    requires
        0 <= i < count <= bounds.len() <= usize::MAX,
    ensures
        ({
            let outlines = outlines_of(bounds, selected, hovered, count);
            let at = outlines_of(bounds, selected, hovered, i).len() as int;
            &&& !frames_itself(bounds[i].kind) ==> {
                &&& at < outlines.len()
                &&& outlines[at].index == i
                &&& outlines[at].arrow == faces(bounds[i].kind)
                &&& outlines[at].style == bound_style(
                    bounds[i].kind,
                    bounds[i].node == selected,
                    hovered == Some(bounds[i].node),
                )
            }
            &&& frames_itself(bounds[i].kind) ==> outlines_of(bounds, selected, hovered, i + 1).len()
                == at
            &&& outlines.len() <= count
        }),
    decreases count,
{
    let before = outlines_of(bounds, selected, hovered, count - 1);
    if i < count - 1 {
        law_every_entity_is_outlined(bounds, selected, hovered, count - 1, i);
        let at = outlines_of(bounds, selected, hovered, i).len() as int;
        if at < before.len() {
            assert(outlines_of(bounds, selected, hovered, count)[at] == before[at]);
        }
    } else if count > 1 {
        law_every_entity_is_outlined(bounds, selected, hovered, count - 1, 0);
    } else {
        assert(before.len() == 0);
    }
}

/// The corners of a box lie round its centre: opposite ones evenly, and
/// neighbours a whole side apart along one axis.
pub proof fn law_corners_lie_round_the_centre(center: Seq<i32>, half: Seq<i32>, corner: int, axis: int)
    requires
        0 <= corner < 8,
        0 <= axis < 3,
    ensures
        box_corner(center, half, corner)[axis] + box_corner(center, half, 7 - corner)[axis] == 2
            * center[axis],
        box_corner(center, half, 0)[axis] == center[axis] - half[axis],
        corner % 2 == 0 ==> box_corner(center, half, corner + 1)[0] == box_corner(
            center,
            half,
            corner,
        )[0] + 2 * half[0],
        (corner / 2) % 2 == 0 ==> box_corner(center, half, corner + 2)[1] == box_corner(
            center,
            half,
            corner,
        )[1] + 2 * half[1],
        corner < 4 ==> box_corner(center, half, corner + 4)[2] == box_corner(
            center,
            half,
            corner,
        )[2] + 2 * half[2],
{
    assert(corner == 0 || corner == 1 || corner == 2 || corner == 3 || corner == 4 || corner == 5
        || corner == 6 || corner == 7);
    assert(axis == 0 || axis == 1 || axis == 2);
}

/// No edge of a box is drawn twice.
pub proof fn law_edges_are_told_apart(j: int, k: int)
    requires
        0 <= j < k < 12,
    ensures
        BOX_EDGES@[j] != BOX_EDGES@[k],
{
    assert(k == 0 || k == 1 || k == 2 || k == 3 || k == 4 || k == 5 || k == 6 || k == 7 || k == 8
        || k == 9 || k == 10 || k == 11);
    assert(j == 0 || j == 1 || j == 2 || j == 3 || j == 4 || j == 5 || j == 6 || j == 7 || j == 8
        || j == 9 || j == 10 || j == 11);
}

/// Every edge with both ends on the screen is drawn, from its first corner to its
/// second; no other is.
pub proof fn law_every_seen_edge_is_drawn(p: Seq<Projected>, count: int, k: int)
    requires
        0 <= k < count <= 12,
    ensures
        ({
            let lines = seen_edges(p, count);
            let at = seen_edges(p, k).len() as int;
            let (a, b) = BOX_EDGES@[k];
            let seen = p[a as int].sz != 0 && p[b as int].sz != 0;
            &&& seen ==> at < lines.len() && lines[at] == (p[a as int], p[b as int])
            &&& !seen ==> seen_edges(p, k + 1).len() == at
        }),
    decreases count,
{
    let before = seen_edges(p, count - 1);
    if k < count - 1 {
        law_every_seen_edge_is_drawn(p, count - 1, k);
        let at = seen_edges(p, k).len() as int;
        if at < before.len() {
            assert(seen_edges(p, count)[at] == before[at]);
        }
    }
}

/// A lifted channel has gone three fifths of its way to full, but for rounding;
/// brighter stays brighter.
pub proof fn law_lifting_brightens(c: u8, d: u8)
    requires
        c <= d,
    ensures
        c <= lifted(c) <= 255,
        lifted(c) <= lifted(d),
        3 * (255 - c) - 5 < 5 * (lifted(c) - c) <= 3 * (255 - c),
        lifted(255) == 255,
        at_least_64(c) >= 64 && at_least_64(c) >= c,
        c >= 64 ==> at_least_64(c) == c,
        c < 64 ==> at_least_64(c) == 64,
{
}

/// The light symbol is the same on its left and its right: every line has its
/// mirror image among the lines.
pub proof fn law_light_symbol_is_even(i: int)
    requires
        0 <= i < bulb_lines().len(),
    ensures
        ({
            let lines = bulb_lines();
            let mirrored = |a: BulbStroke, b: BulbStroke|
                a matches BulbStroke::Line { from_x, from_y, to_x, to_y } && ((b
                    == BulbStroke::Line {
                    from_x: (-from_x) as i32,
                    from_y,
                    to_x: (-to_x) as i32,
                    to_y,
                }) || (b == BulbStroke::Line {
                    from_x: (-to_x) as i32,
                    from_y: to_y,
                    to_x: (-from_x) as i32,
                    to_y: from_y,
                }));
            exists|j: int| 0 <= j < lines.len() && mirrored(lines[i], #[trigger] lines[j])
        }),
{
    let lines = bulb_lines();
    let j: int = if i == 0 {
        1
    } else if i == 1 {
        0
    } else if i == 5 {
        7
    } else if i == 7 {
        5
    } else {
        i
    };
    let other = lines[j];
    assert(0 <= j < lines.len());
}

} // verus!
