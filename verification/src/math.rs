//! Integer arithmetic shared by the other modules.

use vstd::prelude::*;

verus! {

/// Division that rounds toward zero, for a positive divisor.
pub open spec fn trunc_div(a: int, b: int) -> int {
    if a >= 0 {
        a / b
    } else {
        -((-a) / b)
    }
}

/// `value` limited to the range from `lo` to `hi`.
pub open spec fn clamp_int(value: int, lo: int, hi: int) -> int {
    if value < lo {
        lo
    } else if value > hi {
        hi
    } else {
        value
    }
}

/// The larger of two integers.
pub open spec fn max_int(a: int, b: int) -> int {
    if a >= b {
        a
    } else {
        b
    }
}

/// The smaller of two integers.
pub open spec fn min_int(a: int, b: int) -> int {
    if a <= b {
        a
    } else {
        b
    }
}

/// The distance of an integer from zero.
pub open spec fn abs_int(a: int) -> int {
    if a >= 0 {
        a
    } else {
        -a
    }
}

/// The `i32` nearest to an integer.
pub open spec fn saturate_i32(value: int) -> int {
    clamp_int(value, i32::MIN as int, i32::MAX as int)
}

pub fn clamp_i32(value: i32, lo: i32, hi: i32) -> (result: i32)
    requires
        lo <= hi,
    ensures
        result == clamp_int(value as int, lo as int, hi as int),
{
    if value < lo {
        lo
    } else if value > hi {
        hi
    } else {
        value
    }
}

pub fn clamp_i64(value: i64, lo: i64, hi: i64) -> (result: i64)
    requires
        lo <= hi,
    ensures
        result == clamp_int(value as int, lo as int, hi as int),
{
    if value < lo {
        lo
    } else if value > hi {
        hi
    } else {
        value
    }
}

/// The `i32` nearest to a 64-bit value.
pub fn i64_to_i32_saturating(value: i64) -> (result: i32)
    ensures
        result == saturate_i32(value as int),
{
    if value < i32::MIN as i64 {
        i32::MIN
    } else if value > i32::MAX as i64 {
        i32::MAX
    } else {
        value as i32
    }
}

/// Sum limited to the range of `i32`.
pub fn saturating_add_i32(a: i32, b: i32) -> (result: i32)
    ensures
        result == saturate_i32(a + b),
{
    i64_to_i32_saturating(a as i64 + b as i64)
}

/// Difference limited to the range of `i32`.
pub fn saturating_sub_i32(a: i32, b: i32) -> (result: i32)
    ensures
        result == saturate_i32(a - b),
{
    i64_to_i32_saturating(a as i64 - b as i64)
}

/// An arithmetic shift right by twelve is division by 4096, rounded down.
pub proof fn lemma_sar12_i32(x: i32)
    by (bit_vector)
    ensures
        x >> 12 == x / 4096,
{
}

/// An arithmetic shift right by sixteen is division by 65536, rounded down.
pub proof fn lemma_sar16_i64(x: i64)
    by (bit_vector)
    ensures
        x >> 16 == x / 65536,
{
}

/// A shift right by six is division by 64.
pub proof fn lemma_shr6_u32(x: u32)
    by (bit_vector)
    ensures
        x >> 6 == x / 64,
{
}

/// Product limited to the range of `i32`.
pub fn saturating_mul_i32(a: i32, b: i32) -> (result: i32)
    ensures
        result == saturate_i32(a * b),
{
    let wide: i64 = a as i64;
    assert(-0x4000_0000_0000_0000 <= a * b <= 0x4000_0000_0000_0000) by (nonlinear_arith)
        requires
            -0x8000_0000 <= a <= 0x7FFF_FFFF,
            -0x8000_0000 <= b <= 0x7FFF_FFFF,
    ;
    i64_to_i32_saturating(wide * b as i64)
}

/// A value limited to the range of `i16`.
pub open spec fn saturate_i16(value: int) -> int {
    clamp_int(value, i16::MIN as int, i16::MAX as int)
}

/// A value limited to the range of `i16`.
pub fn clamp_i16(value: i32) -> (result: i16)
    ensures
        result == saturate_i16(value as int),
{
    if value < -32768 {
        -32768
    } else if value > 32767 {
        32767
    } else {
        value as i16
    }
}

/// An arithmetic shift right by four is division by 16, by five division by 32,
/// rounded down.
pub proof fn lemma_sar4_sar5_i32(x: i32)
    by (bit_vector)
    ensures
        x >> 4 == x / 16,
        x >> 5 == x / 32,
{
}

/// Division toward zero takes away less than one part, and never past zero; it
/// is the same on both sides of zero.
pub proof fn law_division_rounds_toward_zero(a: int, b: int)
    requires
        b > 0,
    ensures
        abs_int(trunc_div(a, b) * b - a) < b,
        abs_int(trunc_div(a, b) * b) <= abs_int(a),
        trunc_div(-a, b) == -trunc_div(a, b),
        a >= 0 ==> trunc_div(a, b) >= 0,
        a <= 0 ==> trunc_div(a, b) <= 0,
{
    let m = abs_int(a);
    let q = m / b;
    assert(0 <= q && q * b <= m && m < q * b + b) by (nonlinear_arith)
        requires
            m >= 0,
            b > 0,
            q == m / b,
    ;
    assert((-q) * b == -(q * b)) by (nonlinear_arith);
    if a == 0 {
        assert(0int / b == 0) by (nonlinear_arith)
            requires
                b > 0,
        ;
    }
}

/// A limited value lies in its range, is the value itself where that does, and
/// else the nearer end.
pub proof fn law_limits_are_the_nearest_values(value: int, lo: int, hi: int, other: int)
    requires
        lo <= hi,
        lo <= other <= hi,
    ensures
        lo <= clamp_int(value, lo, hi) <= hi,
        lo <= value <= hi ==> clamp_int(value, lo, hi) == value,
        abs_int(value - clamp_int(value, lo, hi)) <= abs_int(value - other),
        max_int(value, other) >= value && max_int(value, other) >= other,
        min_int(value, other) <= value && min_int(value, other) <= other,
        max_int(value, other) + min_int(value, other) == value + other,
{
}

} // verus!
