//! Saturating and clamping arithmetic that the rest of the crate shares.
use vstd::prelude::*;

verus! {

/// `value` brought into `low..=high`.
pub open spec fn clamped(value: int, low: int, high: int) -> int {
    if value < low {
        low
    } else if value > high {
        high
    } else {
        value
    }
}

pub open spec fn min_of(a: int, b: int) -> int {
    if a <= b {
        a
    } else {
        b
    }
}

pub open spec fn max_of(a: int, b: int) -> int {
    if a >= b {
        a
    } else {
        b
    }
}

pub fn clamp_usize(value: usize, low: usize, high: usize) -> (result: usize)
    requires
        low <= high,
    ensures
        result == clamped(value as int, low as int, high as int),
{
    if value < low {
        low
    } else if value > high {
        high
    } else {
        value
    }
}

pub fn clamp_i64(value: i64, low: i64, high: i64) -> (result: i64)
    requires
        low <= high,
    ensures
        result == clamped(value as int, low as int, high as int),
{
    if value < low {
        low
    } else if value > high {
        high
    } else {
        value
    }
}

/// The product, or the largest value where the product does not fit.
pub fn saturating_mul_usize(a: usize, b: usize) -> (result: usize)
    ensures
        result == min_of(a * b, usize::MAX as int),
{
    match a.checked_mul(b) {
        Some(product) => product,
        None => usize::MAX,
    }
}

/// The difference, brought into the range of `i64`.
pub fn saturating_sub_i64(a: i64, b: i64) -> (result: i64)
    ensures
        result == clamped(a - b, i64::MIN as int, i64::MAX as int),
{
    match a.checked_sub(b) {
        Some(difference) => difference,
        None => if b > 0 {
            i64::MIN
        } else {
            i64::MAX
        },
    }
}

/// The sum, brought into the range of `i64`.
pub fn saturating_add_i64(a: i64, b: i64) -> (result: i64)
    ensures
        result == clamped(a + b, i64::MIN as int, i64::MAX as int),
{
    match a.checked_add(b) {
        Some(sum) => sum,
        None => if b > 0 {
            i64::MAX
        } else {
            i64::MIN
        },
    }
}

/// The sum, brought into the range of `i32`.
pub fn saturating_add_i32(a: i32, b: i32) -> (result: i32)
    ensures
        result == clamped(a + b, i32::MIN as int, i32::MAX as int),
{
    match a.checked_add(b) {
        Some(sum) => sum,
        None => if b > 0 {
            i32::MAX
        } else {
            i32::MIN
        },
    }
}

/// The smaller and the greater of two numbers are these two, and a number that is
/// put into a range moves no further than to its nearer end.
pub proof fn bounds_are_met(a: int, b: int, low: int, high: int)
    requires
        low <= high,
    ensures
        min_of(a, b) <= a && min_of(a, b) <= b && (min_of(a, b) == a || min_of(a, b) == b),
        max_of(a, b) >= a && max_of(a, b) >= b && (max_of(a, b) == a || max_of(a, b) == b),
        low <= clamped(a, low, high) <= high,
        low <= a <= high ==> clamped(a, low, high) == a,
        a < low ==> clamped(a, low, high) == low,
        a > high ==> clamped(a, low, high) == high,
{
}

} // verus!
