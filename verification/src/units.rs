//! Lengths are fixed-point numbers: an `i64` that counts thousandths of a
//! pixel. Sums and differences saturate at the ends of the `i64` range, so
//! that every length computation is total.
use vstd::prelude::*;

verus! {

/// How many units of length make one pixel.
pub const UNITS_PER_PX: i64 = 1000;

/// The nearest value to `x` that an `i64` can hold.
pub open spec fn clamp(x: int) -> int {
    if x < i64::MIN {
        i64::MIN as int
    } else if x > i64::MAX {
        i64::MAX as int
    } else {
        x
    }
}

/// The saturating sum of two lengths.
pub open spec fn sat_add(a: int, b: int) -> int {
    clamp(a + b)
}

/// The saturating difference of two lengths.
pub open spec fn sat_sub(a: int, b: int) -> int {
    clamp(a - b)
}

/// Half of a length, rounded towards zero.
pub open spec fn half(a: int) -> int {
    if a >= 0 {
        a / 2
    } else {
        -((-a) / 2)
    }
}

/// The length of `n` whole pixels, saturating.
pub open spec fn whole_px(n: int) -> int {
    clamp(n * 1000)
}

/// Adds two lengths, saturating at the ends of the `i64` range.
pub fn px_add(a: i64, b: i64) -> (r: i64)
    ensures
        r == sat_add(a as int, b as int),
{
    match a.checked_add(b) {
        Some(v) => v,
        None => if a < 0 {
            i64::MIN
        } else {
            i64::MAX
        },
    }
}

/// Subtracts `b` from `a`, saturating at the ends of the `i64` range.
pub fn px_sub(a: i64, b: i64) -> (r: i64)
    ensures
        r == sat_sub(a as int, b as int),
{
    match a.checked_sub(b) {
        Some(v) => v,
        None => if a < 0 {
            i64::MIN
        } else {
            i64::MAX
        },
    }
}

/// Halves a length, rounding towards zero.
pub fn px_half(a: i64) -> (r: i64)
    ensures
        r == half(a as int),
{
    a / 2
}

/// The length of `n` whole pixels, saturating at the ends of the `i64` range.
pub fn from_px(n: i64) -> (r: i64)
    ensures
        r == whole_px(n as int),
{
    match n.checked_mul(UNITS_PER_PX) {
        Some(v) => v,
        None => if n < 0 {
            i64::MIN
        } else {
            i64::MAX
        },
    }
}

} // verus!
