//! Fixed-point arithmetic. A length or a position is a whole number of
//! thousandths of a unit, held in an `i64`; a result that would leave the
//! range of `i64` stops at the nearest bound.

use vstd::prelude::*;

verus! {

/// Thousandths in one unit.
pub const SCALE: i64 = 1000;

/// The value of `i64` nearest to `v`.
pub open spec fn clamp(v: int) -> int {
    if v < i64::MIN {
        i64::MIN as int
    } else if v > i64::MAX {
        i64::MAX as int
    } else {
        v
    }
}

/// One and a half times `v`, rounded towards zero.
pub open spec fn half_again(v: int) -> int {
    if v >= 0 {
        (3 * v) / 2
    } else {
        -((3 * (-v)) / 2)
    }
}

/// The value of `i64` nearest to `v`.
pub fn saturate(v: i128) -> (r: i64)
    ensures
        r == clamp(v as int),
{
    if v < i64::MIN as i128 {
        i64::MIN
    } else if v > i64::MAX as i128 {
        i64::MAX
    } else {
        v as i64
    }
}

/// The sum, held to the range of `i64`.
pub fn sat_add(a: i64, b: i64) -> (r: i64)
    ensures
        r == clamp(a + b),
{
    saturate(a as i128 + b as i128)
}

/// The difference, held to the range of `i64`.
pub fn sat_sub(a: i64, b: i64) -> (r: i64)
    ensures
        r == clamp(a - b),
{
    saturate(a as i128 - b as i128)
}

/// A whole number of units, in thousandths.
pub fn from_units(units: i64) -> (r: i64)
    ensures
        r == clamp(units * 1000),
{
    saturate(units as i128 * 1000)
}

/// One and a half times `v`, rounded towards zero and held to the range of
/// `i64`.
pub fn sat_half_again(v: i64) -> (r: i64)
    ensures
        r == clamp(half_again(v as int)),
{
    let wide: i128 = v as i128;
    if v >= 0 {
        saturate((3 * wide) / 2)
    } else {
        saturate(-((3 * (-wide)) / 2))
    }
}

} // verus!
