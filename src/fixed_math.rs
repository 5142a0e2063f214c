use fixed_point_math::FixedPoint;
use vstd::prelude::*;

verus! {

/// Whether `v` is representable as an `i128`.
pub open spec fn fits_i128(v: int) -> bool {
    i128::MIN <= v <= i128::MAX
}

/// `a / b` rounded up, for a positive `b` (`/` on `int` rounds down there).
pub open spec fn ceil_div(a: int, b: int) -> int {
    (a + b - 1) / b
}

/// floor(x * y / z), or `None` where `z` is not positive or the product leaves `i128`.
pub open spec fn mul_div_floor(x: int, y: int, z: int) -> Option<int> {
    if z <= 0 || !fits_i128(x * y) {
        None
    } else {
        Some(x * y / z)
    }
}

/// ceil(x * y / z), or `None` where `z` is not positive or the product leaves `i128`.
pub open spec fn mul_div_ceil(x: int, y: int, z: int) -> Option<int> {
    if z <= 0 || !fits_i128(x * y) {
        None
    } else {
        Some(ceil_div(x * y, z))
    }
}

/// An `Option<i128>` read as an `Option<int>`.
pub open spec fn as_int(r: Option<i128>) -> Option<int> {
    match r {
        Some(v) => Some(v as int),
        None => None,
    }
}

/// Relies on `FixedPoint::fixed_mul_floor` of fixed_point_math for `i128`:
/// the checked product `x * y`, then division by `z` rounded down; `None` where
/// the product overflows or `z` is zero.
#[verifier::external_body]
pub(crate) fn mul_floor(x: i128, y: i128, z: i128) -> (r: Option<i128>)
    ensures
        z >= 0 ==> as_int(r) == mul_div_floor(x as int, y as int, z as int),
{
    x.fixed_mul_floor(y, z)
}

/// Relies on `FixedPoint::fixed_mul_ceil` of fixed_point_math for `i128`:
/// the checked product `x * y`, then division by `z` rounded up; `None` where
/// the product overflows or `z` is zero.
#[verifier::external_body]
pub(crate) fn mul_ceil(x: i128, y: i128, z: i128) -> (r: Option<i128>)
    ensures
        z >= 0 ==> as_int(r) == mul_div_ceil(x as int, y as int, z as int),
{
    x.fixed_mul_ceil(y, z)
}

/// Relies on `FixedPoint::fixed_div_floor` of fixed_point_math for `i128`:
/// the checked product `x * d`, then division by `y` rounded down; `None` where
/// the product overflows or `y` is zero.
#[verifier::external_body]
pub(crate) fn div_floor(x: i128, y: i128, d: i128) -> (r: Option<i128>)
    ensures
        y >= 0 ==> as_int(r) == mul_div_floor(x as int, d as int, y as int),
{
    x.fixed_div_floor(y, d)
}

/// Relies on `FixedPoint::fixed_div_ceil` of fixed_point_math for `i128`:
/// the checked product `x * d`, then division by `y` rounded up; `None` where
/// the product overflows or `y` is zero.
#[verifier::external_body]
pub(crate) fn div_ceil(x: i128, y: i128, d: i128) -> (r: Option<i128>)
    ensures
        y >= 0 ==> as_int(r) == mul_div_ceil(x as int, d as int, y as int),
{
    x.fixed_div_ceil(y, d)
}

} // verus!
