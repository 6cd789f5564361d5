//! Saturating integer arithmetic for layout coordinates.
//!
//! All layout arithmetic is carried out on `i64` coordinates and saturates at
//! the ends of the representable range, so that every pass is total: no style
//! record, however extreme, can make a pass fail or wrap around.

use vstd::prelude::*;

verus! {

/// Clamp a mathematical integer into the range of `i64`.
pub open spec fn sat64(v: int) -> int {
    if v > i64::MAX {
        i64::MAX as int
    } else if v < i64::MIN {
        i64::MIN as int
    } else {
        v
    }
}

/// Saturating sum of two coordinates.
pub open spec fn sat_add(a: int, b: int) -> int {
    sat64(a + b)
}

/// Saturating difference of two coordinates.
pub open spec fn sat_sub(a: int, b: int) -> int {
    sat64(a - b)
}

/// Saturating product of two coordinates.
pub open spec fn sat_mul(a: int, b: int) -> int {
    sat64(a * b)
}

/// Saturating sum, typed back into `i64`.
pub open spec fn sat_add_i64(a: i64, b: i64) -> i64 {
    sat_add(a as int, b as int) as i64
}

/// Saturating difference, typed back into `i64`.
pub open spec fn sat_sub_i64(a: i64, b: i64) -> i64 {
    sat_sub(a as int, b as int) as i64
}

/// Saturating product, typed back into `i64`.
pub open spec fn sat_mul_i64(a: i64, b: i64) -> i64 {
    sat_mul(a as int, b as int) as i64
}

pub fn add_sat(a: i64, b: i64) -> (r: i64)
    ensures
        r as int == sat_add(a as int, b as int),
        r == sat_add_i64(a, b),
{
    match a.checked_add(b) {
        Some(v) => v,
        None => {
            if b >= 0 {
                i64::MAX
            } else {
                i64::MIN
            }
        },
    }
}

pub fn sub_sat(a: i64, b: i64) -> (r: i64)
    ensures
        r as int == sat_sub(a as int, b as int),
        r == sat_sub_i64(a, b),
{
    match a.checked_sub(b) {
        Some(v) => v,
        None => {
            if b <= 0 {
                i64::MAX
            } else {
                i64::MIN
            }
        },
    }
}

pub fn mul_sat(a: i64, b: i64) -> (r: i64)
    ensures
        r as int == sat_mul(a as int, b as int),
        r == sat_mul_i64(a, b),
{
    match a.checked_mul(b) {
        Some(v) => v,
        None => {
            if (a > 0 && b > 0) || (a < 0 && b < 0) {
                proof {
                    assert(a as int * b as int > 0) by (nonlinear_arith)
                        requires
                            (a > 0 && b > 0) || (a < 0 && b < 0),
                    ;
                }
                i64::MAX
            } else {
                proof {
                    assert((a as int) * (b as int) <= 0) by (nonlinear_arith)
                        requires
                            !((a > 0 && b > 0) || (a < 0 && b < 0)),
                    ;
                }
                i64::MIN
            }
        },
    }
}

/// Euclidean (flooring) division by a positive divisor; this matches the
/// meaning of `/` on mathematical integers in specifications.
pub fn div_floor(a: i64, b: i64) -> (r: i64)
    requires
        b >= 1,
    ensures
        r as int == a as int / b as int,
{
    proof {
        assert(i64::MIN <= a as int / b as int <= i64::MAX) by (nonlinear_arith)
            requires
                b >= 1,
                i64::MIN <= a as int <= i64::MAX,
        ;
    }
    match a.checked_div_euclid(b) {
        Some(v) => v,
        None => 0,
    }
}

/// The smaller of two coordinates.
pub fn min64(a: i64, b: i64) -> (r: i64)
    ensures
        r as int == if a as int <= b as int { a as int } else { b as int },
{
    if a <= b {
        a
    } else {
        b
    }
}

/// The larger of two coordinates.
pub fn max64(a: i64, b: i64) -> (r: i64)
    ensures
        r as int == if a as int >= b as int { a as int } else { b as int },
{
    if a >= b {
        a
    } else {
        b
    }
}

} // verus!

verus! {

/// Flooring division of a coordinate by a positive element count.
pub fn div_floor_cnt(a: i64, cnt: usize) -> (r: i64)
    requires
        cnt >= 1,
    ensures
        r as int == a as int / cnt as int,
{
    if cnt as u64 > i64::MAX as u64 {
        if a >= 0 {
            proof {
                assert((a as int) / (cnt as int) == 0) by (nonlinear_arith)
                    requires
                        0 <= (a as int),
                        (a as int) < (cnt as int),
                ;
            }
            0
        } else {
            proof {
                assert((a as int) / (cnt as int) == -1) by (nonlinear_arith)
                    requires
                        -(cnt as int) <= (a as int),
                        (a as int) < 0,
                        (cnt as int) >= 1,
                ;
            }
            -1
        }
    } else {
        div_floor(a, cnt as i64)
    }
}

} // verus!
