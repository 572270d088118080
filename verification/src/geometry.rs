//! Rectangles and the like.

use vstd::prelude::*;

verus! {

/// A rectangle: where it starts, how wide and how high it is.
#[derive(Clone, Copy, Debug, PartialEq, Eq, Structural)]
pub struct Rect {
    pub x: i64,
    pub y: i64,
    pub w: i64,
    pub h: i64,
}

/// How far a coordinate may be from zero so that two of them can be added.
pub const FAR: i64 = 0x4_0000_0000;

/// Whether a rectangle lies where a screen can be.
pub open spec fn on_screen(r: Rect) -> bool {
    &&& -FAR <= r.x <= FAR
    &&& -FAR <= r.y <= FAR
    &&& -FAR <= r.w <= FAR
    &&& -FAR <= r.h <= FAR
}

/// The lesser of two.
pub open spec fn lesser(a: int, b: int) -> int {
    if a <= b {
        a
    } else {
        b
    }
}

/// The greater of two.
pub open spec fn greater(a: int, b: int) -> int {
    if a <= b {
        b
    } else {
        a
    }
}

/// The lesser of two.
pub fn min(a: i64, b: i64) -> (m: i64)
    ensures
        m == lesser(a as int, b as int),
{
    if a <= b {
        a
    } else {
        b
    }
}

/// The greater of two.
pub fn max(a: i64, b: i64) -> (m: i64)
    ensures
        m == greater(a as int, b as int),
{
    if a <= b {
        b
    } else {
        a
    }
}

/// A division that cuts off what is left over, on both sides of zero.
pub open spec fn cut(a: int, b: int) -> int {
    if a >= 0 {
        a / b
    } else {
        -((-a) / b)
    }
}

/// A division that cuts off what is left over, on both sides of zero.
pub fn divide(a: i64, b: i64) -> (q: i64)
    requires
        b > 0,
        a > i64::MIN,
    ensures
        q == cut(a as int, b as int),
        a >= 0 ==> 0 <= q <= a,
        a <= 0 ==> a <= q <= 0,
{
    if a >= 0 {
        proof {
            assert(0 <= (a as int) / (b as int) <= a) by (nonlinear_arith)
                requires
                    a >= 0,
                    b > 0,
            ;
        }
        a / b
    } else {
        let up: i64 = -a;
        proof {
            assert(0 <= (up as int) / (b as int) <= up) by (nonlinear_arith)
                requires
                    up >= 0,
                    b > 0,
            ;
        }
        -(up / b)
    }
}

} // verus!
