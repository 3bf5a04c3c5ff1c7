//! Points in world units and the distance test of the area of interest.
//!
//! Distance is Euclidean. It is compared in squared form, which is exact on
//! integers: a point is within `radius` of a centre when the sum of the
//! squared axis gaps is at most `radius * radius`.

use vstd::prelude::*;

verus! {

/// A point in quantised world units.
pub type Position = (i32, i32, i32);

/// An orientation, one quantised angle per axis.
pub type Rotation = (i32, i32, i32);

/// Squared Euclidean distance between two points.
pub open spec fn dist_sq(a: Position, b: Position) -> int {
    (a.0 - b.0) * (a.0 - b.0) + (a.1 - b.1) * (a.1 - b.1) + (a.2 - b.2) * (a.2 - b.2)
}

/// Whether `p` lies within `radius` of `center`, the boundary included.
pub open spec fn within(center: Position, radius: u16, p: Position) -> bool {
    dist_sq(center, p) <= radius * radius
}

/// Distance between two coordinates on one axis.
pub open spec fn axis_gap(a: i32, b: i32) -> int {
    if a >= b {
        a - b
    } else {
        b - a
    }
}

proof fn lemma_gap_square(a: i32, b: i32)
    ensures
        axis_gap(a, b) * axis_gap(a, b) == (a - b) * (a - b),
{
    assert((b - a) * (b - a) == (a - b) * (a - b)) by (nonlinear_arith);
}

proof fn lemma_square_order(d: int, r: int)
    requires
        0 <= d,
        0 <= r,
    ensures
        d <= r ==> d * d <= r * r,
        d > r ==> d * d > r * r,
        0 <= d * d,
{
    assert(d <= r ==> d * d <= r * r) by (nonlinear_arith)
        requires
            0 <= d,
            0 <= r,
    ;
    assert(d > r ==> d * d > r * r) by (nonlinear_arith)
        requires
            0 <= d,
            0 <= r,
    ;
    assert(0 <= d * d) by (nonlinear_arith);
}

/// Computes the distance between two coordinates on one axis.
pub fn gap(a: i32, b: i32) -> (d: u64)
    ensures
        d == axis_gap(a, b),
{
    let wide_a: i64 = a as i64;
    let wide_b: i64 = b as i64;
    if wide_a >= wide_b {
        (wide_a - wide_b) as u64
    } else {
        (wide_b - wide_a) as u64
    }
}

/// Decides whether `p` lies within `radius` of `center`.
pub fn in_range(center: Position, radius: u16, p: Position) -> (r: bool)
    ensures
        r == within(center, radius, p),
{
    let reach: u64 = radius as u64;
    let dx: u64 = gap(center.0, p.0);
    let dy: u64 = gap(center.1, p.1);
    let dz: u64 = gap(center.2, p.2);
    proof {
        lemma_gap_square(center.0, p.0);
        lemma_gap_square(center.1, p.1);
        lemma_gap_square(center.2, p.2);
        lemma_square_order(dx as int, reach as int);
        lemma_square_order(dy as int, reach as int);
        lemma_square_order(dz as int, reach as int);
        lemma_square_order(reach as int, 65535);
    }
    if dx > reach || dy > reach || dz > reach {
        return false;
    }
    dx * dx + dy * dy + dz * dz <= reach * reach
}

} // verus!
