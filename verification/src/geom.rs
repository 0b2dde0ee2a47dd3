//! Planar positions and the open-disc distance test that both the power
//! engine and the proximity cache share.

use vstd::prelude::*;

verus! {

/// A 2D world coordinate. Structures are stationary once placed, so a
/// position never changes after the entity carrying it is created.
#[derive(Clone, Copy, PartialEq, Eq, Structural, Debug)]
pub struct Position {
    pub x: i32,
    pub y: i32,
}

/// Squared Euclidean distance between two positions, as a mathematical
/// integer (no overflow, no square root).
pub open spec fn dist_sq(a: Position, b: Position) -> int {
    (a.x - b.x) * (a.x - b.x) + (a.y - b.y) * (a.y - b.y)
}

/// `p` lies strictly inside the disc of radius `radius` around `center`.
/// The boundary is excluded: a point at exactly `distance == radius` is
/// outside.
pub open spec fn in_open_disc(center: Position, radius: u32, p: Position) -> bool {
    dist_sq(center, p) < radius * radius
}

/// Strict (open-disc) radius test on squared distances; never overflows
/// because differences of `i32` fit in `i64` and their squares in `i128`.
pub fn within_radius(center: Position, radius: u32, p: Position) -> (r: bool)
    ensures
        r == in_open_disc(center, radius, p),
{
    let dx: i128 = center.x as i128 - p.x as i128;
    let dy: i128 = center.y as i128 - p.y as i128;
    proof {
        assert(0 <= dx * dx <= 0x1_0000_0000_0000_0000) by (nonlinear_arith)
            requires
                -0x1_0000_0000 <= dx <= 0x1_0000_0000,
        ;
        assert(0 <= dy * dy <= 0x1_0000_0000_0000_0000) by (nonlinear_arith)
            requires
                -0x1_0000_0000 <= dy <= 0x1_0000_0000,
        ;
        assert(0 <= (radius as i128) * (radius as i128) < 0x1_0000_0000_0000_0000)
            by (nonlinear_arith)
            requires
                0 <= radius < 0x1_0000_0000,
        ;
    }
    let d2: i128 = dx * dx + dy * dy;
    let r2: i128 = (radius as i128) * (radius as i128);
    d2 < r2
}

} // verus!
