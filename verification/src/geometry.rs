//! The straight-line rasterization used by the central-attractor walk.

use vstd::prelude::*;

verus! {

/// Declares rltk's 2D point type so line results can be converted.
#[verifier::external_type_specification]
#[verifier::external_body]
pub struct ExPoint(rltk::Point);

/// The points rltk's Bresenham `line2d` yields from (x1, y1) to (x2, y2):
/// a pure function of the two endpoints.
pub uninterp spec fn line_of(x1: int, y1: int, x2: int, y2: int) -> Seq<(i32, i32)>;

/// The points of a straight line between two coordinates.
///
/// Relies on `rltk::line2d` with the Bresenham algorithm, whose result is a
/// function of the endpoints alone; it chains the end point onto the
/// Bresenham iterator, so the result is nonempty and ends at the end point,
/// and it steps from start toward end, so every point stays inside the
/// endpoints' bounding box. Its octant setup subtracts and negates raw
/// coordinates, so the endpoints are bounded to keep that arithmetic away
/// from overflow.
#[verifier::external_body]
pub fn line_points(x1: i32, y1: i32, x2: i32, y2: i32) -> (r: Vec<(i32, i32)>)
    requires
        -4096 <= x1 <= 4096,
        -4096 <= y1 <= 4096,
        -4096 <= x2 <= 4096,
        -4096 <= y2 <= 4096,
    ensures
        r@ == line_of(x1 as int, y1 as int, x2 as int, y2 as int),
        r@.len() >= 1,
        r@[r@.len() - 1] == (x2, y2),
        forall|k: int| 0 <= k < r@.len()
            ==> (if x1 <= x2 { x1 } else { x2 }) <= (#[trigger] r@[k]).0
                && r@[k].0 <= (if x1 <= x2 { x2 } else { x1 })
                && (if y1 <= y2 { y1 } else { y2 }) <= r@[k].1
                && r@[k].1 <= (if y1 <= y2 { y2 } else { y1 }),
{
    rltk::line2d(
        rltk::LineAlg::Bresenham,
        rltk::Point::new(x1, y1),
        rltk::Point::new(x2, y2),
    ).iter().map(|p| (p.x, p.y)).collect()
}

} // verus!
