//! Where a bounding box lies relative to a plane.
use vstd::prelude::*;

verus! {

/// The position of a box relative to an oriented plane.
#[derive(Debug, PartialEq, Eq, Clone, Copy)]
pub enum BoxPlaneTest {
    /// The box lies wholly on the side that the plane's normal faces.
    Inside,
    /// The plane passes through the box, or touches it.
    Intersects,
    /// The box lies wholly on the side away from the normal.
    Outside,
}

/// The position of a box for which `below` and `above` were measured.
///
/// With `s` the signed distance of the box's centre from the plane and `r` the
/// reach of the box along the plane's normal (both taken with a unit normal),
/// `below` is `s < -r` and `above` is `s > r`.
pub open spec fn box_plane_position(below: bool, above: bool) -> BoxPlaneTest {
    if below {
        BoxPlaneTest::Outside
    } else if above {
        BoxPlaneTest::Inside
    } else {
        BoxPlaneTest::Intersects
    }
}

/// Classifies a box against a plane from the two comparisons of its centre's
/// signed distance `s` with its reach `r`: `below` is `s < -r`, `above` is `s > r`.
pub fn box_plane_intersection(below: bool, above: bool) -> (test: BoxPlaneTest)
    ensures
        test == box_plane_position(below, above),
{
    if below {
        BoxPlaneTest::Outside
    } else if above {
        BoxPlaneTest::Inside
    } else {
        BoxPlaneTest::Intersects
    }
}

} // verus!
