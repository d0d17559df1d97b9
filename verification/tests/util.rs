use liniya::util::box_plane_intersection;
use liniya::util::BoxPlaneTest;
use nalgebra::Point3;
use nalgebra::Vector3;
use nalgebra::Vector4;
use ncollide3d::bounding_volume::AABB;

/// Measures the box against the plane and classifies it.
fn classify(bb: &AABB<f64>, plane: &Vector4<f64>) -> BoxPlaneTest {
    let n = plane.xyz();
    let r = n.abs().dot(&bb.half_extents());
    let s = n.dot(&bb.center().coords) + plane.w;
    box_plane_intersection(s < -r, s > r)
}

#[test]
fn box_plane_test() {
    let aabb = AABB::from_half_extents(Point3::new(0.0, 0.0, 0.0), Vector3::new(1.0, 1.0, 1.0));
    assert_eq!(classify(&aabb, &Vector4::new(0.0, 1.0, 0.0, -2.0)), BoxPlaneTest::Outside);
    assert_eq!(classify(&aabb, &Vector4::new(0.0, 1.0, 0.0, 0.0)), BoxPlaneTest::Intersects);
    assert_eq!(classify(&aabb, &Vector4::new(0.0, 1.0, 0.0, 2.0)), BoxPlaneTest::Inside);
}

#[test]
fn box_touching_the_plane_intersects() {
    let aabb = AABB::from_half_extents(Point3::new(0.0, 0.0, 0.0), Vector3::new(1.0, 1.0, 1.0));
    assert_eq!(classify(&aabb, &Vector4::new(0.0, 1.0, 0.0, 1.0)), BoxPlaneTest::Intersects);
    assert_eq!(classify(&aabb, &Vector4::new(0.0, 1.0, 0.0, -1.0)), BoxPlaneTest::Intersects);
}

#[test]
fn box_position_from_the_two_comparisons() {
    assert_eq!(box_plane_intersection(true, false), BoxPlaneTest::Outside);
    assert_eq!(box_plane_intersection(false, true), BoxPlaneTest::Inside);
    assert_eq!(box_plane_intersection(false, false), BoxPlaneTest::Intersects);
    assert_eq!(box_plane_intersection(true, true), BoxPlaneTest::Outside);
}
