use liniya::camera::clip_path;
use liniya::camera::stitch_clips;
use liniya::camera::is_aabb_visible;
use liniya::camera::ClipPathError;
use liniya::camera::PathPoint;
use liniya::camera::StitchError;
use liniya::frustum::ClipError;
use liniya::frustum::ClipResult;
use liniya::frustum::ClipResultPartial;
use liniya::frustum::Crossing;
use liniya::util::BoxPlaneTest;

type Xyz = [f64; 3];

fn p(x: f64) -> Xyz {
    [x, 1.0, -1.0]
}

fn inside(a: f64, b: f64) -> ClipResult<Xyz> {
    ClipResult::Inside(p(a), p(b))
}

fn prefix(a: f64, b: f64) -> ClipResult<Xyz> {
    ClipResult::Partial(ClipResultPartial::Prefix, p(a), p(b))
}

fn suffix(a: f64, b: f64) -> ClipResult<Xyz> {
    ClipResult::Partial(ClipResultPartial::Suffix, p(a), p(b))
}

fn infix(a: f64, b: f64) -> ClipResult<Xyz> {
    ClipResult::Partial(ClipResultPartial::Infix, p(a), p(b))
}

#[test]
fn path_without_segments_has_no_sub_path() {
    let clips: Vec<ClipResult<Xyz>> = Vec::new();
    assert_eq!(stitch_clips(&clips), Ok(Vec::new()));
}

#[test]
fn path_in_the_frustum_comes_back_whole() {
    let clips = vec![inside(0.0, 1.0), inside(1.0, 2.0), inside(2.0, 3.0)];
    assert_eq!(stitch_clips(&clips), Ok(vec![vec![p(0.0), p(1.0), p(2.0), p(3.0)]]));
}

#[test]
fn path_out_of_the_frustum_leaves_nothing() {
    let clips: Vec<ClipResult<Xyz>> =
        vec![ClipResult::Outside, ClipResult::Outside, ClipResult::Outside];
    assert_eq!(stitch_clips(&clips), Ok(Vec::new()));
}

#[test]
fn path_that_leaves_ends_at_the_clip_point() {
    let clips = vec![inside(0.0, 1.0), prefix(1.0, 1.5), ClipResult::Outside];
    assert_eq!(stitch_clips(&clips), Ok(vec![vec![p(0.0), p(1.0), p(1.5)]]));
}

#[test]
fn path_that_starts_inside_and_leaves_at_once_is_kept() {
    let clips = vec![prefix(0.0, 0.5)];
    assert_eq!(stitch_clips(&clips), Ok(vec![vec![p(0.0), p(0.5)]]));
}

#[test]
fn path_that_enters_starts_at_the_clip_point() {
    let clips = vec![ClipResult::Outside, suffix(1.5, 2.0), inside(2.0, 3.0)];
    assert_eq!(stitch_clips(&clips), Ok(vec![vec![p(1.5), p(2.0), p(3.0)]]));
}

#[test]
fn path_that_ends_right_after_entering_keeps_both_points() {
    let clips = vec![suffix(1.5, 2.0)];
    assert_eq!(stitch_clips(&clips), Ok(vec![vec![p(1.5), p(2.0)]]));
}

#[test]
fn segment_through_the_frustum_is_a_sub_path_of_its_own() {
    let clips = vec![ClipResult::Outside, infix(1.25, 1.75), ClipResult::Outside];
    assert_eq!(stitch_clips(&clips), Ok(vec![vec![p(1.25), p(1.75)]]));
}

#[test]
fn path_that_leaves_and_comes_back_gives_two_sub_paths() {
    let clips = vec![
        inside(0.0, 1.0),
        prefix(1.0, 1.5),
        infix(2.25, 2.75),
        suffix(3.5, 4.0),
        inside(4.0, 5.0),
        prefix(5.0, 5.5),
        suffix(6.5, 7.0),
    ];
    let expected = vec![
        vec![p(0.0), p(1.0), p(1.5)],
        vec![p(2.25), p(2.75)],
        vec![p(3.5), p(4.0), p(5.0), p(5.5)],
        vec![p(6.5), p(7.0)],
    ];
    let clipped = stitch_clips(&clips).unwrap();
    assert!(clipped.iter().all(|sub_path| sub_path.len() >= 2));
    assert_eq!(clipped, expected);
}

#[test]
fn segment_outside_behind_an_open_sub_path_is_reported() {
    let clips = vec![inside(0.0, 1.0), inside(1.0, 2.0), ClipResult::Outside, inside(3.0, 4.0)];
    assert_eq!(stitch_clips(&clips), Err(StitchError { segment: 2 }));
}

#[test]
fn suffix_behind_an_open_sub_path_is_reported() {
    let clips = vec![ClipResult::Outside, suffix(1.5, 2.0), suffix(2.5, 3.0)];
    assert_eq!(stitch_clips(&clips), Err(StitchError { segment: 2 }));
}

#[test]
fn infix_behind_an_open_sub_path_is_reported() {
    let clips = vec![inside(0.0, 1.0), infix(1.25, 1.75)];
    assert_eq!(stitch_clips(&clips), Err(StitchError { segment: 1 }));
}

#[test]
fn first_misfit_is_the_one_reported() {
    let clips = vec![inside(0.0, 1.0), ClipResult::Outside, infix(2.0, 3.0), ClipResult::Outside];
    assert_eq!(stitch_clips(&clips), Err(StitchError { segment: 1 }));
}

#[test]
fn box_wholly_outside_one_plane_is_out_of_sight() {
    let mut positions = [BoxPlaneTest::Inside; 6];
    assert!(is_aabb_visible(&positions));
    positions[3] = BoxPlaneTest::Intersects;
    assert!(is_aabb_visible(&positions));
    positions[5] = BoxPlaneTest::Outside;
    assert!(!is_aabb_visible(&positions));
    assert!(is_aabb_visible(&[BoxPlaneTest::Intersects; 6]));
    assert!(!is_aabb_visible(&[BoxPlaneTest::Outside; 6]));
}

/// A point on the x-axis, in the frustum where `|x| <= 2`, with the crossings
/// at `crossings` on the segment that ends at it.
fn measured(x: f64, crossings: &[f64]) -> PathPoint<Xyz> {
    PathPoint {
        point: p(x),
        inside: x.abs() <= 2.0,
        crossings: crossings.iter().map(|c| Crossing { point: p(*c), on_frustum: true }).collect(),
    }
}

#[test]
fn path_of_fewer_than_two_points_has_no_sub_path() {
    assert_eq!(clip_path(&Vec::<PathPoint<Xyz>>::new()), Ok(Vec::new()));
    assert_eq!(clip_path(&vec![measured(0.0, &[])]), Ok(Vec::new()));
    assert_eq!(clip_path(&vec![measured(5.0, &[1.0, 2.0])]), Ok(Vec::new()));
}

#[test]
fn measured_path_in_the_frustum_comes_back_whole() {
    let path = vec![measured(-1.0, &[]), measured(0.0, &[]), measured(1.5, &[])];
    assert_eq!(clip_path(&path), Ok(vec![vec![p(-1.0), p(0.0), p(1.5)]]));
}

#[test]
fn measured_path_is_cut_where_it_leaves_the_frustum() {
    let path = vec![
        measured(-5.0, &[]),
        measured(-3.0, &[]),
        measured(-1.0, &[-2.0]),
        measured(1.0, &[]),
        measured(3.0, &[2.0]),
        measured(-4.0, &[2.0, -2.0]),
        measured(0.0, &[-2.0]),
    ];
    let expected = vec![
        vec![p(-2.0), p(-1.0), p(1.0), p(2.0)],
        vec![p(2.0), p(-2.0)],
        vec![p(-2.0), p(0.0)],
    ];
    assert_eq!(clip_path(&path), Ok(expected));
}

#[test]
fn crossings_of_the_first_point_are_not_read() {
    let path = vec![measured(0.0, &[0.5, 0.75, 1.0]), measured(1.0, &[])];
    assert_eq!(clip_path(&path), Ok(vec![vec![p(0.0), p(1.0)]]));
}

#[test]
fn segment_that_cannot_be_clipped_is_reported() {
    let path = vec![measured(0.0, &[]), measured(1.0, &[]), measured(3.0, &[]), measured(4.0, &[])];
    assert_eq!(
        clip_path(&path),
        Err(ClipPathError { segment: 1, error: ClipError::MissingCrossing })
    );
    let path = vec![measured(-3.0, &[]), measured(3.0, &[-2.0, 0.0, 2.0]), measured(0.0, &[])];
    assert_eq!(
        clip_path(&path),
        Err(ClipPathError { segment: 0, error: ClipError::TooManyCrossings })
    );
}

#[test]
fn first_segment_that_cannot_be_clipped_is_the_one_reported() {
    let path = vec![
        measured(0.0, &[]),
        measured(3.0, &[2.0]),
        measured(0.0, &[]),
        measured(-3.0, &[-2.0, -2.5, -2.75]),
        measured(3.0, &[-2.0, 0.0, 2.0]),
    ];
    assert_eq!(
        clip_path(&path),
        Err(ClipPathError { segment: 1, error: ClipError::MissingCrossing })
    );
}
