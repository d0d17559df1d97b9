use liniya::scene::render_path;
use liniya::scene::render_segment_adaptive;
use liniya::scene::SegmentPathState;

type Xy = [f64; 2];

fn q(x: f64) -> Xy {
    [x, -x / 2.0]
}

fn seen(x: f64) -> Option<Xy> {
    Some(q(x))
}

#[test]
fn visible_sample_starts_a_polyline() {
    let (state, finished) = SegmentPathState::Empty.update(seen(1.0));
    assert_eq!(state, SegmentPathState::Started(vec![q(1.0)]));
    assert_eq!(finished, None);
}

#[test]
fn hidden_sample_leaves_nothing_open() {
    let (state, finished) = SegmentPathState::<Xy>::Empty.update(None);
    assert_eq!(state, SegmentPathState::Empty);
    assert_eq!(finished, None);
}

#[test]
fn second_visible_sample_is_added() {
    let (state, finished) = SegmentPathState::Started(vec![q(1.0)]).update(seen(2.0));
    assert_eq!(state, SegmentPathState::Continuing(vec![q(1.0), q(2.0)]));
    assert_eq!(finished, None);
}

#[test]
fn single_point_is_dropped_by_a_hidden_sample() {
    let (state, finished) = SegmentPathState::Started(vec![q(1.0)]).update(None);
    assert_eq!(state, SegmentPathState::Empty);
    assert_eq!(finished, None);
}

#[test]
fn started_polyline_with_a_stretch_is_handed_out_by_a_hidden_sample() {
    let (state, finished) = SegmentPathState::Started(vec![q(1.0), q(2.0)]).update(None);
    assert_eq!(state, SegmentPathState::Empty);
    assert_eq!(finished, Some(vec![q(1.0), q(2.0)]));
}

#[test]
fn further_visible_sample_moves_the_last_point() {
    let (state, finished) =
        SegmentPathState::Continuing(vec![q(1.0), q(2.0), q(3.0)]).update(seen(4.0));
    assert_eq!(state, SegmentPathState::Continuing(vec![q(1.0), q(2.0), q(4.0)]));
    assert_eq!(finished, None);
}

#[test]
fn hidden_sample_hands_out_the_polyline() {
    let (state, finished) = SegmentPathState::Continuing(vec![q(1.0), q(2.0)]).update(None);
    assert_eq!(state, SegmentPathState::Empty);
    assert_eq!(finished, Some(vec![q(1.0), q(2.0)]));
}

#[test]
fn open_polyline_is_what_into_path_gives() {
    assert_eq!(SegmentPathState::<Xy>::Empty.into_path(), None);
    assert_eq!(SegmentPathState::Started(vec![q(1.0)]).into_path(), Some(vec![q(1.0)]));
    assert_eq!(
        SegmentPathState::Continuing(vec![q(1.0), q(2.0)]).into_path(),
        Some(vec![q(1.0), q(2.0)])
    );
}

#[test]
fn visible_segment_is_drawn_from_end_to_end() {
    let samples = vec![seen(0.0), seen(0.25), seen(0.5), seen(0.75), seen(1.0)];
    let mut paths: Vec<Vec<Xy>> = Vec::new();
    let open = render_segment_adaptive(&samples, &mut paths, None);
    assert_eq!(open, Some(vec![q(0.0), q(1.0)]));
    assert!(paths.is_empty());
}

#[test]
fn hidden_sample_cuts_the_segment_in_two() {
    let samples = vec![seen(0.0), seen(0.25), None, seen(0.75), seen(1.0)];
    let mut paths: Vec<Vec<Xy>> = vec![vec![q(8.0), q(9.0)]];
    let open = render_segment_adaptive(&samples, &mut paths, None);
    assert_eq!(open, Some(vec![q(0.75), q(1.0)]));
    assert_eq!(paths, vec![vec![q(8.0), q(9.0)], vec![q(0.0), q(0.25)]]);
}

#[test]
fn lone_visible_sample_between_hidden_ones_is_dropped() {
    let samples = vec![None, seen(0.25), None, None, seen(1.0)];
    let mut paths: Vec<Vec<Xy>> = Vec::new();
    let open = render_segment_adaptive(&samples, &mut paths, None);
    assert_eq!(open, Some(vec![q(1.0)]));
    assert!(paths.is_empty());
}

#[test]
fn open_polyline_is_taken_up_with_a_corner() {
    let samples = vec![seen(1.0), seen(1.5), seen(2.0)];
    let mut paths: Vec<Vec<Xy>> = Vec::new();
    let open = render_segment_adaptive(&samples, &mut paths, Some(vec![q(0.0), q(1.0)]));
    assert_eq!(open, Some(vec![q(0.0), q(1.0), q(2.0)]));
    assert!(paths.is_empty());
}

#[test]
fn taken_up_polyline_ends_where_the_next_sample_is_hidden() {
    let samples = vec![seen(1.0), None, seen(2.0)];
    let mut paths: Vec<Vec<Xy>> = Vec::new();
    let open = render_segment_adaptive(&samples, &mut paths, Some(vec![q(0.0), q(1.0)]));
    assert_eq!(open, Some(vec![q(2.0)]));
    assert_eq!(paths, vec![vec![q(0.0), q(1.0)]]);
}

#[test]
fn empty_open_polyline_counts_as_none() {
    let samples = vec![seen(1.0), seen(2.0)];
    let mut paths: Vec<Vec<Xy>> = Vec::new();
    let open = render_segment_adaptive(&samples, &mut paths, Some(Vec::new()));
    assert_eq!(open, Some(vec![q(1.0), q(2.0)]));
    assert!(paths.is_empty());
}

#[test]
fn segment_without_samples_keeps_what_is_open() {
    let samples: Vec<Option<Xy>> = Vec::new();
    let mut paths: Vec<Vec<Xy>> = Vec::new();
    assert_eq!(render_segment_adaptive(&samples, &mut paths, Some(vec![q(0.0)])), Some(vec![q(0.0)]));
    assert_eq!(render_segment_adaptive(&samples, &mut paths, None), None);
    assert!(paths.is_empty());
}

#[test]
fn visible_path_is_one_polyline_through_its_corners() {
    let clipped = vec![vec![
        vec![seen(0.0), seen(0.5), seen(1.0)],
        vec![seen(1.0), seen(2.0)],
        vec![seen(2.0), seen(2.25), seen(2.5), seen(2.75), seen(3.0)],
    ]];
    assert_eq!(render_path(&clipped), vec![vec![q(0.0), q(1.0), q(2.0), q(3.0)]]);
}

#[test]
fn hidden_path_draws_nothing() {
    let clipped: Vec<Vec<Vec<Option<Xy>>>> =
        vec![vec![vec![None, None, None], vec![None, None]], vec![vec![None, None]]];
    assert_eq!(render_path(&clipped), Vec::<Vec<Xy>>::new());
    assert_eq!(render_path(&Vec::<Vec<Vec<Option<Xy>>>>::new()), Vec::<Vec<Xy>>::new());
}

#[test]
fn sub_paths_are_drawn_apart() {
    let clipped = vec![
        vec![vec![seen(0.0), seen(1.0)]],
        vec![vec![seen(1.0), seen(2.0)], vec![seen(2.0), seen(3.0)]],
    ];
    assert_eq!(
        render_path(&clipped),
        vec![vec![q(0.0), q(1.0)], vec![q(1.0), q(2.0), q(3.0)]]
    );
}

#[test]
fn path_behind_a_shape_is_drawn_on_both_sides_of_it() {
    let clipped = vec![vec![
        vec![seen(0.0), seen(0.5), None, None, seen(1.0)],
        vec![seen(1.0), seen(1.5), seen(2.0)],
        vec![seen(2.0), None, seen(3.0)],
    ]];
    let drawn = render_path(&clipped);
    assert_eq!(drawn, vec![vec![q(0.0), q(0.5)], vec![q(1.0), q(2.0)]]);
}

#[test]
fn polylines_have_two_points_and_only_visible_ones() {
    let clipped = vec![
        vec![
            vec![seen(0.0), None, seen(0.5), seen(0.75), None],
            vec![None, seen(1.5), seen(1.75), seen(2.0)],
            vec![seen(2.0), seen(2.5), None],
        ],
        vec![vec![seen(4.0), None], vec![None, seen(5.0)]],
        vec![vec![seen(6.0), seen(7.0)]],
    ];
    let drawn = render_path(&clipped);
    assert_eq!(
        drawn,
        vec![vec![q(0.5), q(0.75)], vec![q(1.5), q(2.0), q(2.5)], vec![q(6.0), q(7.0)]]
    );
    for polyline in &drawn {
        assert!(polyline.len() >= 2);
        for point in polyline {
            assert!(clipped.iter().flatten().flatten().any(|sample| *sample == Some(*point)));
        }
    }
}

#[test]
fn same_samples_give_the_same_polylines() {
    let clipped = vec![vec![vec![seen(0.0), None, seen(0.5), seen(1.0)], vec![seen(1.0), seen(2.0)]]];
    assert_eq!(render_path(&clipped), render_path(&clipped.clone()));
}
