//! Turning the visible and hidden sample points of a path into polylines.
//!
//! A clipped segment is cut into sample points. Each sample is either visible,
//! and then has a place on screen, or hidden behind a shape. A run of visible
//! samples becomes one polyline; a hidden sample ends the run.
use vstd::prelude::*;
use crate::camera::path_views;

verus! {

/// The polyline that is being built while the samples of a path are read.
#[derive(Clone, Debug, PartialEq)]
pub enum SegmentPathState<P> {
    /// No polyline is being built.
    Empty,
    /// The last point of the polyline starts a stretch: the next visible sample
    /// is added behind it.
    Started(Vec<P>),
    /// The last point of the polyline ends a stretch: the next visible sample
    /// takes its place.
    Continuing(Vec<P>),
}

/// The mathematical value of a [`SegmentPathState`].
pub enum PathState<P> {
    Empty,
    Started(Seq<P>),
    Continuing(Seq<P>),
}

impl<P> PathState<P> {
    /// A started polyline has a point, a continuing one has a stretch.
    pub open spec fn wf(self) -> bool {
        match self {
            PathState::Empty => true,
            PathState::Started(path) => path.len() >= 1,
            PathState::Continuing(path) => path.len() >= 2,
        }
    }

    /// The polyline that is being built, if there is one.
    pub open spec fn path(self) -> Option<Seq<P>> {
        match self {
            PathState::Empty => None,
            PathState::Started(path) => Some(path),
            PathState::Continuing(path) => Some(path),
        }
    }

    /// The state after a sample: `Some` with its place on screen if it is
    /// visible, `None` if it is hidden.
    pub open spec fn next(self, sample: Option<P>) -> PathState<P> {
        match (self, sample) {
            (PathState::Empty, Some(p)) => PathState::Started(seq![p]),
            (PathState::Started(path), Some(p)) => PathState::Continuing(path.push(p)),
            (PathState::Continuing(path), Some(p)) => PathState::Continuing(
                path.update(path.len() - 1, p),
            ),
            (_, None) => PathState::Empty,
        }
    }

    /// The polyline that a sample completes: a hidden sample ends the one that
    /// is being built, and it is kept if it has a stretch to draw. A single
    /// point is dropped.
    pub open spec fn closed(self, sample: Option<P>) -> Option<Seq<P>> {
        match (sample, self.path()) {
            (None, Some(path)) => if path.len() >= 2 {
                Some(path)
            } else {
                None
            },
            _ => None,
        }
    }
}

impl<P> View for SegmentPathState<P> {
    type V = PathState<P>;

    open spec fn view(&self) -> PathState<P> {
        match self {
            SegmentPathState::Empty => PathState::Empty,
            SegmentPathState::Started(path) => PathState::Started(path@),
            SegmentPathState::Continuing(path) => PathState::Continuing(path@),
        }
    }
}

/// The points of a path that may be absent.
pub open spec fn option_path_view<P>(path: Option<Vec<P>>) -> Option<Seq<P>> {
    match path {
        Some(path) => Some(path@),
        None => None,
    }
}

impl<P> SegmentPathState<P> {
    /// Takes in the next sample of the path: `Some` with its place on screen if
    /// it is visible, `None` if it is hidden.
    ///
    /// Returns the new state and, where the sample completed a polyline, that
    /// polyline. A visible sample opens a polyline, adds a point to a started
    /// one, and moves the last point of a continuing one. A hidden sample ends
    /// what is being built: a polyline of two points or more is handed out, a
    /// single point is dropped.
    pub fn update(self, point: Option<P>) -> (result: (Self, Option<Vec<P>>))
        requires
            self@.wf(),
        ensures
            result.0@ == self@.next(point),
            option_path_view(result.1) == self@.closed(point),
            result.0@.wf(),
    {
        match (self, point) {
            (SegmentPathState::Empty, Some(p)) => {
                let mut path: Vec<P> = Vec::new();
                path.push(p);
                proof {
                    assert(path@ == seq![p]);
                }
                (SegmentPathState::Started(path), None)
            },
            (SegmentPathState::Empty, None) => (SegmentPathState::Empty, None),
            (SegmentPathState::Started(mut path), Some(p)) => {
                path.push(p);
                (SegmentPathState::Continuing(path), None)
            },
            (SegmentPathState::Started(path), None) => {
                if path.len() >= 2 {
                    (SegmentPathState::Empty, Some(path))
                } else {
                    (SegmentPathState::Empty, None)
                }
            },
            (SegmentPathState::Continuing(mut path), Some(p)) => {
                let last: usize = path.len() - 1;
                path.set(last, p);
                (SegmentPathState::Continuing(path), None)
            },
            (SegmentPathState::Continuing(path), None) => (SegmentPathState::Empty, Some(path)),
        }
    }

    /// The polyline that is being built, if there is one.
    pub fn into_path(self) -> (path: Option<Vec<P>>)
        ensures
            option_path_view(path) == self@.path(),
    {
        match self {
            SegmentPathState::Started(path) => Some(path),
            SegmentPathState::Continuing(path) => Some(path),
            SegmentPathState::Empty => None,
        }
    }
}

/// The polylines of a path as far as its samples have been read.
pub struct Drawing<P> {
    /// The polylines that are complete, in the order in which they ended.
    pub paths: Seq<Seq<P>>,
    /// The polyline that is being built.
    pub state: PathState<P>,
}

impl<P> Drawing<P> {
    /// The drawing with the complete polylines `paths` and the state `state`.
    pub open spec fn new(paths: Seq<Seq<P>>, state: PathState<P>) -> Drawing<P> {
        Drawing { paths, state }
    }

    /// The drawing after one more sample.
    pub open spec fn feed(self, sample: Option<P>) -> Drawing<P> {
        Drawing {
            paths: match self.state.closed(sample) {
                Some(path) => self.paths.push(path),
                None => self.paths,
            },
            state: self.state.next(sample),
        }
    }

    /// The drawing after `samples`, read from the first to the last.
    pub open spec fn feed_all(self, samples: Seq<Option<P>>) -> Drawing<P>
        decreases samples.len(),
    {
        if samples.len() == 0 {
            self
        } else {
            self.feed_all(samples.drop_last()).feed(samples.last())
        }
    }
}

/// The state in which a segment takes up the polyline `curr_path` that the
/// segment before it left open: its last point starts the new segment.
pub open spec fn resumed<P>(curr_path: Option<Seq<P>>) -> PathState<P> {
    match curr_path {
        Some(path) => if path.len() > 0 {
            PathState::Started(path)
        } else {
            PathState::Empty
        },
        None => PathState::Empty,
    }
}

/// The samples of a segment that are read after `curr_path` was taken up. Where a
/// polyline is taken up, its last point is the segment's first sample, which is
/// not read again.
pub open spec fn unread<P>(curr_path: Option<Seq<P>>, samples: Seq<Option<P>>) -> Seq<Option<P>> {
    if resumed(curr_path) is Started && samples.len() > 0 {
        samples.subrange(1, samples.len() as int)
    } else {
        samples
    }
}

/// The drawing after one segment with the samples `samples`, where `paths` were
/// complete before it and `curr_path` was left open.
pub open spec fn segment_drawing<P>(
    paths: Seq<Seq<P>>,
    curr_path: Option<Seq<P>>,
    samples: Seq<Option<P>>,
) -> Drawing<P> {
    Drawing::new(paths, resumed(curr_path)).feed_all(unread(curr_path, samples))
}

/// Draws one clipped segment from its samples.
///
/// `samples` holds the sample points of the segment from its first end to its
/// second: `Some` with the place on screen of a visible sample, `None` for a
/// hidden one. `curr_path` is the polyline that the segment before left open,
/// if any; it ends at this segment's first sample, which is then passed over.
/// Polylines that a hidden sample completes are added to `paths`. The polyline
/// that is open after the last sample is returned, to be taken up by the next
/// segment of the path.
pub fn render_segment_adaptive<P: Copy>(
    samples: &Vec<Option<P>>,
    paths: &mut Vec<Vec<P>>,
    curr_path: Option<Vec<P>>,
) -> (open: Option<Vec<P>>)
    ensures
        path_views(final(paths)@) == segment_drawing(
            path_views(old(paths)@),
            option_path_view(curr_path),
            samples@,
        ).paths,
        option_path_view(open) == segment_drawing(
            path_views(old(paths)@),
            option_path_view(curr_path),
            samples@,
        ).state.path(),
{
    let ghost start = Drawing::new(
        path_views(old(paths)@),
        resumed(option_path_view(curr_path)),
    );
    let ghost rest = unread(option_path_view(curr_path), samples@);
    let mut first_point: usize = 0;
    let mut path_state: SegmentPathState<P> = SegmentPathState::Empty;
    match curr_path {
        Some(p) => {
            if p.len() > 0 {
                if samples.len() > 0 {
                    first_point = 1;
                }
                path_state = SegmentPathState::Started(p);
            }
        },
        None => {},
    }
    let mut i: usize = first_point;
    proof {
        assert(rest == samples@.subrange(first_point as int, samples@.len() as int));
        assert(rest.take(0) == Seq::<Option<P>>::empty());
    }
    while i < samples.len()
        invariant
            first_point <= i <= samples.len(),
            rest == samples@.subrange(first_point as int, samples@.len() as int),
            path_state@.wf(),
            start.feed_all(rest.take(i - first_point)).paths == path_views(paths@),
            start.feed_all(rest.take(i - first_point)).state == path_state@,
        decreases samples.len() - i,
    {
        let ghost before = start.feed_all(rest.take(i - first_point));
        let ghost done = path_views(paths@);
        proof {
            assert(rest.take(i + 1 - first_point).drop_last() == rest.take(i - first_point));
            assert(rest.take(i + 1 - first_point).last() == samples@[i as int]);
        }
        let (new_path_state, finished_path) = path_state.update(samples[i]);
        match finished_path {
            Some(fp) => {
                let ghost closed = fp@;
                paths.push(fp);
                proof {
                    assert(path_views(paths@) == done.push(closed));
                }
            },
            None => {},
        }
        path_state = new_path_state;
        i += 1;
    }
    proof {
        assert(rest.take(i - first_point) == rest);
    }
    path_state.into_path()
}

/// The polylines of a clipped path as far as its segments have been drawn.
pub struct Chain<P> {
    /// The polylines that are complete.
    pub paths: Seq<Seq<P>>,
    /// The polyline that the last segment left open, if any.
    pub open: Option<Seq<P>>,
}

impl<P> Chain<P> {
    /// The chain at the start of a clipped path, behind the polylines `paths`.
    pub open spec fn start(paths: Seq<Seq<P>>) -> Chain<P> {
        Chain { paths, open: None }
    }

    /// The chain after one more segment with the samples `samples`.
    pub open spec fn draw(self, samples: Seq<Option<P>>) -> Chain<P> {
        let drawing = segment_drawing(self.paths, self.open, samples);
        Chain { paths: drawing.paths, open: drawing.state.path() }
    }

    /// The chain after the segments `segments`, drawn from the first to the last.
    pub open spec fn draw_all(self, segments: Seq<Seq<Option<P>>>) -> Chain<P>
        decreases segments.len(),
    {
        if segments.len() == 0 {
            self
        } else {
            self.draw_all(segments.drop_last()).draw(segments.last())
        }
    }

    /// The polylines at the end of the clipped path: what is open is complete
    /// if it has a stretch to draw, and dropped if it is a single point.
    pub open spec fn finish(self) -> Seq<Seq<P>> {
        match self.open {
            Some(path) => if path.len() >= 2 {
                self.paths.push(path)
            } else {
                self.paths
            },
            None => self.paths,
        }
    }
}

/// The polylines `paths` and, behind them, those of the clipped paths
/// `clipped_paths`, each given by the samples of its segments.
pub open spec fn drawn_paths<P>(
    paths: Seq<Seq<P>>,
    clipped_paths: Seq<Seq<Seq<Option<P>>>>,
) -> Seq<Seq<P>>
    decreases clipped_paths.len(),
{
    if clipped_paths.len() == 0 {
        paths
    } else {
        Chain::start(drawn_paths(paths, clipped_paths.drop_last())).draw_all(
            clipped_paths.last(),
        ).finish()
    }
}

/// The samples that the segments of a clipped path hold.
pub open spec fn segment_views<P>(segments: Seq<Vec<Option<P>>>) -> Seq<Seq<Option<P>>> {
    segments.map_values(|samples: Vec<Option<P>>| samples@)
}

/// The samples that the segments of clipped paths hold.
pub open spec fn clipped_path_views<P>(clipped_paths: Seq<Vec<Vec<Option<P>>>>) -> Seq<
    Seq<Seq<Option<P>>>,
> {
    clipped_paths.map_values(|segments: Vec<Vec<Option<P>>>| segment_views(segments@))
}

/// Draws one clipped path from the samples of its segments and adds its
/// polylines to `paths`.
fn render_clipped_path<P: Copy>(segments: &Vec<Vec<Option<P>>>, paths: &mut Vec<Vec<P>>)
    ensures
        path_views(final(paths)@) == Chain::start(path_views(old(paths)@)).draw_all(
            segment_views(segments@),
        ).finish(),
{
    let ghost start = Chain::start(path_views(old(paths)@));
    let ghost all = segment_views(segments@);
    let mut curr_render_path: Option<Vec<P>> = None;
    let mut i: usize = 0;
    proof {
        assert(all.take(0) == Seq::<Seq<Option<P>>>::empty());
    }
    while i < segments.len()
        invariant
            i <= segments.len(),
            all == segment_views(segments@),
            start.draw_all(all.take(i as int)).paths == path_views(paths@),
            start.draw_all(all.take(i as int)).open == option_path_view(curr_render_path),
        decreases segments.len() - i,
    {
        proof {
            assert(all.take(i + 1).drop_last() == all.take(i as int));
            assert(all.take(i + 1).last() == segments@[i as int]@);
        }
        curr_render_path = render_segment_adaptive(&segments[i], paths, curr_render_path);
        i += 1;
    }
    proof {
        assert(all.take(i as int) == all);
    }
    match curr_render_path {
        Some(p) => {
            if p.len() >= 2 {
                let ghost done = path_views(paths@);
                let ghost last = p@;
                paths.push(p);
                proof {
                    assert(path_views(paths@) == done.push(last));
                }
            }
        },
        None => {},
    }
}

/// Draws a path from the samples of its clipped segments.
///
/// `clipped_paths[k][j]` holds the sample points of segment `j` of the `k`-th
/// sub-path that clipping left of the path, from the segment's first end to its
/// second: `Some` with the place on screen of a visible sample, `None` for a
/// hidden one. Consecutive segments of a sub-path share an end, and every
/// segment's samples start with its first end.
///
/// A run of visible samples becomes one polyline. Within a segment it is the
/// stretch from the first to the last sample of the run; a run that goes on into
/// the next segment of the sub-path gets a corner at the shared end. A hidden
/// sample and the end of a sub-path complete the polyline; one of a single point
/// is dropped. The polylines are returned in the order in which they were
/// completed.
pub fn render_path<P: Copy>(clipped_paths: &Vec<Vec<Vec<Option<P>>>>) -> (all_paths: Vec<Vec<P>>)
    ensures
        path_views(all_paths@) == drawn_paths(Seq::empty(), clipped_path_views(clipped_paths@)),
        forall|n: int| 0 <= n < all_paths@.len() ==> (#[trigger] all_paths@[n])@.len() >= 2,
{
    let ghost all = clipped_path_views(clipped_paths@);
    let mut all_paths: Vec<Vec<P>> = Vec::new();
    let mut k: usize = 0;
    proof {
        assert(all.take(0) == Seq::<Seq<Seq<Option<P>>>>::empty());
        assert(path_views(all_paths@) == Seq::<Seq<P>>::empty());
    }
    while k < clipped_paths.len()
        invariant
            k <= clipped_paths.len(),
            all == clipped_path_views(clipped_paths@),
            path_views(all_paths@) == drawn_paths(Seq::empty(), all.take(k as int)),
        decreases clipped_paths.len() - k,
    {
        proof {
            assert(all.take(k + 1).drop_last() == all.take(k as int));
            assert(all.take(k + 1).last() == segment_views(clipped_paths@[k as int]@));
        }
        render_clipped_path(&clipped_paths[k], &mut all_paths);
        k += 1;
    }
    proof {
        assert(all.take(k as int) == all);
        lemma_polylines_have_two_points(all);
        assert forall|n: int| 0 <= n < all_paths@.len() implies (#[trigger] all_paths@[n])@.len()
            >= 2 by {
            assert(path_views(all_paths@)[n] == all_paths@[n]@);
        }
    }
    all_paths
}

impl<P> Drawing<P> {
    /// The state is well formed, every complete polyline has two points or
    /// more, and every point of the drawing satisfies `ok`.
    pub open spec fn sound(self, ok: spec_fn(P) -> bool) -> bool {
        &&& self.state.wf()
        &&& forall|k: int| 0 <= k < self.paths.len() ==> (#[trigger] self.paths[k]).len() >= 2
        &&& forall|k: int, i: int|
            0 <= k < self.paths.len() && 0 <= i < self.paths[k].len() ==> ok(
                #[trigger] self.paths[k][i],
            )
        &&& self.state.path() matches Some(path) ==> forall|i: int|
            0 <= i < path.len() ==> ok(#[trigger] path[i])
    }
}

impl<P> Chain<P> {
    /// Every complete polyline has two points or more, and every point of the
    /// chain satisfies `ok`.
    pub open spec fn sound(self, ok: spec_fn(P) -> bool) -> bool {
        &&& forall|k: int| 0 <= k < self.paths.len() ==> (#[trigger] self.paths[k]).len() >= 2
        &&& forall|k: int, i: int|
            0 <= k < self.paths.len() && 0 <= i < self.paths[k].len() ==> ok(
                #[trigger] self.paths[k][i],
            )
        &&& self.open matches Some(path) ==> forall|i: int|
            0 <= i < path.len() ==> ok(#[trigger] path[i])
    }
}

/// Every complete polyline has two points or more, and every point satisfies
/// `ok`.
pub open spec fn sound_paths<P>(paths: Seq<Seq<P>>, ok: spec_fn(P) -> bool) -> bool {
    &&& forall|k: int| 0 <= k < paths.len() ==> (#[trigger] paths[k]).len() >= 2
    &&& forall|k: int, i: int|
        0 <= k < paths.len() && 0 <= i < paths[k].len() ==> ok(#[trigger] paths[k][i])
}

/// Every visible sample among `samples` satisfies `ok`.
pub open spec fn visible_ok<P>(samples: Seq<Option<P>>, ok: spec_fn(P) -> bool) -> bool {
    forall|i: int| 0 <= i < samples.len() && (#[trigger] samples[i]) is Some ==> ok(samples[i]->Some_0)
}

/// Reading samples keeps a drawing sound.
proof fn lemma_feed_all_sound<P>(d: Drawing<P>, samples: Seq<Option<P>>, ok: spec_fn(P) -> bool)
    requires
        d.sound(ok),
        visible_ok(samples, ok),
    ensures
        d.feed_all(samples).sound(ok),
    decreases samples.len(),
{
    if samples.len() > 0 {
        let front = samples.drop_last();
        assert forall|i: int| 0 <= i < front.len() && (#[trigger] front[i]) is Some implies ok(
            front[i]->Some_0,
        ) by {
            assert(front[i] == samples[i]);
        }
        lemma_feed_all_sound(d, front, ok);
        let before = d.feed_all(front);
        let after = before.feed(samples.last());
        assert(samples[samples.len() - 1] == samples.last());
        assert(after.sound(ok));
    }
}

/// Drawing segments keeps a chain sound.
proof fn lemma_draw_all_sound<P>(
    c: Chain<P>,
    segments: Seq<Seq<Option<P>>>,
    ok: spec_fn(P) -> bool,
)
    requires
        c.sound(ok),
        forall|j: int| 0 <= j < segments.len() ==> visible_ok(#[trigger] segments[j], ok),
    ensures
        c.draw_all(segments).sound(ok),
    decreases segments.len(),
{
    if segments.len() > 0 {
        let front = segments.drop_last();
        assert forall|j: int| 0 <= j < front.len() implies visible_ok(#[trigger] front[j], ok) by {
            assert(front[j] == segments[j]);
        }
        lemma_draw_all_sound(c, front, ok);
        let before = c.draw_all(front);
        let samples = segments.last();
        assert(visible_ok(segments[segments.len() - 1], ok));
        let rest = unread(before.open, samples);
        assert forall|i: int| 0 <= i < rest.len() && (#[trigger] rest[i]) is Some implies ok(
            rest[i]->Some_0,
        ) by {
            if rest.len() < samples.len() {
                assert(rest[i] == samples[i + 1]);
            }
        }
        let start = Drawing::new(before.paths, resumed(before.open));
        assert(start.sound(ok));
        lemma_feed_all_sound(start, rest, ok);
    }
}

/// Drawing clipped paths keeps the polylines sound.
proof fn lemma_drawn_paths_sound<P>(
    paths: Seq<Seq<P>>,
    clipped_paths: Seq<Seq<Seq<Option<P>>>>,
    ok: spec_fn(P) -> bool,
)
    requires
        sound_paths(paths, ok),
        forall|k: int, j: int|
            0 <= k < clipped_paths.len() && 0 <= j < clipped_paths[k].len() ==> visible_ok(
                #[trigger] clipped_paths[k][j],
                ok,
            ),
    ensures
        sound_paths(drawn_paths(paths, clipped_paths), ok),
    decreases clipped_paths.len(),
{
    if clipped_paths.len() > 0 {
        let front = clipped_paths.drop_last();
        assert forall|k: int, j: int| 0 <= k < front.len() && 0 <= j < front[k].len() implies visible_ok(
            #[trigger] front[k][j],
            ok,
        ) by {
            assert(front[k] == clipped_paths[k]);
        }
        lemma_drawn_paths_sound(paths, front, ok);
        let segments = clipped_paths.last();
        assert forall|j: int| 0 <= j < segments.len() implies visible_ok(
            #[trigger] segments[j],
            ok,
        ) by {
            assert(segments[j] == clipped_paths[clipped_paths.len() - 1][j]);
        }
        let start = Chain::start(drawn_paths(paths, front));
        assert(start.sound(ok));
        lemma_draw_all_sound(start, segments, ok);
    }
}

/// Whether `p` is the place of a visible sample of one of the segments.
pub open spec fn is_visible_sample<P>(clipped_paths: Seq<Seq<Seq<Option<P>>>>, p: P) -> bool {
    exists|k: int, j: int, i: int|
        0 <= k < clipped_paths.len() && 0 <= j < clipped_paths[k].len() && 0 <= i
            < clipped_paths[k][j].len() && #[trigger] clipped_paths[k][j][i] == Some(p)
}

/// Every polyline of a drawn path has two points or more.
pub proof fn lemma_polylines_have_two_points<P>(clipped_paths: Seq<Seq<Seq<Option<P>>>>)
    ensures
        forall|n: int|
            0 <= n < drawn_paths(Seq::empty(), clipped_paths).len() ==> (#[trigger] drawn_paths(
                Seq::empty(),
                clipped_paths,
            )[n]).len() >= 2,
{
    let ok = |p: P| true;
    lemma_drawn_paths_sound(Seq::empty(), clipped_paths, ok);
}

/// Every point of a polyline is the place of a visible sample: no hidden
/// sample is drawn, and no point is made up.
pub proof fn lemma_polylines_hold_visible_samples<P>(clipped_paths: Seq<Seq<Seq<Option<P>>>>)
    ensures
        forall|n: int, i: int|
            0 <= n < drawn_paths(Seq::empty(), clipped_paths).len() && 0 <= i < drawn_paths(
                Seq::empty(),
                clipped_paths,
            )[n].len() ==> is_visible_sample(
                clipped_paths,
                #[trigger] drawn_paths(Seq::empty(), clipped_paths)[n][i],
            ),
{
    let ok = |p: P| is_visible_sample(clipped_paths, p);
    assert forall|k: int, j: int|
        0 <= k < clipped_paths.len() && 0 <= j < clipped_paths[k].len() implies visible_ok(
        #[trigger] clipped_paths[k][j],
        ok,
    ) by {
        let samples = clipped_paths[k][j];
        assert forall|i: int| 0 <= i < samples.len() && (#[trigger] samples[i]) is Some implies ok(
            samples[i]->Some_0,
        ) by {
            assert(clipped_paths[k][j][i] == Some(samples[i]->Some_0));
        }
    }
    lemma_drawn_paths_sound(Seq::empty(), clipped_paths, ok);
}

/// Where every sample is hidden, nothing is drawn.
pub proof fn lemma_hidden_path_draws_nothing<P>(clipped_paths: Seq<Seq<Seq<Option<P>>>>)
    requires
        forall|k: int, j: int, i: int|
            0 <= k < clipped_paths.len() && 0 <= j < clipped_paths[k].len() && 0 <= i
                < clipped_paths[k][j].len() ==> #[trigger] clipped_paths[k][j][i] is None,
    ensures
        drawn_paths(Seq::empty(), clipped_paths) == Seq::<Seq<P>>::empty(),
{
    let drawn = drawn_paths(Seq::empty(), clipped_paths);
    lemma_polylines_have_two_points(clipped_paths);
    lemma_polylines_hold_visible_samples(clipped_paths);
    if drawn.len() > 0 {
        assert(drawn[0].len() >= 2);
        assert(is_visible_sample(clipped_paths, drawn[0][0]));
    }
}

/// Whether every segment has its two ends among its samples and all its
/// samples are visible.
pub open spec fn all_visible<P>(segments: Seq<Seq<Option<P>>>) -> bool {
    &&& forall|j: int| 0 <= j < segments.len() ==> (#[trigger] segments[j]).len() >= 2
    &&& forall|j: int, i: int|
        0 <= j < segments.len() && 0 <= i < segments[j].len() ==> #[trigger] segments[j][i] is Some
}

/// The first end of the first segment and the second end of every segment,
/// as placed on screen.
pub open spec fn corners<P>(segments: Seq<Seq<Option<P>>>) -> Seq<P> {
    Seq::new(
        segments.len() + 1,
        |n: int|
            if n == 0 {
                segments[0].first()->Some_0
            } else {
                segments[n - 1].last()->Some_0
            },
    )
}

/// Visible samples behind a started polyline add one point to it: the last of
/// them.
proof fn lemma_visible_run_extends<P>(paths: Seq<Seq<P>>, path: Seq<P>, samples: Seq<Option<P>>)
    requires
        path.len() >= 1,
        samples.len() >= 1,
        forall|i: int| 0 <= i < samples.len() ==> (samples[i] is Some),
    ensures
        Drawing::new(paths, PathState::Started(path)).feed_all(samples) == Drawing::new(
            paths,
            PathState::Continuing(path.push(samples.last()->Some_0)),
        ),
    decreases samples.len(),
{
    let start = Drawing::new(paths, PathState::Started(path));
    let front = samples.drop_last();
    if samples.len() == 1 {
        assert(start.feed_all(front) == start);
    } else {
        lemma_visible_run_extends(paths, path, front);
        assert(front.last() == samples[samples.len() - 2]);
        let moved = path.push(front.last()->Some_0);
        assert(moved.update(moved.len() - 1, samples.last()->Some_0) == path.push(
            samples.last()->Some_0,
        ));
    }
}

/// Visible samples with nothing open leave the stretch from the first to the
/// last of them.
proof fn lemma_visible_run_opens<P>(paths: Seq<Seq<P>>, samples: Seq<Option<P>>)
    requires
        samples.len() >= 2,
        forall|i: int| 0 <= i < samples.len() ==> (samples[i] is Some),
    ensures
        Drawing::new(paths, PathState::Empty).feed_all(samples) == Drawing::new(
            paths,
            PathState::Continuing(seq![samples.first()->Some_0, samples.last()->Some_0]),
        ),
    decreases samples.len(),
{
    let start = Drawing::new(paths, PathState::Empty);
    let front = samples.drop_last();
    if samples.len() == 2 {
        assert(front.drop_last() == Seq::<Option<P>>::empty());
        assert(start.feed_all(front.drop_last()) == start);
        assert(front.last() == samples[0]);
        assert(seq![samples[0]->Some_0].push(samples[1]->Some_0) == seq![
            samples.first()->Some_0,
            samples.last()->Some_0,
        ]);
    } else {
        lemma_visible_run_opens(paths, front);
        assert(front.first() == samples[0]);
        let moved = seq![front.first()->Some_0, front.last()->Some_0];
        assert(moved.update(moved.len() - 1, samples.last()->Some_0) == seq![
            samples.first()->Some_0,
            samples.last()->Some_0,
        ]);
    }
}

/// The segments of a clipped path whose samples are all visible leave one
/// polyline open: the one through their ends.
proof fn lemma_visible_chain<P>(paths: Seq<Seq<P>>, segments: Seq<Seq<Option<P>>>)
    requires
        segments.len() >= 1,
        all_visible(segments),
    ensures
        Chain::start(paths).draw_all(segments).paths == paths,
        Chain::start(paths).draw_all(segments).open == Some(corners(segments)),
    decreases segments.len(),
{
    let start = Chain::start(paths);
    let front = segments.drop_last();
    let samples = segments.last();
    assert(samples == segments[segments.len() - 1]);
    assert forall|i: int| 0 <= i < samples.len() implies samples[i] is Some by {
        assert(segments[segments.len() - 1][i] is Some);
    }
    if segments.len() == 1 {
        assert(start.draw_all(front) == start);
        lemma_visible_run_opens(paths, samples);
        assert(corners(segments) == seq![samples.first()->Some_0, samples.last()->Some_0]);
    } else {
        assert(all_visible(front)) by {
            assert forall|j: int| 0 <= j < front.len() implies (#[trigger] front[j]).len() >= 2 by {
                assert(front[j] == segments[j]);
            }
            assert forall|j: int, i: int|
                0 <= j < front.len() && 0 <= i < front[j].len() implies #[trigger] front[j][i] is Some by {
                assert(front[j][i] == segments[j][i]);
            }
        }
        lemma_visible_chain(paths, front);
        let path = corners(front);
        let rest = samples.subrange(1, samples.len() as int);
        assert(unread(Some(path), samples) == rest);
        assert forall|i: int| 0 <= i < rest.len() implies rest[i] is Some by {
            assert(rest[i] == samples[i + 1]);
        }
        lemma_visible_run_extends(paths, path, rest);
        assert(rest.last() == samples.last());
        assert(path.push(samples.last()->Some_0) == corners(segments)) by {
            assert forall|n: int| 0 <= n < front.len() + 1 implies path[n] == corners(segments)[n] by {
                if n > 0 {
                    assert(front[n - 1] == segments[n - 1]);
                } else {
                    assert(front[0] == segments[0]);
                }
            }
        }
    }
}

/// A clipped path whose samples are all visible is drawn as one polyline
/// through the ends of its segments: within a segment only the two ends are
/// kept, and where two segments meet the polyline has a corner.
pub proof fn lemma_visible_path_keeps_corners<P>(
    paths: Seq<Seq<P>>,
    segments: Seq<Seq<Option<P>>>,
)
    requires
        segments.len() >= 1,
        all_visible(segments),
    ensures
        Chain::start(paths).draw_all(segments).finish() == paths.push(corners(segments)),
        drawn_paths(paths, seq![segments]) == paths.push(corners(segments)),
{
    lemma_visible_chain(paths, segments);
    assert(seq![segments].drop_last() == Seq::<Seq<Seq<Option<P>>>>::empty());
    assert(drawn_paths(paths, seq![segments].drop_last()) == paths);
    assert(seq![segments].last() == segments);
}

} // verus!
