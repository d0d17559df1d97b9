//! Clipping a path to what a camera sees.
//!
//! A path is a sequence of points, each joined to the next by a segment. The
//! part of it that lies in the camera's frustum is a set of sub-paths: one for
//! every stretch of the path that stays in the frustum.
use vstd::prelude::*;
use crate::frustum::clip_line;
use crate::frustum::clipped;
use crate::frustum::ClipError;
use crate::frustum::ClipResult;
use crate::frustum::ClipResultPartial;
use crate::frustum::Crossing;
use crate::util::BoxPlaneTest;

verus! {

/// A point of a path with what was measured of it against the frustum.
#[derive(Debug, Clone, PartialEq)]
pub struct PathPoint<P> {
    /// The point.
    pub point: P,
    /// Whether the point is in the frustum.
    pub inside: bool,
    /// The places where the segment that ends at this point meets the planes of
    /// the frustum, ordered from the segment's start towards this point. The
    /// first point of a path ends no segment; what it holds here is not read.
    pub crossings: Vec<Crossing<P>>,
}

/// A segment of a path could not be clipped.
#[derive(Debug, Clone, Copy, PartialEq, Eq)]
pub struct ClipPathError {
    /// The position of the segment in the path, counted from 0: it reaches
    /// from the point at `segment` to the next.
    pub segment: usize,
    /// What is wrong with the segment's measurements.
    pub error: ClipError,
}

/// The clip results of a path do not fit together: the segment at `segment`
/// starts outside the frustum, yet the segment before it ended inside.
#[derive(Debug, Clone, Copy, PartialEq, Eq)]
pub struct StitchError {
    /// The position of the offending segment in the path, counted from 0.
    pub segment: usize,
}

/// The sub-paths of a path as far as its segments have been read.
pub struct Stitched<P> {
    /// The sub-paths that are complete, in the order in which they ended.
    pub done: Seq<Seq<P>>,
    /// The sub-path that the next segment may extend; empty if there is none.
    pub open: Seq<P>,
}

/// The open sub-path, begun at `start` if there was none.
pub open spec fn open_from<P>(open: Seq<P>, start: P) -> Seq<P> {
    if open.len() == 0 {
        seq![start]
    } else {
        open
    }
}

/// The sub-paths after one more segment with clip result `clip`, or `None` if
/// the segment starts outside the frustum while a sub-path is open.
pub open spec fn stitch_step<P>(s: Stitched<P>, clip: ClipResult<P>) -> Option<Stitched<P>> {
    match clip {
        ClipResult::Outside => if s.open.len() == 0 {
            Some(s)
        } else {
            None
        },
        ClipResult::Inside(a, b) => Some(
            Stitched { done: s.done, open: open_from(s.open, a).push(b) },
        ),
        ClipResult::Partial(ClipResultPartial::Prefix, a, b) => Some(
            Stitched { done: s.done.push(open_from(s.open, a).push(b)), open: Seq::empty() },
        ),
        ClipResult::Partial(ClipResultPartial::Suffix, a, b) => if s.open.len() == 0 {
            Some(Stitched { done: s.done, open: seq![a, b] })
        } else {
            None
        },
        ClipResult::Partial(ClipResultPartial::Infix, a, b) => if s.open.len() == 0 {
            Some(Stitched { done: s.done.push(seq![a, b]), open: Seq::empty() })
        } else {
            None
        },
    }
}

/// The sub-paths after all of `clips`, or the position of the first segment
/// that does not fit the ones before it.
pub open spec fn stitch<P>(clips: Seq<ClipResult<P>>) -> Result<Stitched<P>, int>
    decreases clips.len(),
{
    if clips.len() == 0 {
        Ok(Stitched { done: Seq::empty(), open: Seq::empty() })
    } else {
        match stitch(clips.drop_last()) {
            Err(i) => Err(i),
            Ok(s) => match stitch_step(s, clips.last()) {
                Some(next) => Ok(next),
                None => Err(clips.len() - 1),
            },
        }
    }
}

/// All sub-paths of `s`, the open one last.
pub open spec fn all_paths<P>(s: Stitched<P>) -> Seq<Seq<P>> {
    if s.open.len() == 0 {
        s.done
    } else {
        s.done.push(s.open)
    }
}

/// The paths that a vector of paths holds.
pub open spec fn path_views<P>(paths: Seq<Vec<P>>) -> Seq<Seq<P>> {
    paths.map_values(|path: Vec<P>| path@)
}

/// Joins the clip results of the consecutive segments of one path into the
/// sub-paths that lie in the frustum.
///
/// `clips[i]` is the result of clipping the segment from the path's point `i` to
/// its point `i + 1`. A segment that is inside extends the open sub-path, or
/// opens one at its first point. A prefix does the same and then closes the
/// sub-path at the clip point. A suffix opens a sub-path at its clip point, an
/// infix is a sub-path of its own, and what is still open after the last segment
/// is closed there. A segment that starts outside the frustum while a sub-path is
/// open contradicts the segment before it: the first such segment is reported.
pub fn stitch_clips<P: Copy>(clips: &Vec<ClipResult<P>>) -> (result: Result<
    Vec<Vec<P>>,
    StitchError,
>)
    ensures
        match stitch(clips@) {
            Ok(s) => result is Ok && path_views(result->Ok_0@) == all_paths(s),
            Err(i) => result == Err::<Vec<Vec<P>>, StitchError>(StitchError { segment: i as usize }),
        },
        result matches Ok(paths) ==> forall|k: int|
            0 <= k < paths@.len() ==> (#[trigger] paths@[k])@.len() >= 2,
{
    let mut clipped_paths: Vec<Vec<P>> = Vec::new();
    let mut current_path: Vec<P> = Vec::new();
    let mut i: usize = 0;
    proof {
        assert(clips@.take(0) == Seq::<ClipResult<P>>::empty());
        assert(path_views(clipped_paths@) == Seq::<Seq<P>>::empty());
    }
    while i < clips.len()
        invariant
            i <= clips.len(),
            stitch(clips@.take(i as int)) matches Ok(s) && s.done == path_views(clipped_paths@)
                && s.open == current_path@,
        decreases clips.len() - i,
    {
        let ghost before = stitch(clips@.take(i as int))->Ok_0;
        proof {
            assert(clips@.take(i + 1).drop_last() == clips@.take(i as int));
            if stitch_step(before, clips@[i as int]) is None {
                lemma_stitch_error_stays(clips@, i + 1);
            }
        }
        match clips[i] {
            ClipResult::Outside => {
                if current_path.len() > 0 {
                    return Err(StitchError { segment: i });
                }
            },
            ClipResult::Inside(a, b) => {
                if current_path.len() == 0 {
                    current_path.push(a);
                }
                current_path.push(b);
            },
            ClipResult::Partial(ClipResultPartial::Prefix, a, b) => {
                if current_path.len() == 0 {
                    current_path.push(a);
                }
                current_path.push(b);
                let ghost closed = current_path@;
                clipped_paths.push(current_path);
                current_path = Vec::new();
                proof {
                    assert(closed == open_from(before.open, a).push(b));
                    assert(path_views(clipped_paths@) == before.done.push(closed));
                }
            },
            ClipResult::Partial(ClipResultPartial::Suffix, a, b) => {
                if current_path.len() > 0 {
                    return Err(StitchError { segment: i });
                }
                current_path.push(a);
                current_path.push(b);
                proof {
                    assert(current_path@ == seq![a, b]);
                }
            },
            ClipResult::Partial(ClipResultPartial::Infix, a, b) => {
                if current_path.len() > 0 {
                    return Err(StitchError { segment: i });
                }
                let mut through: Vec<P> = Vec::new();
                through.push(a);
                through.push(b);
                clipped_paths.push(through);
                proof {
                    assert(through@ == seq![a, b]);
                    assert(path_views(clipped_paths@) == before.done.push(seq![a, b]));
                }
            },
        }
        i += 1;
    }
    proof {
        assert(clips@.take(i as int) == clips@);
    }
    if current_path.len() > 0 {
        let ghost done = path_views(clipped_paths@);
        let ghost open = current_path@;
        clipped_paths.push(current_path);
        proof {
            assert(path_views(clipped_paths@) == done.push(open));
        }
    }
    proof {
        lemma_sub_paths_have_two_points(clips@);
        assert forall|k: int| 0 <= k < clipped_paths@.len() implies (
        #[trigger] clipped_paths@[k])@.len() >= 2 by {
            assert(path_views(clipped_paths@)[k] == clipped_paths@[k]@);
        }
    }
    Ok(clipped_paths)
}

/// A misfit among the first `n` clip results is a misfit of the whole sequence.
proof fn lemma_stitch_error_stays<P>(clips: Seq<ClipResult<P>>, n: int)
    requires
        0 <= n <= clips.len(),
        stitch(clips.take(n)) is Err,
    ensures
        stitch(clips) == stitch(clips.take(n)),
    decreases clips.len() - n,
{
    if n < clips.len() {
        assert(clips.take(n + 1).drop_last() == clips.take(n));
        lemma_stitch_error_stays(clips, n + 1);
    } else {
        assert(clips.take(n) == clips);
    }
}

/// Whether a box may reach into the frustum, given its position relative to
/// each of the six planes: it may unless it lies wholly outside one of them.
pub open spec fn aabb_visible(positions: Seq<BoxPlaneTest>) -> bool {
    forall|i: int| 0 <= i < positions.len() ==> positions[i] != BoxPlaneTest::Outside
}

/// Whether a bounding box counts as visible, given its position relative to
/// each of the frustum's six planes.
///
/// A box that lies wholly outside one plane is out of sight. Every other box
/// counts as visible, also one that straddles planes without reaching into the
/// frustum: clipping deals with what such a box holds.
pub fn is_aabb_visible(positions: &[BoxPlaneTest; 6]) -> (visible: bool)
    ensures
        visible == aabb_visible(positions@),
{
    let mut i: usize = 0;
    while i < 6
        invariant
            i <= 6,
            forall|k: int| 0 <= k < i ==> positions@[k] != BoxPlaneTest::Outside,
        decreases 6 - i,
    {
        match positions[i] {
            BoxPlaneTest::Outside => {
                return false;
            },
            _ => {},
        }
        i += 1;
    }
    true
}

/// Every complete sub-path has two points or more, and so has the open one
/// unless there is none.
pub open spec fn drawable<P>(s: Stitched<P>) -> bool {
    &&& s.open.len() != 1
    &&& forall|k: int| 0 <= k < s.done.len() ==> (#[trigger] s.done[k]).len() >= 2
}

/// Every sub-path that stitching yields has two points or more.
pub proof fn lemma_sub_paths_have_two_points<P>(clips: Seq<ClipResult<P>>)
    requires
        stitch(clips) is Ok,
    ensures
        drawable(stitch(clips)->Ok_0),
        forall|k: int|
            0 <= k < all_paths(stitch(clips)->Ok_0).len() ==> (#[trigger] all_paths(
                stitch(clips)->Ok_0,
            )[k]).len() >= 2,
    decreases clips.len(),
{
    if clips.len() > 0 {
        lemma_sub_paths_have_two_points(clips.drop_last());
    }
}

/// The clip results of a path whose points all lie in the frustum: each
/// segment is inside.
pub open spec fn inside_clips<P>(path: Seq<P>) -> Seq<ClipResult<P>> {
    Seq::new((path.len() - 1) as nat, |i: int| ClipResult::Inside(path[i], path[i + 1]))
}

/// A path that lies in the frustum with all its points comes back whole, as
/// its one sub-path.
pub proof fn lemma_inside_path_unchanged<P>(path: Seq<P>)
    requires
        path.len() >= 2,
    ensures
        stitch(inside_clips(path)) is Ok,
        all_paths(stitch(inside_clips(path))->Ok_0) == seq![path],
    decreases path.len(),
{
    let clips = inside_clips(path);
    if path.len() == 2 {
        assert(clips.drop_last() == Seq::<ClipResult<P>>::empty());
        assert(stitch(clips.drop_last()) == Ok::<Stitched<P>, int>(
            Stitched { done: Seq::empty(), open: Seq::empty() },
        ));
        let s = stitch(clips)->Ok_0;
        assert(s.open == path);
        assert(all_paths(s) == seq![path]);
    } else {
        let front = path.drop_last();
        assert(clips.drop_last() == inside_clips(front));
        lemma_inside_path_unchanged(front);
        let before = stitch(inside_clips(front))->Ok_0;
        assert(all_paths(before) == seq![front]);
        assert(all_paths(before)[0] == front);
        assert(before.open == front && before.done.len() == 0) by {
            if before.open.len() == 0 {
                assert(before.done[0] == front);
            } else {
                assert(before.done.push(before.open).len() == 1);
            }
        }
        let s = stitch(clips)->Ok_0;
        assert(s.open == path);
        assert(s.done == Seq::<Seq<P>>::empty());
        assert(all_paths(s) == seq![path]);
    }
}

/// A path of which no segment reaches into the frustum leaves no sub-path.
pub proof fn lemma_outside_path_vanishes<P>(clips: Seq<ClipResult<P>>)
    requires
        forall|i: int| 0 <= i < clips.len() ==> clips[i] == ClipResult::<P>::Outside,
    ensures
        stitch(clips) is Ok,
        all_paths(stitch(clips)->Ok_0) == Seq::<Seq<P>>::empty(),
    decreases clips.len(),
{
    if clips.len() > 0 {
        lemma_outside_path_vanishes(clips.drop_last());
        let before = stitch(clips.drop_last())->Ok_0;
        assert(before.open.len() == 0) by {
            if before.open.len() > 0 {
                assert(before.done.push(before.open).len() > 0);
            }
        }
        assert(clips.last() == ClipResult::<P>::Outside);
    }
}

/// The number of segments of a path of `points` points.
pub open spec fn segment_count(points: int) -> int {
    if points >= 2 {
        points - 1
    } else {
        0
    }
}

/// The result of clipping the segment from point `i` to point `i + 1`, from
/// what was measured of the two points.
pub open spec fn segment_clip<P>(points: Seq<PathPoint<P>>, i: int) -> Result<
    ClipResult<P>,
    ClipError,
> {
    clipped(
        points[i].point,
        points[i + 1].point,
        points[i].inside,
        points[i + 1].inside,
        points[i + 1].crossings@,
    )
}

/// The clip results of all segments of the path, where every segment can be
/// clipped.
pub open spec fn segment_clips<P>(points: Seq<PathPoint<P>>) -> Seq<ClipResult<P>> {
    Seq::new(segment_count(points.len() as int) as nat, |i: int| segment_clip(points, i)->Ok_0)
}

/// The clip results of the segments of a path always fit together: a segment
/// starts outside the frustum only where the segment before it ended outside,
/// because both go by what was measured of the point that they share. A
/// sub-path is open after the last segment exactly when the last point is in
/// the frustum.
pub proof fn lemma_measured_segments_fit<P>(points: Seq<PathPoint<P>>)
    requires
        forall|i: int|
            0 <= i < segment_count(points.len() as int) ==> (#[trigger] segment_clip(points, i)) is Ok,
    ensures
        stitch(segment_clips(points)) is Ok,
        points.len() >= 2 ==> (stitch(segment_clips(points))->Ok_0.open.len() > 0
            <==> points.last().inside),
    decreases points.len(),
{
    if points.len() >= 2 {
        let front = points.drop_last();
        let n = points.len() - 2;
        assert forall|i: int| 0 <= i < segment_count(front.len() as int) implies (
        #[trigger] segment_clip(front, i)) is Ok by {
            assert(segment_clip(front, i) == segment_clip(points, i));
        }
        lemma_measured_segments_fit(front);
        assert(segment_clips(points).drop_last() == segment_clips(front)) by {
            assert forall|i: int| 0 <= i < n implies segment_clips(points)[i] == segment_clips(
                front,
            )[i] by {
                assert(segment_clip(front, i) == segment_clip(points, i));
            }
        }
        assert(segment_clip(points, n) is Ok);
        assert(segment_clips(points).last() == segment_clip(points, n)->Ok_0);
        assert(front.last() == points[n]);
    }
}

/// The points of a measured path.
pub open spec fn path_points<P>(points: Seq<PathPoint<P>>) -> Seq<P> {
    points.map_values(|p: PathPoint<P>| p.point)
}

/// A path whose points are all in the frustum is its own and only sub-path,
/// whatever its crossings: a frustum is convex.
pub proof fn lemma_path_in_frustum_unchanged<P>(points: Seq<PathPoint<P>>)
    requires
        points.len() >= 2,
        forall|i: int| 0 <= i < points.len() ==> (#[trigger] points[i]).inside,
    ensures
        forall|i: int|
            0 <= i < segment_count(points.len() as int) ==> (#[trigger] segment_clip(points, i)) is Ok,
        stitch(segment_clips(points)) is Ok,
        all_paths(stitch(segment_clips(points))->Ok_0) == seq![path_points(points)],
{
    assert forall|i: int| 0 <= i < points.len() - 1 implies segment_clip(points, i) == Ok::<
        ClipResult<P>,
        ClipError,
    >(ClipResult::Inside(points[i].point, points[i + 1].point)) by {
        assert(points[i].inside && points[i + 1].inside);
    }
    assert(segment_clips(points) == inside_clips(path_points(points)));
    lemma_inside_path_unchanged(path_points(points));
}

/// Clips a path into the sub-paths that lie in the frustum.
///
/// Every point comes with what was measured of it: whether it is in the
/// frustum, and where the segment that ends at it meets the planes. Each
/// segment is clipped as [`clip_line`] says, and the results are joined as
/// [`stitch_clips`] says: a sub-path runs on while the path stays in the
/// frustum and ends where it leaves. Every sub-path has two points or more. A
/// path of fewer than two points has no segment and leaves nothing.
///
/// The first segment that cannot be clipped is reported. That the results do
/// not fit together cannot happen.
pub fn clip_path<P: Copy>(points: &Vec<PathPoint<P>>) -> (result: Result<
    Vec<Vec<P>>,
    ClipPathError,
>)
    ensures
        match result {
            Ok(paths) => {
                &&& forall|i: int|
                    0 <= i < segment_count(points@.len() as int) ==> (#[trigger] segment_clip(
                        points@,
                        i,
                    )) is Ok
                &&& stitch(segment_clips(points@)) is Ok
                &&& path_views(paths@) == all_paths(stitch(segment_clips(points@))->Ok_0)
                &&& forall|k: int| 0 <= k < paths@.len() ==> (#[trigger] paths@[k])@.len() >= 2
            },
            Err(e) => {
                &&& e.segment < segment_count(points@.len() as int)
                &&& segment_clip(points@, e.segment as int) == Err::<ClipResult<P>, ClipError>(
                    e.error,
                )
                &&& forall|i: int| 0 <= i < e.segment ==> (#[trigger] segment_clip(points@, i)) is Ok
            },
        },
{
    let mut clips: Vec<ClipResult<P>> = Vec::new();
    let mut i: usize = 1;
    while i < points.len()
        invariant
            1 <= i,
            clips@.len() == segment_count(i as int),
            clips@.len() <= segment_count(points@.len() as int),
            forall|j: int|
                0 <= j < clips@.len() ==> (#[trigger] segment_clip(points@, j)) == Ok::<
                    ClipResult<P>,
                    ClipError,
                >(clips@[j]),
        decreases points.len() - i,
    {
        let start = &points[i - 1];
        let end = &points[i];
        match clip_line(start.point, end.point, start.inside, end.inside, &end.crossings) {
            Ok(clip) => {
                clips.push(clip);
            },
            Err(error) => {
                return Err(ClipPathError { segment: i - 1, error });
            },
        }
        i += 1;
    }
    proof {
        assert(clips@ == segment_clips(points@));
        lemma_measured_segments_fit(points@);
    }
    match stitch_clips(&clips) {
        Ok(paths) => Ok(paths),
        Err(_) => unreached(),
    }
}

} // verus!
