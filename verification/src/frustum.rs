//! Classifying a line segment against a frustum.
//!
//! A frustum is the convex region bounded by six planes. Whether a point lies in
//! it, and where a segment meets a plane, is arithmetic on coordinates and is
//! done by the caller. What is decided here is which part of the segment
//! remains, given those answers.
use vstd::prelude::*;

verus! {

/// The six planes of a frustum, in the order in which a frustum holds them.
#[derive(Clone, Copy, Debug, PartialEq, Eq)]
pub enum FrustumPlane {
    Left,
    Right,
    Bottom,
    Top,
    Near,
    Far,
}

impl FrustumPlane {
    /// The position of the plane among a frustum's six.
    pub open spec fn spec_index(self) -> int {
        match self {
            FrustumPlane::Left => 0,
            FrustumPlane::Right => 1,
            FrustumPlane::Bottom => 2,
            FrustumPlane::Top => 3,
            FrustumPlane::Near => 4,
            FrustumPlane::Far => 5,
        }
    }

    /// The position of the plane among a frustum's six, for indexing.
    pub fn index(self) -> (i: usize)
        ensures
            i == self.spec_index(),
            i < 6,
    {
        match self {
            FrustumPlane::Left => 0,
            FrustumPlane::Right => 1,
            FrustumPlane::Bottom => 2,
            FrustumPlane::Top => 3,
            FrustumPlane::Near => 4,
            FrustumPlane::Far => 5,
        }
    }
}

/// How a segment that is only partly in the frustum lies in it.
#[derive(Debug, Clone, Copy, PartialEq, Eq)]
pub enum ClipResultPartial {
    /// The first point is in the frustum, the second is not.
    Prefix,
    /// The second point is in the frustum, the first is not.
    Suffix,
    /// Neither point is in the frustum, but the segment passes through it.
    Infix,
}

/// The result of clipping a segment against a frustum.
#[derive(Debug, Clone, Copy, PartialEq)]
pub enum ClipResult<P> {
    /// No part of the segment is in the frustum.
    Outside,
    /// The whole segment is in the frustum; the points are its two ends.
    Inside(P, P),
    /// A part of the segment is in the frustum; the points are the ends of
    /// that part, in the direction of the segment.
    Partial(ClipResultPartial, P, P),
}

/// A place where a segment meets one of the frustum's planes.
#[derive(Debug, Clone, Copy, PartialEq)]
pub struct Crossing<P> {
    /// The point of the segment that lies on the plane.
    pub point: P,
    /// Whether that point lies in the frustum or on its boundary, within the
    /// tolerance for boundary points.
    pub on_frustum: bool,
}

/// A classification that the convexity of a frustum rules out.
#[derive(Debug, Clone, Copy, PartialEq, Eq)]
pub enum ClipError {
    /// One end is in the frustum and the other is not, yet the segment meets
    /// no plane.
    MissingCrossing,
    /// Both ends are out of the frustum, yet more than two of the segment's
    /// crossings lie on the frustum.
    TooManyCrossings,
}

/// The points of those crossings that lie on the frustum, in the order of the
/// crossings.
pub open spec fn frustum_points<P>(crossings: Seq<Crossing<P>>) -> Seq<P>
    decreases crossings.len(),
{
    if crossings.len() == 0 {
        Seq::empty()
    } else if crossings.last().on_frustum {
        frustum_points(crossings.drop_last()).push(crossings.last().point)
    } else {
        frustum_points(crossings.drop_last())
    }
}

/// What remains of the segment from `p0` to `p1`.
///
/// `in0` and `in1` say whether `p0` and `p1` are in the frustum. `crossings`
/// holds the places where the segment meets a plane between its ends, from
/// `p0` towards `p1`.
pub open spec fn clipped<P>(
    p0: P,
    p1: P,
    in0: bool,
    in1: bool,
    crossings: Seq<Crossing<P>>,
) -> Result<ClipResult<P>, ClipError> {
    if in0 && in1 {
        Ok(ClipResult::Inside(p0, p1))
    } else if in0 {
        if crossings.len() == 0 {
            Err(ClipError::MissingCrossing)
        } else {
            Ok(ClipResult::Partial(ClipResultPartial::Prefix, p0, crossings.first().point))
        }
    } else if in1 {
        if crossings.len() == 0 {
            Err(ClipError::MissingCrossing)
        } else {
            Ok(ClipResult::Partial(ClipResultPartial::Suffix, crossings.last().point, p1))
        }
    } else {
        let on = frustum_points(crossings);
        if on.len() == 2 {
            Ok(ClipResult::Partial(ClipResultPartial::Infix, on[0], on[1]))
        } else if on.len() < 2 {
            Ok(ClipResult::Outside)
        } else {
            Err(ClipError::TooManyCrossings)
        }
    }
}

/// Collects the points of the crossings that lie on the frustum.
fn points_on_frustum<P: Copy>(crossings: &Vec<Crossing<P>>) -> (points: Vec<P>)
    ensures
        points@ == frustum_points(crossings@),
{
    let mut points: Vec<P> = Vec::new();
    let mut i: usize = 0;
    while i < crossings.len()
        invariant
            i <= crossings.len(),
            points@ == frustum_points(crossings@.take(i as int)),
        decreases crossings.len() - i,
    {
        proof {
            assert(crossings@.take(i + 1).drop_last() == crossings@.take(i as int));
        }
        if crossings[i].on_frustum {
            points.push(crossings[i].point);
        }
        i += 1;
    }
    proof {
        assert(crossings@.take(i as int) == crossings@);
    }
    points
}

/// Clips the segment from `p0` to `p1` against a frustum.
///
/// `in0` and `in1` say whether `p0` and `p1` are in the frustum. `crossings`
/// holds the places where the segment meets one of the six planes between its
/// ends, ordered from `p0` towards `p1`; a plane to which the segment is
/// parallel has none.
///
/// A frustum is convex, so with both ends in it the whole segment is. With one
/// end in it, the part that remains reaches from that end to the crossing
/// nearest to it in the list: the first for `p0`, the last for `p1`. With no end
/// in it, the segment passes through the frustum if exactly two crossings lie on
/// the frustum, and misses it if fewer do.
pub fn clip_line<P: Copy>(
    p0: P,
    p1: P,
    in0: bool,
    in1: bool,
    crossings: &Vec<Crossing<P>>,
) -> (result: Result<ClipResult<P>, ClipError>)
    ensures
        result == clipped(p0, p1, in0, in1, crossings@),
{
    if in0 && in1 {
        return Ok(ClipResult::Inside(p0, p1));
    }
    if in0 {
        if crossings.len() == 0 {
            return Err(ClipError::MissingCrossing);
        }
        return Ok(ClipResult::Partial(ClipResultPartial::Prefix, p0, crossings[0].point));
    }
    if in1 {
        if crossings.len() == 0 {
            return Err(ClipError::MissingCrossing);
        }
        let last: usize = crossings.len() - 1;
        return Ok(ClipResult::Partial(ClipResultPartial::Suffix, crossings[last].point, p1));
    }
    let on = points_on_frustum(crossings);
    if on.len() == 2 {
        Ok(ClipResult::Partial(ClipResultPartial::Infix, on[0], on[1]))
    } else if on.len() < 2 {
        Ok(ClipResult::Outside)
    } else {
        Err(ClipError::TooManyCrossings)
    }
}

/// The positions in `crossings` of those that lie on the frustum, ascending.
pub open spec fn frustum_positions<P>(crossings: Seq<Crossing<P>>) -> Seq<int>
    decreases crossings.len(),
{
    if crossings.len() == 0 {
        Seq::empty()
    } else if crossings.last().on_frustum {
        frustum_positions(crossings.drop_last()).push(crossings.len() - 1)
    } else {
        frustum_positions(crossings.drop_last())
    }
}

/// [`frustum_points`] holds one point for each crossing that lies on the
/// frustum, in the order of the crossings, and nothing else.
pub proof fn lemma_frustum_points<P>(crossings: Seq<Crossing<P>>)
    ensures
        frustum_positions(crossings).len() == frustum_points(crossings).len(),
        forall|k: int|
            0 <= k < frustum_positions(crossings).len() ==> {
                let i = #[trigger] frustum_positions(crossings)[k];
                &&& 0 <= i < crossings.len()
                &&& crossings[i].on_frustum
                &&& crossings[i].point == frustum_points(crossings)[k]
            },
        forall|k: int, l: int|
            0 <= k < l < frustum_positions(crossings).len() ==> frustum_positions(crossings)[k]
                < frustum_positions(crossings)[l],
        forall|i: int|
            0 <= i < crossings.len() && crossings[i].on_frustum ==> frustum_positions(
                crossings,
            ).contains(i),
    decreases crossings.len(),
{
    if crossings.len() > 0 {
        let front = crossings.drop_last();
        lemma_frustum_points(front);
        let positions = frustum_positions(crossings);
        let points = frustum_points(crossings);
        let before = frustum_positions(front);
        assert(positions.len() == points.len());
        assert forall|k: int| 0 <= k < positions.len() implies {
            let i = #[trigger] positions[k];
            &&& 0 <= i < crossings.len()
            &&& crossings[i].on_frustum
            &&& crossings[i].point == points[k]
        } by {
            if k < before.len() {
                let i = before[k];
                assert(positions[k] == i);
                assert(crossings[i] == front[i]);
                assert(points[k] == frustum_points(front)[k]);
            }
        }
        assert forall|k: int, l: int| 0 <= k < l < positions.len() implies positions[k]
            < positions[l] by {
            assert(positions[k] == before[k]);
            if l < before.len() {
                assert(positions[l] == before[l]);
            }
        }
        assert forall|i: int| 0 <= i < crossings.len() && crossings[i].on_frustum implies positions.contains(
            i,
        ) by {
            if i < front.len() {
                assert(front[i] == crossings[i]);
                assert(before.contains(i));
                let k = choose|k: int| 0 <= k < before.len() && before[k] == i;
                assert(positions[k] == i);
            } else {
                assert(positions[positions.len() - 1] == i);
            }
        }
    }
}

/// What a clip result says of the segment and its crossings.
///
/// The whole segment remains exactly when both ends are in the frustum. A
/// prefix starts at the first end and a suffix ends at the second, and the
/// other end of either is a crossing. An infix reaches from one crossing on
/// the frustum to a later one, and these two are all that lie on the frustum.
/// Failure means that an end is in the frustum without any crossing, or that
/// three crossings or more lie on the frustum with no end in it.
pub proof fn lemma_clipped_segment<P>(
    p0: P,
    p1: P,
    in0: bool,
    in1: bool,
    crossings: Seq<Crossing<P>>,
)
    ensures
        match clipped(p0, p1, in0, in1, crossings) {
            Ok(ClipResult::Inside(a, b)) => in0 && in1 && a == p0 && b == p1,
            Ok(ClipResult::Partial(ClipResultPartial::Prefix, a, b)) => {
                &&& in0 && !in1 && a == p0
                &&& crossings.len() > 0 && b == crossings[0].point
            },
            Ok(ClipResult::Partial(ClipResultPartial::Suffix, a, b)) => {
                &&& !in0 && in1 && b == p1
                &&& crossings.len() > 0 && a == crossings[crossings.len() - 1].point
            },
            Ok(ClipResult::Partial(ClipResultPartial::Infix, a, b)) => {
                &&& !in0 && !in1
                &&& exists|i: int, j: int|
                    {
                        &&& 0 <= i < j < crossings.len()
                        &&& (#[trigger] crossings[i]).on_frustum && crossings[i].point == a
                        &&& (#[trigger] crossings[j]).on_frustum && crossings[j].point == b
                        &&& forall|k: int|
                            0 <= k < crossings.len() && (#[trigger] crossings[k]).on_frustum ==> k
                                == i || k == j
                    }
            },
            Ok(ClipResult::Outside) => !in0 && !in1 && frustum_positions(crossings).len() < 2,
            Err(ClipError::MissingCrossing) => in0 != in1 && crossings.len() == 0,
            Err(ClipError::TooManyCrossings) => !in0 && !in1 && frustum_positions(crossings).len()
                > 2,
        },
{
    lemma_frustum_points(crossings);
    if !in0 && !in1 && frustum_points(crossings).len() == 2 {
        let positions = frustum_positions(crossings);
        let i = positions[0];
        let j = positions[1];
        assert(crossings[i].on_frustum && crossings[j].on_frustum);
        assert forall|k: int| 0 <= k < crossings.len() && (#[trigger] crossings[k]).on_frustum implies k
            == i || k == j by {
            assert(positions.contains(k));
        }
    }
}

} // verus!
