//! What the two traversals of the spatial index decide at each node.
//!
//! The index is a tree of bounding volumes with the shapes at its leaves. A
//! traversal gets each node's bounding volume and, at a leaf, its shape, and
//! answers whether to descend, to leave the subtree, or to end. The geometric
//! tests on the volume and the shape are the caller's.
use vstd::prelude::*;

verus! {

/// How a traversal goes on after a node.
#[derive(Debug, Clone, Copy, PartialEq, Eq)]
pub enum VisitStatus {
    /// Go on with the node's children.
    Continue,
    /// Leave the node's subtree and go on with the rest of the tree.
    Stop,
    /// End the whole traversal.
    ExitEarly,
}

/// Gathers the polylines of the shapes that the camera can see.
#[derive(Debug, Clone)]
pub struct CameraVisiblePathCollector<P> {
    /// The polylines gathered so far.
    pub rendered_paths: Vec<Vec<P>>,
}

impl<P> CameraVisiblePathCollector<P> {
    /// A collector that has gathered nothing.
    pub fn new() -> (collector: Self)
        ensures
            collector.rendered_paths@ == Seq::<Vec<P>>::empty(),
    {
        CameraVisiblePathCollector { rendered_paths: Vec::new() }
    }

    /// Visits a node of the index.
    ///
    /// `visible` says whether the camera sees the node's bounding volume.
    /// `rendered` holds the polylines drawn for the shape at the node; a node
    /// without a shape has none. A volume out of sight ends the descent, and
    /// what was drawn under it is not kept.
    pub fn visit(&mut self, visible: bool, rendered: Vec<Vec<P>>) -> (status: VisitStatus)
        ensures
            visible ==> status == VisitStatus::Continue && final(self).rendered_paths@ == old(
                self,
            ).rendered_paths@ + rendered@,
            !visible ==> status == VisitStatus::Stop && final(self).rendered_paths@ == old(
                self,
            ).rendered_paths@,
    {
        if visible {
            let mut rendered = rendered;
            self.rendered_paths.append(&mut rendered);
            VisitStatus::Continue
        } else {
            VisitStatus::Stop
        }
    }
}

/// Finds out whether a shape hides a target point from the camera.
///
/// The traversal follows the ray from the camera through the target and ends
/// at the first shape that the ray meets in front of the target.
#[derive(Debug, Clone, Copy, PartialEq, Eq)]
pub struct SceneOcclusionVisitor {
    is_occluded: bool,
}

/// The answer at a node: `bv_hit` says whether the ray meets the node's
/// bounding volume, `blocked` whether the node holds a shape that the ray
/// meets in front of the target.
pub open spec fn occlusion_status(bv_hit: bool, blocked: bool) -> VisitStatus {
    if !bv_hit {
        VisitStatus::Stop
    } else if blocked {
        VisitStatus::ExitEarly
    } else {
        VisitStatus::Continue
    }
}

/// Whether the target is hidden after the nodes `visits`, each given as its
/// pair `(bv_hit, blocked)`, when `occluded` held before them.
pub open spec fn occluded_after(occluded: bool, visits: Seq<(bool, bool)>) -> bool
    decreases visits.len(),
{
    if visits.len() == 0 {
        occluded
    } else {
        occluded_after(occluded, visits.drop_last()) || (visits.last().0 && visits.last().1)
    }
}

impl SceneOcclusionVisitor {
    /// Whether a shape was found in front of the target.
    pub closed spec fn occluded(&self) -> bool {
        self.is_occluded
    }

    /// A visitor that has found nothing in front of the target.
    pub fn new() -> (visitor: Self)
        ensures
            !visitor.occluded(),
    {
        SceneOcclusionVisitor { is_occluded: false }
    }

    /// Whether a shape was found in front of the target.
    pub fn is_occluded(&self) -> (occluded: bool)
        ensures
            occluded == self.occluded(),
    {
        self.is_occluded
    }

    /// Visits a node of the index.
    ///
    /// `bv_hit` says whether the ray meets the node's bounding volume within
    /// the range of the search. `blocked` says whether the node holds a shape
    /// that the ray meets nearer than the target, by more than the tolerance.
    /// A volume that the ray misses ends the descent, whatever it holds. A
    /// shape in front of the target hides it, and the traversal ends.
    pub fn visit(&mut self, bv_hit: bool, blocked: bool) -> (status: VisitStatus)
        ensures
            status == occlusion_status(bv_hit, blocked),
            final(self).occluded() == (old(self).occluded() || (bv_hit && blocked)),
    {
        if !bv_hit {
            return VisitStatus::Stop;
        }
        if blocked {
            self.is_occluded = true;
            return VisitStatus::ExitEarly;
        }
        VisitStatus::Continue
    }
}

/// A target is hidden after a traversal if and only if it was hidden before or
/// the ray met, at one of the nodes, both the bounding volume and a shape in
/// front of the target. With no node visited, as in an empty scene, nothing
/// changes.
pub proof fn lemma_occluded_iff_blocked(occluded: bool, visits: Seq<(bool, bool)>)
    ensures
        occluded_after(occluded, visits) == (occluded || exists|i: int|
            0 <= i < visits.len() && (#[trigger] visits[i]).0 && visits[i].1),
        occluded_after(occluded, Seq::empty()) == occluded,
    decreases visits.len(),
{
    if visits.len() > 0 {
        let front = visits.drop_last();
        lemma_occluded_iff_blocked(occluded, front);
        if occluded_after(occluded, visits) && !occluded {
            if visits.last().0 && visits.last().1 {
                assert(visits[visits.len() - 1].0 && visits[visits.len() - 1].1);
            } else {
                let i = choose|i: int| 0 <= i < front.len() && (#[trigger] front[i]).0 && front[i].1;
                assert(visits[i] == front[i]);
            }
        }
        if exists|i: int| 0 <= i < visits.len() && (#[trigger] visits[i]).0 && visits[i].1 {
            let i = choose|i: int| 0 <= i < visits.len() && (#[trigger] visits[i]).0 && visits[i].1;
            if i < front.len() {
                assert(front[i] == visits[i]);
            }
        }
    }
}

} // verus!
