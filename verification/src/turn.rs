//! Turns: the connections a vehicle or pedestrian may take through an
//! intersection, each with a short generated path through its interior.

use vstd::prelude::*;
use crate::geom::V2;
use crate::ids::TurnID;

verus! {

/// What kind of movement a turn carries.
#[derive(Clone, Copy, PartialEq, Eq, Structural, Debug)]
pub enum TurnKind {
    /// An ordinary vehicle turn.
    Normal,
    /// A pedestrian crossing over a road.
    Crosswalk,
    /// A pedestrian link around a corner of the intersection.
    WalkingCorner,
}

/// Which way a turn identity is traversed.
#[derive(Clone, Copy, PartialEq, Eq, Structural, Debug)]
pub enum TraverseDirection {
    Forward,
    Backward,
}

/// The path of a turn: from the incoming lane's end, through the
/// intersection's center, to the outgoing lane's start.
pub open spec fn turn_path(src_end: V2, center: V2, dst_end: V2) -> Seq<V2> {
    seq![src_end, center, dst_end]
}

/// A turn of an intersection.
pub struct Turn {
    pub id: TurnID,
    pub kind: TurnKind,
    /// Connecting polyline through the intersection interior.
    pub points: Vec<V2>,
}

impl Turn {
    /// A turn with no path generated yet.
    pub fn new(id: TurnID, kind: TurnKind) -> (r: Turn)
        ensures
            r.id == id,
            r.kind == kind,
            r.points@ == Seq::<V2>::empty(),
    {
        let points: Vec<V2> = Vec::new();
        Turn { id, kind, points }
    }

    /// Regenerates the turn's path between the given lane ends.
    pub fn make_points(&mut self, src_end: V2, center: V2, dst_end: V2)
        ensures
            final(self).id == old(self).id,
            final(self).kind == old(self).kind,
            final(self).points@ == turn_path(src_end, center, dst_end),
    {
        let mut pts: Vec<V2> = Vec::new();
        pts.push(src_end);
        pts.push(center);
        pts.push(dst_end);
        proof {
            assert(pts@ =~= turn_path(src_end, center, dst_end));
        }
        self.points = pts;
    }
}

} // verus!
