//! Stable identities for the entities of the network.
//!
//! An identity is the arena key of the entity; it stays valid across insertion
//! and removal of other entities and is invalidated only by removing its own.

use vstd::prelude::*;

verus! {

/// Identity of an intersection.
#[derive(Clone, Copy, PartialEq, Eq, Structural, Debug, Hash)]
pub struct IntersectionID(pub u64);

impl IntersectionID {
    /// The raw arena key behind the identity.
    pub fn as_ffi(self) -> (r: u64)
        ensures
            r == self.0,
    {
        self.0
    }
}

/// Identity of a road.
#[derive(Clone, Copy, PartialEq, Eq, Structural, Debug, Hash)]
pub struct RoadID(pub u64);

/// Identity of a lane.
#[derive(Clone, Copy, PartialEq, Eq, Structural, Debug, Hash)]
pub struct LaneID(pub u64);

/// Identity of a turn: the owning intersection with the source and
/// destination lanes. The identity itself encodes the connection, so a turn
/// set can never hold two turns with equal identities and different routes.
#[derive(Clone, Copy, PartialEq, Eq, Structural, Debug, Hash)]
pub struct TurnID {
    pub parent: IntersectionID,
    pub src: LaneID,
    pub dst: LaneID,
    pub bidirectional: bool,
}

impl TurnID {
    /// A one-way turn identity from `src` to `dst` at `parent`.
    pub fn new(parent: IntersectionID, src: LaneID, dst: LaneID) -> (r: TurnID)
        ensures
            r == (TurnID { parent, src, dst, bidirectional: false }),
    {
        TurnID { parent, src, dst, bidirectional: false }
    }
}

} // verus!
