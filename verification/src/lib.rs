//! Road-network topology and geometry engine.
//!
//! The crate maintains the entity graph of a city road network — intersections,
//! roads, lanes and the turns that connect them — together with the interactive
//! validation pipeline used while a new road segment is being drawn.
//!
//! All geometry is carried in fixed-point integer coordinates: one length unit
//! is 100 coordinate steps (`geom::SCALE`), so positions, widths and distances
//! are exact `i64` values and every formula in the contracts is an exact
//! statement over mathematical integers.

pub mod geom;
pub mod ids;
pub mod store;
pub mod lane;
pub mod road;
pub mod turn;
pub mod turn_policy;
pub mod intersection;
pub mod network;
pub mod roadbuild;

use vstd::prelude::*;

verus! {

/// Marker for state that must never be persisted: transient, recomputed-every-query
/// values such as the interactive road-build candidate.
pub struct NoSerialize;

} // verus!
