//! The map: identity-keyed stores of intersections, roads, lanes and
//! buildings, and spatial classification of query points.
//!
//! Spatial queries read the stores directly, so the index an entity is found
//! through is the store it lives in: every insert or removal is reflected by
//! the very next query, with no separately maintained structure that could
//! fall out of step.

use vstd::prelude::*;
use crate::geom::{V2, V3, xy, in2, in3, dir2, dist2_2d, dist2_2d_e};
use crate::ids::{IntersectionID, RoadID};
use crate::intersection::{Intersection, bcircle_raw_upto, DEFAULT_BCIRCLE_RADIUS};
use crate::lane::{Lane, poly_dist2, poly_dist2_e};
use crate::road::{Road, Terrain, terrain_wf, road_geom_wf};
use crate::store::Store;
use crate::turn_policy::road_lanes_ok;

verus! {

/// Identity of a building.
#[derive(Clone, Copy, PartialEq, Eq, Structural, Debug, Hash)]
pub struct BuildingID(pub u64);

/// A building: an axis-aligned footprint on the ground.
pub struct Building {
    pub id: BuildingID,
    pub min: V2,
    pub max: V2,
}

/// What a spatial query classified the position as.
#[derive(Clone, Copy, PartialEq, Eq, Structural, Debug)]
pub enum ProjectKind {
    Ground,
    Inter(IntersectionID),
    Road(RoadID),
    Building(BuildingID),
}

/// The transient result of classifying a query position: the kind of thing
/// hit and the resolved position. Recomputed on every query, never stored.
#[derive(Clone, Copy, PartialEq, Eq, Structural, Debug)]
pub struct MapProject {
    pub pos: V3,
    pub kind: ProjectKind,
}

impl MapProject {
    /// A classification as open ground at `pos`.
    pub fn ground(pos: V3) -> (r: MapProject)
        ensures
            r == (MapProject { pos, kind: ProjectKind::Ground }),
    {
        MapProject { pos, kind: ProjectKind::Ground }
    }

    /// Whether this classification is open ground.
    pub fn is_ground(&self) -> (r: bool)
        ensures
            r == (self.kind is Ground),
    {
        matches!(self.kind, ProjectKind::Ground)
    }
}

/// Which entity kinds a spatial query may return.
#[derive(Clone, Copy, PartialEq, Eq, Structural, Debug)]
pub struct ProjectFilter {
    pub inter: bool,
    pub road: bool,
    pub building: bool,
}

impl ProjectFilter {
    /// Considers every entity kind.
    pub fn all() -> (r: Self)
        ensures
            r == (ProjectFilter { inter: true, road: true, building: true }),
    {
        ProjectFilter { inter: true, road: true, building: true }
    }

    /// Considers intersections and roads only.
    pub fn inter_road() -> (r: Self)
        ensures
            r == (ProjectFilter { inter: true, road: true, building: false }),
    {
        ProjectFilter { inter: true, road: true, building: false }
    }
}

/// The road network.
pub struct Network {
    pub intersections: Store<Intersection>,
    pub roads: Store<Road>,
    pub lanes: Store<Lane>,
    pub buildings: Store<Building>,
    pub environment: Terrain,
}

/// Well-formedness of the whole network: identities match store keys,
/// geometry is bounded and well formed, every cross-reference resolves, and
/// each incident-road list is duplicate-free and lists only roads that end
/// at its intersection.
pub open spec fn network_inv(m: Network) -> bool {
    &&& terrain_wf(m.environment)
    &&& forall|k: int|
        #[trigger] m.intersections@.contains_key(k) ==> {
            let i = m.intersections@[k];
            &&& i.id.0 as int == k
            &&& in3(i.pos)
            &&& crate::intersection::distinct_ids(i.roads@)
            &&& (i.turn_policy.roundabout is Some ==> 0 <= i.turn_policy.roundabout->Some_0
                <= 1_000_000)
            &&& forall|j: int|
                0 <= j < i.roads@.len() ==> {
                    let rk = (#[trigger] i.roads@[j]).0 as int;
                    m.roads@.contains_key(rk) && crate::road::road_endpoint(m.roads@[rk], i.id)
                }
        }
    &&& forall|k: int|
        #[trigger] m.roads@.contains_key(k) ==> {
            let r = m.roads@[k];
            &&& r.id.0 as int == k
            &&& road_geom_wf(r)
            &&& r.interface_src <= 2_000_000
            &&& r.interface_dst <= 2_000_000
            &&& m.intersections@.contains_key(r.src.0 as int)
            &&& m.intersections@.contains_key(r.dst.0 as int)
            &&& m.intersections@[r.src.0 as int].id == r.src
            &&& m.intersections@[r.dst.0 as int].id == r.dst
            &&& road_lanes_ok(r, m.lanes@)
        }
    &&& forall|k: int|
        #[trigger] m.lanes@.contains_key(k) ==> {
            let l = m.lanes@[k];
            &&& l.id.0 as int == k
            &&& dir2(l.src_dir)
            &&& dir2(l.dst_dir)
            &&& forall|j: int| 0 <= j < l.points@.len() ==> in2(#[trigger] l.points@[j])
        }
    &&& forall|k: int|
        #[trigger] m.buildings@.contains_key(k) ==> {
            let b = m.buildings@[k];
            b.id.0 as int == k && in2(b.min) && in2(b.max)
        }
}

/// The bounding-circle radius of an intersection, as `bcircle` computes it.
pub open spec fn inter_radius(i: Intersection, roads: Map<int, Road>) -> int {
    let raw = bcircle_raw_upto(i.id, i.roads@, roads, i.roads@.len() as int);
    if raw < 0 {
        DEFAULT_BCIRCLE_RADIUS as int
    } else {
        raw
    }
}

/// The nearest intersection hit among the first `n` keys: an intersection is
/// hit when the query point lies within its bounding circle widened by the
/// tolerance. Earlier keys win ties.
pub open spec fn best_inter_upto(
    ks: Seq<u64>,
    inters: Map<int, Intersection>,
    roads: Map<int, Road>,
    p: V2,
    tol: int,
    n: int,
) -> Option<(u64, int)>
    decreases n,
{
    if n <= 0 {
        None
    } else {
        let pre = best_inter_upto(ks, inters, roads, p, tol, n - 1);
        let k = ks[n - 1];
        let i = inters[k as int];
        let d = dist2_2d(p, xy(i.pos));
        let rad = inter_radius(i, roads) + tol;
        if 0 <= rad && d <= rad * rad {
            match pre {
                None => Some((k, d)),
                Some(b) => if d < b.1 {
                    Some((k, d))
                } else {
                    pre
                },
            }
        } else {
            pre
        }
    }
}

/// The nearest road hit among the first `n` keys: a road is hit when the
/// query point lies within half the road's width plus the tolerance of its
/// centerline. Earlier keys win ties.
pub open spec fn best_road_upto(
    ks: Seq<u64>,
    roads: Map<int, Road>,
    p: V2,
    tol: int,
    n: int,
) -> Option<(u64, int)>
    decreases n,
{
    if n <= 0 {
        None
    } else {
        let pre = best_road_upto(ks, roads, p, tol, n - 1);
        let k = ks[n - 1];
        let r = roads[k as int];
        let d = poly_dist2(p, Seq::new(r.points@.len(), |i: int| xy(r.points@[i])));
        let rad = r.width / 2 + tol;
        if 0 <= rad && d <= rad * rad {
            match pre {
                None => Some((k, d)),
                Some(b) => if d < b.1 {
                    Some((k, d))
                } else {
                    pre
                },
            }
        } else {
            pre
        }
    }
}

/// The first building whose footprint contains the point, among the first
/// `n` keys.
pub open spec fn first_building_upto(
    ks: Seq<u64>,
    buildings: Map<int, Building>,
    p: V2,
    n: int,
) -> Option<u64>
    decreases n,
{
    if n <= 0 {
        None
    } else {
        let pre = first_building_upto(ks, buildings, p, n - 1);
        if pre is Some {
            pre
        } else {
            let b = buildings[ks[n - 1] as int];
            if b.min.x <= p.x <= b.max.x && b.min.y <= p.y <= b.max.y {
                Some(ks[n - 1])
            } else {
                pre
            }
        }
    }
}

/// What `project` classifies `pos` as: the nearest intersection whose
/// widened bounding circle contains it; else the nearest road whose widened
/// pavement contains it; else a building under it; else open ground.
pub open spec fn spec_project(m: Network, pos: V3, tol: int, filter: ProjectFilter) -> MapProject {
    let p = xy(pos);
    let ik = m.intersections.spec_keys();
    let rk = m.roads.spec_keys();
    let bk = m.buildings.spec_keys();
    let bi = best_inter_upto(ik, m.intersections@, m.roads@, p, tol, ik.len() as int);
    let br = best_road_upto(rk, m.roads@, p, tol, rk.len() as int);
    let bb = first_building_upto(bk, m.buildings@, p, bk.len() as int);
    let kind = if filter.inter && bi is Some {
        ProjectKind::Inter(IntersectionID(bi->Some_0.0))
    } else if filter.road && br is Some {
        ProjectKind::Road(RoadID(br->Some_0.0))
    } else if filter.building && bb is Some {
        ProjectKind::Building(BuildingID(bb->Some_0))
    } else {
        ProjectKind::Ground
    };
    MapProject { pos, kind }
}

impl Network {
    /// An empty network over the given terrain.
    pub fn empty(environment: Terrain) -> (r: Network)
        requires
            terrain_wf(environment),
        ensures
            network_inv(r),
            r.intersections@ == Map::<int, Intersection>::empty(),
            r.roads@ == Map::<int, Road>::empty(),
            r.lanes@ == Map::<int, Lane>::empty(),
            r.buildings@ == Map::<int, Building>::empty(),
            r.environment == environment,
            r.intersections.next_key() == 0,
            r.roads.next_key() == 0,
            r.lanes.next_key() == 0,
    {
        Network {
            intersections: Store::new(),
            roads: Store::new(),
            lanes: Store::new(),
            buildings: Store::new(),
            environment,
        }
    }

    /// Classifies `pos`: the nearest intersection whose widened bounding
    /// circle contains it; else the nearest road whose widened pavement
    /// contains it; else a building under it; else open ground. The resolved
    /// position keeps the query position.
    #[verifier::loop_isolation(false)]
    pub fn project(&self, pos: V3, tolerance: i64, filter: ProjectFilter) -> (r: MapProject)
        requires
            network_inv(*self),
            in3(pos),
            0 <= tolerance <= 1_000_000,
        ensures
            r == spec_project(*self, pos, tolerance as int, filter),
    {
        let p = V2 { x: pos.x, y: pos.y };
        if filter.inter {
            match self.project_inter(p, tolerance) {
                Some(id) => {
                    return MapProject { pos, kind: ProjectKind::Inter(id) };
                },
                None => {},
            }
        }
        if filter.road {
            match self.project_road(p, tolerance) {
                Some(id) => {
                    return MapProject { pos, kind: ProjectKind::Road(id) };
                },
                None => {},
            }
        }
        if filter.building {
            match self.project_building(p) {
                Some(id) => {
                    return MapProject { pos, kind: ProjectKind::Building(id) };
                },
                None => {},
            }
        }
        MapProject { pos, kind: ProjectKind::Ground }
    }

    /// The nearest intersection whose widened bounding circle contains `p`.
    #[verifier::loop_isolation(false)]
    fn project_inter(&self, p: V2, tolerance: i64) -> (r: Option<IntersectionID>)
        requires
            network_inv(*self),
            in2(p),
            0 <= tolerance <= 1_000_000,
        ensures
            ({
                let ik = self.intersections.spec_keys();
                let bi = best_inter_upto(ik, self.intersections@, self.roads@, p, tolerance as int,
                    ik.len() as int);
                match r {
                    Some(id) => bi is Some && id == IntersectionID(bi->Some_0.0),
                    None => bi is None,
                }
            }),
    {
        let ks = self.intersections.keys();
        let mut best: Option<(u64, i64)> = None;
        let mut n: usize = 0;
        while n < ks.len()
            invariant
                n <= ks@.len(),
                ks@ == self.intersections.spec_keys(),
                match best {
                    Some(b) => best_inter_upto(ks@, self.intersections@, self.roads@, p,
                        tolerance as int, n as int) == Some((b.0, b.1 as int)) && 0 <= b.1,
                    None => best_inter_upto(ks@, self.intersections@, self.roads@, p,
                        tolerance as int, n as int) is None,
                },
            decreases ks@.len() - n,
        {
            let k = ks[n];
            let inter = match self.intersections.get(k) {
                Some(i) => i,
                None => vstd::pervasive::unreached(),
            };
            let d = dist2_2d_e(p, V2 { x: inter.pos.x, y: inter.pos.y });
            let circle = inter.bcircle(&self.roads);
            proof {
                assert(circle.radius == inter_radius(*inter, self.roads@));
                assert(0 <= circle.radius <= 2_000_000) by {
                    lemma_bcircle_radius_bounds(inter.id, inter.roads@, self.roads@,
                        inter.roads@.len() as int);
                }
            }
            let rad = circle.radius + tolerance;
            proof {
                crate::geom::lemma_mul_bound(rad as int, rad as int, 3_000_000, 3_000_000);
            }
            if rad >= 0 && d <= rad * rad {
                match best {
                    Some(b) => {
                        if d < b.1 {
                            best = Some((k, d));
                        }
                    },
                    None => {
                        best = Some((k, d));
                    },
                }
            }
            n = n + 1;
        }
        match best {
            Some(b) => Some(IntersectionID(b.0)),
            None => None,
        }
    }

    /// The nearest road whose widened pavement contains `p`.
    #[verifier::loop_isolation(false)]
    fn project_road(&self, p: V2, tolerance: i64) -> (r: Option<RoadID>)
        requires
            network_inv(*self),
            in2(p),
            0 <= tolerance <= 1_000_000,
        ensures
            ({
                let rk = self.roads.spec_keys();
                let br = best_road_upto(rk, self.roads@, p, tolerance as int, rk.len() as int);
                match r {
                    Some(id) => br is Some && id == RoadID(br->Some_0.0),
                    None => br is None,
                }
            }),
    {
        let ks = self.roads.keys();
        let mut best: Option<(u64, u128)> = None;
        let mut n: usize = 0;
        while n < ks.len()
            invariant
                n <= ks@.len(),
                ks@ == self.roads.spec_keys(),
                match best {
                    Some(b) => best_road_upto(ks@, self.roads@, p, tolerance as int, n as int)
                        == Some((b.0, b.1 as int)),
                    None => best_road_upto(ks@, self.roads@, p, tolerance as int, n as int)
                        is None,
                },
            decreases ks@.len() - n,
        {
            let k = ks[n];
            let road = match self.roads.get(k) {
                Some(r) => r,
                None => vstd::pervasive::unreached(),
            };
            let flat = flatten_points(&road.points);
            proof {
                assert(forall|j: int|
                    0 <= j < flat@.len() ==> in2(#[trigger] flat@[j]) && flat@[j] == xy(
                        road.points@[j],
                    ));
            }
            let d = poly_dist2_e(p, &flat);
            let rad = ((road.width as u64) / 2) as i64 + tolerance;
            proof {
                crate::geom::lemma_mul_bound(rad as int, rad as int, 2_000_000, 2_000_000);
            }
            let rr = (rad as u128) * (rad as u128);
            if d <= rr {
                match best {
                    Some(b) => {
                        if d < b.1 {
                            best = Some((k, d));
                        }
                    },
                    None => {
                        best = Some((k, d));
                    },
                }
            }
            n = n + 1;
        }
        match best {
            Some(b) => Some(RoadID(b.0)),
            None => None,
        }
    }

    /// The first building whose footprint contains `p`.
    #[verifier::loop_isolation(false)]
    fn project_building(&self, p: V2) -> (r: Option<BuildingID>)
        requires
            network_inv(*self),
        ensures
            ({
                let bk = self.buildings.spec_keys();
                let bb = first_building_upto(bk, self.buildings@, p, bk.len() as int);
                match r {
                    Some(id) => bb is Some && id == BuildingID(bb->Some_0),
                    None => bb is None,
                }
            }),
    {
        let ks = self.buildings.keys();
        let mut found: Option<BuildingID> = None;
        let mut n: usize = 0;
        while n < ks.len()
            invariant
                n <= ks@.len(),
                ks@ == self.buildings.spec_keys(),
                match found {
                    Some(id) => first_building_upto(ks@, self.buildings@, p, n as int) == Some(
                        id.0,
                    ),
                    None => first_building_upto(ks@, self.buildings@, p, n as int) is None,
                },
            decreases ks@.len() - n,
        {
            let k = ks[n];
            let b = match self.buildings.get(k) {
                Some(b) => b,
                None => vstd::pervasive::unreached(),
            };
            if found.is_none() && b.min.x <= p.x && p.x <= b.max.x && b.min.y <= p.y && p.y
                <= b.max.y {
                found = Some(BuildingID(k));
            }
            n = n + 1;
        }
        found
    }
}

/// The planar projection of a spatial polyline.
pub fn flatten_points(pts: &Vec<V3>) -> (r: Vec<V2>)
    ensures
        r@ == Seq::new(pts@.len(), |i: int| xy(pts@[i])),
{
    let mut r: Vec<V2> = Vec::new();
    let mut i: usize = 0;
    while i < pts.len()
        invariant
            i <= pts@.len(),
            r@ =~= Seq::new(pts@.len(), |j: int| xy(pts@[j])).take(i as int),
        decreases pts@.len() - i,
    {
        let p = pts[i];
        r.push(V2 { x: p.x, y: p.y });
        i = i + 1;
    }
    proof {
        assert(r@ =~= Seq::new(pts@.len(), |j: int| xy(pts@[j])));
    }
    r
}

/// The bounding-circle raw maximum stays within the interface bounds.
pub proof fn lemma_bcircle_radius_bounds(
    id: IntersectionID,
    rds: Seq<RoadID>,
    roads: Map<int, Road>,
    n: int,
)
    requires
        0 <= n <= rds.len(),
        forall|k: int|
            #[trigger] roads.contains_key(k) ==> 0 <= roads[k].interface_src <= 2_000_000 && 0
                <= roads[k].interface_dst <= 2_000_000,
    ensures
        -1 <= bcircle_raw_upto(id, rds, roads, n) <= 2_000_000,
    decreases n,
{
    if n > 0 {
        lemma_bcircle_radius_bounds(id, rds, roads, n - 1);
    }
}

} // verus!
