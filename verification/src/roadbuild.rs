//! The interactive road-build validator: a state machine over the candidate
//! segment being drawn, and the three rules — compatibility, angle and
//! non-intersection — every candidate must pass before it may be committed.
//!
//! Validity is a pure function of the current classification and state; it
//! is recomputed on every query and never cached, so stale geometry never
//! leaks into a decision. A commit only emits a connection request; the
//! network applies queued requests itself, at most once each.

use vstd::prelude::*;
use crate::geom::{
    V2, V3, xy, in2, in3, dir2, dot2, dist2_3d, dist2_3d_e, dot2_e, len2_e,
    isqrt, segs_near, segs_near_e, pt_seg_dist2, pt_seg_dist2_e, lemma_mul_bound,
    line_line_intersection, line_line_intersection_e, line_closest_point, line_closest_point_e,
    tdiv, tdiv_e, COORD_LIMIT,
};
use crate::ids::{IntersectionID, RoadID};
use crate::intersection::Intersection;
use crate::lane::{LanePatternBuilder, LanePattern, builder_wf, builder_width};
use crate::network::{
    Network, network_inv, MapProject, ProjectKind, ProjectFilter, spec_project, inter_radius,
    flatten_points,
};
use crate::road::{Road, road_dir_from, road_interface_from, pts_in3};
use crate::store::Store;
use crate::turn_policy::mag_prod;

verus! {

/// Minimum separation of a candidate's two endpoints (10 length units).
pub const MIN_ENDPOINT_DIST: i64 = 1000;

/// Grid step for grid snapping (20 length units).
pub const GRID_STEP: i64 = 2_000;

/// Capture radius of an angle-snap candidate point (20 length units).
pub const SNAP_RADIUS: i64 = 2_000;

/// Elevation half-band within which two roads are considered to be at the
/// same level (1 length unit).
pub const ELEVATION_BAND: i64 = 100;

/// Step the elevation keys move the candidate offset by (5 length units).
pub const ELEVATION_STEP: i64 = 500;

/// Cap of the candidate elevation offset (100 length units).
pub const ELEVATION_CAP: i64 = 10_000;

/// Where the interaction stands while a road is being drawn.
#[derive(Clone, Copy, PartialEq, Eq, Structural, Debug)]
pub enum BuildState {
    /// No candidate start selected.
    Hover,
    /// A start chosen, straight mode; waiting for the end point.
    Start(MapProject),
    /// A start chosen, curved mode; the next click sets the interpolation
    /// point, not the end.
    StartInterp(MapProject),
    /// Both endpoints chosen; a free elbow point awaits confirmation.
    Connection(MapProject, MapProject),
    /// A start and an interpolation point chosen; waiting for the end.
    Interpolation(V2, MapProject),
}

/// Which road-build tool is active.
#[derive(Clone, Copy, PartialEq, Eq, Structural, Debug)]
pub enum BuildTool {
    Straight,
    Curved,
    Off,
}

/// The interactive road-build state. Transient: never persisted.
pub struct RoadBuildResource {
    pub build_state: BuildState,
    pub pattern_builder: LanePatternBuilder,
    pub snap_to_grid: bool,
    pub snap_to_angle: bool,
    pub height_offset: i64,
    pub straight_points: Vec<V3>,
}

/// A queued network-mutation request: connect `from` to `to`, bending
/// through `interpoint` if set, with the given lane pattern. Applied at most
/// once, in submission order, by the network itself.
pub struct ConnectionRequest {
    pub from: MapProject,
    pub to: MapProject,
    pub interpoint: Option<V2>,
    pub pattern: LanePattern,
}

/// One frame of plain input handed to the validator.
#[derive(Clone, Copy, PartialEq, Eq, Structural, Debug)]
pub struct RoadBuildInput {
    /// The cursor position projected onto the world, if any.
    pub unprojected: Option<V3>,
    /// Classification tolerance derived from the camera height.
    pub tolerance: i64,
    pub tool: BuildTool,
    pub select: bool,
    pub close: bool,
    pub up_elevation: bool,
    pub down_elevation: bool,
    pub nosnapping: bool,
}

// ---------------------------------------------------------------------------
// Rule 1: compatibility.

/// Whether two classified endpoints may be connected: they must be at least
/// the minimum separation apart; ground pairs with anything, two distinct
/// roads or two distinct intersections pair, and a road pairs with an
/// intersection only if it does not already terminate there. Buildings
/// pair with nothing.
pub open spec fn spec_compatible(roads: Map<int, Road>, x: MapProject, y: MapProject) -> bool {
    if dist2_3d(x.pos, y.pos) < MIN_ENDPOINT_DIST * MIN_ENDPOINT_DIST {
        false
    } else {
        match (x.kind, y.kind) {
            (ProjectKind::Ground, ProjectKind::Ground) => true,
            (ProjectKind::Ground, ProjectKind::Road(_)) => true,
            (ProjectKind::Ground, ProjectKind::Inter(_)) => true,
            (ProjectKind::Road(_), ProjectKind::Ground) => true,
            (ProjectKind::Inter(_), ProjectKind::Ground) => true,
            (ProjectKind::Road(a), ProjectKind::Road(b)) => a != b,
            (ProjectKind::Inter(a), ProjectKind::Inter(b)) => a != b,
            (ProjectKind::Inter(i), ProjectKind::Road(r)) => roads[r.0 as int].src != i
                && roads[r.0 as int].dst != i,
            (ProjectKind::Road(r), ProjectKind::Inter(i)) => roads[r.0 as int].src != i
                && roads[r.0 as int].dst != i,
            _ => false,
        }
    }
}

/// Whether a classification's road identity, if any, is present.
pub open spec fn proj_road_present(roads: Map<int, Road>, x: MapProject) -> bool {
    x.kind is Road ==> roads.contains_key(x.kind->Road_0.0 as int)
}

/// Exact evaluation of the compatibility rule. Endpoints closer than the
/// minimum separation are rejected regardless of their kinds.
pub fn compatible(map: &Network, x: MapProject, y: MapProject) -> (r: bool)
    requires
        network_inv(*map),
        in3(x.pos),
        in3(y.pos),
        proj_road_present(map.roads@, x),
        proj_road_present(map.roads@, y),
    ensures
        r == spec_compatible(map.roads@, x, y),
        dist2_3d(x.pos, y.pos) < MIN_ENDPOINT_DIST * MIN_ENDPOINT_DIST ==> !r,
{
    let d = dist2_3d_e(x.pos, y.pos);
    if d < MIN_ENDPOINT_DIST * MIN_ENDPOINT_DIST {
        return false;
    }
    match (x.kind, y.kind) {
        (ProjectKind::Ground, ProjectKind::Ground) => true,
        (ProjectKind::Ground, ProjectKind::Road(_)) => true,
        (ProjectKind::Ground, ProjectKind::Inter(_)) => true,
        (ProjectKind::Road(_), ProjectKind::Ground) => true,
        (ProjectKind::Inter(_), ProjectKind::Ground) => true,
        (ProjectKind::Road(a), ProjectKind::Road(b)) => a != b,
        (ProjectKind::Inter(a), ProjectKind::Inter(b)) => a != b,
        (ProjectKind::Inter(i), ProjectKind::Road(rid)) => {
            let road = road_of(&map.roads, rid);
            road.src != i && road.dst != i
        },
        (ProjectKind::Road(rid), ProjectKind::Inter(i)) => {
            let road = road_of(&map.roads, rid);
            road.src != i && road.dst != i
        },
        _ => false,
    }
}

/// The road under a known-present identity.
fn road_of<'a>(roads: &'a Store<Road>, rid: RoadID) -> (r: &'a Road)
    requires
        roads@.contains_key(rid.0 as int),
    ensures
        *r == roads@[rid.0 as int],
{
    match roads.get(rid.0) {
        Some(r) => r,
        None => vstd::pervasive::unreached(),
    }
}

// ---------------------------------------------------------------------------
// Rule 2: angle.

/// Whether the angle between two departure directions is at least the
/// minimum turn angle: the fixed-point cosine must not exceed 0.866
/// (30 degrees) — rail has a zero minimum and always passes here, since its
/// alignment comes from the projection-based snap points.
pub open spec fn angle_ge_min(a: V2, b: V2, is_rail: bool) -> bool {
    if is_rail {
        true
    } else {
        1000 * dot2(a, b) <= 866 * mag_prod(a, b)
    }
}

/// Exact evaluation of the minimum-angle comparison.
pub fn angle_ge_min_e(a: V2, b: V2, is_rail: bool) -> (r: bool)
    requires
        dir2(a),
        dir2(b),
    ensures
        r == angle_ge_min(a, b, is_rail),
{
    if is_rail {
        return true;
    }
    let d = dot2_e(a, b);
    let l1 = len2_e(a);
    let l2 = len2_e(b);
    proof {
        lemma_mul_bound(a.x as int, a.x as int, 20_000_000, 20_000_000);
        lemma_mul_bound(a.y as int, a.y as int, 20_000_000, 20_000_000);
        lemma_mul_bound(b.x as int, b.x as int, 20_000_000, 20_000_000);
        lemma_mul_bound(b.y as int, b.y as int, 20_000_000, 20_000_000);
        lemma_mul_bound(a.x as int, b.x as int, 20_000_000, 20_000_000);
        lemma_mul_bound(a.y as int, b.y as int, 20_000_000, 20_000_000);
    }
    let m1 = isqrt(l1 as u64);
    let m2 = isqrt(l2 as u64);
    proof {
        assert(m1 <= 30_000_000 && m2 <= 30_000_000) by (nonlinear_arith)
            requires
                0 <= m1,
                0 <= m2,
                (m1 as int) * (m1 as int) <= l1 as int,
                (m2 as int) * (m2 as int) <= l2 as int,
                l1 <= 800_000_000_000_000i64,
                l2 <= 800_000_000_000_000i64,
        ;
        lemma_mul_bound(m1 as int, m2 as int, 30_000_000, 30_000_000);
    }
    let m: i64 = (m1 as i64) * (m2 as i64);
    1000 * d <= 866 * m
}

/// Whether the first `n` roads of the intersection all differ from the
/// candidate departure direction by at least the minimum turn angle.
/// A listed road no longer present is skipped.
pub open spec fn inter_angles_ok_upto(
    inter: Intersection,
    roads: Map<int, Road>,
    dir: V2,
    is_rail: bool,
    n: int,
) -> bool
    decreases n,
{
    if n <= 0 {
        true
    } else {
        let pre = inter_angles_ok_upto(inter, roads, dir, is_rail, n - 1);
        let k = inter.roads@[n - 1].0 as int;
        if roads.contains_key(k) {
            pre && angle_ge_min(road_dir_from(roads[k], inter.id), dir, is_rail)
        } else {
            pre
        }
    }
}

/// The index of the first segment of `pts` nearest to `p`, among the first
/// `n` segments.
pub open spec fn nearest_seg_upto(p: V2, pts: Seq<V2>, n: int) -> int
    decreases n,
{
    if n <= 1 {
        0
    } else {
        let m = nearest_seg_upto(p, pts, n - 1);
        if pt_seg_dist2(p, pts[n - 1], pts[n]) < pt_seg_dist2(p, pts[m], pts[m + 1]) {
            n - 1
        } else {
            m
        }
    }
}

/// The nearest segment index is in range.
pub proof fn lemma_nearest_seg_in_range(p: V2, pts: Seq<V2>, n: int)
    requires
        1 <= n,
    ensures
        0 <= nearest_seg_upto(p, pts, n) < n,
    decreases n,
{
    if n > 1 {
        lemma_nearest_seg_in_range(p, pts, n - 1);
    }
}

/// The point of the segment `a..b` closest to `p`, with the parameter
/// clamped to the segment, rounded to integer coordinates; `a` for a
/// degenerate segment. The elevation is interpolated the same way.
pub open spec fn proj_on_seg(p: V2, a: V3, b: V3) -> V3 {
    let ux = b.x - a.x;
    let uy = b.y - a.y;
    let uu = ux * ux + uy * uy;
    if uu == 0 {
        a
    } else {
        let t0 = ux * (p.x - a.x) + uy * (p.y - a.y);
        let t = if t0 < 0 {
            0
        } else if t0 > uu {
            uu
        } else {
            t0
        };
        V3 {
            x: (a.x + tdiv((b.x - a.x) * t, uu)) as i64,
            y: (a.y + tdiv((b.y - a.y) * t, uu)) as i64,
            z: (a.z + tdiv((b.z - a.z) * t, uu)) as i64,
        }
    }
}

/// The projection of `p` onto the centerline `pts`: the closest point of
/// the nearest segment, together with that segment's direction.
pub open spec fn spec_project_segment_dir(p: V2, pts: Seq<V3>) -> (V3, V2) {
    let flat = Seq::new(pts.len(), |i: int| xy(pts[i]));
    let m = nearest_seg_upto(p, flat, pts.len() - 1);
    let proj = proj_on_seg(p, pts[m], pts[m + 1]);
    let d = V2 { x: (pts[m + 1].x - pts[m].x) as i64, y: (pts[m + 1].y - pts[m].y) as i64 };
    (proj, d)
}

/// Exact projection of a point onto a bounded centerline.
#[verifier::loop_isolation(false)]
pub fn project_segment_dir(p: V2, pts: &Vec<V3>) -> (r: (V3, V2))
    requires
        in2(p),
        pts@.len() >= 2,
        pts_in3(pts@),
    ensures
        r == spec_project_segment_dir(p, pts@),
        in3(r.0),
        dir2(r.1),
{
    let ghost flat = Seq::new(pts@.len(), |i: int| xy(pts@[i]));
    let mut m: usize = 0;
    let mut best: u128 = pt_seg_dist2_e(
        p,
        V2 { x: pts[0].x, y: pts[0].y },
        V2 { x: pts[1].x, y: pts[1].y },
    );
    let mut n: usize = 1;
    proof {
        assert(flat[0] == xy(pts@[0]) && flat[1] == xy(pts@[1]));
    }
    while n < pts.len() - 1
        invariant
            1 <= n <= pts@.len() - 1,
            m as int == nearest_seg_upto(p, flat, n as int),
            m < n,
            best == pt_seg_dist2(p, flat[m as int], flat[m as int + 1]),
        decreases pts@.len() - n,
    {
        let d = pt_seg_dist2_e(
            p,
            V2 { x: pts[n].x, y: pts[n].y },
            V2 { x: pts[n + 1].x, y: pts[n + 1].y },
        );
        proof {
            assert(flat[n as int] == xy(pts@[n as int]) && flat[n as int + 1] == xy(
                pts@[n as int + 1],
            ));
        }
        if d < best {
            m = n;
            best = d;
        }
        n = n + 1;
    }
    let a = pts[m];
    let b = pts[m + 1];
    let proj = proj_on_seg_e(p, a, b);
    (proj, V2 { x: b.x - a.x, y: b.y - a.y })
}

/// Exact clamped projection of `p` onto one segment.
fn proj_on_seg_e(p: V2, a: V3, b: V3) -> (r: V3)
    requires
        in2(p),
        in3(a),
        in3(b),
    ensures
        r == proj_on_seg(p, a, b),
        in3(r),
{
    let ux = (b.x - a.x) as i128;
    let uy = (b.y - a.y) as i128;
    proof {
        lemma_mul_bound(ux as int, ux as int, 20_000_000, 20_000_000);
        lemma_mul_bound(uy as int, uy as int, 20_000_000, 20_000_000);
        assert(0 <= ux as int * ux as int && 0 <= uy as int * uy as int) by (nonlinear_arith);
    }
    let uu = ux * ux + uy * uy;
    if uu == 0 {
        return a;
    }
    proof {
        lemma_mul_bound(ux as int, (p.x - a.x) as int, 20_000_000, 20_000_000);
        lemma_mul_bound(uy as int, (p.y - a.y) as int, 20_000_000, 20_000_000);
    }
    let t0 = ux * ((p.x - a.x) as i128) + uy * ((p.y - a.y) as i128);
    let t = if t0 < 0 {
        0
    } else if t0 > uu {
        uu
    } else {
        t0
    };
    proof {
        lemma_mul_bound((b.x - a.x) as int, t as int, 20_000_000, 800_000_000_000_000);
        lemma_mul_bound((b.y - a.y) as int, t as int, 20_000_000, 800_000_000_000_000);
        lemma_mul_bound((b.z - a.z) as int, t as int, 20_000_000, 800_000_000_000_000);
        crate::geom::lemma_tdiv_scaled_range((b.x - a.x) as int, t as int, uu as int);
        crate::geom::lemma_tdiv_scaled_range((b.y - a.y) as int, t as int, uu as int);
        crate::geom::lemma_tdiv_scaled_range((b.z - a.z) as int, t as int, uu as int);
    }
    let rx = (a.x as i128) + tdiv_e(((b.x - a.x) as i128) * t, uu);
    let ry = (a.y as i128) + tdiv_e(((b.y - a.y) as i128) * t, uu);
    let rz = (a.z as i128) + tdiv_e(((b.z - a.z) as i128) * t, uu);
    V3 { x: rx as i64, y: ry as i64, z: rz as i64 }
}

/// The angle rule: the departure direction implied by the candidate segment
/// must differ from every other road already incident at a shared
/// intersection endpoint — or from both tangents when joining mid-road — by
/// at least the minimum turn angle. A missing target fails; ground and
/// building anchors pass.
pub open spec fn spec_check_angle(m: Network, from: MapProject, to: V2, is_rail: bool) -> bool {
    match from.kind {
        ProjectKind::Inter(i) => {
            if !m.intersections@.contains_key(i.0 as int) {
                false
            } else {
                let inter = m.intersections@[i.0 as int];
                let dir = V2 {
                    x: (to.x - inter.pos.x) as i64,
                    y: (to.y - inter.pos.y) as i64,
                };
                inter_angles_ok_upto(inter, m.roads@, dir, is_rail, inter.roads@.len() as int)
            }
        },
        ProjectKind::Road(rid) => {
            if !m.roads@.contains_key(rid.0 as int) {
                false
            } else {
                let r = m.roads@[rid.0 as int];
                let pd = spec_project_segment_dir(xy(from.pos), r.points@);
                let dir = V2 { x: (to.x - pd.0.x) as i64, y: (to.y - pd.0.y) as i64 };
                let neg = V2 { x: (0 - pd.1.x as int) as i64, y: (0 - pd.1.y as int) as i64 };
                angle_ge_min(pd.1, dir, is_rail) && angle_ge_min(neg, dir, is_rail)
            }
        },
        _ => true,
    }
}

/// Exact evaluation of the angle rule.
#[verifier::loop_isolation(false)]
pub fn check_angle(map: &Network, from: MapProject, to: V2, is_rail: bool) -> (r: bool)
    requires
        network_inv(*map),
        in3(from.pos),
        in2(to),
    ensures
        r == spec_check_angle(*map, from, to, is_rail),
{
    match from.kind {
        ProjectKind::Inter(i) => {
            let inter = match map.intersections.get(i.0) {
                Some(x) => x,
                None => {
                    return false;
                },
            };
            let dir = V2 { x: to.x - inter.pos.x, y: to.y - inter.pos.y };
            let mut j: usize = 0;
            let n = inter.roads.len();
            let mut ok = true;
            while j < n
                invariant
                    j <= n,
                    n == inter.roads@.len(),
                    ok == inter_angles_ok_upto(*inter, map.roads@, dir, is_rail, j as int),
                decreases n - j,
            {
                let rid = inter.roads[j];
                match map.roads.get(rid.0) {
                    Some(road) => {
                        let rd = road.dir_from(inter.id);
                        if !angle_ge_min_e(rd, dir, is_rail) {
                            ok = false;
                        }
                    },
                    None => {},
                }
                j = j + 1;
            }
            ok
        },
        ProjectKind::Road(rid) => {
            let road = match map.roads.get(rid.0) {
                Some(x) => x,
                None => {
                    return false;
                },
            };
            let (proj, rdir) = project_segment_dir(V2 { x: from.pos.x, y: from.pos.y },
                &road.points);
            let dir = V2 { x: to.x - proj.x, y: to.y - proj.y };
            let neg = V2 { x: -rdir.x, y: -rdir.y };
            angle_ge_min_e(rdir, dir, is_rail) && angle_ge_min_e(neg, dir, is_rail)
        },
        _ => true,
    }
}

// ---------------------------------------------------------------------------
// Rule 3: non-intersection.

/// Whether the capsule around segment `a..b` comes within the squared bound
/// `rr` of any of the first `n` segments of `pts`.
pub open spec fn seg_near_poly_upto(a: V2, b: V2, pts: Seq<V2>, rr: int, n: int) -> bool
    decreases n,
{
    if n <= 0 {
        false
    } else {
        seg_near_poly_upto(a, b, pts, rr, n - 1) || segs_near(a, b, pts[n - 1], pts[n], rr)
    }
}

/// Whether any of the first `n` segments of `cand` comes within `rr` of any
/// segment of `pts`.
pub open spec fn poly_near_poly_upto(cand: Seq<V2>, pts: Seq<V2>, rr: int, n: int) -> bool
    decreases n,
{
    if n <= 0 {
        false
    } else {
        poly_near_poly_upto(cand, pts, rr, n - 1) || seg_near_poly_upto(cand[n - 1], cand[n], pts,
            rr, pts.len() - 1)
    }
}

/// Whether the point `c` lies within the squared bound `rr` of any of the
/// first `n` segments of `cand`.
pub open spec fn pt_near_poly_upto(c: V2, cand: Seq<V2>, rr: int, n: int) -> bool
    decreases n,
{
    if n <= 0 {
        false
    } else {
        pt_near_poly_upto(c, cand, rr, n - 1) || pt_seg_dist2(c, cand[n - 1], cand[n]) < rr
    }
}

/// Whether a road is deliberately excluded from the collision check: the
/// candidate connects to it, or to one of its endpoints.
pub open spec fn road_excluded(r: Road, start: ProjectKind, end: ProjectKind) -> bool {
    ||| start == ProjectKind::Road(r.id)
    ||| end == ProjectKind::Road(r.id)
    ||| (start is Inter && (r.src == start->Inter_0 || r.dst == start->Inter_0))
    ||| (end is Inter && (r.src == end->Inter_0 || r.dst == end->Inter_0))
}

/// Whether a road blocks the candidate: not excluded, within the elevation
/// band of the candidate at both of its ends, and its widened footprint
/// meets the candidate's widened footprint.
pub open spec fn road_blocks(
    cand: Seq<V2>,
    z: int,
    hw: int,
    r: Road,
    start: ProjectKind,
    end: ProjectKind,
) -> bool {
    let rr = (hw + r.width / 2) * (hw + r.width / 2);
    let flat = Seq::new(r.points@.len(), |i: int| xy(r.points@[i]));
    &&& !road_excluded(r, start, end)
    &&& -ELEVATION_BAND <= r.points@[0].z - z <= ELEVATION_BAND
    &&& -ELEVATION_BAND <= r.points@[r.points@.len() - 1].z - z <= ELEVATION_BAND
    &&& poly_near_poly_upto(cand, flat, rr, cand.len() - 1)
}

/// Whether any road of the first `n` keys blocks the candidate.
pub open spec fn any_road_blocks_upto(
    ks: Seq<u64>,
    roads: Map<int, Road>,
    cand: Seq<V2>,
    z: int,
    hw: int,
    start: ProjectKind,
    end: ProjectKind,
    n: int,
) -> bool
    decreases n,
{
    if n <= 0 {
        false
    } else {
        any_road_blocks_upto(ks, roads, cand, z, hw, start, end, n - 1) || road_blocks(cand, z,
            hw, roads[ks[n - 1] as int], start, end)
    }
}

/// Whether an intersection blocks the candidate: it is not one the
/// candidate deliberately connects to, and its bounding circle meets the
/// candidate's widened footprint.
pub open spec fn inter_blocks(
    cand: Seq<V2>,
    hw: int,
    i: Intersection,
    roads: Map<int, Road>,
    start: ProjectKind,
    end: ProjectKind,
) -> bool {
    let rad = hw + inter_radius(i, roads);
    &&& start != ProjectKind::Inter(i.id)
    &&& end != ProjectKind::Inter(i.id)
    &&& pt_near_poly_upto(xy(i.pos), cand, rad * rad, cand.len() - 1)
}

/// Whether any intersection of the first `n` keys blocks the candidate.
pub open spec fn any_inter_blocks_upto(
    ks: Seq<u64>,
    inters: Map<int, Intersection>,
    roads: Map<int, Road>,
    cand: Seq<V2>,
    hw: int,
    start: ProjectKind,
    end: ProjectKind,
    n: int,
) -> bool
    decreases n,
{
    if n <= 0 {
        false
    } else {
        any_inter_blocks_upto(ks, inters, roads, cand, hw, start, end, n - 1) || inter_blocks(
            cand,
            hw,
            inters[ks[n - 1] as int],
            roads,
            start,
            end,
        )
    }
}

/// The non-intersection rule: whether the candidate footprint — the path
/// `cand` swept with half-width `hw` at elevation `z` — overlaps any
/// existing road or intersection footprint other than the two it connects
/// to.
pub open spec fn spec_check_intersect(
    m: Network,
    cand: Seq<V2>,
    z: int,
    hw: int,
    start: ProjectKind,
    end: ProjectKind,
) -> bool {
    let rk = m.roads.spec_keys();
    let ik = m.intersections.spec_keys();
    any_road_blocks_upto(rk, m.roads@, cand, z, hw, start, end, rk.len() as int)
        || any_inter_blocks_upto(ik, m.intersections@, m.roads@, cand, hw, start, end,
        ik.len() as int)
}

/// Exact evaluation of the non-intersection rule.
#[verifier::loop_isolation(false)]
pub fn check_intersect(
    map: &Network,
    cand: &Vec<V2>,
    z: i64,
    hw: i64,
    start: ProjectKind,
    end: ProjectKind,
) -> (r: bool)
    requires
        network_inv(*map),
        cand@.len() >= 2,
        forall|i: int| 0 <= i < cand@.len() ==> in2(#[trigger] cand@[i]),
        0 <= hw <= 1_000_000,
        -COORD_LIMIT <= z <= COORD_LIMIT,
    ensures
        r == spec_check_intersect(*map, cand@, z as int, hw as int, start, end),
{
    let rk = map.roads.keys();
    let mut n: usize = 0;
    let mut hit = false;
    while n < rk.len()
        invariant
            n <= rk@.len(),
            rk@ == map.roads.spec_keys(),
            hit == any_road_blocks_upto(rk@, map.roads@, cand@, z as int, hw as int, start, end,
                n as int),
        decreases rk@.len() - n,
    {
        let road = road_of(&map.roads, RoadID(rk[n]));
        if road_blocks_e(cand, z, hw, road, start, end) {
            hit = true;
        }
        n = n + 1;
    }
    if hit {
        return true;
    }
    let ik = map.intersections.keys();
    let mut n2: usize = 0;
    let mut hit2 = false;
    while n2 < ik.len()
        invariant
            n2 <= ik@.len(),
            ik@ == map.intersections.spec_keys(),
            hit2 == any_inter_blocks_upto(ik@, map.intersections@, map.roads@, cand@, hw as int,
                start, end, n2 as int),
        decreases ik@.len() - n2,
    {
        let inter = match map.intersections.get(ik[n2]) {
            Some(i) => i,
            None => vstd::pervasive::unreached(),
        };
        proof {
            crate::network::lemma_bcircle_radius_bounds(inter.id, inter.roads@, map.roads@,
                inter.roads@.len() as int);
        }
        if inter_blocks_e(map, cand, hw, inter, start, end) {
            hit2 = true;
        }
        n2 = n2 + 1;
    }
    hit2
}

/// Whether one road blocks the candidate.
#[verifier::loop_isolation(false)]
fn road_blocks_e(
    cand: &Vec<V2>,
    z: i64,
    hw: i64,
    road: &Road,
    start: ProjectKind,
    end: ProjectKind,
) -> (r: bool)
    requires
        cand@.len() >= 2,
        forall|i: int| 0 <= i < cand@.len() ==> in2(#[trigger] cand@[i]),
        0 <= hw <= 1_000_000,
        -COORD_LIMIT <= z <= COORD_LIMIT,
        crate::road::road_geom_wf(*road),
    ensures
        r == road_blocks(cand@, z as int, hw as int, *road, start, end),
{
    let s_road = match start {
        ProjectKind::Road(x) => x == road.id,
        _ => false,
    };
    let e_road = match end {
        ProjectKind::Road(x) => x == road.id,
        _ => false,
    };
    let s_inter = match start {
        ProjectKind::Inter(i) => road.src == i || road.dst == i,
        _ => false,
    };
    let e_inter = match end {
        ProjectKind::Inter(i) => road.src == i || road.dst == i,
        _ => false,
    };
    if s_road || e_road || s_inter || e_inter {
        return false;
    }
    let first = road.points[0];
    let last = road.points[road.points.len() - 1];
    if first.z - z > ELEVATION_BAND || first.z - z < -ELEVATION_BAND || last.z - z
        > ELEVATION_BAND || last.z - z < -ELEVATION_BAND {
        return false;
    }
    let rad = hw + ((road.width as u64) / 2) as i64;
    proof {
        lemma_mul_bound(rad as int, rad as int, 2_000_000, 2_000_000);
    }
    let rr = (rad as u128) * (rad as u128);
    let flat = flatten_points(&road.points);
    proof {
        assert(forall|i: int| 0 <= i < flat@.len() ==> in2(#[trigger] flat@[i]));
    }
    let mut n: usize = 0;
    let mut hit = false;
    while n < cand.len() - 1
        invariant
            n <= cand@.len() - 1,
            hit == poly_near_poly_upto(cand@, flat@, rr as int, n as int),
        decreases cand@.len() - n,
    {
        let a = cand[n];
        let b = cand[n + 1];
        let mut j: usize = 0;
        let mut seg_hit = false;
        while j < flat.len() - 1
            invariant
                j <= flat@.len() - 1,
                n < cand@.len() - 1,
                a == cand@[n as int],
                b == cand@[n as int + 1],
                seg_hit == seg_near_poly_upto(a, b, flat@, rr as int, j as int),
            decreases flat@.len() - j,
        {
            if segs_near_e(a, b, flat[j], flat[j + 1], rr) {
                seg_hit = true;
            }
            j = j + 1;
        }
        if seg_hit {
            hit = true;
        }
        n = n + 1;
    }
    hit
}

/// Whether one intersection blocks the candidate.
#[verifier::loop_isolation(false)]
fn inter_blocks_e(
    map: &Network,
    cand: &Vec<V2>,
    hw: i64,
    inter: &Intersection,
    start: ProjectKind,
    end: ProjectKind,
) -> (r: bool)
    requires
        network_inv(*map),
        cand@.len() >= 2,
        forall|i: int| 0 <= i < cand@.len() ==> in2(#[trigger] cand@[i]),
        0 <= hw <= 1_000_000,
        in3(inter.pos),
        inter_radius(*inter, map.roads@) <= 2_000_000,
    ensures
        r == inter_blocks(cand@, hw as int, *inter, map.roads@, start, end),
{
    let s_same = match start {
        ProjectKind::Inter(i) => i == inter.id,
        _ => false,
    };
    let e_same = match end {
        ProjectKind::Inter(i) => i == inter.id,
        _ => false,
    };
    if s_same || e_same {
        return false;
    }
    let circle = inter.bcircle(&map.roads);
    proof {
        assert(circle.radius == inter_radius(*inter, map.roads@));
        assert(circle.radius >= -1);
        lemma_mul_bound((hw + circle.radius) as int, (hw + circle.radius) as int, 3_000_000,
            3_000_000);
        assert((hw + circle.radius) as int * ((hw + circle.radius) as int) >= 0)
            by (nonlinear_arith);
    }
    let rad = hw + circle.radius;
    let rr = (rad * rad) as u128;
    let c = V2 { x: inter.pos.x, y: inter.pos.y };
    let mut n: usize = 0;
    let mut hit = false;
    while n < cand.len() - 1
        invariant
            n <= cand@.len() - 1,
            hit == pt_near_poly_upto(c, cand@, rr as int, n as int),
        decreases cand@.len() - n,
    {
        if pt_seg_dist2_e(c, cand[n], cand[n + 1]) < rr {
            hit = true;
        }
        n = n + 1;
    }
    hit
}

// ---------------------------------------------------------------------------
// Snapping and candidate anchor points.

/// A coordinate snapped to the nearest grid line.
pub open spec fn grid_snap(x: int) -> int {
    ((x + GRID_STEP as int / 2 + COORD_LIMIT as int) / GRID_STEP as int) * GRID_STEP as int
        - COORD_LIMIT as int
}

/// Exact grid snapping of one coordinate.
pub fn grid_snap_e(x: i64) -> (r: i64)
    requires
        -COORD_LIMIT <= x <= COORD_LIMIT,
    ensures
        r == grid_snap(x as int),
        -COORD_LIMIT <= r <= COORD_LIMIT,
{
    let shifted: u64 = (x + GRID_STEP / 2 + COORD_LIMIT) as u64;
    let q: u64 = shifted / (GRID_STEP as u64);
    proof {
        assert(q == (x as int + 1000 + COORD_LIMIT as int) / 2000);
        assert(2000 * (q as int) <= (shifted as int) && (shifted as int) < 2000 * (q as int + 1))
            by {
            vstd::arithmetic::div_mod::lemma_fundamental_div_mod(shifted as int, 2000);
        }
    }
    (q as i64) * GRID_STEP - COORD_LIMIT
}

/// The centerline point a straight continuation of `r` out of intersection
/// `id` would depart from: the point next to that end.
pub open spec fn straight_connection_point(r: Road, id: IntersectionID) -> V2 {
    if id == r.src {
        xy(r.points@[1])
    } else {
        xy(r.points@[r.points@.len() - 2])
    }
}

/// Exact straight-connection point of a road at one of its ends.
pub fn straight_connection_point_e(r: &Road, id: IntersectionID) -> (p: V2)
    requires
        r.points@.len() >= 2,
        pts_in3(r.points@),
    ensures
        p == straight_connection_point(*r, id),
        in2(p),
{
    if id == r.src {
        let q = r.points[1];
        V2 { x: q.x, y: q.y }
    } else {
        let q = r.points[r.points.len() - 2];
        V2 { x: q.x, y: q.y }
    }
}

/// A planar candidate point lifted onto the terrain, where covered.
pub open spec fn lift_point(t: crate::road::Terrain, p: V2) -> Option<V3> {
    if crate::road::terrain_covers(t, p) {
        Some(V3 { x: p.x, y: p.y, z: t.elevation })
    } else {
        None
    }
}

/// The candidate straight-alignment points between two intersections, over
/// the first `i` roads of `a` paired with the first `j` roads of `b`:
/// every pairwise intersection of the two straight continuations that lands
/// on covered terrain.
pub open spec fn ii_cell(m: Network, a: Intersection, b: Intersection, ra: RoadID, rb: RoadID)
    -> Seq<V3> {
    if m.roads@.contains_key(ra.0 as int) && m.roads@.contains_key(rb.0 as int) {
        let p = line_line_intersection(
            xy(a.pos),
            straight_connection_point(m.roads@[ra.0 as int], a.id),
            xy(b.pos),
            straight_connection_point(m.roads@[rb.0 as int], b.id),
        );
        match p {
            Some(q) => match lift_point(m.environment, q) {
                Some(v) => seq![v],
                None => Seq::empty(),
            },
            None => Seq::empty(),
        }
    } else {
        Seq::empty()
    }
}

pub open spec fn ii_row_upto(m: Network, a: Intersection, b: Intersection, i: int, j: int) -> Seq<
    V3,
>
    decreases j,
{
    if j <= 0 {
        Seq::empty()
    } else {
        ii_row_upto(m, a, b, i, j - 1) + ii_cell(m, a, b, a.roads@[i], b.roads@[j - 1])
    }
}

pub open spec fn ii_upto(m: Network, a: Intersection, b: Intersection, i: int) -> Seq<V3>
    decreases i,
{
    if i <= 0 {
        Seq::empty()
    } else {
        ii_upto(m, a, b, i - 1) + ii_row_upto(m, a, b, i - 1, b.roads@.len() as int)
    }
}

/// The candidate straight-alignment points from an intersection toward a
/// free cursor, over the first `i` roads: the closest point to the cursor on
/// each road's straight continuation, where it lands on covered terrain.
pub open spec fn ig_upto(m: Network, a: Intersection, mouse: V2, i: int) -> Seq<V3>
    decreases i,
{
    if i <= 0 {
        Seq::empty()
    } else {
        let pre = ig_upto(m, a, mouse, i - 1);
        let rid = a.roads@[i - 1];
        if m.roads@.contains_key(rid.0 as int) {
            let p = line_closest_point(
                mouse,
                straight_connection_point(m.roads@[rid.0 as int], a.id),
                xy(a.pos),
            );
            match p {
                Some(q) => match lift_point(m.environment, q) {
                    Some(v) => pre.push(v),
                    None => pre,
                },
                None => pre,
            }
        } else {
            pre
        }
    }
}

/// The straight-alignment candidate points for the current anchor and
/// cursor: between two chosen intersections every pairwise alignment, from
/// one intersection toward the cursor each road's continuation. Other
/// anchors produce no candidates.
/// The tangent line of a road at the projection of an anchor position: the
/// projected point and its segment's direction. Meaningful only for roads
/// with well-formed geometry.
pub open spec fn road_tangent(m: Network, rid: RoadID, at: V3) -> (V3, V2) {
    spec_project_segment_dir(xy(at), m.roads@[rid.0 as int].points@)
}

/// The rail alignment candidates from an intersection toward a mid-road
/// tangent: each incident road's straight continuation intersected with the
/// tangent line.
pub open spec fn ir_upto(m: Network, a: Intersection, tangent: (V3, V2), i: int) -> Seq<V3>
    decreases i,
{
    if i <= 0 {
        Seq::empty()
    } else {
        let pre = ir_upto(m, a, tangent, i - 1);
        let rid = a.roads@[i - 1];
        if m.roads@.contains_key(rid.0 as int) {
            let pos = xy(tangent.0);
            let ahead = V2 { x: (pos.x + tangent.1.x) as i64, y: (pos.y + tangent.1.y) as i64 };
            let p = line_line_intersection(
                straight_connection_point(m.roads@[rid.0 as int], a.id),
                xy(a.pos),
                pos,
                ahead,
            );
            match p {
                Some(q) => match lift_point(m.environment, q) {
                    Some(v) => pre.push(v),
                    None => pre,
                },
                None => pre,
            }
        } else {
            pre
        }
    }
}

/// Whether a road identity resolves to well-formed geometry.
pub open spec fn road_usable(m: Network, rid: RoadID) -> bool {
    m.roads@.contains_key(rid.0 as int) && crate::road::road_geom_wf(m.roads@[rid.0 as int])
}

pub open spec fn spec_update_points(
    m: Network,
    state: BuildState,
    mousepos: V3,
    rail: bool,
) -> Seq<V3> {
    let anchors: Option<(MapProject, MapProject)> = match state {
        BuildState::Hover => None,
        BuildState::Interpolation(_, _) => None,
        BuildState::Connection(src, dst) => Some((src, dst)),
        BuildState::Start(sel) => Some((sel, MapProject { pos: mousepos, kind: ProjectKind::Ground })),
        BuildState::StartInterp(sel) => Some(
            (sel, MapProject { pos: mousepos, kind: ProjectKind::Ground }),
        ),
    };
    match anchors {
        None => Seq::empty(),
        Some(se) => {
            let start = se.0;
            let end = se.1;
            match (start.kind, end.kind) {
                (ProjectKind::Inter(ia), ProjectKind::Inter(ib)) => {
                    if m.intersections@.contains_key(ia.0 as int) && m.intersections@.contains_key(
                        ib.0 as int,
                    ) {
                        let a = m.intersections@[ia.0 as int];
                        let b = m.intersections@[ib.0 as int];
                        ii_upto(m, a, b, a.roads@.len() as int)
                    } else {
                        Seq::empty()
                    }
                },
                (ProjectKind::Inter(ia), ProjectKind::Ground) => {
                    if m.intersections@.contains_key(ia.0 as int) {
                        ig_upto(m, m.intersections@[ia.0 as int], xy(mousepos),
                            m.intersections@[ia.0 as int].roads@.len() as int)
                    } else {
                        Seq::empty()
                    }
                },
                (ProjectKind::Ground, ProjectKind::Inter(ia)) => {
                    if m.intersections@.contains_key(ia.0 as int) {
                        ig_upto(m, m.intersections@[ia.0 as int], xy(mousepos),
                            m.intersections@[ia.0 as int].roads@.len() as int)
                    } else {
                        Seq::empty()
                    }
                },
                (ProjectKind::Inter(ia), ProjectKind::Road(rr)) => {
                    if rail && m.intersections@.contains_key(ia.0 as int) && road_usable(m, rr) {
                        let a = m.intersections@[ia.0 as int];
                        ir_upto(m, a, road_tangent(m, rr, end.pos), a.roads@.len() as int)
                    } else {
                        Seq::empty()
                    }
                },
                (ProjectKind::Road(rr), ProjectKind::Inter(ia)) => {
                    if rail && m.intersections@.contains_key(ia.0 as int) && road_usable(m, rr) {
                        let a = m.intersections@[ia.0 as int];
                        ir_upto(m, a, road_tangent(m, rr, start.pos), a.roads@.len() as int)
                    } else {
                        Seq::empty()
                    }
                },
                (ProjectKind::Road(rr), ProjectKind::Ground) => {
                    if rail && road_usable(m, rr) {
                        let t = road_tangent(m, rr, start.pos);
                        let pos = xy(t.0);
                        let ahead = V2 { x: (pos.x + t.1.x) as i64, y: (pos.y + t.1.y) as i64 };
                        match line_closest_point(xy(mousepos), ahead, pos) {
                            Some(q) => match lift_point(m.environment, q) {
                                Some(v) => seq![v],
                                None => Seq::empty(),
                            },
                            None => Seq::empty(),
                        }
                    } else {
                        Seq::empty()
                    }
                },
                (ProjectKind::Road(ra), ProjectKind::Road(rb)) => {
                    if rail && road_usable(m, ra) && road_usable(m, rb) {
                        let t1 = road_tangent(m, ra, start.pos);
                        let t2 = road_tangent(m, rb, end.pos);
                        let p1 = xy(t1.0);
                        let a1 = V2 { x: (p1.x + t1.1.x) as i64, y: (p1.y + t1.1.y) as i64 };
                        let p2 = xy(t2.0);
                        let a2 = V2 { x: (p2.x + t2.1.x) as i64, y: (p2.y + t2.1.y) as i64 };
                        match line_line_intersection(p1, a1, p2, a2) {
                            Some(q) => match lift_point(m.environment, q) {
                                Some(v) => seq![v],
                                None => Seq::empty(),
                            },
                            None => Seq::empty(),
                        }
                    } else {
                        Seq::empty()
                    }
                },
                _ => Seq::empty(),
            }
        },
    }
}

impl RoadBuildResource {
    /// The resource keeps a well-formed pattern and a capped elevation
    /// offset, and its cached snap points stay bounded.
    pub open spec fn wf(&self) -> bool {
        &&& builder_wf(self.pattern_builder)
        &&& 0 <= self.height_offset <= ELEVATION_CAP
        &&& forall|i: int| 0 <= i < self.straight_points@.len() ==> in3(
            #[trigger] self.straight_points@[i],
        )
        &&& state_wf(self.build_state)
    }

    /// The straight-alignment candidate points for the current state.
    #[verifier::loop_isolation(false)]
    #[verifier::rlimit(100)]
    #[verifier::spinoff_prover]
    pub fn update_points(&self, map: &Network, mousepos: V3) -> (r: Vec<V3>)
        requires
            network_inv(*map),
            in3(mousepos),
            state_wf(self.build_state),
        ensures
            r@ == spec_update_points(*map, self.build_state, mousepos,
                self.pattern_builder.rail),
            forall|i: int| 0 <= i < r@.len() ==> in3(#[trigger] r@[i]),
    {
        let (start, end) = match self.build_state {
            BuildState::Hover | BuildState::Interpolation(_, _) => {
                let r: Vec<V3> = Vec::new();
                return r;
            },
            BuildState::Connection(src, dst) => (src, dst),
            BuildState::Start(sel) | BuildState::StartInterp(sel) => (
                sel,
                MapProject::ground(mousepos),
            ),
        };
        let mut out: Vec<V3> = Vec::new();
        match (start.kind, end.kind) {
            (ProjectKind::Inter(ia), ProjectKind::Inter(ib)) => {
                let a = match map.intersections.get(ia.0) {
                    Some(x) => x,
                    None => {
                        return out;
                    },
                };
                let b = match map.intersections.get(ib.0) {
                    Some(x) => x,
                    None => {
                        return out;
                    },
                };
                let mut i: usize = 0;
                while i < a.roads.len()
                    invariant
                        i <= a.roads@.len(),
                        out@ == ii_upto(*map, *a, *b, i as int),
                        forall|t: int| 0 <= t < out@.len() ==> in3(#[trigger] out@[t]),
                    decreases a.roads@.len() - i,
                {
                    let mut j: usize = 0;
                    while j < b.roads.len()
                        invariant
                            j <= b.roads@.len(),
                            i < a.roads@.len(),
                            out@ == ii_upto(*map, *a, *b, i as int) + ii_row_upto(*map, *a, *b,
                                i as int, j as int),
                            forall|t: int| 0 <= t < out@.len() ==> in3(#[trigger] out@[t]),
                        decreases b.roads@.len() - j,
                    {
                        let ra = a.roads[i];
                        let rb = b.roads[j];
                        match (map.roads.get(ra.0), map.roads.get(rb.0)) {
                            (Some(road_a), Some(road_b)) => {
                                let pa = straight_connection_point_e(road_a, a.id);
                                let pb = straight_connection_point_e(road_b, b.id);
                                let hit = line_line_intersection_e(
                                    V2 { x: a.pos.x, y: a.pos.y },
                                    pa,
                                    V2 { x: b.pos.x, y: b.pos.y },
                                    pb,
                                );
                                match hit {
                                    Some(q) => {
                                        match map.environment.height(q) {
                                            Some(h) => {
                                                out.push(V3 { x: q.x, y: q.y, z: h });
                                            },
                                            None => {},
                                        }
                                    },
                                    None => {},
                                }
                            },
                            _ => {},
                        }
                        proof {
                            assert(out@ =~= ii_upto(*map, *a, *b, i as int) + ii_row_upto(*map,
                                *a, *b, i as int, j as int + 1));
                        }
                        j = j + 1;
                    }
                    i = i + 1;
                }
                out
            },
            (ProjectKind::Inter(ia), ProjectKind::Ground)
            | (ProjectKind::Ground, ProjectKind::Inter(ia)) => {
                let a = match map.intersections.get(ia.0) {
                    Some(x) => x,
                    None => {
                        return out;
                    },
                };
                let mouse = V2 { x: mousepos.x, y: mousepos.y };
                let mut i: usize = 0;
                while i < a.roads.len()
                    invariant
                        i <= a.roads@.len(),
                        out@ == ig_upto(*map, *a, mouse, i as int),
                        forall|t: int| 0 <= t < out@.len() ==> in3(#[trigger] out@[t]),
                    decreases a.roads@.len() - i,
                {
                    let rid = a.roads[i];
                    match map.roads.get(rid.0) {
                        Some(road) => {
                            let cp = straight_connection_point_e(road, a.id);
                            let hit = line_closest_point_e(mouse, cp, V2 {
                                x: a.pos.x,
                                y: a.pos.y,
                            });
                            match hit {
                                Some(q) => {
                                    match map.environment.height(q) {
                                        Some(h) => {
                                            out.push(V3 { x: q.x, y: q.y, z: h });
                                        },
                                        None => {},
                                    }
                                },
                                None => {},
                            }
                        },
                        None => {},
                    }
                    i = i + 1;
                }
                out
            },
            (ProjectKind::Inter(ia), ProjectKind::Road(rr))
            | (ProjectKind::Road(rr), ProjectKind::Inter(ia)) => {
                if !self.pattern_builder.rail {
                    return out;
                }
                let a = match map.intersections.get(ia.0) {
                    Some(x) => x,
                    None => {
                        return out;
                    },
                };
                let road = match map.roads.get(rr.0) {
                    Some(x) => x,
                    None => {
                        return out;
                    },
                };
                let at = if matches!(start.kind, ProjectKind::Road(_)) {
                    start.pos
                } else {
                    end.pos
                };
                let (proj, dir) = project_segment_dir(V2 { x: at.x, y: at.y }, &road.points);
                let pos = V2 { x: proj.x, y: proj.y };
                let ahead = V2 { x: pos.x + dir.x, y: pos.y + dir.y };
                let ghost tangent = road_tangent(*map, rr, at);
                let mut i: usize = 0;
                while i < a.roads.len()
                    invariant
                        i <= a.roads@.len(),
                        (proj, dir) == tangent,
                        pos == xy(tangent.0),
                        ahead.x == pos.x + dir.x && ahead.y == pos.y + dir.y,
                        out@ == ir_upto(*map, *a, tangent, i as int),
                        forall|t: int| 0 <= t < out@.len() ==> in3(#[trigger] out@[t]),
                    decreases a.roads@.len() - i,
                {
                    let rid = a.roads[i];
                    match map.roads.get(rid.0) {
                        Some(incident) => {
                            let cp = straight_connection_point_e(incident, a.id);
                            let hit = line_line_intersection_e(cp, V2 {
                                x: a.pos.x,
                                y: a.pos.y,
                            }, pos, ahead);
                            match hit {
                                Some(q) => {
                                    match map.environment.height(q) {
                                        Some(h) => {
                                            out.push(V3 { x: q.x, y: q.y, z: h });
                                        },
                                        None => {},
                                    }
                                },
                                None => {},
                            }
                        },
                        None => {},
                    }
                    i = i + 1;
                }
                out
            },
            (ProjectKind::Road(rr), ProjectKind::Ground) => {
                if !self.pattern_builder.rail {
                    return out;
                }
                let road = match map.roads.get(rr.0) {
                    Some(x) => x,
                    None => {
                        return out;
                    },
                };
                let (proj, dir) = project_segment_dir(V2 { x: start.pos.x, y: start.pos.y },
                    &road.points);
                let pos = V2 { x: proj.x, y: proj.y };
                let ahead = V2 { x: pos.x + dir.x, y: pos.y + dir.y };
                let hit = line_closest_point_e(V2 { x: mousepos.x, y: mousepos.y }, ahead, pos);
                match hit {
                    Some(q) => {
                        match map.environment.height(q) {
                            Some(h) => {
                                out.push(V3 { x: q.x, y: q.y, z: h });
                            },
                            None => {},
                        }
                    },
                    None => {},
                }
                out
            },
            (ProjectKind::Road(ra), ProjectKind::Road(rb)) => {
                if !self.pattern_builder.rail {
                    return out;
                }
                let road_a = match map.roads.get(ra.0) {
                    Some(x) => x,
                    None => {
                        return out;
                    },
                };
                let road_b = match map.roads.get(rb.0) {
                    Some(x) => x,
                    None => {
                        return out;
                    },
                };
                let (proj1, dir1) = project_segment_dir(V2 { x: start.pos.x, y: start.pos.y },
                    &road_a.points);
                let (proj2, dir2v) = project_segment_dir(V2 { x: end.pos.x, y: end.pos.y },
                    &road_b.points);
                let p1 = V2 { x: proj1.x, y: proj1.y };
                let a1 = V2 { x: p1.x + dir1.x, y: p1.y + dir1.y };
                let p2 = V2 { x: proj2.x, y: proj2.y };
                let a2 = V2 { x: p2.x + dir2v.x, y: p2.y + dir2v.y };
                let hit = line_line_intersection_e(p1, a1, p2, a2);
                match hit {
                    Some(q) => {
                        match map.environment.height(q) {
                            Some(h) => {
                                out.push(V3 { x: q.x, y: q.y, z: h });
                            },
                            None => {},
                        }
                    },
                    None => {},
                }
                out
            },
            _ => out,
        }
    }
}

/// The anchor positions a state carries stay inside the coordinate box.
pub open spec fn state_wf(s: BuildState) -> bool {
    match s {
        BuildState::Hover => true,
        BuildState::Start(p) => in3(p.pos),
        BuildState::StartInterp(p) => in3(p.pos),
        BuildState::Connection(a, b) => in3(a.pos) && in3(b.pos),
        BuildState::Interpolation(e, p) => in2(e) && in3(p.pos),
    }
}

// ---------------------------------------------------------------------------
// The per-frame pipeline.

/// `v` raised by the candidate elevation offset.
pub open spec fn up_v3(v: V3, off: int) -> V3 {
    V3 { x: v.x, y: v.y, z: (v.z + off) as i64 }
}

/// The nearest cached snap point within the capture radius of the cursor,
/// among the first `i`; earlier points win ties.
pub open spec fn best_snap_upto(pts: Seq<V3>, target: V3, i: int) -> Option<(V3, int)>
    decreases i,
{
    if i <= 0 {
        None
    } else {
        let pre = best_snap_upto(pts, target, i - 1);
        let d = dist2_3d(pts[i - 1], target);
        if d < SNAP_RADIUS * SNAP_RADIUS {
            match pre {
                None => Some((pts[i - 1], d)),
                Some(b) => if d < b.1 {
                    Some((pts[i - 1], d))
                } else {
                    pre
                },
            }
        } else {
            pre
        }
    }
}

/// Where the cursor lands after snapping: on the grid (failing off the
/// covered terrain), on the nearest straight-alignment point within the
/// capture radius, or raised by the elevation offset alone.
pub open spec fn spec_snap_mouse(m: Network, res: RoadBuildResource, unproj: V3) -> Option<V3> {
    if res.snap_to_grid {
        let sx = grid_snap(unproj.x as int);
        let sy = grid_snap(unproj.y as int);
        let p = V2 { x: sx as i64, y: sy as i64 };
        if crate::road::terrain_covers(m.environment, p) {
            Some(V3 { x: p.x, y: p.y, z: (m.environment.elevation + res.height_offset) as i64 })
        } else {
            None
        }
    } else if res.snap_to_angle {
        let pts = spec_update_points(m, res.build_state, up_v3(unproj, res.height_offset as int),
            res.pattern_builder.rail);
        match best_snap_upto(pts, unproj, pts.len() as int) {
            Some(b) => Some(b.0),
            None => Some(up_v3(unproj, res.height_offset as int)),
        }
    } else {
        Some(up_v3(unproj, res.height_offset as int))
    }
}

/// Whether a classification's target still exists.
pub open spec fn proj_present(m: Network, pr: MapProject) -> bool {
    match pr.kind {
        ProjectKind::Road(r) => m.roads@.contains_key(r.0 as int),
        ProjectKind::Inter(i) => m.intersections@.contains_key(i.0 as int),
        _ => true,
    }
}

/// The midpoint elevation of two anchors.
pub open spec fn zmid(a: MapProject, b: MapProject) -> int {
    (a.pos.z + b.pos.z) / 2
}

/// The candidate footprint path of a curve bent through `e`.
pub open spec fn candidate_curve(a: V2, e: V2, b: V2) -> Seq<V2> {
    Seq::new(9, |k: int| crate::road::bez_pt(a, e, b, k, 8))
}

/// The candidate footprint path of a straight segment.
pub open spec fn candidate_line(a: V2, b: V2) -> Seq<V2> {
    seq![a, b]
}

/// The three validation rules applied to the current anchors and cursor:
/// compatibility of the endpoints, the minimum turn angle against every
/// shared incident road, and no overlap with any unrelated footprint. An
/// anchor whose target has vanished is invalid.
pub open spec fn spec_is_valid(
    m: Network,
    s: BuildState,
    cur: MapProject,
    b: LanePatternBuilder,
) -> bool {
    let hw = builder_width(b) / 2;
    match s {
        BuildState::Hover => !(cur.kind is Building),
        BuildState::StartInterp(sel) => match cur.kind {
            ProjectKind::Ground => proj_present(m, sel) && spec_compatible(m.roads@, cur, sel)
                && spec_check_angle(m, sel, xy(cur.pos), b.rail),
            ProjectKind::Inter(_) => proj_present(m, sel) && spec_compatible(m.roads@, sel, cur),
            ProjectKind::Road(_) => proj_present(m, sel) && proj_present(m, cur)
                && spec_compatible(m.roads@, sel, cur),
            _ => true,
        },
        BuildState::Start(sel) => {
            &&& proj_present(m, sel)
            &&& proj_present(m, cur)
            &&& spec_compatible(m.roads@, cur, sel)
            &&& spec_check_angle(m, sel, xy(cur.pos), b.rail)
            &&& spec_check_angle(m, cur, xy(sel.pos), b.rail)
            &&& !spec_check_intersect(m, candidate_line(xy(sel.pos), xy(cur.pos)), zmid(sel, cur),
                hw, cur.kind, sel.kind)
        },
        BuildState::Connection(src, dst) => {
            &&& proj_present(m, src)
            &&& proj_present(m, dst)
            &&& spec_compatible(m.roads@, dst, src)
            &&& spec_check_angle(m, src, xy(cur.pos), b.rail)
            &&& spec_check_angle(m, dst, xy(cur.pos), b.rail)
            &&& !spec_check_intersect(m, candidate_curve(xy(src.pos), xy(cur.pos), xy(dst.pos)),
                zmid(src, dst), hw, src.kind, dst.kind)
        },
        BuildState::Interpolation(ip, sel) => {
            &&& proj_present(m, sel)
            &&& proj_present(m, cur)
            &&& spec_compatible(m.roads@, cur, sel)
            &&& spec_check_angle(m, sel, ip, b.rail)
            &&& spec_check_angle(m, cur, ip, b.rail)
            &&& !spec_check_intersect(m, candidate_curve(xy(sel.pos), ip, xy(cur.pos)), zmid(sel,
                cur), hw, sel.kind, cur.kind)
        },
    }
}

/// A road-kind classification snapped onto an intersection where the cursor
/// lies within that end's interface distance (plus the candidate's half
/// width) of the road's endpoint, so a user can select the intersection
/// even while technically hovering the adjacent road.
pub open spec fn spec_adjust_cursor(m: Network, pr: MapProject, patwidth: int) -> MapProject {
    match pr.kind {
        ProjectKind::Road(rid) => {
            if m.roads@.contains_key(rid.0 as int) {
                let r = m.roads@[rid.0 as int];
                let rad1 = road_interface_from(r, r.src) + patwidth / 2;
                let rad2 = road_interface_from(r, r.dst) + patwidth / 2;
                if dist2_3d(r.points@[0], pr.pos) <= rad1 * rad1 {
                    MapProject { pos: r.points@[0], kind: ProjectKind::Inter(r.src) }
                } else if dist2_3d(r.points@[r.points@.len() - 1], pr.pos) <= rad2 * rad2 {
                    MapProject {
                        pos: r.points@[r.points@.len() - 1],
                        kind: ProjectKind::Inter(r.dst),
                    }
                } else {
                    pr
                }
            } else {
                pr
            }
        },
        _ => pr,
    }
}

/// The classification the validator works on this frame: ground while
/// snapping is suppressed or while placing the free elbow point, else the
/// spatial classification with the road-end adjustment.
pub open spec fn spec_cursor(
    m: Network,
    s: BuildState,
    mousepos: V3,
    tol: int,
    nosnap: bool,
    patwidth: int,
) -> MapProject {
    if nosnap {
        MapProject { pos: mousepos, kind: ProjectKind::Ground }
    } else if s is Connection {
        MapProject { pos: mousepos, kind: ProjectKind::Ground }
    } else {
        spec_adjust_cursor(
            m,
            spec_project(m, mousepos, tol, ProjectFilter { inter: true, road: true, building: false }),
            patwidth,
        )
    }
}

/// The endpoints and optional interpolation point a commit would request.
pub open spec fn spec_build_args(s: BuildState, cur: MapProject) -> Option<
    (MapProject, MapProject, Option<V2>),
> {
    match s {
        BuildState::StartInterp(sel) => if !(cur.kind is Ground) {
            Some((sel, cur, None))
        } else {
            None
        },
        BuildState::Start(sel) => Some((sel, cur, None)),
        BuildState::Connection(src, dst) => Some((src, dst, Some(xy(cur.pos)))),
        BuildState::Interpolation(ip, sel) => Some((sel, cur, Some(ip))),
        BuildState::Hover => None,
    }
}

/// Whether a select in this state commits the candidate.
pub open spec fn committing(s: BuildState) -> bool {
    s is Start || s is Connection || s is Interpolation
}

/// The state a select transitions to while the candidate is valid.
pub open spec fn spec_next_state(s: BuildState, cur: MapProject, mousepos: V3, curved: bool)
    -> BuildState {
    match s {
        BuildState::Hover => match cur.kind {
            ProjectKind::Ground | ProjectKind::Road(_) | ProjectKind::Inter(_) => if curved {
                BuildState::StartInterp(cur)
            } else {
                BuildState::Start(cur)
            },
            _ => s,
        },
        BuildState::StartInterp(v) => match cur.kind {
            ProjectKind::Ground => BuildState::Interpolation(xy(mousepos), v),
            ProjectKind::Road(_) | ProjectKind::Inter(_) => BuildState::Connection(v, cur),
            _ => s,
        },
        BuildState::Start(_) => BuildState::Hover,
        BuildState::Connection(_, _) => BuildState::Hover,
        BuildState::Interpolation(_, _) => BuildState::Hover,
    }
}

/// The elevation offset after the elevation keys: one step up, capped, then
/// one step down, floored.
pub open spec fn spec_height_after(h: int, up: bool, down: bool) -> int {
    let a = if up {
        vstd::math::min(h + ELEVATION_STEP as int, ELEVATION_CAP as int)
    } else {
        h
    };
    if down {
        vstd::math::max(a - ELEVATION_STEP as int, 0)
    } else {
        a
    }
}

/// A frame's worth of input is bounded.
pub open spec fn input_wf(input: RoadBuildInput) -> bool {
    &&& (input.unprojected is Some ==> in3(input.unprojected->Some_0)
        && -1_000_000 <= input.unprojected->Some_0.z <= 1_000_000)
    &&& 0 <= input.tolerance <= 1_000_000
}

/// Whether a classification's target still exists.
fn proj_present_e(map: &Network, pr: MapProject) -> (r: bool)
    ensures
        r == proj_present(*map, pr),
{
    match pr.kind {
        ProjectKind::Road(rid) => map.roads.contains_key(rid.0),
        ProjectKind::Inter(i) => map.intersections.contains_key(i.0),
        _ => true,
    }
}

/// Exact midpoint elevation of two anchors.
fn zmid_e(a: MapProject, b: MapProject) -> (r: i64)
    requires
        in3(a.pos),
        in3(b.pos),
    ensures
        r == zmid(a, b),
        -COORD_LIMIT <= r <= COORD_LIMIT,
{
    let s = a.pos.z + b.pos.z;
    let q = (((s + 20_000_000) as u64) / 2) as i64 - 10_000_000;
    proof {
        vstd::arithmetic::div_mod::lemma_hoist_over_denominator(s as int, 10_000_000, 2nat);
    }
    q
}

/// The candidate footprint of a curve bent through `e`, sampled exactly.
#[verifier::loop_isolation(false)]
fn curve_pts_e(a: V2, e: V2, b: V2) -> (r: Vec<V2>)
    requires
        in2(a),
        in2(e),
        in2(b),
    ensures
        r@ == candidate_curve(a, e, b),
        forall|i: int| 0 <= i < r@.len() ==> in2(#[trigger] r@[i]),
        r@.len() == 9,
{
    let mut r: Vec<V2> = Vec::new();
    let mut k: u32 = 0;
    while k <= 8
        invariant
            k <= 9,
            r@.len() == k,
            forall|i: int|
                0 <= i < k ==> #[trigger] r@[i] == crate::road::bez_pt(a, e, b, i, 8) && in2(
                    r@[i],
                ),
        decreases 9 - k,
    {
        r.push(crate::road::bez_pt_e(a, e, b, k, 8));
        k = k + 1;
    }
    proof {
        assert(r@ =~= candidate_curve(a, e, b));
    }
    r
}

/// Exact evaluation of the three rules for the current anchors and cursor.
#[verifier::rlimit(60)]
fn is_valid_e(map: &Network, s: BuildState, cur: MapProject, b: LanePatternBuilder) -> (r: bool)
    requires
        network_inv(*map),
        state_wf(s),
        in3(cur.pos),
        builder_wf(b),
    ensures
        r == spec_is_valid(*map, s, cur, b),
{
    let w = b.width();
    let hw = ((w as u64) / 2) as i64;
    match s {
        BuildState::Hover => !matches!(cur.kind, ProjectKind::Building(_)),
        BuildState::StartInterp(sel) => {
            match cur.kind {
                ProjectKind::Ground => proj_present_e(map, sel) && compatible(map, cur, sel)
                    && check_angle(map, sel, V2 { x: cur.pos.x, y: cur.pos.y }, b.rail),
                ProjectKind::Inter(_) => proj_present_e(map, sel) && compatible(map, sel, cur),
                ProjectKind::Road(_) => proj_present_e(map, sel) && proj_present_e(map, cur)
                    && compatible(map, sel, cur),
                _ => true,
            }
        },
        BuildState::Start(sel) => {
            if !(proj_present_e(map, sel) && proj_present_e(map, cur)) {
                return false;
            }
            let mut cand: Vec<V2> = Vec::new();
            cand.push(V2 { x: sel.pos.x, y: sel.pos.y });
            cand.push(V2 { x: cur.pos.x, y: cur.pos.y });
            proof {
                assert(cand@ =~= candidate_line(xy(sel.pos), xy(cur.pos)));
            }
            compatible(map, cur, sel) && check_angle(map, sel, V2 { x: cur.pos.x, y: cur.pos.y },
                b.rail) && check_angle(map, cur, V2 { x: sel.pos.x, y: sel.pos.y }, b.rail)
                && !check_intersect(map, &cand, zmid_e(sel, cur), hw, cur.kind, sel.kind)
        },
        BuildState::Connection(src, dst) => {
            if !(proj_present_e(map, src) && proj_present_e(map, dst)) {
                return false;
            }
            let cand = curve_pts_e(
                V2 { x: src.pos.x, y: src.pos.y },
                V2 { x: cur.pos.x, y: cur.pos.y },
                V2 { x: dst.pos.x, y: dst.pos.y },
            );
            compatible(map, dst, src) && check_angle(map, src, V2 { x: cur.pos.x, y: cur.pos.y },
                b.rail) && check_angle(map, dst, V2 { x: cur.pos.x, y: cur.pos.y }, b.rail)
                && !check_intersect(map, &cand, zmid_e(src, dst), hw, src.kind, dst.kind)
        },
        BuildState::Interpolation(ip, sel) => {
            if !(proj_present_e(map, sel) && proj_present_e(map, cur)) {
                return false;
            }
            let cand = curve_pts_e(
                V2 { x: sel.pos.x, y: sel.pos.y },
                ip,
                V2 { x: cur.pos.x, y: cur.pos.y },
            );
            compatible(map, cur, sel) && check_angle(map, sel, ip, b.rail) && check_angle(map,
                cur, ip, b.rail) && !check_intersect(map, &cand, zmid_e(sel, cur), hw, sel.kind,
                cur.kind)
        },
    }
}

/// The road-end adjustment of a classification, exactly.
fn adjust_cursor_e(map: &Network, pr: MapProject, patwidth: i64) -> (r: MapProject)
    requires
        network_inv(*map),
        in3(pr.pos),
        0 <= patwidth <= 2_000_000,
    ensures
        r == spec_adjust_cursor(*map, pr, patwidth as int),
        in3(r.pos),
{
    match pr.kind {
        ProjectKind::Road(rid) => {
            match map.roads.get(rid.0) {
                Some(road) => {
                    let first = road.points[0];
                    let last = road.points[road.points.len() - 1];
                    let rad1 = road.interface_from(road.src) + ((patwidth as u64) / 2) as i64;
                    let rad2 = road.interface_from(road.dst) + ((patwidth as u64) / 2) as i64;
                    proof {
                        lemma_mul_bound(rad1 as int, rad1 as int, 3_000_000, 3_000_000);
                        lemma_mul_bound(rad2 as int, rad2 as int, 3_000_000, 3_000_000);
                    }
                    if dist2_3d_e(first, pr.pos) <= rad1 * rad1 {
                        MapProject { pos: first, kind: ProjectKind::Inter(road.src) }
                    } else if dist2_3d_e(last, pr.pos) <= rad2 * rad2 {
                        MapProject { pos: last, kind: ProjectKind::Inter(road.dst) }
                    } else {
                        pr
                    }
                },
                None => pr,
            }
        },
        _ => pr,
    }
}

/// What one frame of the validator decided.
pub struct RoadBuildOutput {
    /// The snapped cursor position, where a frame ran.
    pub mousepos: Option<V3>,
    /// The classification the rules were applied to.
    pub cursor: Option<MapProject>,
    /// Whether the current candidate passed all three rules and its preview
    /// geometry generated.
    pub valid: bool,
    /// The connection request emitted by a committing select.
    pub command: Option<ConnectionRequest>,
    /// The candidate's preview centerline, purely for display.
    pub preview: Option<Vec<V3>>,
}

/// The segment kind a commit with the given interpolation point requests.
pub open spec fn seg_of(ip: Option<V2>) -> crate::road::RoadSegmentKind {
    match ip {
        Some(e) => crate::road::RoadSegmentKind::Elbow(e),
        None => crate::road::RoadSegmentKind::Straight,
    }
}

impl RoadBuildResource {
    /// A fresh, idle road-build tool.
    pub fn new() -> (r: RoadBuildResource)
        ensures
            r.wf(),
            r.build_state is Hover,
            r.height_offset == 0,
            !r.snap_to_grid,
            !r.snap_to_angle,
            r.pattern_builder == (LanePatternBuilder {
                n_lanes: 1,
                sidewalks: true,
                parking: true,
                one_way: false,
                rail: false,
            }),
    {
        RoadBuildResource {
            build_state: BuildState::Hover,
            pattern_builder: LanePatternBuilder::new(),
            snap_to_grid: false,
            snap_to_angle: false,
            height_offset: 0,
            straight_points: Vec::new(),
        }
    }

    /// One frame of the road-build tool: snaps the cursor, classifies it,
    /// applies the three rules, generates the preview geometry, and on a
    /// committing select emits the connection request — the only effect a
    /// frame has on the network, applied later, at most once, by the
    /// network itself.
    #[verifier::loop_isolation(false)]
    #[verifier::rlimit(100)]
    pub fn roadbuild(&mut self, map: &Network, input: RoadBuildInput) -> (out: RoadBuildOutput)
        requires
            network_inv(*map),
            old(self).wf(),
            input_wf(input),
        ensures
            final(self).wf(),
            final(self).pattern_builder == old(self).pattern_builder,
            final(self).snap_to_grid == old(self).snap_to_grid,
            final(self).snap_to_angle == old(self).snap_to_angle,
            input.tool is Off ==> final(self).build_state is Hover && final(self).height_offset
                == 0 && out.mousepos is None && out.command is None && !out.valid,
            !(input.tool is Off) && input.unprojected is None ==> *final(self) == *old(self)
                && out.mousepos is None && out.command is None && !out.valid,
            !(input.tool is Off) && input.unprojected is Some ==> ({
                let unproj = input.unprojected->Some_0;
                let snapped = spec_snap_mouse(*map, *old(self), unproj);
                &&& out.mousepos == snapped
                &&& snapped is None ==> *final(self) == *old(self) && out.command is None
                    && !out.valid
                &&& snapped is Some ==> ({
                    let m0 = snapped->Some_0;
                    let s1 = if input.close {
                        BuildState::Hover
                    } else {
                        old(self).build_state
                    };
                    let cur = spec_cursor(*map, s1, m0, input.tolerance as int, input.nosnapping,
                        builder_width(old(self).pattern_builder));
                    let v0 = spec_is_valid(*map, s1, cur, old(self).pattern_builder);
                    let args = spec_build_args(s1, cur);
                    let gen_ok = match args {
                        Some(a) => crate::road::generation_covered(a.0.pos, a.1.pos, seg_of(a.2),
                            old(self).pattern_builder.rail, map.environment),
                        None => true,
                    };
                    let v = v0 && (args is None || gen_ok);
                    &&& out.cursor == Some(cur)
                    &&& out.valid == v
                    &&& final(self).height_offset == spec_height_after(
                        old(self).height_offset as int,
                        input.up_elevation,
                        input.down_elevation,
                    )
                    &&& final(self).straight_points@ == (if !old(self).snap_to_grid && old(
                        self,
                    ).snap_to_angle {
                        spec_update_points(*map, old(self).build_state, up_v3(unproj,
                            old(self).height_offset as int), old(self).pattern_builder.rail)
                    } else {
                        old(self).straight_points@
                    })
                    &&& final(self).build_state == (if input.select && v {
                        spec_next_state(s1, cur, m0, input.tool is Curved)
                    } else {
                        s1
                    })
                    &&& (out.command is Some <==> input.select && v && committing(s1))
                    &&& out.command is Some ==> ({
                        let req = out.command->Some_0;
                        let a = args->Some_0;
                        &&& req.from == a.0
                        &&& req.to == a.1
                        &&& req.interpoint == a.2
                        &&& req.pattern.lanes_forward@ == crate::lane::builder_side(
                            old(self).pattern_builder,
                            false,
                        )
                        &&& req.pattern.lanes_backward@ == crate::lane::builder_side(
                            old(self).pattern_builder,
                            true,
                        )
                    })
                    &&& (out.preview is Some <==> args is Some && gen_ok)
                    &&& out.preview is Some ==> ({
                        let a = args->Some_0;
                        crate::road::generated_points_ok(a.0.pos, a.1.pos, seg_of(a.2),
                            old(self).pattern_builder.rail, map.environment,
                            out.preview->Some_0@)
                    })
                })
            }),
    {
        if matches!(input.tool, BuildTool::Off) {
            self.build_state = BuildState::Hover;
            self.height_offset = 0;
            return RoadBuildOutput {
                mousepos: None,
                cursor: None,
                valid: false,
                command: None,
                preview: None,
            };
        }
        let unproj = match input.unprojected {
            Some(v) => v,
            None => {
                return RoadBuildOutput {
                    mousepos: None,
                    cursor: None,
                    valid: false,
                    command: None,
                    preview: None,
                };
            },
        };

        // Snap the cursor: to the grid, to a straight-alignment point, or
        // just up by the elevation offset.
        let m0: V3;
        if self.snap_to_grid {
            let sx = grid_snap_e(unproj.x);
            let sy = grid_snap_e(unproj.y);
            let p = V2 { x: sx, y: sy };
            match map.environment.height(p) {
                Some(h) => {
                    m0 = V3 { x: sx, y: sy, z: h + self.height_offset };
                },
                None => {
                    return RoadBuildOutput {
                        mousepos: None,
                        cursor: None,
                        valid: false,
                        command: None,
                        preview: None,
                    };
                },
            }
        } else if self.snap_to_angle {
            let target = V3 { x: unproj.x, y: unproj.y, z: unproj.z + self.height_offset };
            let pts = self.update_points(map, target);
            let mut best: Option<(V3, i64)> = None;
            let mut i: usize = 0;
            while i < pts.len()
                invariant
                    i <= pts@.len(),
                    match best {
                        Some(b) => best_snap_upto(pts@, unproj, i as int) == Some((b.0, b.1 as int))
                            && in3(b.0),
                        None => best_snap_upto(pts@, unproj, i as int) is None,
                    },
                decreases pts@.len() - i,
            {
                let d = dist2_3d_e(pts[i], unproj);
                if d < SNAP_RADIUS * SNAP_RADIUS {
                    match best {
                        Some(b) => {
                            if d < b.1 {
                                best = Some((pts[i], d));
                            }
                        },
                        None => {
                            best = Some((pts[i], d));
                        },
                    }
                }
                i = i + 1;
            }
            m0 = match best {
                Some(b) => b.0,
                None => target,
            };
            self.straight_points = pts;
        } else {
            m0 = V3 { x: unproj.x, y: unproj.y, z: unproj.z + self.height_offset };
        }

        proof {
            assert(in3(m0));
        }
        let core = self.frame_core(map, input, m0);
        RoadBuildOutput {
            mousepos: Some(m0),
            cursor: Some(core.0),
            valid: core.1,
            command: core.2,
            preview: core.3,
        }
    }

    /// The post-snap phase of one frame: cancel and elevation handling,
    /// classification, the three rules, preview generation, and the select
    /// transition, for an already snapped cursor position.
    #[verifier::loop_isolation(false)]
    #[verifier::rlimit(100)]
    fn frame_core(&mut self, map: &Network, input: RoadBuildInput, m0: V3) -> (out: (
        MapProject,
        bool,
        Option<ConnectionRequest>,
        Option<Vec<V3>>,
    ))
        requires
            network_inv(*map),
            old(self).wf(),
            input_wf(input),
            in3(m0),
        ensures
            final(self).wf(),
            final(self).pattern_builder == old(self).pattern_builder,
            final(self).snap_to_grid == old(self).snap_to_grid,
            final(self).snap_to_angle == old(self).snap_to_angle,
            final(self).straight_points == old(self).straight_points,
            ({
                let s1 = if input.close {
                    BuildState::Hover
                } else {
                    old(self).build_state
                };
                let cur = spec_cursor(*map, s1, m0, input.tolerance as int, input.nosnapping,
                    builder_width(old(self).pattern_builder));
                let v0 = spec_is_valid(*map, s1, cur, old(self).pattern_builder);
                let args = spec_build_args(s1, cur);
                let gen_ok = match args {
                    Some(a) => crate::road::generation_covered(a.0.pos, a.1.pos, seg_of(a.2),
                        old(self).pattern_builder.rail, map.environment),
                    None => true,
                };
                let v = v0 && (args is None || gen_ok);
                &&& out.0 == cur
                &&& out.1 == v
                &&& final(self).height_offset == spec_height_after(
                    old(self).height_offset as int,
                    input.up_elevation,
                    input.down_elevation,
                )
                &&& final(self).build_state == (if input.select && v {
                    spec_next_state(s1, cur, m0, input.tool is Curved)
                } else {
                    s1
                })
                &&& (out.2 is Some <==> input.select && v && committing(s1))
                &&& out.2 is Some ==> ({
                    let req = out.2->Some_0;
                    let a = args->Some_0;
                    &&& req.from == a.0
                    &&& req.to == a.1
                    &&& req.interpoint == a.2
                    &&& req.pattern.lanes_forward@ == crate::lane::builder_side(
                        old(self).pattern_builder,
                        false,
                    )
                    &&& req.pattern.lanes_backward@ == crate::lane::builder_side(
                        old(self).pattern_builder,
                        true,
                    )
                })
                &&& (out.3 is Some <==> args is Some && gen_ok)
                &&& out.3 is Some ==> ({
                    let a = args->Some_0;
                    crate::road::generated_points_ok(a.0.pos, a.1.pos, seg_of(a.2),
                        old(self).pattern_builder.rail, map.environment, out.3->Some_0@)
                })
            }),
    {
        // A cancel resets to idle; the elevation keys step the offset.
        if input.close {
            self.build_state = BuildState::Hover;
        }
        if input.up_elevation {
            self.height_offset = self.height_offset + ELEVATION_STEP;
            if self.height_offset > ELEVATION_CAP {
                self.height_offset = ELEVATION_CAP;
            }
        }
        if input.down_elevation {
            self.height_offset = self.height_offset - ELEVATION_STEP;
            if self.height_offset < 0 {
                self.height_offset = 0;
            }
        }

        // Classify the snapped position.
        let patwidth = self.pattern_builder.width();
        let is_connection = matches!(self.build_state, BuildState::Connection(_, _));
        let cur: MapProject = if input.nosnapping {
            MapProject::ground(m0)
        } else if is_connection {
            MapProject::ground(m0)
        } else {
            let pr = map.project(m0, input.tolerance, ProjectFilter::inter_road());
            adjust_cursor_e(map, pr, patwidth)
        };

        // Apply the three rules, then generate the preview geometry; a
        // failed generation invalidates the candidate.
        let mut valid = is_valid_e(map, self.build_state, cur, self.pattern_builder);
        let args: Option<(MapProject, MapProject, Option<V2>)> = match self.build_state {
            BuildState::StartInterp(sel) => {
                if !cur.is_ground() {
                    Some((sel, cur, None))
                } else {
                    None
                }
            },
            BuildState::Start(sel) => Some((sel, cur, None)),
            BuildState::Connection(src, dst) => Some((src, dst, Some(V2 {
                x: cur.pos.x,
                y: cur.pos.y,
            }))),
            BuildState::Interpolation(ip, sel) => Some((sel, cur, Some(ip))),
            BuildState::Hover => None,
        };
        let mut preview: Option<Vec<V3>> = None;
        match args {
            Some(a) => {
                let seg = match a.2 {
                    Some(e) => crate::road::RoadSegmentKind::Elbow(e),
                    None => crate::road::RoadSegmentKind::Straight,
                };
                match crate::road::Road::generate_points(a.0.pos, a.1.pos, &seg,
                    self.pattern_builder.rail, &map.environment) {
                    Ok(pts) => {
                        preview = Some(pts);
                    },
                    Err(_) => {
                        valid = false;
                    },
                }
            },
            None => {},
        }

        // A committing select emits the request; any valid select advances
        // the state machine.
        let mut command: Option<ConnectionRequest> = None;
        if input.select && valid {
            let commit = matches!(
                self.build_state,
                BuildState::Start(_) | BuildState::Connection(_, _) | BuildState::Interpolation(
                    _,
                    _,
                )
            );
            if commit {
                let a = match args {
                    Some(a) => a,
                    None => vstd::pervasive::unreached(),
                };
                command = Some(
                    ConnectionRequest {
                        from: a.0,
                        to: a.1,
                        interpoint: a.2,
                        pattern: self.pattern_builder.build(),
                    },
                );
            }
            let curved = matches!(input.tool, BuildTool::Curved);
            self.build_state = match self.build_state {
                BuildState::Hover => match cur.kind {
                    ProjectKind::Ground | ProjectKind::Road(_) | ProjectKind::Inter(_) => {
                        if curved {
                            BuildState::StartInterp(cur)
                        } else {
                            BuildState::Start(cur)
                        }
                    },
                    _ => self.build_state,
                },
                BuildState::StartInterp(v) => match cur.kind {
                    ProjectKind::Ground => BuildState::Interpolation(
                        V2 { x: m0.x, y: m0.y },
                        v,
                    ),
                    ProjectKind::Road(_) | ProjectKind::Inter(_) => BuildState::Connection(v, cur),
                    _ => self.build_state,
                },
                BuildState::Start(_) => BuildState::Hover,
                BuildState::Connection(_, _) => BuildState::Hover,
                BuildState::Interpolation(_, _) => BuildState::Hover,
            };
        }
        (cur, valid, command, preview)
    }
}

} // verus!
