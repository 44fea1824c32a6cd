//! Roads: centerline geometry, per-end interface distances, and lane lists.
//!
//! A road runs between two intersections; its centerline is always stored
//! from source to destination. The interface distance at an end says how far
//! the pavement is trimmed back from that intersection.

use vstd::prelude::*;
use crate::geom::{
    V2, V3, in2, in3, dir2, xy, dist2_2d, sqrt_floor, tdiv, tdiv_e, isqrt, dist2_2d_e,
    lemma_mul_bound, lemma_tdiv_bound, COORD_LIMIT,
};
use crate::ids::{IntersectionID, RoadID, LaneID};
use crate::lane::LaneKind;

verus! {

/// A geometry failure: fatal to the operation that met it, never patched.
#[derive(Clone, Copy, PartialEq, Eq, Structural, Debug)]
pub enum GeomError {
    /// Terrain sampling failed somewhere along the generated path.
    TerrainOutOfBounds,
    /// The requested interface trims would leave no drivable length.
    NonPositiveDrivableLength,
}

/// The terrain collaborator: a covered rectangle of uniform elevation.
/// Outside the covered area it reports "no data" rather than a made-up height.
#[derive(Clone, Copy, PartialEq, Eq, Structural, Debug)]
pub struct Terrain {
    pub min: V2,
    pub max: V2,
    pub elevation: i64,
}

pub open spec fn terrain_wf(t: Terrain) -> bool {
    in2(t.min) && in2(t.max) && -1_000_000 <= t.elevation <= 1_000_000
}

pub open spec fn terrain_covers(t: Terrain, p: V2) -> bool {
    t.min.x <= p.x <= t.max.x && t.min.y <= p.y <= t.max.y
}

impl Terrain {
    /// The elevation at `p`, or `None` outside the covered area.
    pub fn height(&self, p: V2) -> (r: Option<i64>)
        ensures
            r == (if terrain_covers(*self, p) {
                Some(self.elevation)
            } else {
                None::<i64>
            }),
    {
        if self.min.x <= p.x && p.x <= self.max.x && self.min.y <= p.y && p.y <= self.max.y {
            Some(self.elevation)
        } else {
            None
        }
    }
}

/// How a new road's centerline is derived.
#[derive(Clone, PartialEq, Eq, Debug)]
pub enum RoadSegmentKind {
    /// A two-point straight line.
    Straight,
    /// A curve bent through one planar elbow control point.
    Elbow(V2),
    /// A pre-specified polyline.
    Fixed(Vec<V3>),
}

/// `p` with its elevation replaced by the terrain's.
pub open spec fn on_terrain(t: Terrain, p: V3) -> V3 {
    V3 { x: p.x, y: p.y, z: t.elevation }
}

/// One coordinate of the quadratic curve through `a`, `e`, `b` at parameter
/// `k` of `n`, with truncating division by the squared sample count.
pub open spec fn bez_coord(a: int, e: int, b: int, k: int, n: int) -> int {
    tdiv((n - k) * (n - k) * a + 2 * k * (n - k) * e + k * k * b, n * n)
}

/// Sample `k` of `n` of the elbow curve from `a` through `e` to `b`.
pub open spec fn bez_pt(a: V2, e: V2, b: V2, k: int, n: int) -> V2 {
    V2 {
        x: bez_coord(a.x as int, e.x as int, b.x as int, k, n) as i64,
        y: bez_coord(a.y as int, e.y as int, b.y as int, k, n) as i64,
    }
}

/// Whether the whole elbow curve lies on covered terrain.
pub open spec fn elbow_covered(t: Terrain, a: V2, e: V2, b: V2, n: int) -> bool {
    forall|k: int| 0 <= k <= n ==> terrain_covers(t, #[trigger] bez_pt(a, e, b, k, n))
}

/// Whether every point of a fixed polyline lies on covered terrain.
pub open spec fn fixed_covered(t: Terrain, pts: Seq<V3>) -> bool {
    forall|i: int| 0 <= i < pts.len() ==> terrain_covers(t, xy(#[trigger] pts[i]))
}

/// The curve-sample bound: a sample of a curve through bounded points is
/// bounded the same way.
proof fn lemma_bez_coord_bound(a: int, e: int, b: int, k: int, n: int, c: int)
    requires
        0 <= k <= n,
        1 <= n <= 16,
        0 <= c,
        -c <= a <= c,
        -c <= e <= c,
        -c <= b <= c,
    ensures
        -c <= bez_coord(a, e, b, k, n) <= c,
{
    let num = (n - k) * (n - k) * a + 2 * k * (n - k) * e + k * k * b;
    assert(-(n * n * c) <= num <= n * n * c) by (nonlinear_arith)
        requires
            0 <= k <= n,
            1 <= n <= 16,
            0 <= c,
            -c <= a <= c,
            -c <= e <= c,
            -c <= b <= c,
            num == (n - k) * (n - k) * a + 2 * k * (n - k) * e + k * k * b,
    ;
    assert(0 < n * n) by (nonlinear_arith)
        requires 1 <= n,
    ;
    lemma_tdiv_bound(num, n * n, c);
}

/// One exact curve sample in executable arithmetic.
pub fn bez_pt_e(a: V2, e: V2, b: V2, k: u32, n: u32) -> (r: V2)
    requires
        in2(a),
        in2(e),
        in2(b),
        k <= n,
        1 <= n <= 16,
    ensures
        r == bez_pt(a, e, b, k as int, n as int),
        in2(r),
{
    let ki = k as i128;
    let ni = n as i128;
    proof {
        lemma_mul_bound((ni - ki) as int, (ni - ki) as int, 16, 16);
        lemma_mul_bound(2 * (ki as int), (ni - ki) as int, 32, 16);
        lemma_mul_bound(ki as int, ki as int, 16, 16);
        lemma_mul_bound(ni as int, ni as int, 16, 16);
    }
    let w0 = (ni - ki) * (ni - ki);
    let w1 = 2 * ki * (ni - ki);
    let w2 = ki * ki;
    proof {
        lemma_mul_bound(w0 as int, a.x as int, 256, COORD_LIMIT as int);
        lemma_mul_bound(w1 as int, e.x as int, 512, COORD_LIMIT as int);
        lemma_mul_bound(w2 as int, b.x as int, 256, COORD_LIMIT as int);
        lemma_mul_bound(w0 as int, a.y as int, 256, COORD_LIMIT as int);
        lemma_mul_bound(w1 as int, e.y as int, 512, COORD_LIMIT as int);
        lemma_mul_bound(w2 as int, b.y as int, 256, COORD_LIMIT as int);
    }
    let numx = w0 * (a.x as i128) + w1 * (e.x as i128) + w2 * (b.x as i128);
    let numy = w0 * (a.y as i128) + w1 * (e.y as i128) + w2 * (b.y as i128);
    let den = ni * ni;
    proof {
        assert(den > 0) by (nonlinear_arith)
            requires den == (ni as int) * (ni as int), 1 <= ni,
        ;
    }
    let rx = tdiv_e(numx, den);
    let ry = tdiv_e(numy, den);
    proof {
        lemma_bez_coord_bound(a.x as int, e.x as int, b.x as int, k as int, n as int,
            COORD_LIMIT as int);
        lemma_bez_coord_bound(a.y as int, e.y as int, b.y as int, k as int, n as int,
            COORD_LIMIT as int);
    }
    V2 { x: rx as i64, y: ry as i64 }
}

/// Length of the first `n` segments of a centerline, each segment's planar
/// length taken as the floor square root of its squared length.
pub open spec fn poly_len_upto(pts: Seq<V3>, n: int) -> int
    decreases n,
{
    if n <= 0 {
        0
    } else {
        poly_len_upto(pts, n - 1) + sqrt_floor(dist2_2d(xy(pts[n - 1]), xy(pts[n])))
    }
}

/// Planar length of a centerline.
pub open spec fn poly_len(pts: Seq<V3>) -> int {
    poly_len_upto(pts, pts.len() - 1)
}

/// Every point of `pts` lies in the coordinate box.
pub open spec fn pts_in3(pts: Seq<V3>) -> bool {
    forall|i: int| 0 <= i < pts.len() ==> in3(#[trigger] pts[i])
}

proof fn lemma_poly_len_bounds(pts: Seq<V3>, n: int)
    requires
        pts_in3(pts),
        0 <= n < pts.len(),
    ensures
        0 <= poly_len_upto(pts, n) <= n * 30_000_000,
    decreases n,
{
    if n > 0 {
        lemma_poly_len_bounds(pts, n - 1);
        let ax = pts[n - 1].x as int;
        let ay = pts[n - 1].y as int;
        let bx = pts[n].x as int;
        let by = pts[n].y as int;
        let d = dist2_2d(xy(pts[n - 1]), xy(pts[n]));
        assert(d == (bx - ax) * (bx - ax) + (by - ay) * (by - ay));
        assert(in3(pts[n - 1]) && in3(pts[n]));
        assert(0 <= d <= 800_000_000_000_000) by (nonlinear_arith)
            requires
                d == (bx - ax) * (bx - ax) + (by - ay) * (by - ay),
                -10_000_000 <= ax <= 10_000_000,
                -10_000_000 <= ay <= 10_000_000,
                -10_000_000 <= bx <= 10_000_000,
                -10_000_000 <= by <= 10_000_000,
        ;
        crate::geom::lemma_sqrt_floor_exists(d);
        let s = sqrt_floor(d);
        assert(s <= 30_000_000) by (nonlinear_arith)
            requires 0 <= s, s * s <= d, d <= 800_000_000_000_000int,
        ;
    }
}

/// Exact planar length of a bounded centerline.
pub fn poly_len_e(pts: &Vec<V3>) -> (r: i64)
    requires
        pts@.len() >= 1,
        pts_in3(pts@),
        pts@.len() <= 100_000,
    ensures
        r == poly_len(pts@),
        0 <= r,
{
    let mut acc: i64 = 0;
    let mut i: usize = 1;
    proof {
        lemma_poly_len_bounds(pts@, 0);
    }
    while i < pts.len()
        invariant
            1 <= i <= pts@.len(),
            pts@.len() <= 100_000,
            pts_in3(pts@),
            acc == poly_len_upto(pts@, i - 1),
            0 <= acc,
        decreases pts@.len() - i,
    {
        let a = pts[i - 1];
        let b = pts[i];
        let d = dist2_2d_e(V2 { x: a.x, y: a.y }, V2 { x: b.x, y: b.y });
        proof {
            assert(d <= 800_000_000_000_000) by (nonlinear_arith)
                requires
                    d == (b.x - a.x) * (b.x - a.x) + (b.y - a.y) * (b.y - a.y),
                    -10_000_000 <= a.x <= 10_000_000,
                    -10_000_000 <= a.y <= 10_000_000,
                    -10_000_000 <= b.x <= 10_000_000,
                    -10_000_000 <= b.y <= 10_000_000,
            ;
        }
        let s = isqrt(d as u64);
        proof {
            assert(s <= 30_000_000) by (nonlinear_arith)
                requires 0 <= s, (s as int) * (s as int) <= d, d <= 800_000_000_000_000i64,
            ;
            lemma_poly_len_bounds(pts@, i as int);
            assert(poly_len_upto(pts@, i as int) == acc + s);
        }
        acc = acc + s as i64;
        i = i + 1;
    }
    acc
}

/// A road of the network.
pub struct Road {
    pub id: RoadID,
    pub src: IntersectionID,
    pub dst: IntersectionID,
    pub segment: RoadSegmentKind,
    /// Centerline, always from `src` to `dst`.
    pub points: Vec<V3>,
    pub interface_src: i64,
    pub interface_dst: i64,
    pub width: i64,
    /// Lanes running `src` to `dst`, with their kinds, innermost first.
    pub lanes_forward: Vec<(LaneID, LaneKind)>,
    /// Lanes running `dst` to `src`, with their kinds, innermost first.
    pub lanes_backward: Vec<(LaneID, LaneKind)>,
    /// Planar centerline length.
    pub length: i64,
}

pub open spec fn road_endpoint(r: Road, id: IntersectionID) -> bool {
    id == r.src || id == r.dst
}

pub open spec fn road_interface_from(r: Road, id: IntersectionID) -> int {
    if id == r.src {
        r.interface_src as int
    } else {
        r.interface_dst as int
    }
}

/// The departure direction of the centerline at an end: the first segment
/// leaving `src`, or the last segment walked backwards from `dst`.
pub open spec fn road_dir_from(r: Road, id: IntersectionID) -> V2 {
    let n = r.points@.len();
    if id == r.src {
        V2 {
            x: (r.points@[1].x - r.points@[0].x) as i64,
            y: (r.points@[1].y - r.points@[0].y) as i64,
        }
    } else {
        V2 {
            x: (r.points@[n - 2].x - r.points@[n - 1].x) as i64,
            y: (r.points@[n - 2].y - r.points@[n - 1].y) as i64,
        }
    }
}

/// The lane list arriving at `id`.
pub open spec fn road_incoming_lanes_to(r: Road, id: IntersectionID) -> Seq<(LaneID, LaneKind)> {
    if id == r.dst {
        r.lanes_forward@
    } else {
        r.lanes_backward@
    }
}

/// The lane list departing from `id`.
pub open spec fn road_outgoing_lanes_from(r: Road, id: IntersectionID) -> Seq<(LaneID, LaneKind)> {
    if id == r.src {
        r.lanes_forward@
    } else {
        r.lanes_backward@
    }
}

/// The first sidewalk in a lane list.
pub open spec fn first_walking(s: Seq<(LaneID, LaneKind)>) -> Option<LaneID>
    decreases s.len(),
{
    if s.len() == 0 {
        None
    } else if s[0].1 is Walking {
        Some(s[0].0)
    } else {
        first_walking(s.drop_first())
    }
}

/// A road's geometry is well formed: a bounded two-or-more point centerline
/// between distinct endpoints, with a positive bounded width, its recorded
/// length the centerline's, and non-negative interfaces.
pub open spec fn road_geom_wf(r: Road) -> bool {
    &&& r.src != r.dst
    &&& r.points@.len() >= 2
    &&& r.points@.len() <= 100_000
    &&& pts_in3(r.points@)
    &&& 0 < r.width <= 2_000_000
    &&& r.length == poly_len(r.points@)
    &&& 0 <= r.interface_src
    &&& 0 <= r.interface_dst
}

impl Road {
    /// The trim distance at intersection `id`.
    pub fn interface_from(&self, id: IntersectionID) -> (r: i64)
        ensures
            r == road_interface_from(*self, id),
    {
        if id == self.src {
            self.interface_src
        } else {
            self.interface_dst
        }
    }

    /// Sets the trim distance at `id` unconditionally.
    pub fn set_interface(&mut self, id: IntersectionID, v: i64)
        ensures
            final(self).interface_src == (if id == old(self).src { v } else {
                old(self).interface_src
            }),
            final(self).interface_dst == (if id == old(self).src {
                old(self).interface_dst
            } else {
                v
            }),
            road_unchanged_but_interfaces(*old(self), *final(self)),
    {
        if id == self.src {
            self.interface_src = v;
        } else {
            self.interface_dst = v;
        }
    }

    /// Raises (never lowers) the trim distance at `id` to at least `v`.
    pub fn max_interface(&mut self, id: IntersectionID, v: i64)
        ensures
            final(self).interface_src as int == (if id == old(self).src {
                vstd::math::max(old(self).interface_src as int, v as int)
            } else {
                old(self).interface_src as int
            }),
            final(self).interface_dst as int == (if id == old(self).src {
                old(self).interface_dst as int
            } else {
                vstd::math::max(old(self).interface_dst as int, v as int)
            }),
            road_unchanged_but_interfaces(*old(self), *final(self)),
    {
        if id == self.src {
            if v > self.interface_src {
                self.interface_src = v;
            }
        } else {
            if v > self.interface_dst {
                self.interface_dst = v;
            }
        }
    }

    /// The departure direction at `id`.
    pub fn dir_from(&self, id: IntersectionID) -> (r: V2)
        requires
            self.points@.len() >= 2,
            pts_in3(self.points@),
        ensures
            r == road_dir_from(*self, id),
            dir2(r),
    {
        if id == self.src {
            let a = self.points[0];
            let b = self.points[1];
            V2 { x: b.x - a.x, y: b.y - a.y }
        } else {
            let n = self.points.len();
            let a = self.points[n - 1];
            let b = self.points[n - 2];
            V2 { x: b.x - a.x, y: b.y - a.y }
        }
    }

    /// The other endpoint, or `None` if `id` is not an endpoint.
    pub fn other_end(&self, id: IntersectionID) -> (r: Option<IntersectionID>)
        ensures
            r == (if id == self.src {
                Some(self.dst)
            } else if id == self.dst {
                Some(self.src)
            } else {
                None::<IntersectionID>
            }),
    {
        if id == self.src {
            Some(self.dst)
        } else if id == self.dst {
            Some(self.src)
        } else {
            None
        }
    }

    /// The lanes arriving at `id`.
    pub fn incoming_lanes_to(&self, id: IntersectionID) -> (r: &Vec<(LaneID, LaneKind)>)
        ensures
            r@ == road_incoming_lanes_to(*self, id),
    {
        if id == self.dst {
            &self.lanes_forward
        } else {
            &self.lanes_backward
        }
    }

    /// The lanes departing from `id`.
    pub fn outgoing_lanes_from(&self, id: IntersectionID) -> (r: &Vec<(LaneID, LaneKind)>)
        ensures
            r@ == road_outgoing_lanes_from(*self, id),
    {
        if id == self.src {
            &self.lanes_forward
        } else {
            &self.lanes_backward
        }
    }

    /// The incoming and outgoing sidewalk at `id`, where the road has them.
    pub fn sidewalks(&self, id: IntersectionID) -> (r: (Option<LaneID>, Option<LaneID>))
        ensures
            r.0 == first_walking(road_incoming_lanes_to(*self, id)),
            r.1 == first_walking(road_outgoing_lanes_from(*self, id)),
    {
        (first_walking_e(self.incoming_lanes_to(id)), first_walking_e(self.outgoing_lanes_from(id)))
    }

    /// The commit invariant check: the interface trims at both ends must
    /// leave a strictly positive drivable centerline length. A road that
    /// fails is rejected as a geometry error, never silently clamped.
    pub fn check_drivable(&self) -> (r: Result<(), GeomError>)
        requires
            0 <= self.interface_src <= 2_000_000,
            0 <= self.interface_dst <= 2_000_000,
        ensures
            r is Ok <==> self.length > self.interface_src + self.interface_dst,
            r is Err ==> r->Err_0 is NonPositiveDrivableLength,
    {
        if self.length > self.interface_src + self.interface_dst {
            Ok(())
        } else {
            Err(GeomError::NonPositiveDrivableLength)
        }
    }

    /// Generates a centerline from `from` to `to`, sampling every point's
    /// elevation from the terrain. Fails, and generates nothing, if any
    /// sample leaves the covered area.
    #[verifier::loop_isolation(false)]
    pub fn generate_points(
        from: V3,
        to: V3,
        segment: &RoadSegmentKind,
        is_rail: bool,
        terrain: &Terrain,
    ) -> (r: Result<Vec<V3>, GeomError>)
        requires
            in3(from),
            in3(to),
            (*segment) is Elbow ==> in2((*segment)->Elbow_0),
            (*segment) is Fixed ==> (*segment)->Fixed_0@.len() >= 2 && pts_in3(
                (*segment)->Fixed_0@,
            ),
            (*segment) is Fixed ==> (*segment)->Fixed_0@.len() <= 100_000,
            terrain_wf(*terrain),
        ensures
            match r {
                Ok(pts) => generated_points_ok(from, to, *segment, is_rail, *terrain, pts@),
                Err(e) => e is TerrainOutOfBounds && !generation_covered(from, to, *segment,
                    is_rail, *terrain),
            },
            r is Ok <==> generation_covered(from, to, *segment, is_rail, *terrain),
            r is Ok ==> pts_in3(r->Ok_0@) && 2 <= r->Ok_0@.len() <= 100_000,
    {
        match segment {
            RoadSegmentKind::Straight => {
                let h0 = terrain.height(V2 { x: from.x, y: from.y });
                let h1 = terrain.height(V2 { x: to.x, y: to.y });
                match (h0, h1) {
                    (Some(z0), Some(z1)) => {
                        let mut pts: Vec<V3> = Vec::new();
                        pts.push(V3 { x: from.x, y: from.y, z: z0 });
                        pts.push(V3 { x: to.x, y: to.y, z: z1 });
                        Ok(pts)
                    },
                    _ => Err(GeomError::TerrainOutOfBounds),
                }
            },
            RoadSegmentKind::Elbow(e) => {
                let n: u32 = curve_samples(is_rail);
                let a = V2 { x: from.x, y: from.y };
                let b = V2 { x: to.x, y: to.y };
                let mut pts: Vec<V3> = Vec::new();
                let mut k: u32 = 0;
                while k <= n
                    invariant
                        k <= n + 1,
                        1 <= n <= 16,
                        in2(a),
                        in2(*e),
                        in2(b),
                        terrain_wf(*terrain),
                        pts@.len() == k,
                        forall|j: int|
                            0 <= j < k ==> #[trigger] pts@[j] == on_terrain(
                                *terrain,
                                v3_of(bez_pt(a, *e, b, j, n as int)),
                            ),
                        forall|j: int|
                            0 <= j < k ==> terrain_covers(*terrain, #[trigger] bez_pt(a, *e, b, j,
                                n as int)),
                        forall|j: int| 0 <= j < k ==> in3(#[trigger] pts@[j]),
                    decreases n + 1 - k,
                {
                    let p = bez_pt_e(a, *e, b, k, n);
                    match terrain.height(p) {
                        Some(z) => {
                            pts.push(V3 { x: p.x, y: p.y, z });
                        },
                        None => {
                            proof {
                                assert(!elbow_covered(*terrain, a, *e, b, n as int)) by {
                                    assert(0 <= k as int <= n as int && !terrain_covers(*terrain,
                                        bez_pt(a, *e, b, k as int, n as int)));
                                }
                            }
                            return Err(GeomError::TerrainOutOfBounds);
                        },
                    }
                    k = k + 1;
                }
                Ok(pts)
            },
            RoadSegmentKind::Fixed(fixed) => {
                let mut pts: Vec<V3> = Vec::new();
                let mut i: usize = 0;
                while i < fixed.len()
                    invariant
                        i <= fixed@.len(),
                        pts_in3(fixed@),
                        terrain_wf(*terrain),
                        pts@.len() == i,
                        forall|j: int|
                            0 <= j < i ==> #[trigger] pts@[j] == on_terrain(*terrain, fixed@[j]),
                        forall|j: int|
                            0 <= j < i ==> terrain_covers(*terrain, xy(#[trigger] fixed@[j])),
                        forall|j: int| 0 <= j < i ==> in3(#[trigger] pts@[j]),
                    decreases fixed@.len() - i,
                {
                    let p = fixed[i];
                    match terrain.height(V2 { x: p.x, y: p.y }) {
                        Some(z) => {
                            pts.push(V3 { x: p.x, y: p.y, z });
                        },
                        None => {
                            proof {
                                assert(!fixed_covered(*terrain, fixed@)) by {
                                    assert(0 <= (i as int) && (i as int) < fixed@.len()
                                        && !terrain_covers(*terrain, xy(fixed@[i as int])));
                                }
                            }
                            return Err(GeomError::TerrainOutOfBounds);
                        },
                    }
                    i = i + 1;
                }
                Ok(pts)
            },
        }
    }
}

/// Sample count for an elbow curve; rail tracks are sampled twice as finely
/// since trains tolerate less curvature error.
pub fn curve_samples(is_rail: bool) -> (r: u32)
    ensures
        r == spec_curve_samples(is_rail),
{
    if is_rail {
        16
    } else {
        8
    }
}

pub open spec fn spec_curve_samples(is_rail: bool) -> int {
    if is_rail {
        16
    } else {
        8
    }
}

pub open spec fn v3_of(p: V2) -> V3 {
    V3 { x: p.x, y: p.y, z: 0 }
}

/// Whether terrain sampling succeeds along the whole generated path.
pub open spec fn generation_covered(
    from: V3,
    to: V3,
    segment: RoadSegmentKind,
    is_rail: bool,
    t: Terrain,
) -> bool {
    match segment {
        RoadSegmentKind::Straight => terrain_covers(t, xy(from)) && terrain_covers(t, xy(to)),
        RoadSegmentKind::Elbow(e) => elbow_covered(t, xy(from), e, xy(to), spec_curve_samples(
            is_rail,
        )),
        RoadSegmentKind::Fixed(pts) => fixed_covered(t, pts@),
    }
}

/// What a successful generation returns: the exact sampled points, their
/// elevations the terrain's, and for a straight segment exactly the two
/// elevation-adjusted endpoints.
pub open spec fn generated_points_ok(
    from: V3,
    to: V3,
    segment: RoadSegmentKind,
    is_rail: bool,
    t: Terrain,
    pts: Seq<V3>,
) -> bool {
    match segment {
        RoadSegmentKind::Straight => pts.len() == 2 && pts[0] == on_terrain(t, from) && pts[1]
            == on_terrain(t, to),
        RoadSegmentKind::Elbow(e) => {
            let n = spec_curve_samples(is_rail);
            pts.len() == n + 1 && forall|k: int|
                0 <= k <= n ==> #[trigger] pts[k] == on_terrain(t, v3_of(bez_pt(xy(from), e, xy(
                    to,
                ), k, n)))
        },
        RoadSegmentKind::Fixed(fixed) => pts.len() == fixed@.len() && forall|i: int|
            0 <= i < pts.len() ==> #[trigger] pts[i] == on_terrain(t, fixed@[i]),
    }
}

/// Spacing of the support pylons along an elevated centerline (30 length
/// units).
pub const PYLON_STEP: i64 = 3000;

/// A support-pylon placement: the point on the centerline it stands under,
/// and the terrain height below it.
#[derive(Clone, Copy, PartialEq, Eq, Structural, Debug)]
pub struct PylonPosition {
    pub pos: V3,
    pub terrain_height: i64,
}

/// The point at arc distance `s` along the segment `a..b` of planar length
/// `len`, by linear interpolation of every coordinate.
pub open spec fn interp3(a: V3, b: V3, s: int, len: int) -> V3 {
    V3 {
        x: (a.x + tdiv((b.x - a.x) * s, len)) as i64,
        y: (a.y + tdiv((b.y - a.y) * s, len)) as i64,
        z: (a.z + tdiv((b.z - a.z) * s, len)) as i64,
    }
}

/// How many pylons one segment carries: one per full spacing step of its
/// planar length.
pub open spec fn seg_pylon_count(a: V3, b: V3) -> int {
    sqrt_floor(dist2_2d(xy(a), xy(b))) / PYLON_STEP as int
}

/// The pylons of one segment, placed every spacing step from its start.
pub open spec fn seg_pylons(t: Terrain, a: V3, b: V3) -> Seq<PylonPosition> {
    let len = sqrt_floor(dist2_2d(xy(a), xy(b)));
    Seq::new(
        seg_pylon_count(a, b) as nat,
        |k: int| PylonPosition {
            pos: interp3(a, b, (k + 1) * PYLON_STEP, len),
            terrain_height: t.elevation,
        },
    )
}

/// The pylons of the first `n` segments of a centerline.
pub open spec fn pylons_upto(t: Terrain, pts: Seq<V3>, n: int) -> Seq<PylonPosition>
    decreases n,
{
    if n <= 0 {
        Seq::empty()
    } else {
        pylons_upto(t, pts, n - 1) + seg_pylons(t, pts[n - 1], pts[n])
    }
}

/// Every periodic support-pylon placement along a centerline, with the
/// terrain height under each — display data for elevated sections, derived
/// from the same centerline as the rest of the geometry.
pub open spec fn spec_pylons_positions(t: Terrain, pts: Seq<V3>) -> Seq<PylonPosition> {
    pylons_upto(t, pts, pts.len() - 1)
}

impl Road {
    /// The periodic support-pylon placements along a centerline.
    #[verifier::loop_isolation(false)]
    #[verifier::rlimit(100)]
    pub fn pylons_positions(points: &Vec<V3>, terrain: &Terrain) -> (r: Vec<PylonPosition>)
        requires
            points@.len() >= 2,
            points@.len() <= 100_000,
            pts_in3(points@),
            terrain_wf(*terrain),
        ensures
            r@ == spec_pylons_positions(*terrain, points@),
    {
        let mut r: Vec<PylonPosition> = Vec::new();
        let mut n: usize = 1;
        while n < points.len()
            invariant
                1 <= n <= points@.len(),
                r@ == pylons_upto(*terrain, points@, n - 1),
            decreases points@.len() - n,
        {
            let a = points[n - 1];
            let b = points[n];
            proof {
                assert((b.x - a.x) * (b.x - a.x) + (b.y - a.y) * (b.y - a.y)
                    <= 800_000_000_000_000 && 0 <= (b.x - a.x) * (b.x - a.x) + (b.y - a.y) * (b.y
                    - a.y)) by (nonlinear_arith)
                    requires
                        -10_000_000 <= a.x <= 10_000_000,
                        -10_000_000 <= a.y <= 10_000_000,
                        -10_000_000 <= b.x <= 10_000_000,
                        -10_000_000 <= b.y <= 10_000_000,
                ;
            }
            let d2 = dist2_2d_e(V2 { x: a.x, y: a.y }, V2 { x: b.x, y: b.y });
            let len = isqrt(d2 as u64);
            proof {
                assert(len <= 30_000_000) by (nonlinear_arith)
                    requires
                        0 <= len,
                        (len as int) * (len as int) <= d2,
                        d2 <= 800_000_000_000_000i64,
                ;
            }
            let count = len / (PYLON_STEP as u64);
            proof {
                assert(count == seg_pylon_count(a, b));
                vstd::arithmetic::div_mod::lemma_fundamental_div_mod(len as int,
                    PYLON_STEP as int);
            }
            let mut k: u64 = 0;
            while k < count
                invariant
                    k <= count,
                    count == seg_pylon_count(a, b),
                    count * PYLON_STEP <= len <= 30_000_000,
                    len as int == sqrt_floor(dist2_2d(xy(a), xy(b))),
                    in3(a),
                    in3(b),
                    terrain_wf(*terrain),
                    r@ == pylons_upto(*terrain, points@, n - 1) + seg_pylons(*terrain, a,
                        b).take(k as int),
                decreases count - k,
            {
                let s = (k + 1) * PYLON_STEP as u64;
                proof {
                    assert((k as int + 1) * PYLON_STEP <= count * PYLON_STEP) by (
                    nonlinear_arith)
                        requires k < count,
                    ;
                }
                let p = interp3_e(a, b, s as i64, len as i64);
                r.push(PylonPosition { pos: p, terrain_height: terrain.elevation });
                proof {
                    assert(r@ =~= pylons_upto(*terrain, points@, n - 1) + seg_pylons(*terrain, a,
                        b).take(k as int + 1));
                }
                k = k + 1;
            }
            proof {
                assert(seg_pylons(*terrain, a, b).take(count as int) =~= seg_pylons(*terrain, a,
                    b));
            }
            n = n + 1;
        }
        r
    }
}

/// Exact linear interpolation along one segment.
fn interp3_e(a: V3, b: V3, s: i64, len: i64) -> (r: V3)
    requires
        in3(a),
        in3(b),
        0 < len <= 30_000_000,
        0 <= s <= len,
    ensures
        r == interp3(a, b, s as int, len as int),
        in3(r),
{
    proof {
        lemma_mul_bound((b.x - a.x) as int, s as int, 20_000_000, 30_000_000);
        lemma_mul_bound((b.y - a.y) as int, s as int, 20_000_000, 30_000_000);
        lemma_mul_bound((b.z - a.z) as int, s as int, 20_000_000, 30_000_000);
        crate::geom::lemma_tdiv_scaled_range((b.x - a.x) as int, s as int, len as int);
        crate::geom::lemma_tdiv_scaled_range((b.y - a.y) as int, s as int, len as int);
        crate::geom::lemma_tdiv_scaled_range((b.z - a.z) as int, s as int, len as int);
    }
    let rx = (a.x as i128) + tdiv_e(((b.x - a.x) as i128) * (s as i128), len as i128);
    let ry = (a.y as i128) + tdiv_e(((b.y - a.y) as i128) * (s as i128), len as i128);
    let rz = (a.z as i128) + tdiv_e(((b.z - a.z) as i128) * (s as i128), len as i128);
    V3 { x: rx as i64, y: ry as i64, z: rz as i64 }
}

/// Everything of the road but its two interface distances is unchanged.
pub open spec fn road_unchanged_but_interfaces(a: Road, b: Road) -> bool {
    &&& b.id == a.id
    &&& b.src == a.src
    &&& b.dst == a.dst
    &&& b.segment == a.segment
    &&& b.points == a.points
    &&& b.width == a.width
    &&& b.lanes_forward == a.lanes_forward
    &&& b.lanes_backward == a.lanes_backward
    &&& b.length == a.length
}

/// The first sidewalk in a lane list.
pub fn first_walking_e(s: &Vec<(LaneID, LaneKind)>) -> (r: Option<LaneID>)
    ensures
        r == first_walking(s@),
{
    let mut i: usize = 0;
    proof {
        assert(s@.skip(0) =~= s@);
    }
    while i < s.len()
        invariant
            i <= s@.len(),
            first_walking(s@) == first_walking(s@.skip(i as int)),
            forall|j: int| 0 <= j < i ==> !((#[trigger] s@[j]).1 is Walking),
        decreases s@.len() - i,
    {
        let (id, kind) = s[i];
        if matches!(kind, LaneKind::Walking) {
            proof {
                assert(s@.skip(i as int)[0] == s@[i as int]);
            }
            return Some(id);
        }
        proof {
            assert(s@.skip(i as int).drop_first() =~= s@.skip(i as int + 1));
            assert(s@.skip(i as int)[0] == s@[i as int]);
        }
        i = i + 1;
    }
    proof {
        assert(s@.skip(i as int).len() == 0);
    }
    None
}

} // verus!
