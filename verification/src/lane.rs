//! Lanes and lane patterns.
//!
//! A lane belongs to a road, runs the road's full length at a fixed lateral
//! offset, and has a kind deciding who may use it. A lane pattern is the
//! ordered list of lane kinds to build on each side of a new road.

use vstd::prelude::*;
use crate::geom::{
    V2, V3, xy, pt_seg_dist2, in2, dot2, cross2, len2, sqrt_floor, tdiv, tdiv_e, isqrt,
    len2_e, lemma_mul_bound, lemma_tdiv_bound, COORD_LIMIT,
};
use crate::ids::{IntersectionID, LaneID};

verus! {

/// What a lane carries.
#[derive(Clone, Copy, PartialEq, Eq, Structural, Debug, Hash)]
pub enum LaneKind {
    Driving,
    Biking,
    Parking,
    Bus,
    Rail,
    Walking,
}

/// Width of each lane kind, in coordinate steps.
pub const DRIVING_LANE_WIDTH: i64 = 800;

/// Width of a parking or walking lane, in coordinate steps.
pub const NARROW_LANE_WIDTH: i64 = 400;

pub open spec fn lane_kind_vehicles(k: LaneKind) -> bool {
    k is Driving || k is Biking || k is Bus
}

pub open spec fn lane_kind_width(k: LaneKind) -> int {
    match k {
        LaneKind::Driving | LaneKind::Biking | LaneKind::Bus | LaneKind::Rail => {
            DRIVING_LANE_WIDTH as int
        },
        LaneKind::Parking | LaneKind::Walking => NARROW_LANE_WIDTH as int,
    }
}

impl LaneKind {
    /// Whether vehicles may drive on this lane.
    pub fn vehicles(self) -> (r: bool)
        ensures
            r == lane_kind_vehicles(self),
    {
        match self {
            LaneKind::Driving | LaneKind::Biking | LaneKind::Bus => true,
            _ => false,
        }
    }

    /// Whether the lane takes part in traffic-light control.
    pub fn needs_light(self) -> (r: bool)
        ensures
            r == lane_kind_vehicles(self),
    {
        match self {
            LaneKind::Driving | LaneKind::Biking | LaneKind::Bus => true,
            _ => false,
        }
    }

    /// The lane's width.
    pub fn width(self) -> (r: i64)
        ensures
            r == lane_kind_width(self),
    {
        match self {
            LaneKind::Driving | LaneKind::Biking | LaneKind::Bus | LaneKind::Rail => {
                DRIVING_LANE_WIDTH
            },
            LaneKind::Parking | LaneKind::Walking => NARROW_LANE_WIDTH,
        }
    }
}

/// Which way a lane runs relative to its road's source-to-destination axis.
#[derive(Clone, Copy, PartialEq, Eq, Structural, Debug)]
pub enum LaneDirection {
    Forward,
    Backward,
}

/// Ordered lane kinds for each side of a road, outermost last.
#[derive(Clone, PartialEq, Eq, Debug)]
pub struct LanePattern {
    pub lanes_forward: Vec<LaneKind>,
    pub lanes_backward: Vec<LaneKind>,
}

/// Largest number of driving lanes per side a pattern accepts.
pub const MAX_LANES: u32 = 1000;

/// Sum of the widths of the first `n` lane kinds.
pub open spec fn kinds_width_upto(s: Seq<LaneKind>, n: int) -> int
    decreases n,
{
    if n <= 0 {
        0
    } else {
        kinds_width_upto(s, n - 1) + lane_kind_width(s[n - 1])
    }
}

/// The width of the road a pattern builds: the sum of all its lanes'
/// widths.
pub open spec fn pattern_width(p: LanePattern) -> int {
    kinds_width_upto(p.lanes_forward@, p.lanes_forward@.len() as int) + kinds_width_upto(
        p.lanes_backward@,
        p.lanes_backward@.len() as int,
    )
}

/// A pattern is buildable: it has at least one lane and few enough that the
/// road stays within the width bound.
pub open spec fn pattern_wf(p: LanePattern) -> bool {
    1 <= p.lanes_forward@.len() + p.lanes_backward@.len() <= 2500
}

/// Lane-kind width sums grow between 400 and 800 per lane.
pub proof fn lemma_kinds_width_bounds(s: Seq<LaneKind>, n: int)
    requires
        0 <= n <= s.len(),
    ensures
        400 * n <= kinds_width_upto(s, n) <= 800 * n,
    decreases n,
{
    if n > 0 {
        lemma_kinds_width_bounds(s, n - 1);
    }
}

impl LanePattern {
    /// The total width of the road this pattern builds.
    pub fn width(&self) -> (r: i64)
        requires
            pattern_wf(*self),
        ensures
            r == pattern_width(*self),
            400 <= r <= 2_000_000,
    {
        proof {
            lemma_kinds_width_bounds(self.lanes_forward@, self.lanes_forward@.len() as int);
            lemma_kinds_width_bounds(self.lanes_backward@, self.lanes_backward@.len() as int);
        }
        let mut w: i64 = 0;
        let mut i: usize = 0;
        while i < self.lanes_forward.len()
            invariant
                i <= self.lanes_forward@.len(),
                pattern_wf(*self),
                w == kinds_width_upto(self.lanes_forward@, i as int),
                0 <= w <= 800 * i,
            decreases self.lanes_forward@.len() - i,
        {
            proof {
                lemma_kinds_width_bounds(self.lanes_forward@, i as int + 1);
            }
            w = w + self.lanes_forward[i].width();
            i = i + 1;
        }
        let mut j: usize = 0;
        while j < self.lanes_backward.len()
            invariant
                j <= self.lanes_backward@.len(),
                pattern_wf(*self),
                w == kinds_width_upto(self.lanes_forward@, self.lanes_forward@.len() as int)
                    + kinds_width_upto(self.lanes_backward@, j as int),
                0 <= w <= 800 * (self.lanes_forward@.len() + j),
            decreases self.lanes_backward@.len() - j,
        {
            proof {
                lemma_kinds_width_bounds(self.lanes_backward@, j as int + 1);
                lemma_kinds_width_bounds(self.lanes_forward@, self.lanes_forward@.len() as int);
            }
            w = w + self.lanes_backward[j].width();
            j = j + 1;
        }
        w
    }
}

/// Configuration from which a lane pattern and its road width derive.
#[derive(Clone, Copy, PartialEq, Eq, Structural, Debug)]
pub struct LanePatternBuilder {
    pub n_lanes: u32,
    pub sidewalks: bool,
    pub parking: bool,
    pub one_way: bool,
    pub rail: bool,
}

/// A builder stays within the lane-count bound.
pub open spec fn builder_wf(b: LanePatternBuilder) -> bool {
    1 <= b.n_lanes <= MAX_LANES
}

/// Total width of the road a builder describes: both sides' driving lanes
/// plus a parking and a walking lane per side where enabled.
pub open spec fn builder_width(b: LanePatternBuilder) -> int {
    (if b.sidewalks { 2 * NARROW_LANE_WIDTH as int } else { 0 })
        + (if b.parking { 2 * NARROW_LANE_WIDTH as int } else { 0 })
        + b.n_lanes * 2 * DRIVING_LANE_WIDTH as int
}

/// The kinds built on one side: the driving lanes, then parking, then the
/// sidewalk; the backward side is empty of driving lanes on a one-way road.
pub open spec fn builder_side(b: LanePatternBuilder, backward: bool) -> Seq<LaneKind> {
    let driving: Seq<LaneKind> = if backward && b.one_way {
        Seq::empty()
    } else {
        Seq::new(b.n_lanes as nat, |i: int| LaneKind::Driving)
    };
    let with_parking: Seq<LaneKind> = if b.parking {
        driving.push(LaneKind::Parking)
    } else {
        driving
    };
    if b.sidewalks {
        with_parking.push(LaneKind::Walking)
    } else {
        with_parking
    }
}

impl Default for LanePatternBuilder {
    /// One driving lane per side, with sidewalks and parking, two-way, no rail.
    fn default() -> (r: Self)
        ensures
            r == (LanePatternBuilder {
                n_lanes: 1,
                sidewalks: true,
                parking: true,
                one_way: false,
                rail: false,
            }),
    {
        LanePatternBuilder { n_lanes: 1, sidewalks: true, parking: true, one_way: false, rail: false }
    }
}

impl LanePatternBuilder {
    /// The default builder.
    pub fn new() -> (r: Self)
        ensures
            r == (LanePatternBuilder {
                n_lanes: 1,
                sidewalks: true,
                parking: true,
                one_way: false,
                rail: false,
            }),
    {
        Default::default()
    }

    /// Sets the number of driving lanes per side.
    pub fn n_lanes(self, n_lanes: u32) -> (r: Self)
        requires
            1 <= n_lanes <= MAX_LANES,
        ensures
            r == (LanePatternBuilder { n_lanes, ..self }),
    {
        LanePatternBuilder { n_lanes, ..self }
    }

    /// Enables or disables sidewalks.
    pub fn sidewalks(self, sidewalks: bool) -> (r: Self)
        ensures
            r == (LanePatternBuilder { sidewalks, ..self }),
    {
        LanePatternBuilder { sidewalks, ..self }
    }

    /// Enables or disables parking lanes.
    pub fn parking(self, parking: bool) -> (r: Self)
        ensures
            r == (LanePatternBuilder { parking, ..self }),
    {
        LanePatternBuilder { parking, ..self }
    }

    /// Makes the road one-way.
    pub fn one_way(self, one_way: bool) -> (r: Self)
        ensures
            r == (LanePatternBuilder { one_way, ..self }),
    {
        LanePatternBuilder { one_way, ..self }
    }

    /// Makes the pattern a rail track.
    pub fn rail(self, rail: bool) -> (r: Self)
        ensures
            r == (LanePatternBuilder { rail, ..self }),
    {
        LanePatternBuilder { rail, ..self }
    }

    /// Total width of the road this pattern builds.
    pub fn width(self) -> (r: i64)
        requires
            builder_wf(self),
        ensures
            r == builder_width(self),
            0 < r <= 2_000_000,
    {
        let mut w: i64 = 0;
        if self.sidewalks {
            w = w + 2 * NARROW_LANE_WIDTH;
        }
        if self.parking {
            w = w + 2 * NARROW_LANE_WIDTH;
        }
        w + (self.n_lanes as i64) * 2 * DRIVING_LANE_WIDTH
    }

    /// The ordered lane kinds for both sides.
    pub fn build(self) -> (r: LanePattern)
        requires
            builder_wf(self),
        ensures
            r.lanes_forward@ == builder_side(self, false),
            r.lanes_backward@ == builder_side(self, true),
    {
        let mut forward: Vec<LaneKind> = Vec::new();
        let mut backward: Vec<LaneKind> = Vec::new();
        let mut i: u32 = 0;
        while i < self.n_lanes
            invariant
                i <= self.n_lanes,
                forward@ =~= Seq::new(i as nat, |j: int| LaneKind::Driving),
            decreases self.n_lanes - i,
        {
            forward.push(LaneKind::Driving);
            i = i + 1;
        }
        if !self.one_way {
            let mut i: u32 = 0;
            while i < self.n_lanes
                invariant
                    i <= self.n_lanes,
                    backward@ =~= Seq::new(i as nat, |j: int| LaneKind::Driving),
                decreases self.n_lanes - i,
            {
                backward.push(LaneKind::Driving);
                i = i + 1;
            }
        }
        if self.parking {
            forward.push(LaneKind::Parking);
            backward.push(LaneKind::Parking);
        }
        if self.sidewalks {
            forward.push(LaneKind::Walking);
            backward.push(LaneKind::Walking);
        }
        proof {
            assert(forward@ =~= builder_side(self, false));
            assert(backward@ =~= builder_side(self, true));
        }
        LanePattern { lanes_forward: forward, lanes_backward: backward }
    }
}

/// A lane: its identity, kind, the endpoints and departure directions of its
/// road, and its own offset centerline, always stored from `src` to `dst`.
pub struct Lane {
    pub id: LaneID,
    pub kind: LaneKind,
    pub src: IntersectionID,
    pub dst: IntersectionID,
    pub src_dir: V2,
    pub dst_dir: V2,
    pub points: Vec<V2>,
    pub width: i64,
    pub inter_length: i64,
}

/// Minimum over the first `n` segments of `pts` of the floored squared
/// distance from `p`.
pub open spec fn poly_dist2_upto(p: V2, pts: Seq<V2>, n: int) -> int
    decreases n,
{
    if n <= 1 {
        pt_seg_dist2(p, pts[0], pts[1])
    } else {
        let rest = poly_dist2_upto(p, pts, n - 1);
        let last = pt_seg_dist2(p, pts[n - 1], pts[n]);
        if last < rest {
            last
        } else {
            rest
        }
    }
}

/// Floored squared distance from `p` to the polyline `pts`.
pub open spec fn poly_dist2(p: V2, pts: Seq<V2>) -> int {
    poly_dist2_upto(p, pts, pts.len() - 1)
}

impl Lane {
    /// The end of the lane's centerline that touches intersection `id`.
    pub fn get_inter_node_pos(&self, id: IntersectionID) -> (r: V2)
        requires
            self.points@.len() > 0,
            id == self.src || id == self.dst,
        ensures
            id == self.src ==> r == self.points@[0],
            id != self.src ==> r == self.points@[self.points@.len() - 1],
    {
        if id == self.src {
            self.points[0]
        } else {
            self.points[self.points.len() - 1]
        }
    }

    /// Which way the lane runs seen from intersection `i`.
    pub fn dir_from(&self, i: IntersectionID) -> (r: LaneDirection)
        ensures
            r == (if i == self.src { LaneDirection::Forward } else { LaneDirection::Backward }),
    {
        if self.src == i {
            LaneDirection::Forward
        } else {
            LaneDirection::Backward
        }
    }

    /// The lane's departure direction at intersection `id`.
    pub fn orientation_from(&self, id: IntersectionID) -> (r: V2)
        ensures
            r == (if id == self.src { self.src_dir } else { self.dst_dir }),
    {
        if id == self.src {
            self.src_dir
        } else {
            self.dst_dir
        }
    }

    /// Regenerates the lane's offset centerline from its road's centerline:
    /// the road points shifted laterally by the lane's position across the
    /// road width, with inner-corner compression at sharp elbows, reversed
    /// for a backward lane.
    pub fn gen_pos(&mut self, parent: &crate::road::Road, dist_from_bottom: i64)
        requires
            parent.points@.len() >= 2,
            parent.points@.len() <= 100_000,
            crate::road::pts_in3(parent.points@),
            0 <= old(self).width <= 1_000_000,
            0 <= dist_from_bottom <= 1_000_000,
            0 <= parent.width <= 2_000_000,
        ensures
            ({
                let ld = old(self).width as int / 2 + dist_from_bottom - parent.width as int / 2;
                let backward = old(self).src != parent.src;
                final(self).points@ == (if backward {
                    lane_polyline(parent.points@, ld).reverse()
                } else {
                    lane_polyline(parent.points@, ld)
                })
            }),
            final(self).inter_length == parent.length,
            final(self).id == old(self).id,
            final(self).kind == old(self).kind,
            final(self).src == old(self).src,
            final(self).dst == old(self).dst,
            final(self).src_dir == old(self).src_dir,
            final(self).dst_dir == old(self).dst_dir,
            final(self).width == old(self).width,
            forall|i: int| 0 <= i < final(self).points@.len() ==> in2(
                #[trigger] final(self).points@[i],
            ),
    {
        let half: i64 = ((self.width as u64) / 2) as i64;
        let phalf: i64 = ((parent.width as u64) / 2) as i64;
        let lane_dist = half + dist_from_bottom - phalf;
        let backward = !(self.src == parent.src);
        self.points = gen_lane_points(&parent.points, lane_dist, backward);
        self.inter_length = parent.length;
    }

    /// Floored squared distance from `p` to the lane's centerline.
    pub fn dist2_to(&self, p: V2) -> (r: u128)
        requires
            self.points@.len() >= 2,
            in2(p),
            forall|i: int| 0 <= i < self.points@.len() ==> in2(#[trigger] self.points@[i]),
        ensures
            r == poly_dist2(p, self.points@),
    {
        poly_dist2_e(p, &self.points)
    }
}

/// A direction scaled to length one thousand (fixed-point unit vector);
/// the zero vector stays zero.
pub open spec fn unit_milli(v: V2) -> V2 {
    let m = sqrt_floor(len2(v));
    if m == 0 {
        V2 { x: 0, y: 0 }
    } else {
        V2 { x: tdiv(v.x * 1000, m) as i64, y: tdiv(v.y * 1000, m) as i64 }
    }
}

/// The right-hand perpendicular of a direction.
pub open spec fn perp(v: V2) -> V2 {
    V2 { x: v.y, y: (0 - v.x as int) as i64 }
}

/// A coordinate clamped into the coordinate box.
pub open spec fn clamp_coord(x: int) -> int {
    if x < -COORD_LIMIT {
        -COORD_LIMIT as int
    } else if x > COORD_LIMIT {
        COORD_LIMIT as int
    } else {
        x
    }
}

/// A milli-unit direction computed exactly.
pub fn unit_milli_e(v: V2) -> (r: V2)
    requires
        crate::geom::dir2(v),
    ensures
        r == unit_milli(v),
        -2000 <= r.x <= 2000,
        -2000 <= r.y <= 2000,
{
    proof {
        lemma_mul_bound(v.x as int, v.x as int, 20_000_000, 20_000_000);
        lemma_mul_bound(v.y as int, v.y as int, 20_000_000, 20_000_000);
        assert(0 <= v.x as int * v.x as int && 0 <= v.y as int * v.y as int) by (nonlinear_arith);
    }
    let l = len2_e(v);
    let m = isqrt(l as u64);
    if m == 0 {
        V2 { x: 0, y: 0 }
    } else {
        proof {
            assert(m <= 30_000_000) by (nonlinear_arith)
                requires
                    0 <= m,
                    (m as int) * (m as int) <= (l as int),
                    l <= 800_000_000_000_000i64,
            ;
            lemma_mul_bound(v.x as int, 1000, 20_000_000, 1000);
            lemma_mul_bound(v.y as int, 1000, 20_000_000, 1000);
            // |v.c| < m + 1, so |v.c * 1000| <= (m + 1) * 1000 - 1000 + ... <= 2000 * m.
            assert((v.x as int) * (v.x as int) <= (l as int) && (v.y as int) * (v.y as int)
                <= (l as int)) by (nonlinear_arith)
                requires
                    (l as int) == (v.x as int) * (v.x as int) + (v.y as int) * (v.y as int),
                    0 <= (v.x as int) * (v.x as int),
                    0 <= (v.y as int) * (v.y as int),
            ;
            assert(-(m as int) - 1 < (v.x as int) && (v.x as int) < (m as int) + 1)
                by (nonlinear_arith)
                requires
                    (v.x as int) * (v.x as int) <= (l as int),
                    (l as int) < ((m as int) + 1) * ((m as int) + 1),
                    0 <= m,
            ;
            assert(-(m as int) - 1 < (v.y as int) && (v.y as int) < (m as int) + 1)
                by (nonlinear_arith)
                requires
                    (v.y as int) * (v.y as int) <= (l as int),
                    (l as int) < ((m as int) + 1) * ((m as int) + 1),
                    0 <= m,
            ;
            assert(-((m as int) * 2000) <= (v.x as int) * 1000 && (v.x as int) * 1000 <= (
            m as int) * 2000) by (nonlinear_arith)
                requires -(m as int) - 1 < (v.x as int), (v.x as int) < (m as int) + 1, 1 <= m,
            ;
            assert(-((m as int) * 2000) <= (v.y as int) * 1000 && (v.y as int) * 1000 <= (
            m as int) * 2000) by (nonlinear_arith)
                requires -(m as int) - 1 < (v.y as int), (v.y as int) < (m as int) + 1, 1 <= m,
            ;
            lemma_tdiv_bound((v.x as int) * 1000, m as int, 2000);
            lemma_tdiv_bound((v.y as int) * 1000, m as int, 2000);
        }
        let rx = tdiv_e((v.x as i128) * 1000, m as i128);
        let ry = tdiv_e((v.y as i128) * 1000, m as i128);
        V2 { x: rx as i64, y: ry as i64 }
    }
}

/// The planar difference of two spatial points.
pub open spec fn diff2(b: V3, a: V3) -> V2 {
    V2 { x: (b.x - a.x) as i64, y: (b.y - a.y) as i64 }
}

/// A point offset along a milli-unit normal by the signed lane distance.
pub open spec fn off_pt(p: V2, nor: V2, lane_dist: int) -> V2 {
    V2 {
        x: clamp_coord(p.x + tdiv(nor.x * lane_dist, 1000)) as i64,
        y: clamp_coord(p.y + tdiv(nor.y * lane_dist, 1000)) as i64,
    }
}

/// The offset point at an interior joint, compressed at sharp bends: the
/// offset direction bisects the joint, and its length is scaled by a factor
/// between one and the square root of two as the bend sharpens, so lane
/// edges cannot self-intersect at tight elbows. A degenerate joint produces
/// no point.
pub open spec fn elbow_off(a: V2, e: V2, c: V2, lane_dist: int) -> Option<V2> {
    let x = unit_milli(V2 { x: (e.x - a.x) as i64, y: (e.y - a.y) as i64 });
    let y = unit_milli(V2 { x: (e.x - c.x) as i64, y: (e.y - c.y) as i64 });
    if (x.x == 0 && x.y == 0) || (y.x == 0 && y.y == 0) {
        None
    } else {
        let s = V2 { x: (x.x + y.x) as i64, y: (x.y + y.y) as i64 };
        let u = unit_milli(s);
        let d1 = if u.x == 0 && u.y == 0 {
            V2 { x: (0 - perp(x).x as int) as i64, y: (0 - perp(x).y as int) as i64 }
        } else {
            u
        };
        let dir = if cross2(x, y) < 0 {
            V2 { x: (0 - d1.x as int) as i64, y: (0 - d1.y as int) as i64 }
        } else {
            d1
        };
        let dcos = tdiv(dot2(x, y), 1000);
        let raw = 1000 + tdiv((1000 + vstd::math::min(dcos, 0)) * 414, 1000);
        let mul = if raw < 0 {
            0
        } else if raw > 2000 {
            2000
        } else {
            raw
        };
        Some(
            V2 {
                x: clamp_coord(e.x + tdiv(dir.x * mul * lane_dist, 1_000_000)) as i64,
                y: clamp_coord(e.y + tdiv(dir.y * mul * lane_dist, 1_000_000)) as i64,
            },
        )
    }
}

/// The offset points of the first `k` interior joints of a centerline.
pub open spec fn joints_upto(pts: Seq<V3>, lane_dist: int, k: int) -> Seq<V2>
    decreases k,
{
    if k <= 0 {
        Seq::empty()
    } else {
        let pre = joints_upto(pts, lane_dist, k - 1);
        match elbow_off(xy(pts[k - 1]), xy(pts[k]), xy(pts[k + 1]), lane_dist) {
            Some(p) => pre.push(p),
            None => pre,
        }
    }
}

/// The whole offset polyline of a lane at the given signed lateral
/// distance: the offset first point, the compressed interior joints, and
/// the offset last point.
pub open spec fn lane_polyline(pts: Seq<V3>, lane_dist: int) -> Seq<V2> {
    let n = pts.len() as int;
    let first = off_pt(xy(pts[0]), perp(unit_milli(diff2(pts[1], pts[0]))), lane_dist);
    let last = off_pt(xy(pts[n - 1]), perp(unit_milli(diff2(pts[n - 1], pts[n - 2]))), lane_dist);
    seq![first] + joints_upto(pts, lane_dist, n - 2) + seq![last]
}

/// The offset polyline, computed exactly; reversed for a backward lane so
/// its points always run from the lane's own source to its destination.
pub fn gen_lane_points(pts: &Vec<V3>, lane_dist: i64, backward: bool) -> (r: Vec<V2>)
    requires
        pts@.len() >= 2,
        pts@.len() <= 100_000,
        crate::road::pts_in3(pts@),
        -2_000_000 <= lane_dist <= 2_000_000,
    ensures
        r@ == (if backward {
            lane_polyline(pts@, lane_dist as int).reverse()
        } else {
            lane_polyline(pts@, lane_dist as int)
        }),
        forall|i: int| 0 <= i < r@.len() ==> in2(#[trigger] r@[i]),
{
    let fwd = forward_lane_points(pts, lane_dist);
    if !backward {
        return fwd;
    }
    reversed_points(&fwd)
}

/// The offset polyline in source-to-destination order.
#[verifier::loop_isolation(false)]
#[verifier::rlimit(100)]
fn forward_lane_points(pts: &Vec<V3>, lane_dist: i64) -> (r: Vec<V2>)
    requires
        pts@.len() >= 2,
        pts@.len() <= 100_000,
        crate::road::pts_in3(pts@),
        -2_000_000 <= lane_dist <= 2_000_000,
    ensures
        r@ == lane_polyline(pts@, lane_dist as int),
        forall|i: int| 0 <= i < r@.len() ==> in2(#[trigger] r@[i]),
{
    let mut fwd: Vec<V2> = Vec::new();
    let n = pts.len();
    let first_dir = V2 { x: pts[1].x - pts[0].x, y: pts[1].y - pts[0].y };
    let p0 = pts[0];
    fwd.push(off_pt_e(V2 { x: p0.x, y: p0.y }, perp_e(unit_milli_e(first_dir)), lane_dist));
    let mut k: usize = 1;
    while k < n - 1
        invariant
            1 <= k <= n - 1,
            fwd@ == seq![
                off_pt(xy(pts@[0]), perp(unit_milli(diff2(pts@[1], pts@[0]))),
                    lane_dist as int),
            ] + joints_upto(pts@, lane_dist as int, k - 1),
            forall|i: int| 0 <= i < fwd@.len() ==> in2(#[trigger] fwd@[i]),
        decreases n - k,
    {
        let a = pts[k - 1];
        let e = pts[k];
        let c = pts[k + 1];
        match elbow_off_e(V2 { x: a.x, y: a.y }, V2 { x: e.x, y: e.y }, V2 { x: c.x, y: c.y },
            lane_dist) {
            Some(p) => {
                fwd.push(p);
            },
            None => {},
        }
        k = k + 1;
    }
    let pl = pts[n - 1];
    let pm = pts[n - 2];
    let last_dir = V2 { x: pl.x - pm.x, y: pl.y - pm.y };
    fwd.push(off_pt_e(V2 { x: pl.x, y: pl.y }, perp_e(unit_milli_e(last_dir)), lane_dist));
    proof {
        assert(fwd@ =~= lane_polyline(pts@, lane_dist as int));
    }
    fwd
}

/// A reversed copy of a point list.
#[verifier::loop_isolation(false)]
fn reversed_points(v: &Vec<V2>) -> (r: Vec<V2>)
    ensures
        r@ == v@.reverse(),
        forall|i: int| 0 <= i < v@.len() ==> in2(#[trigger] v@[i]) ==> in2(r@[v@.len() - 1 - i]),
        (forall|i: int| 0 <= i < v@.len() ==> in2(#[trigger] v@[i])) ==> (forall|i: int|
            0 <= i < r@.len() ==> in2(#[trigger] r@[i])),
{
    let mut rev: Vec<V2> = Vec::new();
    let mut i: usize = v.len();
    while i > 0
        invariant
            i <= v@.len(),
            rev@.len() == v@.len() - i,
            forall|j: int| 0 <= j < rev@.len() ==> #[trigger] rev@[j] == v@[v@.len() - 1 - j],
        decreases i,
    {
        i = i - 1;
        rev.push(v[i]);
    }
    proof {
        assert(rev@ =~= v@.reverse());
    }
    rev
}

/// The right-hand perpendicular, computed exactly.
fn perp_e(v: V2) -> (r: V2)
    requires
        -2000 <= v.x <= 2000,
        -2000 <= v.y <= 2000,
    ensures
        r == perp(v),
        -2000 <= r.x <= 2000,
        -2000 <= r.y <= 2000,
{
    V2 { x: v.y, y: -v.x }
}

/// One offset point, computed exactly.
fn off_pt_e(p: V2, nor: V2, lane_dist: i64) -> (r: V2)
    requires
        in2(p),
        -2000 <= nor.x <= 2000,
        -2000 <= nor.y <= 2000,
        -2_000_000 <= lane_dist <= 2_000_000,
    ensures
        r == off_pt(p, nor, lane_dist as int),
        in2(r),
{
    proof {
        lemma_mul_bound(nor.x as int, lane_dist as int, 2000, 2_000_000);
        lemma_mul_bound(nor.y as int, lane_dist as int, 2000, 2_000_000);
        lemma_tdiv_bound((nor.x as int) * (lane_dist as int), 1000, 4_000_000);
        lemma_tdiv_bound((nor.y as int) * (lane_dist as int), 1000, 4_000_000);
        assert((nor.x as int) * (lane_dist as int) <= 1000 * 4_000_000 && -(1000 * 4_000_000)
            <= (nor.x as int) * (lane_dist as int)) by (nonlinear_arith)
            requires -2000 <= nor.x <= 2000, -2_000_000 <= lane_dist <= 2_000_000,
        ;
        assert((nor.y as int) * (lane_dist as int) <= 1000 * 4_000_000 && -(1000 * 4_000_000)
            <= (nor.y as int) * (lane_dist as int)) by (nonlinear_arith)
            requires -2000 <= nor.y <= 2000, -2_000_000 <= lane_dist <= 2_000_000,
        ;
    }
    let ox = tdiv_e((nor.x as i128) * (lane_dist as i128), 1000) as i64;
    let oy = tdiv_e((nor.y as i128) * (lane_dist as i128), 1000) as i64;
    let rx = clamp_coord_e(p.x + ox);
    let ry = clamp_coord_e(p.y + oy);
    V2 { x: rx, y: ry }
}

/// A coordinate clamped into the coordinate box, exactly.
fn clamp_coord_e(x: i64) -> (r: i64)
    ensures
        r == clamp_coord(x as int),
        -COORD_LIMIT <= r <= COORD_LIMIT,
{
    if x < -COORD_LIMIT {
        -COORD_LIMIT
    } else if x > COORD_LIMIT {
        COORD_LIMIT
    } else {
        x
    }
}

/// One interior joint's offset point, computed exactly.
fn elbow_off_e(a: V2, e: V2, c: V2, lane_dist: i64) -> (r: Option<V2>)
    requires
        in2(a),
        in2(e),
        in2(c),
        -2_000_000 <= lane_dist <= 2_000_000,
    ensures
        r == elbow_off(a, e, c, lane_dist as int),
        r is Some ==> in2(r->Some_0),
{
    let x = unit_milli_e(V2 { x: e.x - a.x, y: e.y - a.y });
    let y = unit_milli_e(V2 { x: e.x - c.x, y: e.y - c.y });
    if (x.x == 0 && x.y == 0) || (y.x == 0 && y.y == 0) {
        return None;
    }
    let s = V2 { x: x.x + y.x, y: x.y + y.y };
    let u = unit_milli_e(s);
    let d1 = if u.x == 0 && u.y == 0 {
        let px = perp_e(x);
        V2 { x: -px.x, y: -px.y }
    } else {
        u
    };
    proof {
        lemma_mul_bound(x.x as int, y.y as int, 2000, 2000);
        lemma_mul_bound(x.y as int, y.x as int, 2000, 2000);
        lemma_mul_bound(x.x as int, y.x as int, 2000, 2000);
        lemma_mul_bound(x.y as int, y.y as int, 2000, 2000);
    }
    let cr = x.x * y.y - x.y * y.x;
    let dir = if cr < 0 {
        V2 { x: -d1.x, y: -d1.y }
    } else {
        d1
    };
    let dt = x.x * y.x + x.y * y.y;
    let dcos: i64 = if dt >= 0 {
        ((dt as u64) / 1000) as i64
    } else {
        -((((-dt) as u64) / 1000) as i64)
    };
    let shifted = 1000 + (if dcos < 0 {
        dcos
    } else {
        0
    });
    let prod = shifted * 414;
    let raw: i64 = 1000 + (if prod >= 0 {
        ((prod as u64) / 1000) as i64
    } else {
        -((((-prod) as u64) / 1000) as i64)
    });
    let mul: i64 = if raw < 0 {
        0
    } else if raw > 2000 {
        2000
    } else {
        raw
    };
    proof {
        lemma_mul_bound(dir.x as int, mul as int, 2000, 2000);
        lemma_mul_bound(dir.y as int, mul as int, 2000, 2000);
        lemma_mul_bound((dir.x as int) * (mul as int), lane_dist as int, 4_000_000, 2_000_000);
        lemma_mul_bound((dir.y as int) * (mul as int), lane_dist as int, 4_000_000, 2_000_000);
        lemma_tdiv_bound((dir.x as int) * (mul as int) * (lane_dist as int), 1_000_000,
            8_000_000_000);
        lemma_tdiv_bound((dir.y as int) * (mul as int) * (lane_dist as int), 1_000_000,
            8_000_000_000);
        assert((dir.x as int) * (mul as int) * (lane_dist as int) <= 1_000_000 * 8_000_000_000int
            && -(1_000_000 * 8_000_000_000int) <= (dir.x as int) * (mul as int) * (
        lane_dist as int)) by (nonlinear_arith)
            requires
                -4_000_000 <= (dir.x as int) * (mul as int) <= 4_000_000,
                -2_000_000 <= lane_dist <= 2_000_000,
        ;
        assert((dir.y as int) * (mul as int) * (lane_dist as int) <= 1_000_000 * 8_000_000_000int
            && -(1_000_000 * 8_000_000_000int) <= (dir.y as int) * (mul as int) * (
        lane_dist as int)) by (nonlinear_arith)
            requires
                -4_000_000 <= (dir.y as int) * (mul as int) <= 4_000_000,
                -2_000_000 <= lane_dist <= 2_000_000,
        ;
    }
    let ox = tdiv_e(((dir.x as i128) * (mul as i128)) * (lane_dist as i128), 1_000_000) as i64;
    let oy = tdiv_e(((dir.y as i128) * (mul as i128)) * (lane_dist as i128), 1_000_000) as i64;
    Some(V2 { x: clamp_coord_e(e.x + ox), y: clamp_coord_e(e.y + oy) })
}

/// Floored squared distance from `p` to the polyline `pts`.
pub fn poly_dist2_e(p: V2, pts: &Vec<V2>) -> (r: u128)
    requires
        pts@.len() >= 2,
        in2(p),
        forall|i: int| 0 <= i < pts@.len() ==> in2(#[trigger] pts@[i]),
    ensures
        r == poly_dist2(p, pts@),
{
    let mut best: u128 = crate::geom::pt_seg_dist2_e(p, pts[0], pts[1]);
    let mut i: usize = 1;
    while i < pts.len() - 1
        invariant
            1 <= i <= pts@.len() - 1,
            pts@.len() >= 2,
            in2(p),
            forall|j: int| 0 <= j < pts@.len() ==> in2(#[trigger] pts@[j]),
            best == poly_dist2_upto(p, pts@, i as int),
        decreases pts@.len() - i,
    {
        let d = crate::geom::pt_seg_dist2_e(p, pts[i], pts[i + 1]);
        if d < best {
            best = d;
        }
        i = i + 1;
    }
    best
}

} // verus!
