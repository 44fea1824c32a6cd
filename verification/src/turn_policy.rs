//! Turn policy: the pure derivation of an intersection's legal turn set from
//! its incident roads and their lanes.
//!
//! A dead end pairs its own incoming and outgoing vehicle lanes; a
//! pass-through pairs each road's incoming lanes with the other's outgoing
//! lanes; a general junction takes every incoming/outgoing vehicle lane pair
//! of every road pair, filtered by the left-turn rule. Pedestrian turns walk
//! the incident roads in angular order and link neighbouring sidewalks.

use vstd::prelude::*;
use crate::geom::{V2, dot2, len2, sqrt_floor, dir2, isqrt, len2_e, dot2_e, lemma_mul_bound};
use crate::ids::{IntersectionID, RoadID, LaneID, TurnID};
use crate::lane::{Lane, LaneKind, lane_kind_vehicles};
use crate::road::{Road, road_incoming_lanes_to, road_outgoing_lanes_from, first_walking};
use crate::store::Store;
use crate::turn::TurnKind;
use crate::intersection::Intersection;

verus! {

/// Configuration of the turn derivation.
#[derive(Clone, Copy, PartialEq, Eq, Debug)]
pub struct TurnPolicy {
    /// Whether a road may turn back onto itself at a junction.
    pub back_turns: bool,
    /// Whether sharp left turns are legal at a junction.
    pub left_turns: bool,
    /// Radius of the roundabout configured at the intersection, if any.
    pub roundabout: Option<i64>,
}

impl Default for TurnPolicy {
    /// No back turns, left turns allowed, no roundabout.
    fn default() -> (r: Self)
        ensures
            r == (TurnPolicy { back_turns: false, left_turns: true, roundabout: None::<i64> }),
    {
        TurnPolicy { back_turns: false, left_turns: true, roundabout: None }
    }
}

/// The identities of the vehicle-capable lanes among the first `n` of `s`.
pub open spec fn vehicles_upto(s: Seq<(LaneID, LaneKind)>, n: int) -> Seq<LaneID>
    decreases n,
{
    if n <= 0 {
        Seq::empty()
    } else {
        let pre = vehicles_upto(s, n - 1);
        if lane_kind_vehicles(s[n - 1].1) {
            pre.push(s[n - 1].0)
        } else {
            pre
        }
    }
}

/// The identities of the vehicle-capable lanes of a lane list.
pub open spec fn vehicles_of(s: Seq<(LaneID, LaneKind)>) -> Seq<LaneID> {
    vehicles_upto(s, s.len() as int)
}

/// The vehicle-capable lanes of a lane list.
pub fn filter_vehicles(s: &Vec<(LaneID, LaneKind)>) -> (r: Vec<LaneID>)
    ensures
        r@ == vehicles_of(s@),
{
    let mut r: Vec<LaneID> = Vec::new();
    let mut i: usize = 0;
    while i < s.len()
        invariant
            i <= s@.len(),
            r@ == vehicles_upto(s@, i as int),
        decreases s@.len() - i,
    {
        let (id, kind) = s[i];
        if kind.vehicles() {
            r.push(id);
        }
        i = i + 1;
    }
    r
}

/// A one-way vehicle turn identity and kind.
pub open spec fn normal_turn(inter: IntersectionID, src: LaneID, dst: LaneID) -> (
    TurnID,
    TurnKind,
) {
    (TurnID { parent: inter, src, dst, bidirectional: false }, TurnKind::Normal)
}

/// Index-matched pairing of incoming and outgoing lanes, truncated to the
/// shorter list.
pub open spec fn zip_turns(inter: IntersectionID, inc: Seq<LaneID>, out: Seq<LaneID>) -> Seq<
    (TurnID, TurnKind),
> {
    Seq::new(
        vstd::math::min(inc.len() as int, out.len() as int) as nat,
        |i: int| normal_turn(inter, inc[i], out[i]),
    )
}

/// One incoming lane paired with every outgoing lane.
pub open spec fn row_turns(inter: IntersectionID, src: LaneID, out: Seq<LaneID>) -> Seq<
    (TurnID, TurnKind),
> {
    Seq::new(out.len(), |j: int| normal_turn(inter, src, out[j]))
}

/// Cross product of the first `n` incoming lanes with every outgoing lane.
pub open spec fn all_upto(inter: IntersectionID, inc: Seq<LaneID>, out: Seq<LaneID>, n: int) -> Seq<
    (TurnID, TurnKind),
>
    decreases n,
{
    if n <= 0 {
        Seq::empty()
    } else {
        all_upto(inter, inc, out, n - 1) + row_turns(inter, inc[n - 1], out)
    }
}

/// Full cross product of incoming and outgoing lanes.
pub open spec fn all_turns(inter: IntersectionID, inc: Seq<LaneID>, out: Seq<LaneID>) -> Seq<
    (TurnID, TurnKind),
> {
    all_upto(inter, inc, out, inc.len() as int)
}

/// The cross product holds one turn per lane pair.
pub proof fn lemma_all_upto_len(inter: IntersectionID, inc: Seq<LaneID>, out: Seq<LaneID>, n: int)
    requires
        0 <= n <= inc.len(),
    ensures
        all_upto(inter, inc, out, n).len() == n * out.len(),
    decreases n,
{
    if n > 0 {
        lemma_all_upto_len(inter, inc, out, n - 1);
        let m = out.len() as int;
        assert(all_upto(inter, inc, out, n) == all_upto(inter, inc, out, n - 1) + row_turns(
            inter,
            inc[n - 1],
            out,
        ));
        assert(row_turns(inter, inc[n - 1], out).len() == m);
        assert((n - 1) * m + m == n * m) by (nonlinear_arith);
    } else {
        let m = out.len() as int;
        assert(n * m == 0) by (nonlinear_arith)
            requires n == 0,
        ;
    }
}

/// Pair by index on equal counts, else the full cross product.
pub open spec fn zip_or_all(inter: IntersectionID, inc: Seq<LaneID>, out: Seq<LaneID>) -> Seq<
    (TurnID, TurnKind),
> {
    if inc.len() == out.len() {
        zip_turns(inter, inc, out)
    } else {
        all_turns(inter, inc, out)
    }
}

/// The lane's travel direction where it meets intersection `inter`.
pub open spec fn lane_dir_at(lanes: Map<int, Lane>, id: LaneID, inter: IntersectionID) -> V2 {
    let l = lanes[id.0 as int];
    if inter == l.src {
        l.src_dir
    } else {
        l.dst_dir
    }
}

/// The right-hand perpendicular of a direction.
pub open spec fn right_of(v: V2) -> V2 {
    V2 { x: v.y, y: (0 - v.x as int) as i64 }
}

/// The fixed-point magnitude product of two directions: the product of the
/// floor lengths.
pub open spec fn mag_prod(a: V2, b: V2) -> int {
    sqrt_floor(len2(a)) * sqrt_floor(len2(b))
}

/// The left-turn rule: a turn is legal if left turns are allowed, or if the
/// dot product of the incoming lane's right-hand perpendicular with the
/// outgoing direction is at least -0.3 of the magnitude product — a design
/// tolerance, not a strict right-turn test.
pub open spec fn turn_legal(p: TurnPolicy, in_dir: V2, out_dir: V2) -> bool {
    p.left_turns || 10 * dot2(right_of(in_dir), out_dir) >= -3 * mag_prod(
        right_of(in_dir),
        out_dir,
    )
}

/// Exact evaluation of the left-turn rule.
pub fn turn_legal_e(p: &TurnPolicy, in_dir: V2, out_dir: V2) -> (r: bool)
    requires
        dir2(in_dir),
        dir2(out_dir),
    ensures
        r == turn_legal(*p, in_dir, out_dir),
{
    if p.left_turns {
        return true;
    }
    let rv = V2 { x: in_dir.y, y: -in_dir.x };
    let d = dot2_e(rv, out_dir);
    let l1 = len2_e(rv);
    let l2 = len2_e(out_dir);
    proof {
        lemma_mul_bound(rv.x as int, rv.x as int, 20_000_000, 20_000_000);
        lemma_mul_bound(rv.y as int, rv.y as int, 20_000_000, 20_000_000);
        lemma_mul_bound(out_dir.x as int, out_dir.x as int, 20_000_000, 20_000_000);
        lemma_mul_bound(out_dir.y as int, out_dir.y as int, 20_000_000, 20_000_000);
    }
    let m1 = isqrt(l1 as u64);
    let m2 = isqrt(l2 as u64);
    proof {
        assert(m1 <= 30_000_000 && m2 <= 30_000_000) by (nonlinear_arith)
            requires
                0 <= m1,
                0 <= m2,
                (m1 as int) * (m1 as int) <= l1 as int,
                (m2 as int) * (m2 as int) <= l2 as int,
                l1 <= 800_000_000_000_000i64,
                l2 <= 800_000_000_000_000i64,
        ;
        lemma_mul_bound(m1 as int, m2 as int, 30_000_000, 30_000_000);
        lemma_mul_bound(rv.x as int, out_dir.x as int, 20_000_000, 20_000_000);
        lemma_mul_bound(rv.y as int, out_dir.y as int, 20_000_000, 20_000_000);
    }
    let m: i64 = (m1 as i64) * (m2 as i64);
    10 * d + 3 * m >= 0
}

/// One candidate lane pair of a road pair: a vehicle turn where both lanes
/// carry vehicles and the left-turn rule admits it.
pub open spec fn pair_cell(
    p: TurnPolicy,
    inter: IntersectionID,
    lanes: Map<int, Lane>,
    src: (LaneID, LaneKind),
    dst: (LaneID, LaneKind),
) -> Seq<(TurnID, TurnKind)> {
    if lane_kind_vehicles(src.1) && lane_kind_vehicles(dst.1) && turn_legal(
        p,
        lane_dir_at(lanes, src.0, inter),
        lane_dir_at(lanes, dst.0, inter),
    ) {
        seq![normal_turn(inter, src.0, dst.0)]
    } else {
        Seq::empty()
    }
}

/// One incoming lane against the first `n` outgoing lanes.
pub open spec fn pair_row_upto(
    p: TurnPolicy,
    inter: IntersectionID,
    lanes: Map<int, Lane>,
    src: (LaneID, LaneKind),
    outs: Seq<(LaneID, LaneKind)>,
    n: int,
) -> Seq<(TurnID, TurnKind)>
    decreases n,
{
    if n <= 0 {
        Seq::empty()
    } else {
        pair_row_upto(p, inter, lanes, src, outs, n - 1) + pair_cell(p, inter, lanes, src, outs[n
            - 1])
    }
}

/// The first `n` incoming lanes against every outgoing lane.
pub open spec fn pair_turns_upto(
    p: TurnPolicy,
    inter: IntersectionID,
    lanes: Map<int, Lane>,
    ins: Seq<(LaneID, LaneKind)>,
    outs: Seq<(LaneID, LaneKind)>,
    n: int,
) -> Seq<(TurnID, TurnKind)>
    decreases n,
{
    if n <= 0 {
        Seq::empty()
    } else {
        pair_turns_upto(p, inter, lanes, ins, outs, n - 1) + pair_row_upto(
            p,
            inter,
            lanes,
            ins[n - 1],
            outs,
            outs.len() as int,
        )
    }
}

/// All legal vehicle turns from one road's incoming lanes to another road's
/// outgoing lanes.
pub open spec fn pair_turns(
    p: TurnPolicy,
    inter: IntersectionID,
    lanes: Map<int, Lane>,
    ins: Seq<(LaneID, LaneKind)>,
    outs: Seq<(LaneID, LaneKind)>,
) -> Seq<(TurnID, TurnKind)> {
    pair_turns_upto(p, inter, lanes, ins, outs, ins.len() as int)
}

/// Every lane of a road's two lists is in the lane store with bounded
/// directions.
pub open spec fn road_lanes_ok(r: Road, lanes: Map<int, Lane>) -> bool {
    &&& forall|i: int|
        0 <= i < r.lanes_forward@.len() ==> {
            let id = (#[trigger] r.lanes_forward@[i]).0;
            lanes.contains_key(id.0 as int) && dir2(lanes[id.0 as int].src_dir) && dir2(
                lanes[id.0 as int].dst_dir,
            )
        }
    &&& forall|i: int|
        0 <= i < r.lanes_backward@.len() ==> {
            let id = (#[trigger] r.lanes_backward@[i]).0;
            lanes.contains_key(id.0 as int) && dir2(lanes[id.0 as int].src_dir) && dir2(
                lanes[id.0 as int].dst_dir,
            )
        }
}

/// Every incident road is in the road store, with its lanes in the lane store.
pub open spec fn incident_roads_ok(
    rds: Seq<RoadID>,
    roads: Map<int, Road>,
    lanes: Map<int, Lane>,
) -> bool {
    forall|j: int|
        0 <= j < rds.len() ==> {
            let k = (#[trigger] rds[j]).0 as int;
            roads.contains_key(k) && road_lanes_ok(roads[k], lanes)
        }
}

/// Junction turns of road pair `(i, j-1)` and the pairs before it for a fixed
/// first road `i`.
pub open spec fn gen3_inner_upto(
    p: TurnPolicy,
    inter: IntersectionID,
    rds: Seq<RoadID>,
    roads: Map<int, Road>,
    lanes: Map<int, Lane>,
    i: int,
    j: int,
) -> Seq<(TurnID, TurnKind)>
    decreases j,
{
    if j <= 0 {
        Seq::empty()
    } else {
        let pre = gen3_inner_upto(p, inter, rds, roads, lanes, i, j - 1);
        if i == j - 1 && !p.back_turns {
            pre
        } else {
            pre + pair_turns(
                p,
                inter,
                lanes,
                road_incoming_lanes_to(roads[rds[i].0 as int], inter),
                road_outgoing_lanes_from(roads[rds[j - 1].0 as int], inter),
            )
        }
    }
}

/// Junction turns of the first `i` first-roads against every second road.
pub open spec fn gen3_outer_upto(
    p: TurnPolicy,
    inter: IntersectionID,
    rds: Seq<RoadID>,
    roads: Map<int, Road>,
    lanes: Map<int, Lane>,
    i: int,
) -> Seq<(TurnID, TurnKind)>
    decreases i,
{
    if i <= 0 {
        Seq::empty()
    } else {
        gen3_outer_upto(p, inter, rds, roads, lanes, i - 1) + gen3_inner_upto(
            p,
            inter,
            rds,
            roads,
            lanes,
            i - 1,
            rds.len() as int,
        )
    }
}

/// All vehicle turns of a general junction: every ordered road pair — a road
/// with itself only under `back_turns` — and every vehicle lane pair of it
/// that the left-turn rule admits.
pub open spec fn gen3_turns(
    p: TurnPolicy,
    inter: IntersectionID,
    rds: Seq<RoadID>,
    roads: Map<int, Road>,
    lanes: Map<int, Lane>,
) -> Seq<(TurnID, TurnKind)> {
    gen3_outer_upto(p, inter, rds, roads, lanes, rds.len() as int)
}

/// The vehicle turns of an intersection: index-matched or crossed pairing at
/// a dead end, crossed between the two roads of a pass-through, and the
/// filtered general pairing at a junction.
pub open spec fn vehicle_turns(
    p: TurnPolicy,
    inter: Intersection,
    roads: Map<int, Road>,
    lanes: Map<int, Lane>,
) -> Seq<(TurnID, TurnKind)> {
    let rds = inter.roads@;
    if rds.len() == 1 {
        let r = roads[rds[0].0 as int];
        zip_or_all(
            inter.id,
            vehicles_of(road_incoming_lanes_to(r, inter.id)),
            vehicles_of(road_outgoing_lanes_from(r, inter.id)),
        )
    } else if rds.len() == 2 {
        let r1 = roads[rds[0].0 as int];
        let r2 = roads[rds[1].0 as int];
        zip_or_all(
            inter.id,
            vehicles_of(road_incoming_lanes_to(r1, inter.id)),
            vehicles_of(road_outgoing_lanes_from(r2, inter.id)),
        ) + zip_or_all(
            inter.id,
            vehicles_of(road_incoming_lanes_to(r2, inter.id)),
            vehicles_of(road_outgoing_lanes_from(r1, inter.id)),
        )
    } else {
        gen3_turns(p, inter.id, rds, roads, lanes)
    }
}

/// The sidewalk ends of the first `n` incident roads, in angular order: for
/// each road with both an incoming and an outgoing sidewalk, the pair.
pub open spec fn sw_pairs_upto(
    inter: IntersectionID,
    rds: Seq<RoadID>,
    roads: Map<int, Road>,
    n: int,
) -> Seq<(LaneID, LaneID)>
    decreases n,
{
    if n <= 0 {
        Seq::empty()
    } else {
        let pre = sw_pairs_upto(inter, rds, roads, n - 1);
        let r = roads[rds[n - 1].0 as int];
        let iw = first_walking(road_incoming_lanes_to(r, inter));
        let ow = first_walking(road_outgoing_lanes_from(r, inter));
        if iw is Some && ow is Some {
            pre.push((iw->Some_0, ow->Some_0))
        } else {
            pre
        }
    }
}

/// The pedestrian turns of sidewalk pair `t`: a walking corner to the next
/// pair in angular order (wrapping), and at a junction of more than two
/// roads also a crosswalk over the pair's own road.
pub open spec fn walk_cell(
    inter: IntersectionID,
    sw: Seq<(LaneID, LaneID)>,
    n_roads: int,
    t: int,
) -> Seq<(TurnID, TurnKind)> {
    let nxt = if t + 1 == sw.len() {
        0
    } else {
        t + 1
    };
    let corner = seq![
        (
            TurnID { parent: inter, src: sw[t].0, dst: sw[nxt].1, bidirectional: false },
            TurnKind::WalkingCorner,
        ),
    ];
    if n_roads > 2 {
        corner.push(
            (
                TurnID { parent: inter, src: sw[t].1, dst: sw[t].0, bidirectional: false },
                TurnKind::Crosswalk,
            ),
        )
    } else {
        corner
    }
}

/// The pedestrian turns of the first `i` sidewalk pairs.
pub open spec fn walk_upto(
    inter: IntersectionID,
    sw: Seq<(LaneID, LaneID)>,
    n_roads: int,
    i: int,
) -> Seq<(TurnID, TurnKind)>
    decreases i,
{
    if i <= 0 {
        Seq::empty()
    } else {
        walk_upto(inter, sw, n_roads, i - 1) + walk_cell(inter, sw, n_roads, i - 1)
    }
}

/// All pedestrian turns of an intersection.
pub open spec fn walking_turns(inter: Intersection, roads: Map<int, Road>) -> Seq<
    (TurnID, TurnKind),
> {
    let rds = inter.roads@;
    let sw = sw_pairs_upto(inter.id, rds, roads, rds.len() as int);
    walk_upto(inter.id, sw, rds.len() as int, sw.len() as int)
}

/// The whole turn set: the vehicle turns followed by the pedestrian turns.
pub open spec fn spec_generate_turns(
    p: TurnPolicy,
    inter: Intersection,
    lanes: Map<int, Lane>,
    roads: Map<int, Road>,
) -> Seq<(TurnID, TurnKind)> {
    vehicle_turns(p, inter, roads, lanes) + walking_turns(inter, roads)
}

/// A dead end with as many incoming as outgoing vehicle lanes gets exactly
/// one vehicle turn per matched index pair.
pub proof fn lemma_dead_end_matched(
    p: TurnPolicy,
    inter: Intersection,
    roads: Map<int, Road>,
    lanes: Map<int, Lane>,
)
    requires
        inter.roads@.len() == 1,
        vehicles_of(road_incoming_lanes_to(roads[inter.roads@[0].0 as int], inter.id)).len()
            == vehicles_of(road_outgoing_lanes_from(roads[inter.roads@[0].0 as int],
            inter.id)).len(),
    ensures
        ({
            let inc = vehicles_of(road_incoming_lanes_to(roads[inter.roads@[0].0 as int],
                inter.id));
            let out = vehicles_of(road_outgoing_lanes_from(roads[inter.roads@[0].0 as int],
                inter.id));
            &&& vehicle_turns(p, inter, roads, lanes).len() == inc.len()
            &&& forall|i: int|
                0 <= i < inc.len() ==> vehicle_turns(p, inter, roads, lanes)[i] == normal_turn(
                    inter.id,
                    inc[i],
                    out[i],
                )
        }),
{
}

/// A dead end with unequal incoming and outgoing vehicle lane counts gets
/// the full cross product: one vehicle turn per incoming-outgoing pair.
pub proof fn lemma_dead_end_mismatched(
    p: TurnPolicy,
    inter: Intersection,
    roads: Map<int, Road>,
    lanes: Map<int, Lane>,
)
    requires
        inter.roads@.len() == 1,
        vehicles_of(road_incoming_lanes_to(roads[inter.roads@[0].0 as int], inter.id)).len()
            != vehicles_of(road_outgoing_lanes_from(roads[inter.roads@[0].0 as int],
            inter.id)).len(),
    ensures
        ({
            let inc = vehicles_of(road_incoming_lanes_to(roads[inter.roads@[0].0 as int],
                inter.id));
            let out = vehicles_of(road_outgoing_lanes_from(roads[inter.roads@[0].0 as int],
                inter.id));
            vehicle_turns(p, inter, roads, lanes).len() == inc.len() * out.len()
        }),
{
    let inc = vehicles_of(road_incoming_lanes_to(roads[inter.roads@[0].0 as int], inter.id));
    let out = vehicles_of(road_outgoing_lanes_from(roads[inter.roads@[0].0 as int], inter.id));
    lemma_all_upto_len(inter.id, inc, out, inc.len() as int);
}

/// The turn set depends only on the intersection's identity, its incident
/// road list and the stores: regenerating it after a regeneration with no
/// topology change yields the identical set.
pub proof fn lemma_generate_turns_idempotent(
    p: TurnPolicy,
    a: Intersection,
    b: Intersection,
    lanes: Map<int, Lane>,
    roads: Map<int, Road>,
)
    requires
        a.id == b.id,
        a.roads@ == b.roads@,
    ensures
        spec_generate_turns(p, a, lanes, roads) == spec_generate_turns(p, b, lanes, roads),
{
}

impl TurnPolicy {
    /// Pairs incoming with outgoing lanes by index, truncating to the shorter.
    pub fn zip(inter_id: IntersectionID, incoming: &Vec<LaneID>, outgoing: &Vec<LaneID>) -> (r:
        Vec<(TurnID, TurnKind)>)
        ensures
            r@ == zip_turns(inter_id, incoming@, outgoing@),
    {
        let n = if incoming.len() < outgoing.len() {
            incoming.len()
        } else {
            outgoing.len()
        };
        let mut r: Vec<(TurnID, TurnKind)> = Vec::new();
        let mut i: usize = 0;
        while i < n
            invariant
                i <= n,
                n == vstd::math::min(incoming@.len() as int, outgoing@.len() as int),
                r@ =~= zip_turns(inter_id, incoming@, outgoing@).take(i as int),
            decreases n - i,
        {
            r.push((TurnID::new(inter_id, incoming[i], outgoing[i]), TurnKind::Normal));
            i = i + 1;
        }
        proof {
            assert(r@ =~= zip_turns(inter_id, incoming@, outgoing@));
        }
        r
    }

    /// Pairs every incoming lane with every outgoing lane.
    pub fn all(inter_id: IntersectionID, incoming: &Vec<LaneID>, outgoing: &Vec<LaneID>) -> (r:
        Vec<(TurnID, TurnKind)>)
        ensures
            r@ == all_turns(inter_id, incoming@, outgoing@),
    {
        let mut r: Vec<(TurnID, TurnKind)> = Vec::new();
        let mut i: usize = 0;
        while i < incoming.len()
            invariant
                i <= incoming@.len(),
                r@ == all_upto(inter_id, incoming@, outgoing@, i as int),
            decreases incoming@.len() - i,
        {
            let src = incoming[i];
            let mut j: usize = 0;
            while j < outgoing.len()
                invariant
                    j <= outgoing@.len(),
                    i < incoming@.len(),
                    src == incoming@[i as int],
                    r@ =~= all_upto(inter_id, incoming@, outgoing@, i as int) + row_turns(
                        inter_id,
                        src,
                        outgoing@,
                    ).take(j as int),
                decreases outgoing@.len() - j,
            {
                r.push((TurnID::new(inter_id, src, outgoing[j]), TurnKind::Normal));
                j = j + 1;
            }
            proof {
                assert(row_turns(inter_id, src, outgoing@).take(outgoing@.len() as int)
                    =~= row_turns(inter_id, src, outgoing@));
            }
            i = i + 1;
        }
        r
    }

    /// Pairs by index on equal counts, else takes the full cross product.
    pub fn zip_on_same_length(
        inter_id: IntersectionID,
        incoming: &Vec<LaneID>,
        outgoing: &Vec<LaneID>,
    ) -> (r: Vec<(TurnID, TurnKind)>)
        ensures
            r@ == zip_or_all(inter_id, incoming@, outgoing@),
    {
        if incoming.len() == outgoing.len() {
            Self::zip(inter_id, incoming, outgoing)
        } else {
            Self::all(inter_id, incoming, outgoing)
        }
    }
}

/// The stored travel direction of lane `id` at intersection `inter`.
fn lane_dir_at_e(lanes: &Store<Lane>, id: LaneID, inter: IntersectionID) -> (r: V2)
    requires
        lanes@.contains_key(id.0 as int),
    ensures
        r == lane_dir_at(lanes@, id, inter),
{
    let l = match lanes.get(id.0) {
        Some(l) => l,
        None => vstd::pervasive::unreached(),
    };
    if inter == l.src {
        l.src_dir
    } else {
        l.dst_dir
    }
}

/// All legal vehicle turns from `ins` to `outs` at a junction.
#[verifier::loop_isolation(false)]
fn pair_turns_e(
    p: &TurnPolicy,
    inter: IntersectionID,
    lanes: &Store<Lane>,
    ins: &Vec<(LaneID, LaneKind)>,
    outs: &Vec<(LaneID, LaneKind)>,
) -> (r: Vec<(TurnID, TurnKind)>)
    requires
        forall|i: int|
            0 <= i < ins@.len() ==> {
                let id = (#[trigger] ins@[i]).0;
                lanes@.contains_key(id.0 as int) && dir2(lanes@[id.0 as int].src_dir) && dir2(
                    lanes@[id.0 as int].dst_dir,
                )
            },
        forall|i: int|
            0 <= i < outs@.len() ==> {
                let id = (#[trigger] outs@[i]).0;
                lanes@.contains_key(id.0 as int) && dir2(lanes@[id.0 as int].src_dir) && dir2(
                    lanes@[id.0 as int].dst_dir,
                )
            },
    ensures
        r@ == pair_turns(*p, inter, lanes@, ins@, outs@),
{
    let mut r: Vec<(TurnID, TurnKind)> = Vec::new();
    let mut i: usize = 0;
    while i < ins.len()
        invariant
            i <= ins@.len(),
            r@ == pair_turns_upto(*p, inter, lanes@, ins@, outs@, i as int),
        decreases ins@.len() - i,
    {
        let (src_id, src_kind) = ins[i];
        let mut j: usize = 0;
        while j < outs.len()
            invariant
                j <= outs@.len(),
                i < ins@.len(),
                (src_id, src_kind) == ins@[i as int],
                r@ == pair_turns_upto(*p, inter, lanes@, ins@, outs@, i as int) + pair_row_upto(
                    *p,
                    inter,
                    lanes@,
                    ins@[i as int],
                    outs@,
                    j as int,
                ),
            decreases outs@.len() - j,
        {
            let (dst_id, dst_kind) = outs[j];
            if src_kind.vehicles() && dst_kind.vehicles() {
                let in_dir = lane_dir_at_e(lanes, src_id, inter);
                let out_dir = lane_dir_at_e(lanes, dst_id, inter);
                if turn_legal_e(p, in_dir, out_dir) {
                    r.push((TurnID::new(inter, src_id, dst_id), TurnKind::Normal));
                }
            }
            proof {
                assert(r@ =~= pair_turns_upto(*p, inter, lanes@, ins@, outs@, i as int)
                    + pair_row_upto(*p, inter, lanes@, ins@[i as int], outs@, j as int + 1));
            }
            j = j + 1;
        }
        i = i + 1;
    }
    r
}

impl TurnPolicy {
    /// Appends every legal vehicle turn of the intersection to `turns`.
    #[verifier::loop_isolation(false)]
    pub fn generate_vehicle_turns(
        self,
        inter: &Intersection,
        lanes: &Store<Lane>,
        roads: &Store<Road>,
        turns: &mut Vec<(TurnID, TurnKind)>,
    )
        requires
            incident_roads_ok(inter.roads@, roads@, lanes@),
        ensures
            final(turns)@ == old(turns)@ + vehicle_turns(self, *inter, roads@, lanes@),
    {
        let rds_len = inter.roads.len();
        if rds_len == 1 {
            let road = road_at(roads, inter, 0);
            let inc = filter_vehicles(road.incoming_lanes_to(inter.id));
            let out = filter_vehicles(road.outgoing_lanes_from(inter.id));
            let mut t = Self::zip_on_same_length(inter.id, &inc, &out);
            turns.append(&mut t);
            return;
        }
        if rds_len == 2 {
            let road1 = road_at(roads, inter, 0);
            let road2 = road_at(roads, inter, 1);
            let incoming_road1 = filter_vehicles(road1.incoming_lanes_to(inter.id));
            let incoming_road2 = filter_vehicles(road2.incoming_lanes_to(inter.id));
            let outgoing_road1 = filter_vehicles(road1.outgoing_lanes_from(inter.id));
            let outgoing_road2 = filter_vehicles(road2.outgoing_lanes_from(inter.id));
            let mut t1 = Self::zip_on_same_length(inter.id, &incoming_road1, &outgoing_road2);
            let mut t2 = Self::zip_on_same_length(inter.id, &incoming_road2, &outgoing_road1);
            turns.append(&mut t1);
            turns.append(&mut t2);
            return;
        }
        let mut i: usize = 0;
        while i < inter.roads.len()
            invariant
                i <= inter.roads@.len(),
                turns@ == old(turns)@ + gen3_outer_upto(self, inter.id, inter.roads@, roads@,
                    lanes@, i as int),
            decreases inter.roads@.len() - i,
        {
            let road1 = road_at(roads, inter, i);
            let mut j: usize = 0;
            while j < inter.roads.len()
                invariant
                    j <= inter.roads@.len(),
                    i < inter.roads@.len(),
                    turns@ == old(turns)@ + gen3_outer_upto(self, inter.id, inter.roads@, roads@,
                        lanes@, i as int) + gen3_inner_upto(self, inter.id, inter.roads@, roads@,
                        lanes@, i as int, j as int),
                decreases inter.roads@.len() - j,
            {
                if !(i == j && !self.back_turns) {
                    let road1 = road_at(roads, inter, i);
                    let road2 = road_at(roads, inter, j);
                    let mut t = pair_turns_e(
                        &self,
                        inter.id,
                        lanes,
                        road1.incoming_lanes_to(inter.id),
                        road2.outgoing_lanes_from(inter.id),
                    );
                    turns.append(&mut t);
                }
                j = j + 1;
            }
            i = i + 1;
        }
    }

    /// Appends the pedestrian turns: walking corners between neighbouring
    /// sidewalks in angular order, and crosswalks where more than two roads
    /// meet.
    #[verifier::loop_isolation(false)]
    pub fn generate_walking_turns(
        self,
        inter: &Intersection,
        roads: &Store<Road>,
        turns: &mut Vec<(TurnID, TurnKind)>,
    )
        requires
            forall|j: int|
                0 <= j < inter.roads@.len() ==> roads@.contains_key(
                    (#[trigger] inter.roads@[j]).0 as int,
                ),
        ensures
            final(turns)@ == old(turns)@ + walking_turns(*inter, roads@),
    {
        let n_roads = inter.roads.len();
        let mut sw: Vec<(LaneID, LaneID)> = Vec::new();
        let mut i: usize = 0;
        while i < n_roads
            invariant
                i <= inter.roads@.len(),
                n_roads == inter.roads@.len(),
                sw@ == sw_pairs_upto(inter.id, inter.roads@, roads@, i as int),
            decreases n_roads - i,
        {
            let road = road_at(roads, inter, i);
            let (iw, ow) = road.sidewalks(inter.id);
            match (iw, ow) {
                (Some(a), Some(b)) => {
                    sw.push((a, b));
                },
                _ => {},
            }
            i = i + 1;
        }
        let m = sw.len();
        let mut t: usize = 0;
        while t < m
            invariant
                t <= m,
                m == sw@.len(),
                sw@ == sw_pairs_upto(inter.id, inter.roads@, roads@, inter.roads@.len() as int),
                n_roads == inter.roads@.len(),
                turns@ == old(turns)@ + walk_upto(inter.id, sw@, n_roads as int, t as int),
            decreases m - t,
        {
            let nxt = if t + 1 == m {
                0
            } else {
                t + 1
            };
            let (in_t, out_t) = sw[t];
            let (_, out_n) = sw[nxt];
            turns.push((TurnID::new(inter.id, in_t, out_n), TurnKind::WalkingCorner));
            if n_roads > 2 {
                turns.push((TurnID::new(inter.id, out_t, in_t), TurnKind::Crosswalk));
            }
            proof {
                assert(turns@ =~= old(turns)@ + walk_upto(inter.id, sw@, n_roads as int,
                    t as int + 1));
            }
            t = t + 1;
        }
    }

    /// The whole legal turn set of the intersection: vehicle turns, then
    /// pedestrian turns.
    pub fn generate_turns(
        self,
        inter: &Intersection,
        lanes: &Store<Lane>,
        roads: &Store<Road>,
    ) -> (r: Vec<(TurnID, TurnKind)>)
        requires
            incident_roads_ok(inter.roads@, roads@, lanes@),
        ensures
            r@ == spec_generate_turns(self, *inter, lanes@, roads@),
    {
        let mut turns: Vec<(TurnID, TurnKind)> = Vec::new();
        self.generate_vehicle_turns(inter, lanes, roads, &mut turns);
        self.generate_walking_turns(inter, roads, &mut turns);
        turns
    }
}

/// The road at position `i` of the intersection's incident list.
fn road_at<'a>(roads: &'a Store<Road>, inter: &Intersection, i: usize) -> (r: &'a Road)
    requires
        i < inter.roads@.len(),
        roads@.contains_key(inter.roads@[i as int].0 as int),
    ensures
        *r == roads@[inter.roads@[i as int].0 as int],
{
    let rid = inter.roads[i];
    match roads.get(rid.0) {
        Some(r) => r,
        None => vstd::pervasive::unreached(),
    }
}

} // verus!
