//! Intersections: the set of roads meeting at a point, their angular order,
//! the interface radius each road is trimmed by, and the derived turn set.

use vstd::prelude::*;
use vstd::math::{min, max};
use crate::geom::{
    V2, V3, xy, dot2, cross2, len2, sqrt_floor, dir2, pseudo_angle_key, pseudo_angle_key_e,
    isqrt, dot2_e, cross2_e, len2_e, lemma_mul_bound, Circle,
};
use crate::ids::{IntersectionID, RoadID, LaneID, TurnID};
use crate::lane::{Lane, LaneKind};
use crate::road::{
    Road, road_dir_from, road_interface_from, road_endpoint, road_geom_wf,
    road_unchanged_but_interfaces, road_outgoing_lanes_from,
};
use crate::store::Store;
use crate::turn::{Turn, TraverseDirection, turn_path};
use crate::turn_policy::{TurnPolicy, spec_generate_turns, incident_roads_ok};

verus! {

/// Default minimum interface distance, in coordinate steps (9 length units).
pub const MIN_INTERFACE: i64 = 900;

/// Cap on the pairwise interface distance (30 length units), so roads meeting
/// at a narrow angle do not eat unreasonably into their own length.
pub const INTERFACE_CAP: i64 = 3000;

/// Default bounding-circle radius of an intersection with no roads.
pub const DEFAULT_BCIRCLE_RADIUS: i64 = 1000;

/// An intersection of the network.
pub struct Intersection {
    pub id: IntersectionID,
    pub pos: V3,
    /// Derived turn set, rebuilt as a whole on every topology change.
    pub turns: Vec<Turn>,
    /// Incident roads, sorted by the pseudo-angle of their departure
    /// directions.
    pub roads: Vec<RoadID>,
    pub turn_policy: TurnPolicy,
}

/// The default interface of a road of the given width: eight tenths of the
/// width, at least `MIN_INTERFACE`.
pub open spec fn spec_empty_interface(width: int) -> int {
    max(width * 4 / 5, MIN_INTERFACE as int)
}

/// The minimum separation of two roads meeting at the given departure
/// directions: the hypot of the half-widths, widened by a tenth, divided by
/// the (fixed-point) sine of the angle between the directions, capped at
/// `INTERFACE_CAP`. An angle at or beyond a right angle counts as a full
/// right angle; parallel directions take the cap.
pub open spec fn spec_interface_calc(w1: int, w2: int, d1: V2, d2: V2) -> int {
    let hw1 = w1 / 2;
    let hw2 = w2 / 2;
    let w = sqrt_floor(hw1 * hw1 + hw2 * hw2);
    let dt = dot2(d1, d2);
    if dt <= 0 {
        min(w * 11 / 10, INTERFACE_CAP as int)
    } else {
        let cr = abs_int(cross2(d1, d2));
        if cr == 0 {
            INTERFACE_CAP as int
        } else {
            min(w * 11 * (sqrt_floor(len2(d1)) * sqrt_floor(len2(d2))) / (10 * cr),
                INTERFACE_CAP as int)
        }
    }
}

pub open spec fn abs_int(x: int) -> int {
    if x < 0 {
        -x
    } else {
        x
    }
}

/// The identities of `rds` that are present in the road store, order kept.
pub open spec fn kept_upto(rds: Seq<RoadID>, roads: Map<int, Road>, n: int) -> Seq<RoadID>
    decreases n,
{
    if n <= 0 {
        Seq::empty()
    } else {
        let pre = kept_upto(rds, roads, n - 1);
        if roads.contains_key(rds[n - 1].0 as int) {
            pre.push(rds[n - 1])
        } else {
            pre
        }
    }
}

pub open spec fn kept_ids(rds: Seq<RoadID>, roads: Map<int, Road>) -> Seq<RoadID> {
    kept_upto(rds, roads, rds.len() as int)
}

/// The first `n` of `rds` with every occurrence of `rid` removed, order kept.
pub open spec fn without_id_upto(rds: Seq<RoadID>, rid: RoadID, n: int) -> Seq<RoadID>
    decreases n,
{
    if n <= 0 {
        Seq::empty()
    } else {
        let pre = without_id_upto(rds, rid, n - 1);
        if rds[n - 1] == rid {
            pre
        } else {
            pre.push(rds[n - 1])
        }
    }
}

/// `rds` with every occurrence of `rid` removed, order kept.
pub open spec fn without_id(rds: Seq<RoadID>, rid: RoadID) -> Seq<RoadID> {
    without_id_upto(rds, rid, rds.len() as int)
}

/// No road identity appears twice.
pub open spec fn distinct_ids(rds: Seq<RoadID>) -> bool {
    forall|i: int, j: int| 0 <= i < j < rds.len() ==> rds[i] != rds[j]
}

/// Whether some listed road has identity key `k`.
pub open spec fn lists_id(rds: Seq<RoadID>, k: int) -> bool {
    exists|j: int| 0 <= j < rds.len() && (#[trigger] rds[j]).0 as int == k
}

/// Every listed road exists, has well-formed geometry, and ends at `id`.
pub open spec fn listed_roads_wf(rds: Seq<RoadID>, roads: Map<int, Road>, id: IntersectionID)
    -> bool {
    forall|j: int|
        0 <= j < rds.len() ==> {
            let k = (#[trigger] rds[j]).0 as int;
            roads.contains_key(k) && road_geom_wf(roads[k]) && road_endpoint(roads[k], id)
        }
}

/// The successor position in angular order, wrapping.
pub open spec fn nxt_pos(n: int, t: int) -> int {
    if t + 1 == n {
        0
    } else {
        t + 1
    }
}

/// The predecessor position in angular order, wrapping.
pub open spec fn prv_pos(n: int, j: int) -> int {
    if j == 0 {
        n - 1
    } else {
        j - 1
    }
}

/// The pairwise separation of the roads at positions `t` and `t + 1`
/// (wrapping) of the angular order.
pub open spec fn pair_val(
    id: IntersectionID,
    rds: Seq<RoadID>,
    roads: Map<int, Road>,
    t: int,
) -> int {
    let a = roads[rds[t].0 as int];
    let b = roads[rds[nxt_pos(rds.len() as int, t)].0 as int];
    spec_interface_calc(a.width as int, b.width as int, road_dir_from(a, id), road_dir_from(b, id))
}

/// The interface every road is first reset to: the width default, raised for
/// a roundabout to clear the circle.
pub open spec fn base_iface(p: TurnPolicy, n: int, width: int) -> int {
    let e = spec_empty_interface(width);
    if p.roundabout is Some && n > 1 {
        max(e, p.roundabout->Some_0 * 11 / 10 + 500)
    } else {
        e
    }
}

/// The interface the road at position `j` ends up with once the pairs
/// `0 .. done` of the pairwise pass have been applied.
pub open spec fn partial_iface(
    p: TurnPolicy,
    id: IntersectionID,
    rds: Seq<RoadID>,
    roads: Map<int, Road>,
    j: int,
    done: int,
) -> int {
    let n = rds.len() as int;
    let b = base_iface(p, n, roads[rds[j].0 as int].width as int);
    if n <= 1 {
        b
    } else {
        let own = if j < done {
            pair_val(id, rds, roads, j)
        } else {
            b
        };
        let before = if prv_pos(n, j) < done {
            pair_val(id, rds, roads, prv_pos(n, j))
        } else {
            b
        };
        max(b, max(own, before))
    }
}

/// The interface the road at position `j` of the angular order ends up with:
/// the base default raised to the pairwise separation against both angular
/// neighbours.
pub open spec fn target_iface(
    p: TurnPolicy,
    id: IntersectionID,
    rds: Seq<RoadID>,
    roads: Map<int, Road>,
    j: int,
) -> int {
    partial_iface(p, id, rds, roads, j, rds.len() as int)
}

impl Intersection {
    /// The default interface of a road of width `width`.
    pub fn empty_interface(width: i64) -> (r: i64)
        requires
            0 <= width <= 2_000_000,
        ensures
            r == spec_empty_interface(width as int),
            MIN_INTERFACE <= r <= 1_600_000,
    {
        let v = width * 4 / 5;
        if v > MIN_INTERFACE {
            v
        } else {
            MIN_INTERFACE
        }
    }

    /// Exact evaluation of the pairwise minimum-separation formula.
    pub fn interface_calc(w1: i64, w2: i64, d1: V2, d2: V2) -> (r: i64)
        requires
            0 <= w1 <= 2_000_000,
            0 <= w2 <= 2_000_000,
            dir2(d1),
            dir2(d2),
        ensures
            r == spec_interface_calc(w1 as int, w2 as int, d1, d2),
            0 <= r <= INTERFACE_CAP,
    {
        let hw1: u64 = (w1 as u64) / 2;
        let hw2: u64 = (w2 as u64) / 2;
        proof {
            lemma_mul_bound(hw1 as int, hw1 as int, 1_000_000, 1_000_000);
            lemma_mul_bound(hw2 as int, hw2 as int, 1_000_000, 1_000_000);
        }
        let w: u64 = isqrt(hw1 * hw1 + hw2 * hw2);
        proof {
            assert(w <= 1_500_000) by (nonlinear_arith)
                requires 0 <= w, (w as int) * (w as int) <= 2_000_000_000_000u64,
            ;
        }
        let dt = dot2_e(d1, d2);
        if dt <= 0 {
            let v = (w * 11) / 10;
            if v > INTERFACE_CAP as u64 {
                INTERFACE_CAP
            } else {
                v as i64
            }
        } else {
            let cr = cross2_e(d1, d2);
            proof {
                lemma_mul_bound(d1.x as int, d2.y as int, 20_000_000, 20_000_000);
                lemma_mul_bound(d1.y as int, d2.x as int, 20_000_000, 20_000_000);
            }
            let ca: i64 = if cr < 0 { -cr } else { cr };
            if ca == 0 {
                INTERFACE_CAP
            } else {
                let l1 = len2_e(d1);
                let l2 = len2_e(d2);
                proof {
                    lemma_mul_bound(d1.x as int, d1.x as int, 20_000_000, 20_000_000);
                    lemma_mul_bound(d1.y as int, d1.y as int, 20_000_000, 20_000_000);
                    lemma_mul_bound(d2.x as int, d2.x as int, 20_000_000, 20_000_000);
                    lemma_mul_bound(d2.y as int, d2.y as int, 20_000_000, 20_000_000);
                }
                let m1 = isqrt(l1 as u64);
                let m2 = isqrt(l2 as u64);
                proof {
                    assert(m1 <= 30_000_000 && m2 <= 30_000_000) by (nonlinear_arith)
                        requires
                            0 <= m1,
                            0 <= m2,
                            (m1 as int) * (m1 as int) <= l1 as int,
                            (m2 as int) * (m2 as int) <= l2 as int,
                            l1 <= 800_000_000_000_000i64,
                            l2 <= 800_000_000_000_000i64,
                    ;
                    lemma_mul_bound((w * 11) as int, m1 as int, 16_500_000, 30_000_000);
                    lemma_mul_bound((w * 11) as int * (m1 as int), m2 as int,
                        495_000_000_000_000, 30_000_000);
                }
                let num: u128 = ((w * 11) as u128) * (m1 as u128) * (m2 as u128);
                let den: u128 = 10 * (ca as u128);
                let q: u128 = num / den;
                proof {
                    assert(num == (w as int) * 11 * ((m1 as int) * (m2 as int))) by (nonlinear_arith)
                        requires num == ((w as int) * 11) * (m1 as int) * (m2 as int),
                    ;
                }
                if q > INTERFACE_CAP as u128 {
                    INTERFACE_CAP
                } else {
                    q as i64
                }
            }
        }
    }

    /// Places a new, empty intersection at `pos` into the store.
    pub fn make(store: &mut Store<Intersection>, pos: V3) -> (id: IntersectionID)
        requires
            old(store).next_key() < u64::MAX,
        ensures
            id.0 as int == old(store).next_key(),
            !old(store)@.contains_key(id.0 as int),
            final(store)@.contains_key(id.0 as int),
            final(store)@ == old(store)@.insert(id.0 as int, final(store)@[id.0 as int]),
            ({
                let i = final(store)@[id.0 as int];
                i.id == id && i.pos == pos && i.turns@.len() == 0 && i.roads@.len() == 0
                    && i.turn_policy == (TurnPolicy {
                    back_turns: false,
                    left_turns: true,
                    roundabout: None::<i64>,
                })
            }),
    {
        let k = store.peek_next_key();
        let inter = Intersection {
            id: IntersectionID(k),
            pos,
            turns: Vec::new(),
            roads: Vec::new(),
            turn_policy: Default::default(),
        };
        let k2 = store.insert(inter);
        IntersectionID(k2)
    }

    /// Whether the intersection is configured and able to act as a
    /// roundabout: a roundabout radius is set and at least two roads meet.
    pub fn is_roundabout(&self) -> (r: bool)
        ensures
            r == (self.turn_policy.roundabout is Some && self.roads@.len() > 1),
    {
        match self.turn_policy.roundabout {
            Some(_) => self.roads.len() > 1,
            None => false,
        }
    }

    /// Drops listed roads that no longer exist in the store. A dangling
    /// identity can only arise from a caller ordering bug; it is recovered
    /// from locally rather than crashing.
    fn check_dead_roads(&mut self, roads: &Store<Road>)
        ensures
            final(self).roads@ == kept_ids(old(self).roads@, roads@),
            final(self).id == old(self).id,
            final(self).pos == old(self).pos,
            final(self).turns == old(self).turns,
            final(self).turn_policy == old(self).turn_policy,
    {
        let mut kept: Vec<RoadID> = Vec::new();
        let mut i: usize = 0;
        while i < self.roads.len()
            invariant
                i <= self.roads@.len(),
                kept@ == kept_upto(self.roads@, roads@, i as int),
            decreases self.roads@.len() - i,
        {
            let rid = self.roads[i];
            if roads.contains_key(rid.0) {
                kept.push(rid);
            }
            i = i + 1;
        }
        self.roads = kept;
    }

    /// Removes a road identity from the incident list, keeping the order of
    /// the rest.
    pub fn remove_road(&mut self, road_id: RoadID)
        ensures
            final(self).roads@ == without_id(old(self).roads@, road_id),
            final(self).id == old(self).id,
            final(self).pos == old(self).pos,
            final(self).turns == old(self).turns,
            final(self).turn_policy == old(self).turn_policy,
    {
        let mut kept: Vec<RoadID> = Vec::new();
        let mut i: usize = 0;
        while i < self.roads.len()
            invariant
                i <= self.roads@.len(),
                kept@ == without_id_upto(self.roads@, road_id, i as int),
            decreases self.roads@.len() - i,
        {
            let rid = self.roads[i];
            if !(rid == road_id) {
                kept.push(rid);
            }
            i = i + 1;
        }
        self.roads = kept;
    }

    /// Resets every incident road's interface at this intersection to its
    /// default (raised for a roundabout), then raises each angular neighbour
    /// pair to the pairwise minimum separation, so adjacent pavements cannot
    /// overlap. A dead-end intersection keeps the default alone.
    #[verifier::loop_isolation(false)]
    #[verifier::rlimit(60)]
    pub fn update_interface_radius(&mut self, roads: &mut Store<Road>)
        requires
            distinct_ids(old(self).roads@),
            listed_roads_wf(
                kept_ids(old(self).roads@, old(roads)@),
                old(roads)@,
                old(self).id,
            ),
            old(self).turn_policy.roundabout is Some ==> 0
                <= old(self).turn_policy.roundabout->Some_0 <= 1_000_000,
        ensures
            final(self).roads@ == kept_ids(old(self).roads@, old(roads)@),
            final(self).id == old(self).id,
            final(self).pos == old(self).pos,
            final(self).turns == old(self).turns,
            final(self).turn_policy == old(self).turn_policy,
            forall|k: int| final(roads)@.contains_key(k) <==> old(roads)@.contains_key(k),
            forall|k: int|
                old(roads)@.contains_key(k) && !lists_id(final(self).roads@, k)
                    ==> final(roads)@[k] == old(roads)@[k],
            ({
                let rds = kept_ids(old(self).roads@, old(roads)@);
                let p = old(self).turn_policy;
                let id = old(self).id;
                forall|j: int|
                    0 <= j < rds.len() ==> {
                        let k = (#[trigger] rds[j]).0 as int;
                        &&& road_unchanged_but_interfaces(old(roads)@[k], final(roads)@[k])
                        &&& road_interface_from(final(roads)@[k], id)
                            == target_iface(p, id, rds, old(roads)@, j)
                        &&& old(roads)@[k].src == id
                            ==> final(roads)@[k].interface_dst == old(roads)@[k].interface_dst
                        &&& old(roads)@[k].src != id
                            ==> final(roads)@[k].interface_src == old(roads)@[k].interface_src
                    }
            }),
            // No overlap: both members of every angularly-adjacent pair end
            // at or above the pairwise minimum separation.
            ({
                let rds = kept_ids(old(self).roads@, old(roads)@);
                let p = old(self).turn_policy;
                let id = old(self).id;
                rds.len() >= 2 ==> forall|t: int|
                    0 <= t < rds.len() ==> {
                        let v = #[trigger] pair_val(id, rds, old(roads)@, t);
                        let k1 = rds[t].0 as int;
                        let k2 = rds[nxt_pos(rds.len() as int, t)].0 as int;
                        &&& road_interface_from(final(roads)@[k1], id) >= v
                        &&& road_interface_from(final(roads)@[k2], id) >= v
                    }
            }),
    {
        let id = self.id;
        self.check_dead_roads(roads);
        let ghost rds = self.roads@;
        let ghost old_map = roads@;
        let ghost p = self.turn_policy;
        proof {
            lemma_kept_distinct(old(self).roads@, old(roads)@);
        }
        let n = self.roads.len();

        let rb: Option<i64> = self.turn_policy.roundabout;
        let is_rb = self.is_roundabout();
        let mut i: usize = 0;
        while i < n
            invariant
                i <= n,
                n == rds.len(),
                self.roads@ == rds,
                forall|k: int| roads@.contains_key(k) <==> old_map.contains_key(k),
                forall|k: int|
                    old_map.contains_key(k) && !lists_id(rds, k) ==> roads@[k] == old_map[k],
                forall|j: int| i <= j < n ==> roads@[(#[trigger] rds[j]).0 as int] == old_map[rds[
                    j].0 as int],
                forall|j: int|
                    0 <= j < i ==> {
                        let k = (#[trigger] rds[j]).0 as int;
                        road_unchanged_but_interfaces(old_map[k], roads@[k])
                            && road_interface_from(roads@[k], id) == base_iface(p, n as int,
                            old_map[k].width as int) && (old_map[k].src == id ==> roads@[
                            k].interface_dst == old_map[k].interface_dst) && (old_map[k].src != id
                            ==> roads@[k].interface_src == old_map[k].interface_src)
                    },
            decreases n - i,
        {
            let rid = self.roads[i];
            proof {
                assert(roads@[rid.0 as int] == old_map[rid.0 as int]);
            }
            let r = roads.get_mut(rid.0);
            let e = Self::empty_interface(r.width);
            let v: i64 = if is_rb {
                match rb {
                    Some(radius) => {
                        let forced = radius * 11 / 10 + 500;
                        if forced > e {
                            forced
                        } else {
                            e
                        }
                    },
                    None => e,
                }
            } else {
                e
            };
            r.set_interface(id, v);
            proof {
                assert forall|j: int| 0 <= j < i + 1 implies {
                    let k = (#[trigger] rds[j]).0 as int;
                    road_unchanged_but_interfaces(old_map[k], roads@[k]) && road_interface_from(
                        roads@[k],
                        id,
                    ) == base_iface(p, n as int, old_map[k].width as int) && (old_map[k].src == id
                        ==> roads@[k].interface_dst == old_map[k].interface_dst) && (old_map[k].src
                        != id ==> roads@[k].interface_src == old_map[k].interface_src)
                } by {
                    if j < i {
                        assert(rds[j].0 as int != rid.0 as int);
                    }
                }
            }
            i = i + 1;
        }

        if n <= 1 {
            return;
        }

        let mut t: usize = 0;
        while t < n
            invariant
                t <= n,
                2 <= n == rds.len(),
                self.roads@ == rds,
                forall|k: int| roads@.contains_key(k) <==> old_map.contains_key(k),
                forall|k: int|
                    old_map.contains_key(k) && !lists_id(rds, k) ==> roads@[k] == old_map[k],
                forall|j: int|
                    0 <= j < n ==> {
                        let k = (#[trigger] rds[j]).0 as int;
                        road_unchanged_but_interfaces(old_map[k], roads@[k])
                            && road_interface_from(roads@[k], id) == partial_iface(p, id, rds,
                            old_map, j, t as int) && (old_map[k].src == id ==> roads@[
                            k].interface_dst == old_map[k].interface_dst) && (old_map[k].src != id
                            ==> roads@[k].interface_src == old_map[k].interface_src)
                    },
            decreases n - t,
        {
            let t2 = if t + 1 == n {
                0
            } else {
                t + 1
            };
            let r1_id = self.roads[t];
            let r2_id = self.roads[t2];
            proof {
                assert(r1_id != r2_id);
            }
            let r1 = match roads.get(r1_id.0) {
                Some(r) => r,
                None => vstd::pervasive::unreached(),
            };
            let w1 = r1.width;
            let d1 = r1.dir_from(id);
            let r2 = match roads.get(r2_id.0) {
                Some(r) => r,
                None => vstd::pervasive::unreached(),
            };
            let w2 = r2.width;
            let d2 = r2.dir_from(id);
            proof {
                assert(w1 == old_map[r1_id.0 as int].width && w2 == old_map[r2_id.0 as int].width);
                assert(d1 == road_dir_from(old_map[r1_id.0 as int], id));
                assert(d2 == road_dir_from(old_map[r2_id.0 as int], id));
            }
            let min_dist = Self::interface_calc(w1, w2, d1, d2);
            proof {
                assert(min_dist == pair_val(id, rds, old_map, t as int));
            }
            let ra = roads.get_mut(r1_id.0);
            ra.max_interface(id, min_dist);
            let r2m = roads.get_mut(r2_id.0);
            r2m.max_interface(id, min_dist);
            proof {
                lemma_partial_iface_step(p, id, rds, old_map, t as int);
                assert forall|j: int| 0 <= j < n implies {
                    let k = (#[trigger] rds[j]).0 as int;
                    road_unchanged_but_interfaces(old_map[k], roads@[k]) && road_interface_from(
                        roads@[k],
                        id,
                    ) == partial_iface(p, id, rds, old_map, j, t as int + 1) && (old_map[k].src
                        == id ==> roads@[k].interface_dst == old_map[k].interface_dst) && (old_map[
                        k].src != id ==> roads@[k].interface_src == old_map[k].interface_src)
                } by {
                    if j != t as int && j != t2 as int {
                        assert(rds[j] != rds[t as int] && rds[j] != rds[t2 as int]);
                    }
                }
            }
            t = t + 1;
        }
        proof {
            lemma_target_ge_pairs(p, id, rds, old_map);
        }
    }
}

/// The angular sort key of a listed road: the pseudo-angle of its departure
/// direction from the intersection.
pub open spec fn road_key(roads: Map<int, Road>, id: IntersectionID, rid: RoadID) -> int {
    pseudo_angle_key(road_dir_from(roads[rid.0 as int], id))
}

/// The position of the first road with the least angular key among the first
/// `n` listed.
pub open spec fn min_key_idx(
    roads: Map<int, Road>,
    id: IntersectionID,
    s: Seq<RoadID>,
    n: int,
) -> int
    decreases n,
{
    if n <= 1 {
        0
    } else {
        let m = min_key_idx(roads, id, s, n - 1);
        if road_key(roads, id, s[n - 1]) < road_key(roads, id, s[m]) {
            n - 1
        } else {
            m
        }
    }
}

/// The road list sorted by angular key: repeatedly the first road of least
/// key, then the rest sorted.
pub open spec fn sort_by_angle(roads: Map<int, Road>, id: IntersectionID, s: Seq<RoadID>) -> Seq<
    RoadID,
>
    decreases s.len(),
{
    if s.len() == 0 {
        Seq::empty()
    } else {
        let m0 = min_key_idx(roads, id, s, s.len() as int);
        let m = if 0 <= m0 < s.len() {
            m0
        } else {
            0
        };
        seq![s[m]] + sort_by_angle(roads, id, s.remove(m))
    }
}

/// Every listed road that is present in the store is well formed and ends at
/// `id`.
pub open spec fn present_roads_wf(rds: Seq<RoadID>, roads: Map<int, Road>, id: IntersectionID)
    -> bool {
    forall|j: int|
        0 <= j < rds.len() ==> {
            let k = (#[trigger] rds[j]).0 as int;
            roads.contains_key(k) ==> road_geom_wf(roads[k]) && road_endpoint(roads[k], id)
        }
}

/// The chosen position is in range and its key minimal.
proof fn lemma_min_key_idx(roads: Map<int, Road>, id: IntersectionID, s: Seq<RoadID>, n: int)
    requires
        1 <= n <= s.len(),
    ensures
        0 <= min_key_idx(roads, id, s, n) < n,
        forall|j: int|
            0 <= j < n ==> road_key(roads, id, s[min_key_idx(roads, id, s, n)]) <= road_key(
                roads,
                id,
                #[trigger] s[j],
            ),
    decreases n,
{
    if n > 1 {
        lemma_min_key_idx(roads, id, s, n - 1);
    }
}

/// The angular key of a listed road, computed exactly.
fn road_key_e(roads: &Store<Road>, id: IntersectionID, rid: RoadID) -> (r: i64)
    requires
        roads@.contains_key(rid.0 as int),
        road_geom_wf(roads@[rid.0 as int]),
    ensures
        r == road_key(roads@, id, rid),
{
    let road = match roads.get(rid.0) {
        Some(r) => r,
        None => vstd::pervasive::unreached(),
    };
    let d = road.dir_from(id);
    pseudo_angle_key_e(d)
}

/// Sorts road identities by angular key, first-minimal first.
#[verifier::loop_isolation(false)]
#[verifier::rlimit(100)]
#[verifier::spinoff_prover]
fn sort_roads_by_angle(roads: &Store<Road>, id: IntersectionID, v: Vec<RoadID>) -> (r: Vec<RoadID>)
    requires
        forall|j: int|
            0 <= j < v@.len() ==> {
                let k = (#[trigger] v@[j]).0 as int;
                roads@.contains_key(k) && road_geom_wf(roads@[k])
            },
    ensures
        r@ == sort_by_angle(roads@, id, v@),
{
    let mut rest = v;
    let mut out: Vec<RoadID> = Vec::new();
    let ghost orig = rest@;
    while rest.len() > 0
        invariant
            sort_by_angle(roads@, id, orig) == out@ + sort_by_angle(roads@, id, rest@),
            forall|j: int|
                0 <= j < rest@.len() ==> {
                    let k = (#[trigger] rest@[j]).0 as int;
                    roads@.contains_key(k) && road_geom_wf(roads@[k])
                },
        decreases rest@.len(),
    {
        let ghost pre = rest@;
        let mi = min_key_pos(roads, id, &rest);
        let picked = rest[mi];
        let ghost prev_out = out@;
        out.push(picked);
        rest.remove(mi);
        proof {
            lemma_min_key_idx(roads@, id, pre, pre.len() as int);
            assert(rest@ == pre.remove(mi as int));
            assert(sort_by_angle(roads@, id, pre) == seq![pre[mi as int]] + sort_by_angle(
                roads@,
                id,
                rest@,
            ));
            assert(out@ + sort_by_angle(roads@, id, rest@) =~= prev_out + sort_by_angle(
                roads@,
                id,
                pre,
            ));
            assert forall|j2: int| 0 <= j2 < rest@.len() implies {
                let k = (#[trigger] rest@[j2]).0 as int;
                roads@.contains_key(k) && road_geom_wf(roads@[k])
            } by {
                if j2 < mi as int {
                    assert(rest@[j2] == pre[j2]);
                } else {
                    assert(rest@[j2] == pre[j2 + 1]);
                }
            }
        }
    }
    proof {
        assert(sort_by_angle(roads@, id, rest@) =~= Seq::<RoadID>::empty());
        assert(out@ =~= out@ + Seq::<RoadID>::empty());
    }
    out
}

/// The position of the first road with the least angular key.
#[verifier::loop_isolation(false)]
#[verifier::spinoff_prover]
fn min_key_pos(roads: &Store<Road>, id: IntersectionID, v: &Vec<RoadID>) -> (mi: usize)
    requires
        v@.len() >= 1,
        forall|j: int|
            0 <= j < v@.len() ==> {
                let k = (#[trigger] v@[j]).0 as int;
                roads@.contains_key(k) && road_geom_wf(roads@[k])
            },
    ensures
        mi as int == min_key_idx(roads@, id, v@, v@.len() as int),
        mi < v@.len(),
{
    let mut mi: usize = 0;
    let mut mk: i64 = road_key_e(roads, id, v[0]);
    let mut j: usize = 1;
    while j < v.len()
        invariant
            1 <= j <= v@.len(),
            mi < j,
            mi as int == min_key_idx(roads@, id, v@, j as int),
            mk == road_key(roads@, id, v@[mi as int]),
        decreases v@.len() - j,
    {
        let k = road_key_e(roads, id, v[j]);
        if k < mk {
            mi = j;
            mk = k;
        }
        j = j + 1;
    }
    mi
}

/// Kept identities stay distinct.
proof fn lemma_kept_distinct(rds: Seq<RoadID>, roads: Map<int, Road>)
    requires
        distinct_ids(rds),
    ensures
        distinct_ids(kept_ids(rds, roads)),
        forall|j: int|
            0 <= j < kept_ids(rds, roads).len() ==> exists|i: int|
                0 <= i < rds.len() && rds[i] == #[trigger] kept_ids(rds, roads)[j],
{
    lemma_kept_upto_distinct(rds, roads, rds.len() as int);
}

proof fn lemma_kept_upto_distinct(rds: Seq<RoadID>, roads: Map<int, Road>, n: int)
    requires
        distinct_ids(rds),
        n <= rds.len(),
    ensures
        distinct_ids(kept_upto(rds, roads, n)),
        forall|j: int|
            0 <= j < kept_upto(rds, roads, n).len() ==> exists|i: int|
                0 <= i < n && rds[i] == #[trigger] kept_upto(rds, roads, n)[j],
    decreases n,
{
    if n > 0 {
        lemma_kept_upto_distinct(rds, roads, n - 1);
        let pre = kept_upto(rds, roads, n - 1);
        let cur = kept_upto(rds, roads, n);
        if roads.contains_key(rds[n - 1].0 as int) {
            assert forall|i: int, j: int| 0 <= i < j < cur.len() implies cur[i] != cur[j] by {
                if j + 1 == cur.len() {
                    let wi = choose|w: int| 0 <= w < n - 1 && rds[w] == pre[i];
                    assert(rds[wi] != rds[n - 1]);
                }
            }
        }
    }
}

/// Applying pair `t` raises exactly its two members to the pair value.
proof fn lemma_partial_iface_step(
    p: TurnPolicy,
    id: IntersectionID,
    rds: Seq<RoadID>,
    roads: Map<int, Road>,
    t: int,
)
    requires
        2 <= rds.len(),
        0 <= t < rds.len(),
    ensures
        forall|j: int|
            0 <= j < rds.len() ==> partial_iface(p, id, rds, roads, j, t + 1) == (
            if j == t {
                max(partial_iface(p, id, rds, roads, j, t), pair_val(id, rds, roads, t))
            } else if j == nxt_pos(rds.len() as int, t) {
                max(partial_iface(p, id, rds, roads, j, t), pair_val(id, rds, roads, t))
            } else {
                partial_iface(p, id, rds, roads, j, t)
            }),
{
    let n = rds.len() as int;
    assert forall|j: int| 0 <= j < n implies partial_iface(p, id, rds, roads, j, t + 1) == (
    if j == t {
        max(partial_iface(p, id, rds, roads, j, t), pair_val(id, rds, roads, t))
    } else if j == nxt_pos(n, t) {
        max(partial_iface(p, id, rds, roads, j, t), pair_val(id, rds, roads, t))
    } else {
        partial_iface(p, id, rds, roads, j, t)
    }) by {
        if j == nxt_pos(n, t) {
            assert(prv_pos(n, j) == t);
        } else if j != t {
            assert(prv_pos(n, j) != t && j != t);
        }
    }
}

/// The end of lane `id` that touches intersection `inter`, where the lane
/// exists, has points, and ends there.
pub open spec fn lane_end_at(lanes: Map<int, Lane>, id: LaneID, inter: IntersectionID) -> Option<
    V2,
> {
    if !lanes.contains_key(id.0 as int) {
        None
    } else {
        let l = lanes[id.0 as int];
        if l.points@.len() == 0 {
            None
        } else if inter == l.src {
            Some(l.points@[0])
        } else if inter == l.dst {
            Some(l.points@[l.points@.len() - 1])
        } else {
            None
        }
    }
}

/// The path generated for a turn: lane end, intersection center, lane end.
/// A turn whose lane has vanished or has no geometry keeps an empty path;
/// that can only arise from a caller ordering bug and is recovered from
/// locally.
pub open spec fn turn_points_of(
    lanes: Map<int, Lane>,
    inter: IntersectionID,
    center: V2,
    tid: TurnID,
) -> Seq<V2> {
    let a = lane_end_at(lanes, tid.src, inter);
    let b = lane_end_at(lanes, tid.dst, inter);
    if a is Some && b is Some {
        turn_path(a->Some_0, center, b->Some_0)
    } else {
        Seq::empty()
    }
}

/// The end of lane `id` at `inter`, looked up in the store.
fn lane_end_at_e(lanes: &Store<Lane>, id: LaneID, inter: IntersectionID) -> (r: Option<V2>)
    ensures
        r == lane_end_at(lanes@, id, inter),
{
    match lanes.get(id.0) {
        Some(l) => {
            if l.points.len() == 0 {
                None
            } else if inter == l.src {
                Some(l.points[0])
            } else if inter == l.dst {
                Some(l.points[l.points.len() - 1])
            } else {
                None
            }
        },
        None => None,
    }
}

/// The default-radius maximum over the listed roads' interfaces, for the
/// first `n` listed; `-1` while no listed road is present.
pub open spec fn bcircle_raw_upto(
    id: IntersectionID,
    rds: Seq<RoadID>,
    roads: Map<int, Road>,
    n: int,
) -> int
    decreases n,
{
    if n <= 0 {
        -1
    } else {
        let pre = bcircle_raw_upto(id, rds, roads, n - 1);
        if roads.contains_key(rds[n - 1].0 as int) {
            max(pre, road_interface_from(roads[rds[n - 1].0 as int], id))
        } else {
            pre
        }
    }
}

/// The interface a not-yet-committed road of the given width and departure
/// direction would need here, over the first `n` listed roads.
pub open spec fn interface_at_upto(
    id: IntersectionID,
    rds: Seq<RoadID>,
    roads: Map<int, Road>,
    width: int,
    dir: V2,
    n: int,
) -> int
    decreases n,
{
    if n <= 0 {
        spec_empty_interface(width)
    } else {
        let pre = interface_at_upto(id, rds, roads, width, dir, n - 1);
        if roads.contains_key(rds[n - 1].0 as int) {
            let r = roads[rds[n - 1].0 as int];
            max(pre, spec_interface_calc(r.width as int, width, road_dir_from(r, id), dir))
        } else {
            pre
        }
    }
}

/// The other ends of the listed roads that exist, over the first `n`.
pub open spec fn neighbors_upto(
    id: IntersectionID,
    rds: Seq<RoadID>,
    roads: Map<int, Road>,
    n: int,
) -> Seq<IntersectionID>
    decreases n,
{
    if n <= 0 {
        Seq::empty()
    } else {
        let pre = neighbors_upto(id, rds, roads, n - 1);
        if roads.contains_key(rds[n - 1].0 as int) {
            let r = roads[rds[n - 1].0 as int];
            if id == r.src {
                pre.push(r.dst)
            } else if id == r.dst {
                pre.push(r.src)
            } else {
                pre
            }
        } else {
            pre
        }
    }
}

/// Whether a lane list holds a lane a vehicle route can use.
pub open spec fn has_route_lane(s: Seq<(LaneID, LaneKind)>, n: int) -> bool
    decreases n,
{
    if n <= 0 {
        false
    } else {
        has_route_lane(s, n - 1) || (s[n - 1].1 is Driving || s[n - 1].1 is Rail || s[n
            - 1].1 is Bus)
    }
}

/// The other ends of the listed roads that exist and carry at least one
/// vehicle-routable outgoing lane, over the first `n`.
pub open spec fn vehicle_neighbors_upto(
    id: IntersectionID,
    rds: Seq<RoadID>,
    roads: Map<int, Road>,
    n: int,
) -> Seq<IntersectionID>
    decreases n,
{
    if n <= 0 {
        Seq::empty()
    } else {
        let pre = vehicle_neighbors_upto(id, rds, roads, n - 1);
        if roads.contains_key(rds[n - 1].0 as int) {
            let r = roads[rds[n - 1].0 as int];
            let outs = road_outgoing_lanes_from(r, id);
            if has_route_lane(outs, outs.len() as int) {
                if id == r.src {
                    pre.push(r.dst)
                } else if id == r.dst {
                    pre.push(r.src)
                } else {
                    pre
                }
            } else {
                pre
            }
        } else {
            pre
        }
    }
}

/// The position of the first turn with the given identity among the first
/// `n`, scanning from `i`.
pub open spec fn find_turn_from(s: Seq<Turn>, needle: TurnID, i: int) -> Option<int>
    decreases s.len() - i,
{
    if i < 0 || i >= s.len() {
        None
    } else if s[i].id == needle {
        Some(i)
    } else {
        find_turn_from(s, needle, i + 1)
    }
}

/// The turns leaving (or bidirectionally reaching back to) a lane, over the
/// first `n` turns.
pub open spec fn turns_from_upto(s: Seq<Turn>, lane: LaneID, n: int) -> Seq<
    (TurnID, TraverseDirection),
>
    decreases n,
{
    if n <= 0 {
        Seq::empty()
    } else {
        let pre = turns_from_upto(s, lane, n - 1);
        let id = s[n - 1].id;
        if id.src == lane {
            pre.push((id, TraverseDirection::Forward))
        } else if id.bidirectional && id.dst == lane {
            pre.push((id, TraverseDirection::Backward))
        } else {
            pre
        }
    }
}

/// The turns arriving at (or bidirectionally leaving) a lane, over the first
/// `n` turns.
pub open spec fn turns_to_upto(s: Seq<Turn>, lane: LaneID, n: int) -> Seq<
    (TurnID, TraverseDirection),
>
    decreases n,
{
    if n <= 0 {
        Seq::empty()
    } else {
        let pre = turns_to_upto(s, lane, n - 1);
        let id = s[n - 1].id;
        if id.dst == lane {
            pre.push((id, TraverseDirection::Forward))
        } else if id.bidirectional && id.src == lane {
            pre.push((id, TraverseDirection::Backward))
        } else {
            pre
        }
    }
}

/// The intersection's turn set is exactly the policy's derivation: one turn
/// per derived pair, in order, each with its generated path.
pub open spec fn turns_match(i: Intersection, lanes: Map<int, Lane>, roads: Map<int, Road>)
    -> bool {
    let gen = spec_generate_turns(i.turn_policy, i, lanes, roads);
    &&& i.turns@.len() == gen.len()
    &&& forall|k: int|
        0 <= k < gen.len() ==> {
            let t = #[trigger] i.turns@[k];
            t.id == gen[k].0 && t.kind == gen[k].1 && t.points@ == turn_points_of(lanes, i.id, xy(
                i.pos,
            ), gen[k].0)
        }
}

/// Turn-set regeneration is idempotent: two regenerations from the same
/// incident roads, lane layout and policy — in particular two calls of
/// `update_turns` in a row with no topology change in between — leave
/// identical turn sets: the same identities, kinds and paths, in the same
/// order.
pub proof fn lemma_update_turns_idempotent(
    a: Intersection,
    b: Intersection,
    lanes: Map<int, Lane>,
    roads: Map<int, Road>,
)
    requires
        turns_match(a, lanes, roads),
        turns_match(b, lanes, roads),
        a.id == b.id,
        a.pos == b.pos,
        a.roads@ == b.roads@,
        a.turn_policy == b.turn_policy,
    ensures
        a.turns@.len() == b.turns@.len(),
        forall|k: int|
            0 <= k < a.turns@.len() ==> (#[trigger] a.turns@[k]).id == b.turns@[k].id
                && a.turns@[k].kind == b.turns@[k].kind && a.turns@[k].points@
                == b.turns@[k].points@,
{
    crate::turn_policy::lemma_generate_turns_idempotent(a.turn_policy, a, b, lanes, roads);
}

impl Intersection {
    /// Appends a road, drops any listed identity whose road no longer
    /// exists, and re-sorts the whole incident list by the pseudo-angle of
    /// each road's departure direction.
    pub fn add_road(&mut self, roads: &Store<Road>, road: &Road)
        requires
            present_roads_wf(old(self).roads@.push(road.id), roads@, old(self).id),
        ensures
            final(self).roads@ == sort_by_angle(
                roads@,
                old(self).id,
                kept_ids(old(self).roads@.push(road.id), roads@),
            ),
            final(self).id == old(self).id,
            final(self).pos == old(self).pos,
            final(self).turns == old(self).turns,
            final(self).turn_policy == old(self).turn_policy,
    {
        self.roads.push(road.id);
        self.check_dead_roads(roads);
        proof {
            lemma_kept_present_wf(old(self).roads@.push(road.id), roads@, old(self).id);
        }
        let mut taken: Vec<RoadID> = Vec::new();
        core::mem::swap(&mut taken, &mut self.roads);
        let sorted = sort_roads_by_angle(roads, self.id, taken);
        self.roads = sorted;
    }

    /// Replaces the whole turn set with the policy's derivation, generating
    /// each turn's path through the intersection interior.
    #[verifier::loop_isolation(false)]
    pub fn update_turns(&mut self, lanes: &Store<Lane>, roads: &Store<Road>)
        requires
            incident_roads_ok(old(self).roads@, roads@, lanes@),
        ensures
            turns_match(*final(self), lanes@, roads@),
            final(self).id == old(self).id,
            final(self).pos == old(self).pos,
            final(self).roads == old(self).roads,
            final(self).turn_policy == old(self).turn_policy,
    {
        let policy = self.turn_policy;
        let gen = policy.generate_turns(self, lanes, roads);
        let center = V2 { x: self.pos.x, y: self.pos.y };
        let mut turns: Vec<Turn> = Vec::new();
        let mut i: usize = 0;
        while i < gen.len()
            invariant
                i <= gen@.len(),
                turns@.len() == i,
                forall|j: int|
                    0 <= j < i ==> {
                        let t = #[trigger] turns@[j];
                        t.id == gen@[j].0 && t.kind == gen@[j].1 && t.points@ == turn_points_of(
                            lanes@,
                            self.id,
                            xy(self.pos),
                            gen@[j].0,
                        )
                    },
            decreases gen@.len() - i,
        {
            let (tid, kind) = gen[i];
            let mut t = Turn::new(tid, kind);
            let a = lane_end_at_e(lanes, tid.src, self.id);
            let b = lane_end_at_e(lanes, tid.dst, self.id);
            match (a, b) {
                (Some(pa), Some(pb)) => {
                    t.make_points(pa, center, pb);
                },
                _ => {},
            }
            turns.push(t);
            i = i + 1;
        }
        self.turns = turns;
    }

    /// How far a not-yet-committed road of the given width and departure
    /// direction would need to be trimmed if connected here. Reads only;
    /// listed roads that no longer exist are skipped.
    #[verifier::loop_isolation(false)]
    pub fn interface_at(&self, roads: &Store<Road>, width: i64, dir: V2) -> (r: i64)
        requires
            present_roads_wf(self.roads@, roads@, self.id),
            0 <= width <= 2_000_000,
            dir2(dir),
        ensures
            r == interface_at_upto(self.id, self.roads@, roads@, width as int, dir,
                self.roads@.len() as int),
    {
        let mut max_inter = Self::empty_interface(width);
        let mut i: usize = 0;
        while i < self.roads.len()
            invariant
                i <= self.roads@.len(),
                max_inter == interface_at_upto(self.id, self.roads@, roads@, width as int, dir,
                    i as int),
            decreases self.roads@.len() - i,
        {
            let rid = self.roads[i];
            match roads.get(rid.0) {
                Some(r1) => {
                    let v = Self::interface_calc(r1.width, width, r1.dir_from(self.id), dir);
                    if v > max_inter {
                        max_inter = v;
                    }
                },
                None => {},
            }
            i = i + 1;
        }
        max_inter
    }

    /// The bounding circle: centered on the intersection, with radius the
    /// largest interface of any incident road, or the default if none.
    #[verifier::loop_isolation(false)]
    pub fn bcircle(&self, roads: &Store<Road>) -> (r: Circle)
        ensures
            r.center == xy(self.pos),
            ({
                let raw = bcircle_raw_upto(self.id, self.roads@, roads@,
                    self.roads@.len() as int);
                r.radius == (if raw < 0 {
                    DEFAULT_BCIRCLE_RADIUS as int
                } else {
                    raw
                })
            }),
    {
        let mut raw: i64 = -1;
        let mut i: usize = 0;
        while i < self.roads.len()
            invariant
                i <= self.roads@.len(),
                raw == bcircle_raw_upto(self.id, self.roads@, roads@, i as int),
            decreases self.roads@.len() - i,
        {
            let rid = self.roads[i];
            match roads.get(rid.0) {
                Some(r1) => {
                    let v = r1.interface_from(self.id);
                    if v > raw {
                        raw = v;
                    }
                },
                None => {},
            }
            i = i + 1;
        }
        let radius = if raw < 0 {
            DEFAULT_BCIRCLE_RADIUS
        } else {
            raw
        };
        Circle { center: V2 { x: self.pos.x, y: self.pos.y }, radius }
    }

    /// The intersections reachable over one incident road.
    #[verifier::loop_isolation(false)]
    pub fn undirected_neighbors(&self, roads: &Store<Road>) -> (r: Vec<IntersectionID>)
        ensures
            r@ == neighbors_upto(self.id, self.roads@, roads@, self.roads@.len() as int),
    {
        let mut r: Vec<IntersectionID> = Vec::new();
        let mut i: usize = 0;
        while i < self.roads.len()
            invariant
                i <= self.roads@.len(),
                r@ == neighbors_upto(self.id, self.roads@, roads@, i as int),
            decreases self.roads@.len() - i,
        {
            let rid = self.roads[i];
            match roads.get(rid.0) {
                Some(road) => {
                    match road.other_end(self.id) {
                        Some(o) => {
                            r.push(o);
                        },
                        None => {},
                    }
                },
                None => {},
            }
            i = i + 1;
        }
        r
    }

    /// The intersections reachable over one incident road that carries at
    /// least one outgoing lane a vehicle route can use.
    #[verifier::loop_isolation(false)]
    pub fn vehicle_neighbours(&self, roads: &Store<Road>) -> (r: Vec<IntersectionID>)
        ensures
            r@ == vehicle_neighbors_upto(self.id, self.roads@, roads@, self.roads@.len() as int),
    {
        let mut r: Vec<IntersectionID> = Vec::new();
        let mut i: usize = 0;
        while i < self.roads.len()
            invariant
                i <= self.roads@.len(),
                r@ == vehicle_neighbors_upto(self.id, self.roads@, roads@, i as int),
            decreases self.roads@.len() - i,
        {
            let rid = self.roads[i];
            match roads.get(rid.0) {
                Some(road) => {
                    let outs = road.outgoing_lanes_from(self.id);
                    let mut any: bool = false;
                    let mut j: usize = 0;
                    while j < outs.len()
                        invariant
                            j <= outs@.len(),
                            any == has_route_lane(outs@, j as int),
                        decreases outs@.len() - j,
                    {
                        let (_, kind) = outs[j];
                        if matches!(kind, LaneKind::Driving | LaneKind::Rail | LaneKind::Bus) {
                            any = true;
                        }
                        j = j + 1;
                    }
                    if any {
                        match road.other_end(self.id) {
                            Some(o) => {
                                r.push(o);
                            },
                            None => {},
                        }
                    }
                },
                None => {},
            }
            i = i + 1;
        }
        r
    }

    /// The turn with the given identity, if it is in the current set.
    #[verifier::loop_isolation(false)]
    pub fn find_turn(&self, needle: TurnID) -> (r: Option<&Turn>)
        ensures
            match r {
                Some(t) => {
                    let f = find_turn_from(self.turns@, needle, 0);
                    f is Some && *t == self.turns@[f->Some_0]
                },
                None => find_turn_from(self.turns@, needle, 0) is None,
            },
    {
        let mut i: usize = 0;
        while i < self.turns.len()
            invariant
                i <= self.turns@.len(),
                find_turn_from(self.turns@, needle, 0) == find_turn_from(self.turns@, needle,
                    i as int),
                forall|j: int| 0 <= j < i ==> (#[trigger] self.turns@[j]).id != needle,
            decreases self.turns@.len() - i,
        {
            if self.turns[i].id == needle {
                return Some(&self.turns[i]);
            }
            i = i + 1;
        }
        None
    }

    /// The turns a traversal may take out of `lane`.
    #[verifier::loop_isolation(false)]
    pub fn turns_from(&self, lane: LaneID) -> (r: Vec<(TurnID, TraverseDirection)>)
        ensures
            r@ == turns_from_upto(self.turns@, lane, self.turns@.len() as int),
    {
        let mut r: Vec<(TurnID, TraverseDirection)> = Vec::new();
        let mut i: usize = 0;
        while i < self.turns.len()
            invariant
                i <= self.turns@.len(),
                r@ == turns_from_upto(self.turns@, lane, i as int),
            decreases self.turns@.len() - i,
        {
            let id = self.turns[i].id;
            if id.src == lane {
                r.push((id, TraverseDirection::Forward));
            } else if id.bidirectional && id.dst == lane {
                r.push((id, TraverseDirection::Backward));
            }
            i = i + 1;
        }
        r
    }

    /// The turns a traversal may take into `lane`.
    #[verifier::loop_isolation(false)]
    pub fn turns_to(&self, lane: LaneID) -> (r: Vec<(TurnID, TraverseDirection)>)
        ensures
            r@ == turns_to_upto(self.turns@, lane, self.turns@.len() as int),
    {
        let mut r: Vec<(TurnID, TraverseDirection)> = Vec::new();
        let mut i: usize = 0;
        while i < self.turns.len()
            invariant
                i <= self.turns@.len(),
                r@ == turns_to_upto(self.turns@, lane, i as int),
            decreases self.turns@.len() - i,
        {
            let id = self.turns[i].id;
            if id.dst == lane {
                r.push((id, TraverseDirection::Forward));
            } else if id.bidirectional && id.src == lane {
                r.push((id, TraverseDirection::Backward));
            }
            i = i + 1;
        }
        r
    }

    /// The current turn set.
    pub fn turns(&self) -> (r: &Vec<Turn>)
        ensures
            r@ == self.turns@,
    {
        &self.turns
    }
}

/// Kept identities of a list whose present members are well formed are all
/// present and well formed.
proof fn lemma_kept_present_wf(rds: Seq<RoadID>, roads: Map<int, Road>, id: IntersectionID)
    requires
        present_roads_wf(rds, roads, id),
    ensures
        forall|j: int|
            0 <= j < kept_ids(rds, roads).len() ==> {
                let k = (#[trigger] kept_ids(rds, roads)[j]).0 as int;
                roads.contains_key(k) && road_geom_wf(roads[k]) && road_endpoint(roads[k], id)
            },
{
    lemma_kept_upto_wf(rds, roads, id, rds.len() as int);
}

proof fn lemma_kept_upto_wf(rds: Seq<RoadID>, roads: Map<int, Road>, id: IntersectionID, n: int)
    requires
        present_roads_wf(rds, roads, id),
        n <= rds.len(),
    ensures
        forall|j: int|
            0 <= j < kept_upto(rds, roads, n).len() ==> {
                let k = (#[trigger] kept_upto(rds, roads, n)[j]).0 as int;
                roads.contains_key(k) && road_geom_wf(roads[k]) && road_endpoint(roads[k], id)
            },
    decreases n,
{
    if n > 0 {
        lemma_kept_upto_wf(rds, roads, id, n - 1);
        let pre = kept_upto(rds, roads, n - 1);
        let cur = kept_upto(rds, roads, n);
        assert forall|j: int| 0 <= j < cur.len() implies {
            let k = (#[trigger] cur[j]).0 as int;
            roads.contains_key(k) && road_geom_wf(roads[k]) && road_endpoint(roads[k], id)
        } by {
            if j < pre.len() {
                assert(cur[j] == pre[j]);
            } else {
                assert(cur[j] == rds[n - 1]);
            }
        }
    }
}

/// The final interface of each pair member is at least the pair value.
proof fn lemma_target_ge_pairs(
    p: TurnPolicy,
    id: IntersectionID,
    rds: Seq<RoadID>,
    roads: Map<int, Road>,
)
    requires
        2 <= rds.len(),
    ensures
        forall|t: int|
            0 <= t < rds.len() ==> {
                let v = #[trigger] pair_val(id, rds, roads, t);
                target_iface(p, id, rds, roads, t) >= v && target_iface(
                    p,
                    id,
                    rds,
                    roads,
                    nxt_pos(rds.len() as int, t),
                ) >= v
            },
{
    let n = rds.len() as int;
    assert forall|t: int| 0 <= t < n implies {
        let v = #[trigger] pair_val(id, rds, roads, t);
        target_iface(p, id, rds, roads, t) >= v && target_iface(p, id, rds, roads, nxt_pos(n, t))
            >= v
    } by {
        assert(prv_pos(n, nxt_pos(n, t)) == t);
    }
}

} // verus!
