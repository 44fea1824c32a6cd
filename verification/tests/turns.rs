//! The turn policy: dead-end pairing, cross products, pedestrian turns,
//! the left-turn rule, and idempotent regeneration.

use roadnet::geom::{V2, V3};
use roadnet::ids::{IntersectionID, LaneID, RoadID};
use roadnet::intersection::Intersection;
use roadnet::lane::{Lane, LaneKind};
use roadnet::road::{Road, RoadSegmentKind};
use roadnet::store::Store;
use roadnet::turn::TurnKind;
use roadnet::turn_policy::TurnPolicy;

fn v2(x: i64, y: i64) -> V2 {
    V2 { x, y }
}

fn v3(x: i64, y: i64, z: i64) -> V3 {
    V3 { x, y, z }
}

struct Builder {
    inter: Intersection,
    roads: Store<Road>,
    lanes: Store<Lane>,
}

impl Builder {
    fn new() -> Builder {
        Builder {
            inter: Intersection {
                id: IntersectionID(7),
                pos: v3(0, 0, 0),
                turns: Vec::new(),
                roads: Vec::new(),
                turn_policy: Default::default(),
            },
            roads: Store::new(),
            lanes: Store::new(),
        }
    }

    /// A lane on the given road axis; `incoming` lanes travel toward the
    /// intersection.
    fn lane(&mut self, kind: LaneKind, end: V3, incoming: bool) -> (LaneID, LaneKind) {
        let key = self.lanes.peek_next_key();
        let toward_center = v2(-end.x / 50, -end.y / 50);
        let away = v2(end.x / 50, end.y / 50);
        let lane = Lane {
            id: LaneID(key),
            kind,
            src: if incoming { IntersectionID(999) } else { self.inter.id },
            dst: if incoming { self.inter.id } else { IntersectionID(999) },
            src_dir: away,
            dst_dir: toward_center,
            points: if incoming {
                vec![v2(end.x, end.y), v2(0, 0)]
            } else {
                vec![v2(0, 0), v2(end.x, end.y)]
            },
            width: 800,
            inter_length: 0,
        };
        let got = self.lanes.insert(lane);
        (LaneID(got), kind)
    }

    /// A road arriving from `end` with the given incoming and outgoing
    /// vehicle lane counts (and optional sidewalks on both sides).
    fn road(&mut self, end: V3, n_in: usize, n_out: usize, sidewalks: bool) -> RoadID {
        let mut forward = Vec::new();
        let mut backward = Vec::new();
        for _ in 0..n_in {
            forward.push(self.lane(LaneKind::Driving, end, true));
        }
        for _ in 0..n_out {
            backward.push(self.lane(LaneKind::Driving, end, false));
        }
        if sidewalks {
            forward.push(self.lane(LaneKind::Walking, end, true));
            backward.push(self.lane(LaneKind::Walking, end, false));
        }
        let key = self.roads.peek_next_key();
        // The road runs from the far end to this intersection, so its
        // forward lanes arrive here.
        let road = Road {
            id: RoadID(key),
            src: IntersectionID(999),
            dst: self.inter.id,
            segment: RoadSegmentKind::Straight,
            points: vec![end, v3(0, 0, 0)],
            interface_src: 0,
            interface_dst: 0,
            width: 3200,
            lanes_forward: forward,
            lanes_backward: backward,
            length: 50_000,
        };
        let got = self.roads.insert(road);
        self.inter.roads.push(RoadID(got));
        RoadID(got)
    }
}

#[test]
fn dead_end_with_matched_counts_pairs_by_index() {
    let mut b = Builder::new();
    b.road(v3(50_000, 0, 0), 2, 2, false);
    let policy = b.inter.turn_policy;
    let turns = policy.generate_turns(&b.inter, &b.lanes, &b.roads);
    assert_eq!(turns.len(), 2);
    for (id, kind) in &turns {
        assert_eq!(*kind, TurnKind::Normal);
        assert_eq!(id.parent, b.inter.id);
    }
    // Index-matched: first incoming with first outgoing, second with second.
    assert_eq!(turns[0].0.src, LaneID(0));
    assert_eq!(turns[0].0.dst, LaneID(2));
    assert_eq!(turns[1].0.src, LaneID(1));
    assert_eq!(turns[1].0.dst, LaneID(3));
}

#[test]
fn dead_end_with_mismatched_counts_takes_the_cross_product() {
    let mut b = Builder::new();
    b.road(v3(50_000, 0, 0), 2, 3, false);
    let policy = b.inter.turn_policy;
    let turns = policy.generate_turns(&b.inter, &b.lanes, &b.roads);
    assert_eq!(turns.len(), 6);
    for (_, kind) in &turns {
        assert_eq!(*kind, TurnKind::Normal);
    }
}

#[test]
fn pass_through_pairs_each_side_with_the_other() {
    let mut b = Builder::new();
    b.road(v3(50_000, 0, 0), 1, 1, false);
    b.road(v3(-50_000, 0, 0), 1, 1, false);
    let policy = b.inter.turn_policy;
    let turns = policy.generate_turns(&b.inter, &b.lanes, &b.roads);
    // Incoming of each road pairs with the outgoing of the other.
    assert_eq!(turns.len(), 2);
}

#[test]
fn turn_regeneration_is_idempotent() {
    let mut b = Builder::new();
    b.road(v3(50_000, 0, 0), 2, 2, true);
    b.road(v3(0, 50_000, 0), 1, 1, true);
    b.road(v3(-50_000, 0, 0), 1, 2, true);
    let mut inter = b.inter;
    inter.update_turns(&b.lanes, &b.roads);
    let first: Vec<_> = inter
        .turns()
        .iter()
        .map(|t| (t.id, t.kind, t.points.clone()))
        .collect();
    assert!(!first.is_empty());
    inter.update_turns(&b.lanes, &b.roads);
    let second: Vec<_> = inter
        .turns()
        .iter()
        .map(|t| (t.id, t.kind, t.points.clone()))
        .collect();
    assert_eq!(first.len(), second.len());
    for (a, b2) in first.iter().zip(second.iter()) {
        assert_eq!(a.0, b2.0);
        assert_eq!(a.1, b2.1);
        assert_eq!(a.2, b2.2);
    }
}

#[test]
fn two_road_intersection_gets_corners_but_no_crosswalks() {
    let mut b = Builder::new();
    b.road(v3(50_000, 0, 0), 1, 1, true);
    b.road(v3(-50_000, 0, 0), 1, 1, true);
    let policy = b.inter.turn_policy;
    let turns = policy.generate_turns(&b.inter, &b.lanes, &b.roads);
    let corners = turns.iter().filter(|(_, k)| *k == TurnKind::WalkingCorner).count();
    let crosswalks = turns.iter().filter(|(_, k)| *k == TurnKind::Crosswalk).count();
    assert_eq!(corners, 2);
    assert_eq!(crosswalks, 0);
}

#[test]
fn three_road_intersection_gets_corners_and_crosswalks() {
    let mut b = Builder::new();
    b.road(v3(50_000, 0, 0), 1, 1, true);
    b.road(v3(0, 50_000, 0), 1, 1, true);
    b.road(v3(-50_000, 0, 0), 1, 1, true);
    let policy = b.inter.turn_policy;
    let turns = policy.generate_turns(&b.inter, &b.lanes, &b.roads);
    let corners = turns.iter().filter(|(_, k)| *k == TurnKind::WalkingCorner).count();
    let crosswalks = turns.iter().filter(|(_, k)| *k == TurnKind::Crosswalk).count();
    assert_eq!(corners, 3);
    assert_eq!(crosswalks, 3);
}

#[test]
fn forbidding_left_turns_drops_sharp_lefts() {
    let mut b = Builder::new();
    b.road(v3(50_000, 0, 0), 1, 1, false);
    b.road(v3(0, 50_000, 0), 1, 1, false);
    b.road(v3(-50_000, 0, 0), 1, 1, false);
    let all = TurnPolicy { back_turns: false, left_turns: true, roundabout: None };
    let strict = TurnPolicy { back_turns: false, left_turns: false, roundabout: None };
    let with_lefts = all.generate_turns(&b.inter, &b.lanes, &b.roads);
    let without = strict.generate_turns(&b.inter, &b.lanes, &b.roads);
    assert_eq!(with_lefts.len(), 6);
    // The two sharp lefts (north-to-east and west-to-north) are dropped.
    assert_eq!(without.len(), 4);
}

#[test]
fn back_turns_add_u_turns_at_junctions() {
    let mut b = Builder::new();
    b.road(v3(50_000, 0, 0), 1, 1, false);
    b.road(v3(0, 50_000, 0), 1, 1, false);
    b.road(v3(-50_000, 0, 0), 1, 1, false);
    let back = TurnPolicy { back_turns: true, left_turns: true, roundabout: None };
    let no_back = TurnPolicy { back_turns: false, left_turns: true, roundabout: None };
    let with_back = back.generate_turns(&b.inter, &b.lanes, &b.roads);
    let without = no_back.generate_turns(&b.inter, &b.lanes, &b.roads);
    assert_eq!(with_back.len() - without.len(), 3);
}

#[test]
fn turn_queries_find_turns_by_lane() {
    let mut b = Builder::new();
    b.road(v3(50_000, 0, 0), 2, 2, false);
    let mut inter = b.inter;
    inter.update_turns(&b.lanes, &b.roads);
    let from = inter.turns_from(LaneID(0));
    assert_eq!(from.len(), 1);
    let to = inter.turns_to(LaneID(2));
    assert_eq!(to.len(), 1);
    let needle = from[0].0;
    let found = inter.find_turn(needle).expect("turn should be found");
    assert_eq!(found.id, needle);
    assert!(inter
        .find_turn(roadnet::ids::TurnID::new(inter.id, LaneID(40), LaneID(41)))
        .is_none());
}

#[test]
fn turn_paths_run_through_the_intersection_center() {
    let mut b = Builder::new();
    b.road(v3(50_000, 0, 0), 1, 1, false);
    let mut inter = b.inter;
    inter.update_turns(&b.lanes, &b.roads);
    assert_eq!(inter.turns().len(), 1);
    let t = &inter.turns()[0];
    // Lane end, intersection center, lane end.
    assert_eq!(t.points.len(), 3);
    assert_eq!(t.points[0], v2(0, 0));
    assert_eq!(t.points[1], v2(0, 0));
    assert_eq!(t.points[2], v2(0, 0));
}
