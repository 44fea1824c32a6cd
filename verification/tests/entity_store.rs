//! The identity-keyed arena: stable identities, stale-key behaviour, and
//! lane geometry derived from a road.

use roadnet::geom::{V2, V3};
use roadnet::ids::{IntersectionID, LaneID, RoadID};
use roadnet::lane::{Lane, LaneKind, LanePatternBuilder};
use roadnet::road::{Road, RoadSegmentKind};
use roadnet::store::Store;

fn v2(x: i64, y: i64) -> V2 {
    V2 { x, y }
}

fn v3(x: i64, y: i64, z: i64) -> V3 {
    V3 { x, y, z }
}

#[test]
fn identities_survive_removal_of_other_entities() {
    let mut s: Store<u32> = Store::new();
    let a = s.insert(10);
    let b = s.insert(20);
    let c = s.insert(30);
    s.remove(b);
    // Removing b invalidates only b.
    assert_eq!(s.get(a), Some(&10));
    assert_eq!(s.get(b), None);
    assert_eq!(s.get(c), Some(&30));
    // A key is never reused.
    let d = s.insert(40);
    assert!(d != a && d != b && d != c);
    assert_eq!(s.get(b), None);
}

#[test]
fn stale_and_unknown_keys_read_as_absent() {
    let mut s: Store<u32> = Store::new();
    assert!(!s.contains_key(0));
    assert_eq!(s.get(12345), None);
    let a = s.insert(1);
    assert!(s.contains_key(a));
    s.remove(a);
    assert!(!s.contains_key(a));
}

#[test]
fn keys_come_back_sorted_and_live_only() {
    let mut s: Store<u32> = Store::new();
    let a = s.insert(1);
    let b = s.insert(2);
    let c = s.insert(3);
    s.remove(b);
    assert_eq!(s.keys(), vec![a, c]);
}

#[test]
fn lane_pattern_builder_defaults() {
    let b = LanePatternBuilder::new();
    // One driving lane per side plus parking and sidewalks on both sides:
    // 2 * 8 + 2 * 4 + 2 * 4 = 32 units.
    assert_eq!(b.width(), 3200);
    let p = b.build();
    assert_eq!(p.lanes_forward, vec![LaneKind::Driving, LaneKind::Parking, LaneKind::Walking]);
    assert_eq!(p.lanes_backward, vec![LaneKind::Driving, LaneKind::Parking, LaneKind::Walking]);
    assert_eq!(p.width(), 3200);
}

#[test]
fn one_way_pattern_drops_backward_driving_lanes() {
    let p = LanePatternBuilder::new().one_way(true).sidewalks(false).parking(false).build();
    assert_eq!(p.lanes_forward, vec![LaneKind::Driving]);
    assert!(p.lanes_backward.is_empty());
}

#[test]
fn lane_kinds_carry_vehicles_and_widths() {
    assert!(LaneKind::Driving.vehicles());
    assert!(LaneKind::Bus.vehicles());
    assert!(!LaneKind::Walking.vehicles());
    assert_eq!(LaneKind::Driving.width(), 800);
    assert_eq!(LaneKind::Walking.width(), 400);
}

#[test]
fn lane_offset_geometry_follows_the_road() {
    let road = Road {
        id: RoadID(0),
        src: IntersectionID(0),
        dst: IntersectionID(1),
        segment: RoadSegmentKind::Straight,
        points: vec![v3(0, 0, 0), v3(10_000, 0, 0)],
        interface_src: 0,
        interface_dst: 0,
        width: 3200,
        lanes_forward: Vec::new(),
        lanes_backward: Vec::new(),
        length: 10_000,
    };
    let mut lane = Lane {
        id: LaneID(0),
        kind: LaneKind::Driving,
        src: IntersectionID(0),
        dst: IntersectionID(1),
        src_dir: v2(1000, 0),
        dst_dir: v2(-1000, 0),
        points: Vec::new(),
        width: 800,
        inter_length: 0,
    };
    // The innermost forward lane: its center sits 400 steps from the
    // road's edge, 1200 steps off the centerline.
    lane.gen_pos(&road, 0);
    assert_eq!(lane.inter_length, 10_000);
    // Offset -1200 against the right-hand normal of an eastward road.
    assert_eq!(lane.points, vec![v2(0, 1200), v2(10_000, 1200)]);
    // A backward lane at the same offset runs the opposite way.
    let mut back = Lane { src: IntersectionID(1), dst: IntersectionID(0), ..lane };
    back.gen_pos(&road, 2400);
    assert_eq!(back.points, vec![v2(10_000, -1200), v2(0, -1200)]);
}

#[test]
fn lane_ends_resolve_by_intersection() {
    let lane = Lane {
        id: LaneID(0),
        kind: LaneKind::Driving,
        src: IntersectionID(5),
        dst: IntersectionID(6),
        src_dir: v2(1000, 0),
        dst_dir: v2(-1000, 0),
        points: vec![v2(0, 0), v2(9000, 0)],
        width: 800,
        inter_length: 9000,
    };
    assert_eq!(lane.get_inter_node_pos(IntersectionID(5)), v2(0, 0));
    assert_eq!(lane.get_inter_node_pos(IntersectionID(6)), v2(9000, 0));
    assert_eq!(lane.orientation_from(IntersectionID(5)), v2(1000, 0));
    assert_eq!(lane.dist2_to(v2(4000, 300)), 90_000);
}
