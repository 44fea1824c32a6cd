//! Interface radii: the default trim, the pairwise minimum-separation
//! formula, and the whole update pass on a four-way intersection.

use roadnet::geom::{V2, V3};
use roadnet::ids::{IntersectionID, RoadID};
use roadnet::intersection::{Intersection, MIN_INTERFACE};
use roadnet::road::{Road, RoadSegmentKind};
use roadnet::store::Store;

fn v2(x: i64, y: i64) -> V2 {
    V2 { x, y }
}

fn v3(x: i64, y: i64, z: i64) -> V3 {
    V3 { x, y, z }
}

/// A bare road between two points with the given width.
fn bare_road(id: u64, src: IntersectionID, dst: IntersectionID, a: V3, b: V3, width: i64) -> Road {
    Road {
        id: RoadID(id),
        src,
        dst,
        segment: RoadSegmentKind::Straight,
        points: vec![a, b],
        interface_src: 0,
        interface_dst: 0,
        width,
        lanes_forward: Vec::new(),
        lanes_backward: Vec::new(),
        length: roadnet::geom::isqrt(roadnet::geom::dist2_2d_e(
            v2(a.x, a.y),
            v2(b.x, b.y),
        ) as u64) as i64,
    }
}

#[test]
fn empty_interface_takes_eight_tenths_of_width() {
    // A 32-unit road: 32 * 0.8 = 25.6 units.
    assert_eq!(Intersection::empty_interface(3200), 2560);
}

#[test]
fn empty_interface_has_a_floor() {
    // A narrow road still gets the 9-unit minimum.
    assert_eq!(Intersection::empty_interface(500), MIN_INTERFACE);
    assert_eq!(Intersection::empty_interface(0), MIN_INTERFACE);
}

#[test]
fn interface_calc_perpendicular_roads() {
    // Half widths 1600 each; hypot floor is 2262; a right angle divides by
    // a full sine, leaving 2262 * 11 / 10 = 2488.
    let d = Intersection::interface_calc(3200, 3200, v2(1000, 0), v2(0, 1000));
    assert_eq!(d, 2488);
}

#[test]
fn interface_calc_parallel_roads_takes_the_cap() {
    let d = Intersection::interface_calc(3200, 3200, v2(1000, 0), v2(1000, 0));
    assert_eq!(d, 3000);
}

#[test]
fn interface_calc_obtuse_angle_counts_as_right_angle() {
    // Opposite directions: the clamped cosine is zero, as at a right angle.
    let d = Intersection::interface_calc(3200, 3200, v2(1000, 0), v2(-1000, 0));
    assert_eq!(d, 2488);
}

/// Builds a center intersection with `dirs.len()` equal-width roads leaving
/// along the given directions, and runs the interface update.
fn build_star(dirs: &[(i64, i64)], width: i64) -> (Intersection, Store<Road>, Vec<u64>) {
    let mut inters: Store<Intersection> = Store::new();
    let center_id = Intersection::make(&mut inters, v3(0, 0, 0));
    let mut center = Intersection {
        id: center_id,
        pos: v3(0, 0, 0),
        turns: Vec::new(),
        roads: Vec::new(),
        turn_policy: Default::default(),
    };
    let mut roads: Store<Road> = Store::new();
    let mut keys = Vec::new();
    for (i, (dx, dy)) in dirs.iter().enumerate() {
        let end_id = Intersection::make(&mut inters, v3(dx * 50, dy * 50, 0));
        let key = roads.peek_next_key();
        let road = bare_road(
            key,
            center_id,
            end_id,
            v3(0, 0, 0),
            v3(dx * 50, dy * 50, 0),
            width,
        );
        let got = roads.insert(road);
        assert_eq!(got, key);
        keys.push(got);
        let road_copy = bare_road(
            got,
            center_id,
            end_id,
            v3(0, 0, 0),
            v3(dx * 50, dy * 50, 0),
            width,
        );
        center.add_road(&roads, &road_copy);
        assert_eq!(center.roads.len(), i + 1);
    }
    (center, roads, keys)
}

#[test]
fn four_way_intersection_gets_equal_interfaces_under_the_cap() {
    // Roads at 0, 90, 180 and 270 degrees, all 32 units wide.
    let (mut center, mut roads, keys) = build_star(
        &[(1000, 0), (0, 1000), (-1000, 0), (0, -1000)],
        3200,
    );
    center.update_interface_radius(&mut roads);
    let mut values = Vec::new();
    for k in &keys {
        let r = roads.get(*k).unwrap();
        values.push(r.interface_from(center.id));
    }
    for v in &values {
        assert_eq!(*v, values[0]);
        assert!(*v < 3000);
    }
    // The default for a 32-unit road dominates the perpendicular pairs.
    assert_eq!(values[0], 2560);
}

#[test]
fn adjacent_pairs_meet_the_separation_formula() {
    // Unequal widths at an oblique angle: every adjacent pair must end at
    // or above the pairwise minimum separation.
    let (mut center, mut roads, keys) = build_star(&[(1000, 0), (800, 600), (-1000, 100)], 3200);
    // Widen one road so the pairs are asymmetric.
    roads.get_mut(keys[1]).width = 8000;
    center.update_interface_radius(&mut roads);
    let order: Vec<u64> = center.roads.iter().map(|r| r.0).collect();
    let n = order.len();
    for t in 0..n {
        let a = roads.get(order[t]).unwrap();
        let b = roads.get(order[(t + 1) % n]).unwrap();
        let need = Intersection::interface_calc(
            a.width,
            b.width,
            a.dir_from(center.id),
            b.dir_from(center.id),
        );
        assert!(a.interface_from(center.id) >= need);
        assert!(b.interface_from(center.id) >= need);
    }
}

#[test]
fn dead_end_keeps_the_default_interface() {
    let (mut center, mut roads, keys) = build_star(&[(1000, 0)], 3200);
    center.update_interface_radius(&mut roads);
    assert_eq!(roads.get(keys[0]).unwrap().interface_from(center.id), 2560);
}

#[test]
fn roundabout_forces_a_clearance() {
    let (mut center, mut roads, keys) = build_star(&[(1000, 0), (-1000, 0)], 3200);
    center.turn_policy.roundabout = Some(3000);
    assert!(center.is_roundabout());
    center.update_interface_radius(&mut roads);
    // The forced clearance, radius * 1.1 + 5 units = 3800, dominates both
    // the width default (2560) and the pairwise separation (2488).
    for k in &keys {
        assert_eq!(roads.get(*k).unwrap().interface_from(center.id), 3800);
    }
}

#[test]
fn drivable_length_check_rejects_overtrimmed_road() {
    let mut r = bare_road(
        0,
        IntersectionID(0),
        IntersectionID(1),
        v3(0, 0, 0),
        v3(4000, 0, 0),
        3200,
    );
    r.interface_src = 2560;
    r.interface_dst = 2560;
    assert_eq!(
        r.check_drivable(),
        Err(roadnet::road::GeomError::NonPositiveDrivableLength)
    );
    r.interface_dst = 900;
    assert_eq!(r.check_drivable(), Ok(()));
}

#[test]
fn dangling_road_identities_are_dropped_not_fatal() {
    // An intersection still listing a removed road recovers by dropping the
    // dangling identity during the interface update.
    let (mut center, mut roads, keys) = build_star(&[(1000, 0), (0, 1000)], 3200);
    roads.remove(keys[0]);
    center.update_interface_radius(&mut roads);
    assert_eq!(center.roads.len(), 1);
    assert_eq!(center.roads[0], RoadID(keys[1]));
    // The surviving road, now a dead end, keeps the default interface.
    assert_eq!(roads.get(keys[1]).unwrap().interface_from(center.id), 2560);
}

#[test]
fn interface_preview_matches_an_uncommitted_road() {
    // Previewing a perpendicular 32-unit road against one existing road
    // gives the larger of the width default and the pairwise separation.
    let (center, roads, _keys) = build_star(&[(1000, 0)], 3200);
    let preview = center.interface_at(&roads, 3200, v2(0, 1000));
    assert_eq!(preview, 2560);
    // Against a parallel road the cap applies.
    let parallel = center.interface_at(&roads, 3200, v2(1000, 0));
    assert_eq!(parallel, 3000);
}
