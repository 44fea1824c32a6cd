//! The road-build validator: endpoint compatibility, footprint collision,
//! geometry generation, classification, and the interaction state machine.

use roadnet::geom::{V2, V3};
use roadnet::ids::{IntersectionID, RoadID};
use roadnet::intersection::Intersection;
use roadnet::network::{MapProject, Network, ProjectFilter, ProjectKind};
use roadnet::road::{GeomError, Road, RoadSegmentKind, Terrain};
use roadnet::roadbuild::{
    check_angle, check_intersect, compatible, BuildState, BuildTool, RoadBuildInput,
    RoadBuildResource,
};

fn v2(x: i64, y: i64) -> V2 {
    V2 { x, y }
}

fn v3(x: i64, y: i64, z: i64) -> V3 {
    V3 { x, y, z }
}

fn flat_terrain() -> Terrain {
    Terrain { min: v2(-1_000_000, -1_000_000), max: v2(1_000_000, 1_000_000), elevation: 0 }
}

fn ground(x: i64, y: i64, z: i64) -> MapProject {
    MapProject { pos: v3(x, y, z), kind: ProjectKind::Ground }
}

/// An empty network over flat terrain.
fn empty_net() -> Network {
    Network::empty(flat_terrain())
}

/// A network with one 32-unit road running south to north through x = 0.
fn net_with_road() -> (Network, u64) {
    let mut net = empty_net();
    let a = Intersection::make(&mut net.intersections, v3(0, -50_000, 0));
    let b = Intersection::make(&mut net.intersections, v3(0, 50_000, 0));
    let key = net.roads.peek_next_key();
    let road = Road {
        id: RoadID(key),
        src: a,
        dst: b,
        segment: RoadSegmentKind::Straight,
        points: vec![v3(0, -50_000, 0), v3(0, 50_000, 0)],
        interface_src: 2560,
        interface_dst: 2560,
        width: 3200,
        lanes_forward: Vec::new(),
        lanes_backward: Vec::new(),
        length: 100_000,
    };
    let got = net.roads.insert(road);
    let ra = Road {
        id: RoadID(got),
        src: a,
        dst: b,
        segment: RoadSegmentKind::Straight,
        points: vec![v3(0, -50_000, 0), v3(0, 50_000, 0)],
        interface_src: 2560,
        interface_dst: 2560,
        width: 3200,
        lanes_forward: Vec::new(),
        lanes_backward: Vec::new(),
        length: 100_000,
    };
    {
        let ia = net.intersections.get_mut(a.0);
        ia.add_road(&net.roads, &ra);
    }
    {
        let ib = net.intersections.get_mut(b.0);
        ib.add_road(&net.roads, &ra);
    }
    (net, got)
}

#[test]
fn close_endpoints_are_rejected_whatever_their_kinds() {
    let net = empty_net();
    // 5 length units apart: under the 10-unit minimum.
    assert!(!compatible(&net, ground(0, 0, 0), ground(500, 0, 0)));
    // Mixed kinds too: a ground point next to an intersection.
    let x = MapProject { pos: v3(0, 0, 0), kind: ProjectKind::Inter(IntersectionID(0)) };
    assert!(!compatible(&net, x, ground(300, 400, 0)));
    // At 10 units or more, two ground points pair.
    assert!(compatible(&net, ground(0, 0, 0), ground(1000, 0, 0)));
}

#[test]
fn road_cannot_pair_with_its_own_intersection() {
    let (net, key) = net_with_road();
    let r = net.roads.get(key).unwrap();
    let on_road = MapProject { pos: v3(0, 0, 0), kind: ProjectKind::Road(RoadID(key)) };
    let own_end = MapProject { pos: v3(0, -50_000, 0), kind: ProjectKind::Inter(r.src) };
    let other = MapProject { pos: v3(40_000, 0, 0), kind: ProjectKind::Inter(IntersectionID(99)) };
    assert!(!compatible(&net, on_road, own_end));
    assert!(compatible(&net, on_road, other));
}

#[test]
fn straight_points_on_flat_terrain_hit_the_endpoints_exactly() {
    let t = flat_terrain();
    let from = v3(-20_000, 1000, 777);
    let to = v3(30_000, -4000, 777);
    let pts = Road::generate_points(from, to, &RoadSegmentKind::Straight, false, &t).unwrap();
    assert_eq!(pts.len(), 2);
    // First and last points equal the elevation-adjusted endpoints exactly.
    assert_eq!(pts[0], v3(-20_000, 1000, 0));
    assert_eq!(pts[1], v3(30_000, -4000, 0));
}

#[test]
fn generation_fails_off_the_covered_terrain() {
    let t = flat_terrain();
    let from = v3(0, 0, 0);
    let to = v3(1_500_000, 0, 0);
    let r = Road::generate_points(from, to, &RoadSegmentKind::Straight, false, &t);
    assert_eq!(r, Err(GeomError::TerrainOutOfBounds));
}

#[test]
fn elbow_points_start_and_end_at_the_endpoints() {
    let t = flat_terrain();
    let from = v3(0, 0, 0);
    let to = v3(40_000, 0, 0);
    let pts =
        Road::generate_points(from, to, &RoadSegmentKind::Elbow(v2(20_000, 20_000)), false, &t)
            .unwrap();
    assert_eq!(pts.len(), 9);
    assert_eq!(pts[0], v3(0, 0, 0));
    assert_eq!(pts[8], v3(40_000, 0, 0));
    // The middle sample bends toward the elbow.
    assert_eq!(pts[4], v3(20_000, 10_000, 0));
}

#[test]
fn candidate_crossing_a_road_is_detected_and_clears_after_removal() {
    let (mut net, key) = net_with_road();
    let cand = vec![v2(-30_000, 0), v2(30_000, 0)];
    // Crossing the existing road at the same elevation: a collision.
    assert!(check_intersect(&net, &cand, 0, 1600, ProjectKind::Ground, ProjectKind::Ground));
    // Far above the elevation band: no collision.
    assert!(!check_intersect(&net, &cand, 5_000, 1600, ProjectKind::Ground, ProjectKind::Ground));
    // The road it deliberately connects to is not a collision.
    assert!(!check_intersect(
        &net,
        &cand,
        0,
        1600,
        ProjectKind::Road(RoadID(key)),
        ProjectKind::Ground
    ));
    // Remove the road: the same candidate becomes buildable.
    let (a, b) = {
        let r = net.roads.get(key).unwrap();
        (r.src, r.dst)
    };
    net.roads.remove(key);
    net.intersections.get_mut(a.0).remove_road(RoadID(key));
    net.intersections.get_mut(b.0).remove_road(RoadID(key));
    assert!(!check_intersect(&net, &cand, 0, 1600, ProjectKind::Ground, ProjectKind::Ground));
}

#[test]
fn angle_rule_demands_thirty_degrees_from_incident_roads() {
    let (net, key) = net_with_road();
    let r = net.roads.get(key).unwrap();
    let south = MapProject { pos: v3(0, -50_000, 0), kind: ProjectKind::Inter(r.src) };
    // Continuing straight along the road's own direction: angle zero, rejected.
    assert!(!check_angle(&net, south, v2(0, 0), false));
    // Leaving at a right angle: accepted.
    assert!(check_angle(&net, south, v2(50_000, -50_000), false));
    // Rail has a zero minimum angle and always passes here.
    assert!(check_angle(&net, south, v2(0, 0), true));
    // A ground anchor constrains nothing.
    assert!(check_angle(&net, ground(0, 0, 0), v2(5, 5), false));
}

#[test]
fn projection_classifies_intersections_roads_and_ground() {
    let (net, key) = net_with_road();
    let on_inter = net.project(v3(0, -50_000, 0), 500, ProjectFilter::all());
    assert_eq!(on_inter.kind, ProjectKind::Inter(net.roads.get(key).unwrap().src));
    let on_road = net.project(v3(300, 0, 0), 500, ProjectFilter::all());
    assert_eq!(on_road.kind, ProjectKind::Road(RoadID(key)));
    let on_ground = net.project(v3(500_000, 500_000, 0), 500, ProjectFilter::all());
    assert_eq!(on_ground.kind, ProjectKind::Ground);
}

fn frame_input(pos: V3, select: bool) -> RoadBuildInput {
    RoadBuildInput {
        unprojected: Some(pos),
        tolerance: 500,
        tool: BuildTool::Straight,
        select,
        close: false,
        up_elevation: false,
        down_elevation: false,
        nosnapping: false,
    }
}

#[test]
fn selecting_ground_twice_builds_a_straight_candidate_and_commits() {
    let net = empty_net();
    let mut res = RoadBuildResource::new();
    // First select anchors the start.
    let out1 = res.roadbuild(&net, frame_input(v3(0, 0, 0), true));
    assert!(out1.valid);
    assert!(out1.command.is_none());
    assert!(matches!(res.build_state, BuildState::Start(_)));
    // Second select, far enough away, commits and emits the request.
    let out2 = res.roadbuild(&net, frame_input(v3(40_000, 0, 0), true));
    assert!(out2.valid);
    let req = out2.command.expect("a committing select emits the request");
    assert_eq!(req.from.pos, v3(0, 0, 0));
    assert_eq!(req.to.pos, v3(40_000, 0, 0));
    assert!(req.interpoint.is_none());
    assert!(matches!(res.build_state, BuildState::Hover));
    // The preview runs endpoint to endpoint.
    let preview = out2.preview.expect("a valid straight candidate previews");
    assert_eq!(preview.first().copied(), Some(v3(0, 0, 0)));
    assert_eq!(preview.last().copied(), Some(v3(40_000, 0, 0)));
}

#[test]
fn candidate_under_ten_units_is_invalid() {
    let net = empty_net();
    let mut res = RoadBuildResource::new();
    res.roadbuild(&net, frame_input(v3(0, 0, 0), true));
    let out = res.roadbuild(&net, frame_input(v3(900, 0, 0), true));
    assert!(!out.valid);
    assert!(out.command.is_none());
    // The invalid select does not advance the state machine.
    assert!(matches!(res.build_state, BuildState::Start(_)));
}

#[test]
fn cancel_resets_to_idle() {
    let net = empty_net();
    let mut res = RoadBuildResource::new();
    res.roadbuild(&net, frame_input(v3(0, 0, 0), true));
    let mut input = frame_input(v3(10_000, 0, 0), false);
    input.close = true;
    res.roadbuild(&net, input);
    assert!(matches!(res.build_state, BuildState::Hover));
}

#[test]
fn curved_tool_collects_elbow_then_commits() {
    let net = empty_net();
    let mut res = RoadBuildResource::new();
    let mut i1 = frame_input(v3(0, 0, 0), true);
    i1.tool = BuildTool::Curved;
    res.roadbuild(&net, i1);
    assert!(matches!(res.build_state, BuildState::StartInterp(_)));
    let mut i2 = frame_input(v3(20_000, 20_000, 0), true);
    i2.tool = BuildTool::Curved;
    res.roadbuild(&net, i2);
    assert!(matches!(res.build_state, BuildState::Interpolation(_, _)));
    let mut i3 = frame_input(v3(40_000, 0, 0), true);
    i3.tool = BuildTool::Curved;
    let out = res.roadbuild(&net, i3);
    assert!(out.valid);
    let req = out.command.expect("confirming the curve commits");
    assert_eq!(req.interpoint, Some(v2(20_000, 20_000)));
    assert!(matches!(res.build_state, BuildState::Hover));
}

#[test]
fn grid_snapping_rounds_the_cursor() {
    let net = empty_net();
    let mut res = RoadBuildResource::new();
    res.snap_to_grid = true;
    let out = res.roadbuild(&net, frame_input(v3(10_900, -900, 0), false));
    // 20-unit grid: 10_900 rounds to 10_000 and -900 to 0.
    assert_eq!(out.mousepos, Some(v3(10_000, 0, 0)));
}

#[test]
fn switching_the_tool_off_resets_the_state() {
    let net = empty_net();
    let mut res = RoadBuildResource::new();
    res.roadbuild(&net, frame_input(v3(0, 0, 0), true));
    let mut off = frame_input(v3(0, 0, 0), false);
    off.tool = BuildTool::Off;
    let out = res.roadbuild(&net, off);
    assert!(matches!(res.build_state, BuildState::Hover));
    assert!(!out.valid);
    assert!(out.mousepos.is_none());
}

#[test]
fn building_classification_blocks_a_start() {
    let mut net = empty_net();
    let key = net.buildings.insert(roadnet::network::Building {
        id: roadnet::network::BuildingID(0),
        min: v2(-1000, -1000),
        max: v2(1000, 1000),
    });
    assert_eq!(key, 0);
    let pr = net.project(v3(0, 0, 0), 500, ProjectFilter::all());
    assert_eq!(pr.kind, ProjectKind::Building(roadnet::network::BuildingID(0)));
}

#[test]
fn pylons_are_placed_every_thirty_units() {
    let t = flat_terrain();
    // A 100-unit straight segment carries pylons at 30, 60 and 90 units.
    let pts = vec![v3(0, 0, 500), v3(10_000, 0, 500)];
    let pylons = roadnet::road::Road::pylons_positions(&pts, &t);
    assert_eq!(pylons.len(), 3);
    assert_eq!(pylons[0].pos, v3(3000, 0, 500));
    assert_eq!(pylons[1].pos, v3(6000, 0, 500));
    assert_eq!(pylons[2].pos, v3(9000, 0, 500));
    for p in &pylons {
        assert_eq!(p.terrain_height, 0);
    }
    // A segment shorter than the spacing carries none.
    let short = vec![v3(0, 0, 0), v3(2000, 0, 0)];
    assert!(roadnet::road::Road::pylons_positions(&short, &t).is_empty());
}

#[test]
fn elevation_keys_step_and_clamp_the_offset() {
    let net = empty_net();
    let mut res = RoadBuildResource::new();
    let mut up = frame_input(v3(0, 0, 0), false);
    up.up_elevation = true;
    for _ in 0..25 {
        res.roadbuild(&net, up);
    }
    // 25 steps of 5 units clamp at the 100-unit cap.
    assert_eq!(res.height_offset, 10_000);
    let mut down = frame_input(v3(0, 0, 0), false);
    down.down_elevation = true;
    res.roadbuild(&net, down);
    assert_eq!(res.height_offset, 9_500);
}

#[test]
fn angle_snapping_pulls_the_cursor_onto_a_straight_continuation() {
    let (net, key) = net_with_road();
    let r = net.roads.get(key).unwrap();
    let south = MapProject { pos: v3(0, -50_000, 0), kind: ProjectKind::Inter(r.src) };
    let mut res = RoadBuildResource::new();
    res.build_state = BuildState::Start(south);
    res.snap_to_angle = true;
    let out = res.roadbuild(&net, frame_input(v3(500, 10_000, 0), false));
    // The cursor is pulled onto the straight continuation of the existing
    // road, and the candidate points are cached for display.
    assert_eq!(out.mousepos, Some(v3(0, 10_000, 0)));
    assert_eq!(res.straight_points, vec![v3(0, 10_000, 0)]);
}

#[test]
fn rail_snapping_follows_the_track_tangent() {
    let (net, key) = net_with_road();
    let mut res = RoadBuildResource::new();
    res.pattern_builder = res.pattern_builder.rail(true);
    res.build_state = BuildState::Start(MapProject {
        pos: v3(0, 0, 0),
        kind: ProjectKind::Road(RoadID(key)),
    });
    let pts = res.update_points(&net, v3(20_000, 30_000, 0));
    // The single candidate lies on the track's tangent line.
    assert_eq!(pts, vec![v3(0, 30_000, 0)]);
}

#[test]
fn cursor_near_a_road_end_snaps_onto_the_intersection() {
    let (net, key) = net_with_road();
    let src = net.roads.get(key).unwrap().src;
    let mut res = RoadBuildResource::new();
    // Past the intersection's own capture circle, but within the road
    // end's interface distance plus the candidate's half width.
    let out = res.roadbuild(&net, frame_input(v3(0, -46_000, 0), false));
    let cursor = out.cursor.expect("a frame with a cursor classifies it");
    assert_eq!(cursor.kind, ProjectKind::Inter(src));
    assert_eq!(cursor.pos, v3(0, -50_000, 0));
}
