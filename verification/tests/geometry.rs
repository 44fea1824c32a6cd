//! Fixed-point geometry primitives on concrete values.

use roadnet::geom::{
    isqrt, pseudo_angle_key_e, dist2_2d_e, segs_near_e, segs_cross_e, line_line_intersection_e,
    tdiv_e, V2, V3,
};

fn v2(x: i64, y: i64) -> V2 {
    V2 { x, y }
}

#[test]
fn isqrt_exact_values() {
    assert_eq!(isqrt(0), 0);
    assert_eq!(isqrt(1), 1);
    assert_eq!(isqrt(3), 1);
    assert_eq!(isqrt(4), 2);
    assert_eq!(isqrt(5_120_000), 2262);
    assert_eq!(isqrt(u64::MAX), 4_294_967_295);
}

#[test]
fn pseudo_angle_orders_cardinal_directions() {
    // East, north, west, south in increasing angular order from south.
    let east = pseudo_angle_key_e(v2(1000, 0));
    let north = pseudo_angle_key_e(v2(0, 1000));
    let west = pseudo_angle_key_e(v2(-1000, 0));
    let south = pseudo_angle_key_e(v2(0, -1000));
    assert_eq!(east, 0);
    assert_eq!(north, 1000);
    assert_eq!(west, 2000);
    assert_eq!(south, -1000);
    assert!(south < east && east < north && north < west);
}

#[test]
fn squared_distance_is_exact() {
    assert_eq!(dist2_2d_e(v2(0, 0), v2(300, 400)), 250_000);
    assert_eq!(dist2_2d_e(v2(-100, -100), v2(-100, -100)), 0);
}

#[test]
fn crossing_segments_are_near() {
    let a = v2(-1000, 0);
    let b = v2(1000, 0);
    let c = v2(0, -1000);
    let d = v2(0, 1000);
    assert!(segs_cross_e(a, b, c, d));
    assert!(segs_near_e(a, b, c, d, 1));
}

#[test]
fn distant_parallel_segments_are_not_near() {
    let a = v2(-1000, 0);
    let b = v2(1000, 0);
    let c = v2(-1000, 5000);
    let d = v2(1000, 5000);
    assert!(!segs_cross_e(a, b, c, d));
    // Separation is 5000, so squared bound 4999^2 misses and 5001^2 hits.
    assert!(!segs_near_e(a, b, c, d, 4999 * 4999));
    assert!(segs_near_e(a, b, c, d, 5001 * 5001));
}

#[test]
fn line_intersection_of_perpendicular_lines() {
    let r = line_line_intersection_e(v2(-1000, 500), v2(1000, 500), v2(200, -1000), v2(200, 1000));
    assert_eq!(r, Some(v2(200, 500)));
}

#[test]
fn line_intersection_of_parallel_lines_is_none() {
    let r = line_line_intersection_e(v2(0, 0), v2(1000, 0), v2(0, 100), v2(1000, 100));
    assert_eq!(r, None);
}

#[test]
fn truncating_division_rounds_toward_zero() {
    assert_eq!(tdiv_e(7, 2), 3);
    assert_eq!(tdiv_e(-7, 2), -3);
    assert_eq!(tdiv_e(6, 3), 2);
    assert_eq!(tdiv_e(-6, 3), -2);
}

#[test]
fn v3_is_plain_data() {
    let p = V3 { x: 1, y: 2, z: 3 };
    assert_eq!(p, V3 { x: 1, y: 2, z: 3 });
}
