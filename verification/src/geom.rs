//! Fixed-point planar and spatial geometry.
//!
//! Coordinates are `i64` values in hundredths of a length unit (`SCALE` steps
//! per unit). Every operation is exact integer arithmetic; square roots are
//! floor square roots (`sqrt_floor`), so each contract states precisely the
//! integer the code computes.

use vstd::prelude::*;

verus! {

/// Coordinate steps per length unit.
pub const SCALE: i64 = 100;

/// Largest coordinate magnitude the network accepts, in coordinate steps
/// (100 000 length units). Keeping positions inside this box keeps every
/// intermediate product of the geometry within `i64`/`i128` range.
pub const COORD_LIMIT: i64 = 10_000_000;

/// Largest magnitude of a difference of two bounded coordinates.
pub const VEC_LIMIT: i64 = 20_000_000;

/// A planar point or direction in fixed-point coordinates.
#[derive(Clone, Copy, PartialEq, Eq, Structural, Debug)]
pub struct V2 {
    pub x: i64,
    pub y: i64,
}

/// A circle: a planar center and a radius.
#[derive(Clone, Copy, PartialEq, Eq, Structural, Debug)]
pub struct Circle {
    pub center: V2,
    pub radius: i64,
}

/// A spatial point in fixed-point coordinates; `z` is the elevation.
#[derive(Clone, Copy, PartialEq, Eq, Structural, Debug)]
pub struct V3 {
    pub x: i64,
    pub y: i64,
    pub z: i64,
}

pub open spec fn in2(v: V2) -> bool {
    -COORD_LIMIT <= v.x <= COORD_LIMIT && -COORD_LIMIT <= v.y <= COORD_LIMIT
}

pub open spec fn in3(v: V3) -> bool {
    -COORD_LIMIT <= v.x <= COORD_LIMIT && -COORD_LIMIT <= v.y <= COORD_LIMIT
        && -COORD_LIMIT <= v.z <= COORD_LIMIT
}

/// `v` read as a direction: both components within twice the coordinate box,
/// as any difference of two bounded points is.
pub open spec fn dir2(v: V2) -> bool {
    -VEC_LIMIT <= v.x <= VEC_LIMIT && -VEC_LIMIT <= v.y <= VEC_LIMIT
}

/// A loosely bounded point: within four coordinate boxes, as a bounded point
/// pushed ahead along a direction is.
pub open spec fn in2_wide(v: V2) -> bool {
    -2 * VEC_LIMIT <= v.x <= 2 * VEC_LIMIT && -2 * VEC_LIMIT <= v.y <= 2 * VEC_LIMIT
}

pub open spec fn dot2(a: V2, b: V2) -> int {
    a.x * b.x + a.y * b.y
}

pub open spec fn cross2(a: V2, b: V2) -> int {
    a.x * b.y - a.y * b.x
}

pub open spec fn len2(a: V2) -> int {
    a.x * a.x + a.y * a.y
}

pub open spec fn dist2_2d(a: V2, b: V2) -> int {
    (b.x - a.x) * (b.x - a.x) + (b.y - a.y) * (b.y - a.y)
}

pub open spec fn dist2_3d(a: V3, b: V3) -> int {
    (b.x - a.x) * (b.x - a.x) + (b.y - a.y) * (b.y - a.y) + (b.z - a.z) * (b.z - a.z)
}

pub open spec fn xy(v: V3) -> V2 {
    V2 { x: v.x, y: v.y }
}

/// Floor of the square root of `n` (0 for negative `n`).
pub open spec fn sqrt_floor(n: int) -> int {
    if n < 0 {
        0
    } else {
        choose|r: int| 0 <= r && #[trigger] (r * r) <= n && n < (r + 1) * (r + 1)
    }
}

/// `|a| <= m` and `|b| <= n` bound the product: `|a * b| <= m * n`.
pub proof fn lemma_mul_bound(a: int, b: int, m: int, n: int)
    by (nonlinear_arith)
    requires
        0 <= m,
        0 <= n,
        -m <= a <= m,
        -n <= b <= n,
    ensures
        -(m * n) <= a * b <= m * n,
{
}

/// The floor square root is the unique `r` with `r * r <= n < (r + 1)^2`.
pub proof fn lemma_sqrt_floor(n: int, r: int)
    requires
        0 <= r,
        r * r <= n,
        n < (r + 1) * (r + 1),
    ensures
        sqrt_floor(n) == r,
{
    assert(0 <= n) by (nonlinear_arith)
        requires 0 <= r, r * r <= n,
    ;
    assert(exists|q: int| 0 <= q && #[trigger] (q * q) <= n && n < (q + 1) * (q + 1)) by {
        assert(0 <= r && r * r <= n && n < (r + 1) * (r + 1));
    }
    let c = choose|q: int| 0 <= q && #[trigger] (q * q) <= n && n < (q + 1) * (q + 1);
    assert(c == r) by (nonlinear_arith)
        requires
            0 <= c,
            c * c <= n,
            n < (c + 1) * (c + 1),
            0 <= r,
            r * r <= n,
            n < (r + 1) * (r + 1),
    ;
}

/// Every non-negative integer has a floor square root, and `sqrt_floor`
/// denotes it.
pub proof fn lemma_sqrt_floor_exists(n: int)
    requires
        0 <= n,
    ensures
        0 <= sqrt_floor(n),
        sqrt_floor(n) * sqrt_floor(n) <= n,
        n < (sqrt_floor(n) + 1) * (sqrt_floor(n) + 1),
    decreases n,
{
    if n == 0 {
        lemma_sqrt_floor(0, 0);
    } else {
        lemma_sqrt_floor_exists(n - 1);
        let r = sqrt_floor(n - 1);
        if (r + 1) * (r + 1) <= n {
            assert(n < (r + 2) * (r + 2)) by (nonlinear_arith)
                requires 0 <= r, n - 1 < (r + 1) * (r + 1),
            ;
            lemma_sqrt_floor(n, r + 1);
        } else {
            lemma_sqrt_floor(n, r);
        }
    }
}

/// Floor square root by binary search.
pub fn isqrt(n: u64) -> (r: u64)
    ensures
        r * r <= n < (r + 1) * (r + 1),
        r == sqrt_floor(n as int),
{
    let mut lo: u64 = 0;
    let mut hi: u64 = 4_294_967_296;
    assert((n as int) < (hi as int) * (hi as int)) by (nonlinear_arith)
        requires n <= 0xffff_ffff_ffff_ffffu64, hi == 4_294_967_296u64,
    ;
    while lo + 1 < hi
        invariant
            lo < hi <= 4_294_967_296,
            lo * lo <= n,
            n < hi * hi,
        decreases hi - lo,
    {
        let mid: u64 = lo + (hi - lo) / 2;
        proof {
            lemma_mul_bound(mid as int, mid as int, 0x1_0000_0000, 0x1_0000_0000);
        }
        if (mid as u128) * (mid as u128) <= n as u128 {
            lo = mid;
        } else {
            hi = mid;
        }
    }
    proof {
        lemma_sqrt_floor(n as int, lo as int);
    }
    lo
}

/// Exact squared planar distance of two bounded points.
pub fn dist2_2d_e(a: V2, b: V2) -> (r: i64)
    requires
        in2(a),
        in2(b),
    ensures
        r == dist2_2d(a, b),
        0 <= r,
{
    let dx = b.x - a.x;
    let dy = b.y - a.y;
    proof {
        lemma_mul_bound(dx as int, dx as int, VEC_LIMIT as int, VEC_LIMIT as int);
        lemma_mul_bound(dy as int, dy as int, VEC_LIMIT as int, VEC_LIMIT as int);
        assert(0 <= dx * dx && 0 <= dy * dy) by (nonlinear_arith);
    }
    dx * dx + dy * dy
}

/// Exact squared spatial distance of two bounded points.
pub fn dist2_3d_e(a: V3, b: V3) -> (r: i64)
    requires
        in3(a),
        in3(b),
    ensures
        r == dist2_3d(a, b),
        0 <= r,
{
    let dx = b.x - a.x;
    let dy = b.y - a.y;
    let dz = b.z - a.z;
    proof {
        lemma_mul_bound(dx as int, dx as int, VEC_LIMIT as int, VEC_LIMIT as int);
        lemma_mul_bound(dy as int, dy as int, VEC_LIMIT as int, VEC_LIMIT as int);
        lemma_mul_bound(dz as int, dz as int, VEC_LIMIT as int, VEC_LIMIT as int);
        assert(0 <= dx * dx && 0 <= dy * dy && 0 <= dz * dz) by (nonlinear_arith);
    }
    dx * dx + dy * dy + dz * dz
}

/// Exact dot product of two bounded directions.
pub fn dot2_e(a: V2, b: V2) -> (r: i64)
    requires
        dir2(a),
        dir2(b),
    ensures
        r == dot2(a, b),
{
    proof {
        lemma_mul_bound(a.x as int, b.x as int, VEC_LIMIT as int, VEC_LIMIT as int);
        lemma_mul_bound(a.y as int, b.y as int, VEC_LIMIT as int, VEC_LIMIT as int);
    }
    a.x * b.x + a.y * b.y
}

/// Exact cross product of two bounded directions.
pub fn cross2_e(a: V2, b: V2) -> (r: i64)
    requires
        dir2(a),
        dir2(b),
    ensures
        r == cross2(a, b),
{
    proof {
        lemma_mul_bound(a.x as int, b.y as int, VEC_LIMIT as int, VEC_LIMIT as int);
        lemma_mul_bound(a.y as int, b.x as int, VEC_LIMIT as int, VEC_LIMIT as int);
    }
    a.x * b.y - a.y * b.x
}

/// Exact squared length of a bounded direction.
pub fn len2_e(a: V2) -> (r: i64)
    requires
        dir2(a),
    ensures
        r == len2(a),
        0 <= r,
{
    proof {
        lemma_mul_bound(a.x as int, a.x as int, VEC_LIMIT as int, VEC_LIMIT as int);
        lemma_mul_bound(a.y as int, a.y as int, VEC_LIMIT as int, VEC_LIMIT as int);
        assert(0 <= a.x * a.x && 0 <= a.y * a.y) by (nonlinear_arith);
    }
    a.x * a.x + a.y * a.y
}

/// Monotone surrogate for the departure angle of a direction, in thousandths:
/// `(|x| + |y| - x) * 1000 / (|x| + |y|)`, negated in the lower half plane.
/// Sorting by this key sorts directions by angle. The zero vector maps to 0.
pub open spec fn pseudo_angle_key(v: V2) -> int {
    let s: int = (vstd::math::abs(v.x as int) + vstd::math::abs(v.y as int)) as int;
    if s == 0 {
        0
    } else {
        let a = (s - v.x) * 1000 / s;
        if v.y >= 0 {
            a
        } else {
            -a
        }
    }
}

/// Exact pseudo-angle key of a bounded direction.
pub fn pseudo_angle_key_e(v: V2) -> (r: i64)
    requires
        dir2(v),
    ensures
        r == pseudo_angle_key(v),
        -2000 <= r <= 2000,
{
    let ax: i64 = if v.x < 0 { -v.x } else { v.x };
    let ay: i64 = if v.y < 0 { -v.y } else { v.y };
    let s: i64 = ax + ay;
    if s == 0 {
        0
    } else {
        let num: u64 = ((s - v.x) as u64) * 1000;
        let a: i64 = (num / (s as u64)) as i64;
        proof {
            let si = s as int;
            assert(a == (si - v.x) * 1000 / si);
            assert(0 <= a <= 2000) by (nonlinear_arith)
                requires
                    0 < si <= 2 * VEC_LIMIT,
                    0 <= si - v.x <= 2 * si,
                    a == (si - v.x) * 1000 / si,
            ;
        }
        if v.y >= 0 {
            a
        } else {
            -a
        }
    }
}

/// Squared distance of point `p` to the segment `a..b`, floored:
/// the squared distance to the nearer endpoint outside the segment's band,
/// else the floored squared perpendicular distance.
pub open spec fn pt_seg_dist2(p: V2, a: V2, b: V2) -> int {
    let ux = b.x - a.x;
    let uy = b.y - a.y;
    let vx = p.x - a.x;
    let vy = p.y - a.y;
    let t = ux * vx + uy * vy;
    let uu = ux * ux + uy * uy;
    if t <= 0 {
        vx * vx + vy * vy
    } else if t >= uu {
        dist2_2d(p, b)
    } else {
        let cr = ux * vy - uy * vx;
        (cr * cr) / uu
    }
}

/// Exact floored squared point-to-segment distance, within `u128`.
pub fn pt_seg_dist2_e(p: V2, a: V2, b: V2) -> (r: u128)
    requires
        in2(p),
        in2(a),
        in2(b),
    ensures
        r == pt_seg_dist2(p, a, b),
{
    let ux = b.x - a.x;
    let uy = b.y - a.y;
    let vx = p.x - a.x;
    let vy = p.y - a.y;
    proof {
        lemma_mul_bound(ux as int, vx as int, VEC_LIMIT as int, VEC_LIMIT as int);
        lemma_mul_bound(uy as int, vy as int, VEC_LIMIT as int, VEC_LIMIT as int);
        lemma_mul_bound(ux as int, ux as int, VEC_LIMIT as int, VEC_LIMIT as int);
        lemma_mul_bound(uy as int, uy as int, VEC_LIMIT as int, VEC_LIMIT as int);
        lemma_mul_bound(vx as int, vx as int, VEC_LIMIT as int, VEC_LIMIT as int);
        lemma_mul_bound(vy as int, vy as int, VEC_LIMIT as int, VEC_LIMIT as int);
        assert(0 <= ux * ux && 0 <= uy * uy && 0 <= vx * vx && 0 <= vy * vy)
            by (nonlinear_arith);
    }
    let t: i64 = ux * vx + uy * vy;
    let uu: i64 = ux * ux + uy * uy;
    if t <= 0 {
        (vx * vx + vy * vy) as u128
    } else if t >= uu {
        let dr = dist2_2d_e(p, b);
        dr as u128
    } else {
        proof {
            lemma_mul_bound(ux as int, vy as int, VEC_LIMIT as int, VEC_LIMIT as int);
            lemma_mul_bound(uy as int, vx as int, VEC_LIMIT as int, VEC_LIMIT as int);
        }
        let cr: i64 = ux * vy - uy * vx;
        let ca: i64 = if cr < 0 { -cr } else { cr };
        proof {
            lemma_mul_bound(ca as int, ca as int, 800_000_000_000_000, 800_000_000_000_000);
        }
        let num: u128 = (ca as u128) * (ca as u128);
        let q: u128 = num / (uu as u128);
        proof {
            assert(num == (cr as int) * (cr as int)) by (nonlinear_arith)
                requires ca == vstd::math::abs(cr as int), num == (ca as int) * (ca as int),
            ;
            vstd::arithmetic::div_mod::lemma_div_is_ordered_by_denominator(num as int, 1, uu as int);
        }
        q
    }
}

/// Division truncating toward zero for a positive divisor: Euclidean division
/// of the magnitude, with the dividend's sign. This is what machine division
/// computes, so contracts that use it state the machine result exactly.
pub open spec fn tdiv(a: int, b: int) -> int {
    if a >= 0 {
        a / b
    } else {
        -((-a) / b)
    }
}

/// Exact truncating division on `i128` for a positive divisor.
pub fn tdiv_e(a: i128, b: i128) -> (r: i128)
    requires
        b > 0,
        a > i128::MIN,
    ensures
        r == tdiv(a as int, b as int),
{
    if a >= 0 {
        let q: u128 = (a as u128) / (b as u128);
        proof {
            vstd::arithmetic::div_mod::lemma_div_is_ordered_by_denominator(a as int, 1, b as int);
        }
        q as i128
    } else {
        let m: u128 = (-a) as u128;
        let q: u128 = m / (b as u128);
        proof {
            vstd::arithmetic::div_mod::lemma_div_is_ordered_by_denominator(m as int, 1, b as int);
        }
        -(q as i128)
    }
}

/// A dividend within `d * c` of zero has its truncated quotient within `c`.
pub proof fn lemma_tdiv_bound(a: int, d: int, c: int)
    requires
        d > 0,
        0 <= c,
        -(d * c) <= a <= d * c,
    ensures
        -c <= tdiv(a, d) <= c,
{
    if a >= 0 {
        vstd::arithmetic::div_mod::lemma_div_is_ordered(a, d * c, d);
        vstd::arithmetic::div_mod::lemma_div_multiples_vanish(c, d);
        vstd::arithmetic::div_mod::lemma_div_pos_is_pos(a, d);
    } else {
        vstd::arithmetic::div_mod::lemma_div_is_ordered(-a, d * c, d);
        vstd::arithmetic::div_mod::lemma_div_multiples_vanish(c, d);
        vstd::arithmetic::div_mod::lemma_div_pos_is_pos(-a, d);
    }
}

/// The intersection point of the infinite lines through `p1..p2` and
/// `p3..p4`, rounded to integer coordinates, or `None` for parallel lines or
/// an intersection outside the coordinate box.
pub open spec fn line_line_intersection(p1: V2, p2: V2, p3: V2, p4: V2) -> Option<V2> {
    let d1x = p2.x - p1.x;
    let d1y = p2.y - p1.y;
    let d2x = p4.x - p3.x;
    let d2y = p4.y - p3.y;
    let den = d1x * d2y - d1y * d2x;
    if den == 0 {
        None
    } else {
        let num = (p3.x - p1.x) * d2y - (p3.y - p1.y) * d2x;
        let nden = if den > 0 {
            den
        } else {
            -den
        };
        let rx = p1.x + tdiv(if den > 0 { d1x * num } else { -(d1x * num) }, nden);
        let ry = p1.y + tdiv(if den > 0 { d1y * num } else { -(d1y * num) }, nden);
        if -COORD_LIMIT <= rx <= COORD_LIMIT && -COORD_LIMIT <= ry <= COORD_LIMIT {
            Some(V2 { x: rx as i64, y: ry as i64 })
        } else {
            None
        }
    }
}

/// Exact executable line-line intersection; the inputs may lie up to twice
/// the coordinate box out, as a point pushed ahead along a direction does.
pub fn line_line_intersection_e(p1: V2, p2: V2, p3: V2, p4: V2) -> (r: Option<V2>)
    requires
        in2_wide(p1),
        in2_wide(p2),
        in2_wide(p3),
        in2_wide(p4),
    ensures
        r == line_line_intersection(p1, p2, p3, p4),
        r is Some ==> in2(r->Some_0),
{
    let d1x = (p2.x - p1.x) as i128;
    let d1y = (p2.y - p1.y) as i128;
    let d2x = (p4.x - p3.x) as i128;
    let d2y = (p4.y - p3.y) as i128;
    proof {
        lemma_mul_bound(d1x as int, d2y as int, 80_000_000, 80_000_000);
        lemma_mul_bound(d1y as int, d2x as int, 80_000_000, 80_000_000);
    }
    let den = d1x * d2y - d1y * d2x;
    if den == 0 {
        None
    } else {
        proof {
            lemma_mul_bound((p3.x - p1.x) as int, d2y as int, 80_000_000, 80_000_000);
            lemma_mul_bound((p3.y - p1.y) as int, d2x as int, 80_000_000, 80_000_000);
        }
        let num = ((p3.x - p1.x) as i128) * d2y - ((p3.y - p1.y) as i128) * d2x;
        proof {
            lemma_mul_bound(d1x as int, num as int, 80_000_000, 12_800_000_000_000_000);
            lemma_mul_bound(d1y as int, num as int, 80_000_000, 12_800_000_000_000_000);
        }
        let (tx, ty) = if den > 0 {
            (tdiv_e(d1x * num, den), tdiv_e(d1y * num, den))
        } else {
            (tdiv_e(-(d1x * num), -den), tdiv_e(-(d1y * num), -den))
        };
        let rx = (p1.x as i128) + tx;
        let ry = (p1.y as i128) + ty;
        if -(COORD_LIMIT as i128) <= rx && rx <= COORD_LIMIT as i128 && -(COORD_LIMIT as i128)
            <= ry && ry <= COORD_LIMIT as i128 {
            Some(V2 { x: rx as i64, y: ry as i64 })
        } else {
            None
        }
    }
}

/// A coordinate delta scaled by a clamped parameter stays between zero and
/// the delta: interpolation cannot leave the segment's bounding interval.
pub proof fn lemma_tdiv_scaled_range(dx: int, t: int, uu: int)
    requires
        0 < uu,
        0 <= t <= uu,
    ensures
        dx >= 0 ==> 0 <= tdiv(dx * t, uu) <= dx,
        dx < 0 ==> dx <= tdiv(dx * t, uu) <= 0,
{
    if dx >= 0 {
        assert(0 <= dx * t && dx * t <= uu * dx) by (nonlinear_arith)
            requires 0 <= t <= uu, 0 <= dx,
        ;
        vstd::arithmetic::div_mod::lemma_div_is_ordered(dx * t, uu * dx, uu);
        vstd::arithmetic::div_mod::lemma_div_multiples_vanish(dx, uu);
        vstd::arithmetic::div_mod::lemma_div_pos_is_pos(dx * t, uu);
    } else {
        let nx = -dx;
        assert(0 <= nx * t && nx * t <= uu * nx) by (nonlinear_arith)
            requires 0 <= t <= uu, 0 <= nx,
        ;
        vstd::arithmetic::div_mod::lemma_div_is_ordered(nx * t, uu * nx, uu);
        vstd::arithmetic::div_mod::lemma_div_multiples_vanish(nx, uu);
        vstd::arithmetic::div_mod::lemma_div_pos_is_pos(nx * t, uu);
        assert(dx * t == -(nx * t)) by (nonlinear_arith)
            requires nx == -dx,
        ;
    }
}

/// The point of the infinite line through `a..b` closest to `p`, rounded to
/// integer coordinates, or `None` for a degenerate or out-of-box result.
pub open spec fn line_closest_point(p: V2, a: V2, b: V2) -> Option<V2> {
    let ux = b.x - a.x;
    let uy = b.y - a.y;
    let uu = ux * ux + uy * uy;
    if uu == 0 {
        None
    } else {
        let t = ux * (p.x - a.x) + uy * (p.y - a.y);
        let rx = a.x + tdiv(ux * t, uu);
        let ry = a.y + tdiv(uy * t, uu);
        if -COORD_LIMIT <= rx <= COORD_LIMIT && -COORD_LIMIT <= ry <= COORD_LIMIT {
            Some(V2 { x: rx as i64, y: ry as i64 })
        } else {
            None
        }
    }
}

/// Exact executable closest point on a line; the inputs may lie up to twice
/// the coordinate box out, as a point pushed ahead along a direction does.
pub fn line_closest_point_e(p: V2, a: V2, b: V2) -> (r: Option<V2>)
    requires
        in2_wide(p),
        in2_wide(a),
        in2_wide(b),
    ensures
        r == line_closest_point(p, a, b),
        r is Some ==> in2(r->Some_0),
{
    let ux = (b.x - a.x) as i128;
    let uy = (b.y - a.y) as i128;
    proof {
        lemma_mul_bound(ux as int, ux as int, 80_000_000, 80_000_000);
        lemma_mul_bound(uy as int, uy as int, 80_000_000, 80_000_000);
        assert(0 <= ux as int * ux as int && 0 <= uy as int * uy as int) by (nonlinear_arith);
    }
    let uu = ux * ux + uy * uy;
    if uu == 0 {
        None
    } else {
        proof {
            lemma_mul_bound(ux as int, (p.x - a.x) as int, 80_000_000, 80_000_000);
            lemma_mul_bound(uy as int, (p.y - a.y) as int, 80_000_000, 80_000_000);
        }
        let t = ux * ((p.x - a.x) as i128) + uy * ((p.y - a.y) as i128);
        proof {
            lemma_mul_bound(ux as int, t as int, 80_000_000, 12_800_000_000_000_000);
            lemma_mul_bound(uy as int, t as int, 80_000_000, 12_800_000_000_000_000);
        }
        let rx = (a.x as i128) + tdiv_e(ux * t, uu);
        let ry = (a.y as i128) + tdiv_e(uy * t, uu);
        if -(COORD_LIMIT as i128) <= rx && rx <= COORD_LIMIT as i128 && -(COORD_LIMIT as i128)
            <= ry && ry <= COORD_LIMIT as i128 {
            Some(V2 { x: rx as i64, y: ry as i64 })
        } else {
            None
        }
    }
}

/// Whether segments `a..b` and `c..d` properly cross: each segment's endpoints
/// lie strictly on opposite sides of the other segment's line.
pub open spec fn segs_cross(a: V2, b: V2, c: V2, d: V2) -> bool {
    let d1 = (d.x - c.x) * (a.y - c.y) - (d.y - c.y) * (a.x - c.x);
    let d2 = (d.x - c.x) * (b.y - c.y) - (d.y - c.y) * (b.x - c.x);
    let d3 = (b.x - a.x) * (c.y - a.y) - (b.y - a.y) * (c.x - a.x);
    let d4 = (b.x - a.x) * (d.y - a.y) - (b.y - a.y) * (d.x - a.x);
    ((d1 > 0 && d2 < 0) || (d1 < 0 && d2 > 0)) && ((d3 > 0 && d4 < 0) || (d3 < 0 && d4 > 0))
}

/// Exact proper-crossing test for bounded segments.
pub fn segs_cross_e(a: V2, b: V2, c: V2, d: V2) -> (r: bool)
    requires
        in2(a),
        in2(b),
        in2(c),
        in2(d),
    ensures
        r == segs_cross(a, b, c, d),
{
    let cd = V2 { x: d.x - c.x, y: d.y - c.y };
    let ab = V2 { x: b.x - a.x, y: b.y - a.y };
    let d1 = cross2_e(cd, V2 { x: a.x - c.x, y: a.y - c.y });
    let d2 = cross2_e(cd, V2 { x: b.x - c.x, y: b.y - c.y });
    let d3 = cross2_e(ab, V2 { x: c.x - a.x, y: c.y - a.y });
    let d4 = cross2_e(ab, V2 { x: d.x - a.x, y: d.y - a.y });
    ((d1 > 0 && d2 < 0) || (d1 < 0 && d2 > 0)) && ((d3 > 0 && d4 < 0) || (d3 < 0 && d4 > 0))
}

/// Whether the segments `a..b` and `c..d` come within squared distance `rr`:
/// they properly cross, or an endpoint of one lies within the bound of the
/// other. For positive `rr` this covers every touching or collinear overlap.
pub open spec fn segs_near(a: V2, b: V2, c: V2, d: V2, rr: int) -> bool {
    segs_cross(a, b, c, d) || pt_seg_dist2(c, a, b) < rr || pt_seg_dist2(d, a, b) < rr
        || pt_seg_dist2(a, c, d) < rr || pt_seg_dist2(b, c, d) < rr
}

/// Exact segment-proximity test for bounded segments.
pub fn segs_near_e(a: V2, b: V2, c: V2, d: V2, rr: u128) -> (r: bool)
    requires
        in2(a),
        in2(b),
        in2(c),
        in2(d),
    ensures
        r == segs_near(a, b, c, d, rr as int),
{
    if segs_cross_e(a, b, c, d) {
        return true;
    }
    pt_seg_dist2_e(c, a, b) < rr || pt_seg_dist2_e(d, a, b) < rr || pt_seg_dist2_e(a, c, d) < rr
        || pt_seg_dist2_e(b, c, d) < rr
}

} // verus!
