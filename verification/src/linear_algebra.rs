//! Vector math and barycentric geometry.
//!
//! 3D vectors use fixed-point integer components, so cross products, dot
//! products and signed areas are exact.  Normalization returns a vector
//! scaled to length `SCALE` in floor arithmetic; the zero vector saturates
//! to zero instead of dividing by zero.
//!
//! Screen-space geometry works on `u16` pixel coordinates.  A triangle's
//! *doubled* signed area is an exact `i64`, and barycentric coordinates are
//! kept as exact rationals: three numerators over a common positive
//! denominator, sign-normalized so that the denominator is `|2 * area|`.

use crate::maths_utils::{div_floor_i128, isqrt, lemma_mul_bounds, spec_isqrt};
use crate::mesh::Point3D;
use vstd::prelude::*;

verus! {

/// The cross product of two integer 3-vectors.
pub open spec fn spec_cross3(u: (int, int, int), v: (int, int, int)) -> (int, int, int) {
    (u.1 * v.2 - u.2 * v.1, u.2 * v.0 - u.0 * v.2, u.0 * v.1 - u.1 * v.0)
}

/// The dot product of two integer 3-vectors.
pub open spec fn spec_dot3(u: (int, int, int), v: (int, int, int)) -> int {
    u.0 * v.0 + u.1 * v.1 + u.2 * v.2
}

/// A point's components as an integer 3-vector.
pub open spec fn spec_vec3(p: Point3D) -> (int, int, int) {
    (p.x as int, p.y as int, p.z as int)
}

/// The difference `u - v` as an integer 3-vector.
pub open spec fn spec_sub3(u: Point3D, v: Point3D) -> (int, int, int) {
    (u.x - v.x, u.y - v.y, u.z - v.z)
}

/// The dot product of two points' component vectors.
pub open spec fn spec_dot(u: Point3D, v: Point3D) -> int {
    spec_dot3(spec_vec3(u), spec_vec3(v))
}

/// The squared Euclidean length of an integer 3-vector.
pub open spec fn spec_norm2(v: (int, int, int)) -> int {
    spec_dot3(v, v)
}

/// The unnormalized plane normal of the triangle `(u, v, w)`: the cross
/// product of the edge vectors `v - w` and `v - u`, in that order.  The
/// operand order is the winding convention of the whole pipeline; swapping
/// it would flip the sign of every downstream face-visibility test.
pub open spec fn spec_plane_cross(u: Point3D, v: Point3D, w: Point3D) -> (int, int, int) {
    spec_cross3(spec_sub3(v, w), spec_sub3(v, u))
}

/// A vector rescaled to length `SCALE` in floor arithmetic; the zero vector
/// stays zero.
pub open spec fn spec_scaled_to_unit(c: (int, int, int)) -> (int, int, int) {
    let n2 = spec_norm2(c);
    if n2 == 0 {
        (0, 0, 0)
    } else {
        let m = spec_isqrt(n2);
        (c.0 * crate::SCALE / m, c.1 * crate::SCALE / m, c.2 * crate::SCALE / m)
    }
}

/// The normalized plane normal of the triangle `(u, v, w)`.
pub open spec fn spec_plane_normal(u: Point3D, v: Point3D, w: Point3D) -> (int, int, int) {
    spec_scaled_to_unit(spec_plane_cross(u, v, w))
}

/// The cross product of two bounded vectors.
pub fn cross_product(u: Point3D, v: Point3D) -> (r: Point3D)
    requires
        -0x4000_0000 <= u.x <= 0x4000_0000,
        -0x4000_0000 <= u.y <= 0x4000_0000,
        -0x4000_0000 <= u.z <= 0x4000_0000,
        -0x4000_0000 <= v.x <= 0x4000_0000,
        -0x4000_0000 <= v.y <= 0x4000_0000,
        -0x4000_0000 <= v.z <= 0x4000_0000,
    ensures
        spec_vec3(r) == spec_cross3(spec_vec3(u), spec_vec3(v)),
{
    proof {
        lemma_mul_bounds(u.y as int, v.z as int, 0x4000_0000, 0x4000_0000);
        lemma_mul_bounds(u.z as int, v.y as int, 0x4000_0000, 0x4000_0000);
        lemma_mul_bounds(u.z as int, v.x as int, 0x4000_0000, 0x4000_0000);
        lemma_mul_bounds(u.x as int, v.z as int, 0x4000_0000, 0x4000_0000);
        lemma_mul_bounds(u.x as int, v.y as int, 0x4000_0000, 0x4000_0000);
        lemma_mul_bounds(u.y as int, v.x as int, 0x4000_0000, 0x4000_0000);
    }
    Point3D {
        x: u.y * v.z - u.z * v.y,
        y: u.z * v.x - u.x * v.z,
        z: u.x * v.y - u.y * v.x,
    }
}

/// The dot product of two bounded vectors.
pub fn dot_product(u: Point3D, v: Point3D) -> (r: i64)
    requires
        -0x4000_0000 <= u.x <= 0x4000_0000,
        -0x4000_0000 <= u.y <= 0x4000_0000,
        -0x4000_0000 <= u.z <= 0x4000_0000,
        -0x4000_0000 <= v.x <= 0x4000_0000,
        -0x4000_0000 <= v.y <= 0x4000_0000,
        -0x4000_0000 <= v.z <= 0x4000_0000,
    ensures
        r == spec_dot(u, v),
{
    proof {
        lemma_mul_bounds(u.x as int, v.x as int, 0x4000_0000, 0x4000_0000);
        lemma_mul_bounds(u.y as int, v.y as int, 0x4000_0000, 0x4000_0000);
        lemma_mul_bounds(u.z as int, v.z as int, 0x4000_0000, 0x4000_0000);
    }
    u.x * v.x + u.y * v.y + u.z * v.z
}

/// The squared length of a vector is nonnegative, and bounds each
/// component's square.
proof fn lemma_norm2_bounds(v: (int, int, int))
    by (nonlinear_arith)
    ensures
        spec_norm2(v) >= 0,
        v.0 * v.0 <= spec_norm2(v),
        v.1 * v.1 <= spec_norm2(v),
        v.2 * v.2 <= spec_norm2(v),
        spec_norm2(v) == 0 ==> v == (0int, 0int, 0int),
{
}

/// `|a| <= m` when `a * a < (m + 1) * (m + 1)` and `m >= 0`.
proof fn lemma_abs_le_of_square_lt(a: int, m: int)
    by (nonlinear_arith)
    requires
        m >= 0,
        a * a < (m + 1) * (m + 1),
    ensures
        -m <= a <= m,
{
}

/// A floor quotient of `a` by `m` stays within `[-s, s]` when `|a| <= m * s`.
proof fn lemma_scaled_div_bounds(a: int, m: int, s: int, q: int)
    by (nonlinear_arith)
    requires
        m > 0,
        s >= 0,
        -(m * s) <= a <= m * s,
        m * q <= a < m * (q + 1),
    ensures
        -s <= q <= s,
{
}

/// The Euclidean length of a bounded vector, rounded down to an integer.
pub fn norm(v: Point3D) -> (r: i64)
    requires
        -0x4000_0000 <= v.x <= 0x4000_0000,
        -0x4000_0000 <= v.y <= 0x4000_0000,
        -0x4000_0000 <= v.z <= 0x4000_0000,
    ensures
        r == spec_isqrt(spec_dot(v, v)),
{
    let n2: i64 = dot_product(v, v);
    proof {
        lemma_norm2_bounds(spec_vec3(v));
    }
    isqrt(n2)
}

/// `v` rescaled to length `SCALE` in floor arithmetic.  The zero vector
/// comes back unchanged — a deliberate saturating policy, not an error.
pub fn normalized(v: Point3D) -> (r: Point3D)
    requires
        -0x4000_0000 <= v.x <= 0x4000_0000,
        -0x4000_0000 <= v.y <= 0x4000_0000,
        -0x4000_0000 <= v.z <= 0x4000_0000,
    ensures
        spec_vec3(r) == spec_scaled_to_unit(spec_vec3(v)),
        -crate::SCALE <= r.x <= crate::SCALE,
        -crate::SCALE <= r.y <= crate::SCALE,
        -crate::SCALE <= r.z <= crate::SCALE,
{
    let n2: i64 = dot_product(v, v);
    proof {
        lemma_norm2_bounds(spec_vec3(v));
    }
    if n2 == 0 {
        return Point3D { x: 0, y: 0, z: 0 };
    }
    let m: i64 = isqrt(n2);
    assert(m >= 1) by (nonlinear_arith)
        requires
            0 <= m && m * m <= n2 && n2 < (m + 1) * (m + 1) && n2 > 0,
    ;
    let x: i64 = scaled_component(v.x, m);
    let y: i64 = scaled_component(v.y, m);
    let z: i64 = scaled_component(v.z, m);
    proof {
        lemma_abs_le_of_square_lt(v.x as int, m as int);
        lemma_abs_le_of_square_lt(v.y as int, m as int);
        lemma_abs_le_of_square_lt(v.z as int, m as int);
    }
    Point3D { x, y, z }
}

/// One component of a normalization: `c * SCALE / m` in floor arithmetic,
/// bounded by `SCALE` whenever `|c| <= m`.
fn scaled_component(c: i64, m: i64) -> (r: i64)
    requires
        0 < m,
        c * c < (m + 1) * (m + 1),
        -0x4000_0000 <= c <= 0x4000_0000,
    ensures
        r == c as int * crate::SCALE / m as int,
        -crate::SCALE <= r <= crate::SCALE,
{
    proof {
        lemma_abs_le_of_square_lt(c as int, m as int);
        lemma_mul_bounds(c as int, crate::SCALE as int, 0x4000_0000, crate::SCALE as int);
    }
    let q: i64 = crate::maths_utils::div_floor(c * crate::SCALE, m);
    proof {
        lemma_mul_bounds(c as int, crate::SCALE as int, m as int, crate::SCALE as int);
        lemma_scaled_div_bounds(
            c as int * crate::SCALE,
            m as int,
            crate::SCALE as int,
            q as int,
        );
    }
    q
}

/// The unnormalized plane normal of `(u, v, w)` on wide integers, exact.
pub(crate) fn plane_cross_wide(u: Point3D, v: Point3D, w: Point3D) -> (r: (i128, i128, i128))
    requires
        -crate::COORD_LIMIT <= u.x <= crate::COORD_LIMIT,
        -crate::COORD_LIMIT <= u.y <= crate::COORD_LIMIT,
        -crate::COORD_LIMIT <= u.z <= crate::COORD_LIMIT,
        -crate::COORD_LIMIT <= v.x <= crate::COORD_LIMIT,
        -crate::COORD_LIMIT <= v.y <= crate::COORD_LIMIT,
        -crate::COORD_LIMIT <= v.z <= crate::COORD_LIMIT,
        -crate::COORD_LIMIT <= w.x <= crate::COORD_LIMIT,
        -crate::COORD_LIMIT <= w.y <= crate::COORD_LIMIT,
        -crate::COORD_LIMIT <= w.z <= crate::COORD_LIMIT,
    ensures
        (r.0 as int, r.1 as int, r.2 as int) == spec_plane_cross(u, v, w),
        -0x2000_0000_0000_0000 <= r.0 <= 0x2000_0000_0000_0000,
        -0x2000_0000_0000_0000 <= r.1 <= 0x2000_0000_0000_0000,
        -0x2000_0000_0000_0000 <= r.2 <= 0x2000_0000_0000_0000,
{
    let e1x: i128 = v.x as i128 - w.x as i128;
    let e1y: i128 = v.y as i128 - w.y as i128;
    let e1z: i128 = v.z as i128 - w.z as i128;
    let e2x: i128 = v.x as i128 - u.x as i128;
    let e2y: i128 = v.y as i128 - u.y as i128;
    let e2z: i128 = v.z as i128 - u.z as i128;
    proof {
        lemma_mul_bounds(e1y as int, e2z as int, 0x4000_0000, 0x4000_0000);
        lemma_mul_bounds(e1z as int, e2y as int, 0x4000_0000, 0x4000_0000);
        lemma_mul_bounds(e1z as int, e2x as int, 0x4000_0000, 0x4000_0000);
        lemma_mul_bounds(e1x as int, e2z as int, 0x4000_0000, 0x4000_0000);
        lemma_mul_bounds(e1x as int, e2y as int, 0x4000_0000, 0x4000_0000);
        lemma_mul_bounds(e1y as int, e2x as int, 0x4000_0000, 0x4000_0000);
    }
    let cx: i128 = e1y * e2z - e1z * e2y;
    let cy: i128 = e1z * e2x - e1x * e2z;
    let cz: i128 = e1x * e2y - e1y * e2x;
    (cx, cy, cz)
}

/// The plane normal of the triangle `(u, v, w)`: the cross product of the
/// edge vectors `v - w` and `v - u`, rescaled to length `SCALE`.  The edge
/// order is the pipeline's winding convention.
pub fn get_plane_normal(u: Point3D, v: Point3D, w: Point3D) -> (r: Point3D)
    requires
        -crate::COORD_LIMIT <= u.x <= crate::COORD_LIMIT,
        -crate::COORD_LIMIT <= u.y <= crate::COORD_LIMIT,
        -crate::COORD_LIMIT <= u.z <= crate::COORD_LIMIT,
        -crate::COORD_LIMIT <= v.x <= crate::COORD_LIMIT,
        -crate::COORD_LIMIT <= v.y <= crate::COORD_LIMIT,
        -crate::COORD_LIMIT <= v.z <= crate::COORD_LIMIT,
        -crate::COORD_LIMIT <= w.x <= crate::COORD_LIMIT,
        -crate::COORD_LIMIT <= w.y <= crate::COORD_LIMIT,
        -crate::COORD_LIMIT <= w.z <= crate::COORD_LIMIT,
    ensures
        spec_vec3(r) == spec_plane_normal(u, v, w),
        -crate::SCALE <= r.x <= crate::SCALE,
        -crate::SCALE <= r.y <= crate::SCALE,
        -crate::SCALE <= r.z <= crate::SCALE,
{
    let (cx, cy, cz): (i128, i128, i128) = plane_cross_wide(u, v, w);
    let ghost c: (int, int, int) = spec_plane_cross(u, v, w);
    proof {
        let big: int = 0x2000_0000_0000_0000;
        lemma_mul_bounds(cx as int, cx as int, big, big);
        lemma_mul_bounds(cy as int, cy as int, big, big);
        lemma_mul_bounds(cz as int, cz as int, big, big);
    }
    let n2: i128 = cx * cx + cy * cy + cz * cz;
    proof {
        lemma_norm2_bounds(c);
    }
    if n2 == 0 {
        return Point3D { x: 0, y: 0, z: 0 };
    }
    let m: i128 = crate::maths_utils::isqrt_i128(n2);
    assert(m >= 1) by (nonlinear_arith)
        requires
            0 <= m && m * m <= n2 && n2 < (m + 1) * (m + 1) && n2 > 0,
    ;
    let x: i64 = scaled_component_i128(cx, m);
    let y: i64 = scaled_component_i128(cy, m);
    let z: i64 = scaled_component_i128(cz, m);
    Point3D { x, y, z }
}

/// Twice the signed area of the screen-space triangle `(a, b, c)`: the `z`
/// component of the cross product of the edge vectors `a - c` and `b - c`.
/// Positive for one winding of the corners, negative for the other.
pub open spec fn spec_area2(a: (int, int), b: (int, int), c: (int, int)) -> int {
    (a.0 - c.0) * (b.1 - c.1) - (a.1 - c.1) * (b.0 - c.0)
}

/// The sign factor that makes a denominator nonnegative.
pub open spec fn spec_sign(x: int) -> int {
    if x < 0 {
        -1
    } else {
        1
    }
}

/// A pixel point as an integer pair.
pub open spec fn spec_pt(p: (u16, u16)) -> (int, int) {
    (p.0 as int, p.1 as int)
}

/// The common (positive or zero) denominator of the barycentric coordinates
/// of any point with respect to the triangle `(a, b, c)`: twice the
/// triangle's unsigned area.
pub open spec fn spec_bary_den(a: (u16, u16), b: (u16, u16), c: (u16, u16)) -> int {
    let big_a = spec_area2(spec_pt(a), spec_pt(b), spec_pt(c));
    spec_sign(big_a) * big_a
}

/// The numerator of the barycentric coordinate of `p` belonging to corner
/// `a`: twice the signed area of `(p, b, c)`, sign-normalized with the
/// denominator.  The rational coordinate itself is this over
/// `spec_bary_den`.
pub open spec fn spec_bary_alpha(p: (u16, u16), a: (u16, u16), b: (u16, u16), c: (u16, u16)) -> int {
    let big_a = spec_area2(spec_pt(a), spec_pt(b), spec_pt(c));
    spec_sign(big_a) * spec_area2(spec_pt(p), spec_pt(b), spec_pt(c))
}

/// The numerator of the barycentric coordinate of `p` belonging to corner
/// `b`.
pub open spec fn spec_bary_beta(p: (u16, u16), a: (u16, u16), b: (u16, u16), c: (u16, u16)) -> int {
    let big_a = spec_area2(spec_pt(a), spec_pt(b), spec_pt(c));
    spec_sign(big_a) * spec_area2(spec_pt(p), spec_pt(c), spec_pt(a))
}

/// The numerator of the barycentric coordinate of `p` belonging to corner
/// `c`.
pub open spec fn spec_bary_gamma(p: (u16, u16), a: (u16, u16), b: (u16, u16), c: (u16, u16)) -> int {
    let big_a = spec_area2(spec_pt(a), spec_pt(b), spec_pt(c));
    spec_sign(big_a) * spec_area2(spec_pt(p), spec_pt(a), spec_pt(b))
}

/// `p` lies inside (or on the edge of) the non-degenerate triangle
/// `(a, b, c)`: all three barycentric coordinates are nonnegative.  A
/// degenerate (zero-area) triangle contains no point.
pub open spec fn spec_point_in_triangle(
    p: (u16, u16),
    a: (u16, u16),
    b: (u16, u16),
    c: (u16, u16),
) -> bool {
    &&& spec_bary_den(a, b, c) > 0
    &&& spec_bary_alpha(p, a, b, c) >= 0
    &&& spec_bary_beta(p, a, b, c) >= 0
    &&& spec_bary_gamma(p, a, b, c) >= 0
}

/// The three sub-triangle areas at any point partition the triangle's
/// area: `alpha + beta + gamma == den` exactly.  As rationals over the
/// positive denominator, the three barycentric coordinates of any point sum
/// to exactly 1; for a point classified inside, each is also nonnegative.
pub proof fn lemma_barycentric_sum(p: (u16, u16), a: (u16, u16), b: (u16, u16), c: (u16, u16))
    ensures
        spec_bary_alpha(p, a, b, c) + spec_bary_beta(p, a, b, c) + spec_bary_gamma(p, a, b, c)
            == spec_bary_den(a, b, c),
        spec_point_in_triangle(p, a, b, c) ==> spec_bary_den(a, b, c) > 0
            && spec_bary_alpha(p, a, b, c) >= 0 && spec_bary_beta(p, a, b, c) >= 0
            && spec_bary_gamma(p, a, b, c) >= 0,
{
    lemma_area2_partition(spec_pt(p), spec_pt(a), spec_pt(b), spec_pt(c));
}

/// The three signed sub-areas cut out by any point partition a triangle's
/// signed area.
#[verifier::rlimit(100)]
proof fn lemma_area2_partition(p: (int, int), a: (int, int), b: (int, int), c: (int, int))
    by (nonlinear_arith)
    ensures
        spec_area2(p, b, c) + spec_area2(p, c, a) + spec_area2(p, a, b) == spec_area2(a, b, c),
{
}

/// A point that is not inside a non-degenerate triangle has at least one
/// strictly negative barycentric coordinate.
pub proof fn lemma_outside_negative_coord(
    p: (u16, u16),
    a: (u16, u16),
    b: (u16, u16),
    c: (u16, u16),
)
    requires
        spec_bary_den(a, b, c) > 0,
        !spec_point_in_triangle(p, a, b, c),
    ensures
        spec_bary_alpha(p, a, b, c) < 0 || spec_bary_beta(p, a, b, c) < 0 || spec_bary_gamma(
            p,
            a,
            b,
            c,
        ) < 0,
{
}

/// Twice the signed area of the screen triangle `(a, b, c)`, exactly.  The
/// factor of two keeps the value an integer; every use divides it away.
pub fn triangle_area(a: (u16, u16), b: (u16, u16), c: (u16, u16)) -> (r: i64)
    ensures
        r == spec_area2(spec_pt(a), spec_pt(b), spec_pt(c)),
{
    let ax: i64 = a.0 as i64 - c.0 as i64;
    let ay: i64 = a.1 as i64 - c.1 as i64;
    let bx: i64 = b.0 as i64 - c.0 as i64;
    let by: i64 = b.1 as i64 - c.1 as i64;
    proof {
        lemma_mul_bounds(ax as int, by as int, 0x1_0000, 0x1_0000);
        lemma_mul_bounds(ay as int, bx as int, 0x1_0000, 0x1_0000);
    }
    ax * by - ay * bx
}

/// Exact barycentric coordinates of a pixel with respect to a screen
/// triangle: three numerators over a common nonnegative denominator.  The
/// rational coordinate of corner `a` is `alpha / den`, and so on; the
/// numerators always sum to the denominator.
#[derive(Clone, Copy, Debug, PartialEq, Eq, Structural)]
pub struct BarycentricCoords {
    pub alpha: i64,
    pub beta: i64,
    pub gamma: i64,
    pub den: i64,
}

/// The barycentric coordinates of `point` with respect to the triangle
/// `(a, b, c)`, as exact sub-area ratios.  No division is performed, so a
/// degenerate triangle simply yields `den == 0`.
pub fn point_barycentric_coord_in_rast_triangle(
    point: (u16, u16),
    a: (u16, u16),
    b: (u16, u16),
    c: (u16, u16),
) -> (bc: BarycentricCoords)
    ensures
        bc.alpha == spec_bary_alpha(point, a, b, c),
        bc.beta == spec_bary_beta(point, a, b, c),
        bc.gamma == spec_bary_gamma(point, a, b, c),
        bc.den == spec_bary_den(a, b, c),
        bc.alpha + bc.beta + bc.gamma == bc.den,
        bc.den >= 0,
        -0x2_0000_0000 <= bc.alpha <= 0x2_0000_0000,
        -0x2_0000_0000 <= bc.beta <= 0x2_0000_0000,
        -0x2_0000_0000 <= bc.gamma <= 0x2_0000_0000,
        bc.den <= 0x2_0000_0000,
{
    let abc_area: i64 = triangle_area(a, b, c);
    let pbc_area: i64 = triangle_area(point, b, c);
    let pca_area: i64 = triangle_area(point, c, a);
    let pab_area: i64 = triangle_area(point, a, b);
    proof {
        lemma_barycentric_sum(point, a, b, c);
        lemma_area2_bound(spec_pt(point), spec_pt(b), spec_pt(c));
        lemma_area2_bound(spec_pt(point), spec_pt(c), spec_pt(a));
        lemma_area2_bound(spec_pt(point), spec_pt(a), spec_pt(b));
        lemma_area2_bound(spec_pt(a), spec_pt(b), spec_pt(c));
    }
    if abc_area < 0 {
        proof {
            assert(spec_sign(spec_area2(spec_pt(a), spec_pt(b), spec_pt(c))) == -1);
        }
        BarycentricCoords { alpha: -pbc_area, beta: -pca_area, gamma: -pab_area, den: -abc_area }
    } else {
        proof {
            assert(spec_sign(spec_area2(spec_pt(a), spec_pt(b), spec_pt(c))) == 1);
        }
        BarycentricCoords { alpha: pbc_area, beta: pca_area, gamma: pab_area, den: abc_area }
    }
}

/// Twice the area of a triangle over `u16` coordinates fits comfortably in
/// an `i64`.
proof fn lemma_area2_bound(a: (int, int), b: (int, int), c: (int, int))
    by (nonlinear_arith)
    requires
        0 <= a.0 < 0x1_0000,
        0 <= a.1 < 0x1_0000,
        0 <= b.0 < 0x1_0000,
        0 <= b.1 < 0x1_0000,
        0 <= c.0 < 0x1_0000,
        0 <= c.1 < 0x1_0000,
    ensures
        -0x2_0000_0000 <= spec_area2(a, b, c) <= 0x2_0000_0000,
{
}

/// The barycentric numerators and denominator of any pixel are bounded by
/// twice the largest screen-triangle area.
pub proof fn lemma_bary_bounds(p: (u16, u16), a: (u16, u16), b: (u16, u16), c: (u16, u16))
    ensures
        -0x2_0000_0000 <= spec_bary_alpha(p, a, b, c) <= 0x2_0000_0000,
        -0x2_0000_0000 <= spec_bary_beta(p, a, b, c) <= 0x2_0000_0000,
        -0x2_0000_0000 <= spec_bary_gamma(p, a, b, c) <= 0x2_0000_0000,
        0 <= spec_bary_den(a, b, c) <= 0x2_0000_0000,
{
    lemma_area2_bound(spec_pt(p), spec_pt(b), spec_pt(c));
    lemma_area2_bound(spec_pt(p), spec_pt(c), spec_pt(a));
    lemma_area2_bound(spec_pt(p), spec_pt(a), spec_pt(b));
    lemma_area2_bound(spec_pt(a), spec_pt(b), spec_pt(c));
    let s = spec_sign(spec_area2(spec_pt(a), spec_pt(b), spec_pt(c)));
    assert(s == 1 || s == -1);
}

/// Whether the pixel `point` lies inside the screen triangle `(a, b, c)`,
/// by the sign of its three barycentric coordinates.  Pixels exactly on an
/// edge count as inside; a degenerate triangle contains nothing.
pub fn point_is_in_rast_triangle(
    point: (u16, u16),
    a: (u16, u16),
    b: (u16, u16),
    c: (u16, u16),
) -> (r: bool)
    ensures
        r == spec_point_in_triangle(point, a, b, c),
{
    let bc = point_barycentric_coord_in_rast_triangle(point, a, b, c);
    bc.den > 0 && bc.alpha >= 0 && bc.beta >= 0 && bc.gamma >= 0
}

/// The barycentric-weighted combination of the three corner attributes
/// `v0, v1, v2` (for example the corner normals): the exact numerator
/// `alpha * v0 + beta * v1 + gamma * v2`, componentwise.  The interpolated
/// attribute itself is this over `bc.den`.
pub fn barycentric_interpolation(
    bc: &BarycentricCoords,
    v0: &Point3D,
    v1: &Point3D,
    v2: &Point3D,
) -> (r: Point3D)
    requires
        -0x2_0000_0000 <= bc.alpha <= 0x2_0000_0000,
        -0x2_0000_0000 <= bc.beta <= 0x2_0000_0000,
        -0x2_0000_0000 <= bc.gamma <= 0x2_0000_0000,
        -crate::NORMAL_LIMIT <= v0.x <= crate::NORMAL_LIMIT,
        -crate::NORMAL_LIMIT <= v0.y <= crate::NORMAL_LIMIT,
        -crate::NORMAL_LIMIT <= v0.z <= crate::NORMAL_LIMIT,
        -crate::NORMAL_LIMIT <= v1.x <= crate::NORMAL_LIMIT,
        -crate::NORMAL_LIMIT <= v1.y <= crate::NORMAL_LIMIT,
        -crate::NORMAL_LIMIT <= v1.z <= crate::NORMAL_LIMIT,
        -crate::NORMAL_LIMIT <= v2.x <= crate::NORMAL_LIMIT,
        -crate::NORMAL_LIMIT <= v2.y <= crate::NORMAL_LIMIT,
        -crate::NORMAL_LIMIT <= v2.z <= crate::NORMAL_LIMIT,
    ensures
        r.x == bc.alpha * v0.x + bc.beta * v1.x + bc.gamma * v2.x,
        r.y == bc.alpha * v0.y + bc.beta * v1.y + bc.gamma * v2.y,
        r.z == bc.alpha * v0.z + bc.beta * v1.z + bc.gamma * v2.z,
{
    proof {
        let lim: int = 0x2_0000_0000;
        let nl: int = crate::NORMAL_LIMIT as int;
        lemma_mul_bounds(bc.alpha as int, v0.x as int, lim, nl);
        lemma_mul_bounds(bc.beta as int, v1.x as int, lim, nl);
        lemma_mul_bounds(bc.gamma as int, v2.x as int, lim, nl);
        lemma_mul_bounds(bc.alpha as int, v0.y as int, lim, nl);
        lemma_mul_bounds(bc.beta as int, v1.y as int, lim, nl);
        lemma_mul_bounds(bc.gamma as int, v2.y as int, lim, nl);
        lemma_mul_bounds(bc.alpha as int, v0.z as int, lim, nl);
        lemma_mul_bounds(bc.beta as int, v1.z as int, lim, nl);
        lemma_mul_bounds(bc.gamma as int, v2.z as int, lim, nl);
    }
    Point3D {
        x: bc.alpha * v0.x + bc.beta * v1.x + bc.gamma * v2.x,
        y: bc.alpha * v0.y + bc.beta * v1.y + bc.gamma * v2.y,
        z: bc.alpha * v0.z + bc.beta * v1.z + bc.gamma * v2.z,
    }
}

/// One component of a plane-normal normalization, on wide intermediates.
fn scaled_component_i128(c: i128, m: i128) -> (r: i64)
    requires
        0 < m,
        c * c < (m + 1) * (m + 1),
        -0x4000_0000_0000_0000_0000_0000 <= c <= 0x4000_0000_0000_0000_0000_0000,
    ensures
        r == c as int * crate::SCALE / m as int,
        -crate::SCALE <= r <= crate::SCALE,
{
    proof {
        lemma_abs_le_of_square_lt(c as int, m as int);
        lemma_mul_bounds(
            c as int,
            crate::SCALE as int,
            0x4000_0000_0000_0000_0000_0000,
            crate::SCALE as int,
        );
    }
    let q: i128 = div_floor_i128(c * (crate::SCALE as i128), m);
    proof {
        lemma_mul_bounds(c as int, crate::SCALE as int, m as int, crate::SCALE as int);
        lemma_scaled_div_bounds(
            c as int * crate::SCALE,
            m as int,
            crate::SCALE as int,
            q as int,
        );
    }
    q as i64
}

} // verus!
